//! Signatures of a node: for each variable, the instants at which operands of the node
//! constrain it, and which operands do.
use vstd::prelude::*;

use crate::formula::{
    fviews, lemma_operand_decreases, lemma_view_junction, operands_of, AExpr, AExprM, ExprKind,
    ExprKindM, Formula, FormulaM,
};
use crate::interval::Interval;
use crate::node::{ops, Node};
use crate::simplify::{point, wrap_add};

verus! {

// ---------------------------------------------------------------------------------------
// Merging tagged intervals
// ---------------------------------------------------------------------------------------
/// The interval of `item` contains instant `t`.
pub open spec fn covers(item: (Interval, usize), t: int) -> bool {
    item.0.lower <= t <= item.0.upper
}

/// Some item covers `t`.
pub open spec fn covered(items: Seq<(Interval, usize)>, t: int) -> bool {
    exists|i: int| 0 <= i < items.len() && #[trigger] covers(items[i], t)
}

/// The tags of the items that cover `t`.
pub open spec fn covering_ids(items: Seq<(Interval, usize)>, t: int) -> Set<usize> {
    Set::new(|id: usize| exists|i: int| 0 <= i < items.len() && #[trigger] covers(items[i], t) && items[i].1 == id)
}

/// `t` lies in `iv`.
pub open spec fn within(iv: Interval, t: int) -> bool {
    iv.lower <= t <= iv.upper
}

/// Strictly increasing.
pub open spec fn increasing(s: Seq<usize>) -> bool {
    forall|i: int, j: int| 0 <= i < j < s.len() ==> s[i] < s[j]
}

/// The segments with their tags as sequences.
pub open spec fn segments_view(r: Seq<(Interval, Vec<usize>)>) -> Seq<(Interval, Seq<usize>)> {
    Seq::new(r.len(), |k: int| (r[k].0, r[k].1@))
}

/// `r` splits the instants covered by `items` into maximal runs with the same covering
/// tags: the runs are non-empty, in order and disjoint; an instant is in a run exactly when
/// some item covers it; a run lists, in increasing order, the tags of the items covering
/// each of its instants; two runs that touch differ in their tags.
pub open spec fn is_merge(items: Seq<(Interval, usize)>, r: Seq<(Interval, Seq<usize>)>) -> bool {
    &&& forall|k: int| 0 <= k < r.len() ==> (#[trigger] r[k]).0.lower <= r[k].0.upper && increasing(r[k].1)
    &&& forall|k: int, l: int| 0 <= k < l < r.len() ==> (#[trigger] r[k]).0.upper < (#[trigger] r[l]).0.lower
    &&& forall|t: int| covered(items, t) <==> exists|k: int| 0 <= k < r.len() && #[trigger] within(r[k].0, t)
    &&& forall|k: int, t: int|
        0 <= k < r.len() && #[trigger] within(r[k].0, t) ==> r[k].1.to_set() == covering_ids(items, t)
    &&& forall|k: int|
        0 <= k < r.len() - 1 && (#[trigger] r[k]).0.upper + 1 == r[k + 1].0.lower ==> r[k].1.to_set()
            != r[k + 1].1.to_set()
}

/// Strictly increasing points.
pub open spec fn sorted_points(p: Seq<i64>) -> bool {
    forall|i: int, j: int| 0 <= i < j < p.len() ==> p[i] < p[j]
}

/// The breakpoints of `items`: each lower bound and each upper bound plus one are among
/// `p`, and every point of `p` fits between the bounds of `i32` and one past them.
pub open spec fn has_breakpoints(items: Seq<(Interval, usize)>, p: Seq<i64>) -> bool {
    &&& forall|i: int| 0 <= i < items.len() ==> p.contains((#[trigger] items[i]).0.lower as i64)
        && p.contains((items[i].0.upper + 1) as i64)
    &&& forall|j: int| 0 <= j < p.len() ==> i32::MIN <= #[trigger] p[j] <= i32::MAX + 1
}

fn insert_point(v: &mut Vec<i64>, x: i64)
    requires
        sorted_points(old(v)@),
    ensures
        sorted_points(final(v)@),
        final(v)@.to_set() == old(v)@.to_set().insert(x),
{
    let mut i: usize = 0;
    while i < v.len() && v[i] < x
        invariant
            i <= v@.len(),
            v@ == old(v)@,
            sorted_points(v@),
            forall|j: int| 0 <= j < i ==> v@[j] < x,
        decreases v@.len() - i,
    {
        i += 1;
    }
    if i < v.len() && v[i] == x {
        assert(v@.to_set() =~= v@.to_set().insert(x)) by {
            assert(v@.to_set().contains(v@[i as int]));
        }
        return ;
    }
    let ghost before = v@;
    v.insert(i, x);
    assert forall|a: int, b: int| 0 <= a < b < v@.len() implies v@[a] < v@[b] by {
        if b < i {
        } else if a < i && b == i {
        } else if a < i {
            assert(v@[b] == before[b - 1]);
            assert(before[a] < before[b - 1] || a == b - 1);
        } else if a == i {
            assert(v@[b] == before[b - 1]);
            assert(i < before.len() ==> x < before[i as int]);
        } else {
            assert(v@[a] == before[a - 1]);
            assert(v@[b] == before[b - 1]);
        }
    }
    assert(v@.to_set() =~= before.to_set().insert(x)) by {
        assert forall|y: i64| v@.to_set().contains(y) implies before.to_set().insert(x).contains(
            y,
        ) by {
            let k = choose|k: int| 0 <= k < v@.len() && v@[k] == y;
            if k < i {
                assert(before[k] == y);
            } else if k > i {
                assert(before[k - 1] == y);
            }
        }
        assert forall|y: i64| before.to_set().insert(x).contains(y) implies v@.to_set().contains(
            y,
        ) by {
            if y == x {
                assert(v@[i as int] == y);
            } else {
                let k = choose|k: int| 0 <= k < before.len() && before[k] == y;
                if k < i {
                    assert(v@[k] == y);
                } else {
                    assert(v@[k + 1] == y);
                }
            }
        }
    }
}

fn insert_id(v: &mut Vec<usize>, x: usize)
    requires
        increasing(old(v)@),
    ensures
        increasing(final(v)@),
        final(v)@.to_set() == old(v)@.to_set().insert(x),
{
    let mut i: usize = 0;
    while i < v.len() && v[i] < x
        invariant
            i <= v@.len(),
            v@ == old(v)@,
            increasing(v@),
            forall|j: int| 0 <= j < i ==> v@[j] < x,
        decreases v@.len() - i,
    {
        i += 1;
    }
    if i < v.len() && v[i] == x {
        assert(v@.to_set() =~= v@.to_set().insert(x)) by {
            assert(v@.to_set().contains(v@[i as int]));
        }
        return ;
    }
    let ghost before = v@;
    v.insert(i, x);
    assert forall|a: int, b: int| 0 <= a < b < v@.len() implies v@[a] < v@[b] by {
        if b < i {
        } else if a < i && b == i {
        } else if a < i {
            assert(v@[b] == before[b - 1]);
            assert(before[a] < before[b - 1] || a == b - 1);
        } else if a == i {
            assert(v@[b] == before[b - 1]);
            assert(i < before.len() ==> x < before[i as int]);
        } else {
            assert(v@[a] == before[a - 1]);
            assert(v@[b] == before[b - 1]);
        }
    }
    assert(v@.to_set() =~= before.to_set().insert(x)) by {
        assert forall|y: usize| v@.to_set().contains(y) implies before.to_set().insert(x).contains(
            y,
        ) by {
            let k = choose|k: int| 0 <= k < v@.len() && v@[k] == y;
            if k < i {
                assert(before[k] == y);
            } else if k > i {
                assert(before[k - 1] == y);
            }
        }
        assert forall|y: usize| before.to_set().insert(x).contains(y) implies v@.to_set().contains(
            y,
        ) by {
            if y == x {
                assert(v@[i as int] == y);
            } else {
                let k = choose|k: int| 0 <= k < before.len() && before[k] == y;
                if k < i {
                    assert(v@[k] == y);
                } else {
                    assert(v@[k + 1] == y);
                }
            }
        }
    }
}

/// Two increasing sequences with the same elements are equal.
proof fn lemma_increasing_set_eq(a: Seq<usize>, b: Seq<usize>)
    requires
        increasing(a),
        increasing(b),
        a.to_set() == b.to_set(),
    ensures
        a == b,
    decreases a.len(),
{
    if a.len() == 0 {
        if b.len() > 0 {
            assert(b.to_set().contains(b[0]));
        }
        assert(a =~= b);
    } else if b.len() == 0 {
        assert(a.to_set().contains(a[0]));
    } else {
        assert(a.to_set().contains(b[0]));
        assert(b.to_set().contains(a[0]));
        let ia = choose|k: int| 0 <= k < a.len() && a[k] == b[0];
        let ib = choose|k: int| 0 <= k < b.len() && b[k] == a[0];
        assert(a[0] == b[0]) by {
            if a[0] < b[0] {
                assert(ib > 0);
                assert(b[0] < b[ib]);
            } else if a[0] > b[0] {
                assert(ia > 0);
                assert(a[0] < a[ia]);
            }
        }
        let a1 = a.drop_first();
        let b1 = b.drop_first();
        assert(a1.to_set() =~= b1.to_set()) by {
            assert forall|y: usize| a1.to_set().contains(y) implies b1.to_set().contains(y) by {
                let k = choose|k: int| 0 <= k < a1.len() && a1[k] == y;
                assert(a[k + 1] == y);
                assert(a.to_set().contains(y));
                let m = choose|m: int| 0 <= m < b.len() && b[m] == y;
                if m == 0 {
                    assert(a[0] < a[k + 1]);
                }
                assert(b1[m - 1] == y);
            }
            assert forall|y: usize| b1.to_set().contains(y) implies a1.to_set().contains(y) by {
                let k = choose|k: int| 0 <= k < b1.len() && b1[k] == y;
                assert(b[k + 1] == y);
                assert(b.to_set().contains(y));
                let m = choose|m: int| 0 <= m < a.len() && a[m] == y;
                if m == 0 {
                    assert(b[0] < b[k + 1]);
                }
                assert(a1[m - 1] == y);
            }
        }
        lemma_increasing_set_eq(a1, b1);
        assert(a =~= b) by {
            assert forall|k: int| 0 <= k < a.len() implies a[k] == b[k] by {
                if k > 0 {
                    assert(a1[k - 1] == b1[k - 1]);
                }
            }
        }
    }
}

fn same_ids(a: &Vec<usize>, b: &Vec<usize>) -> (r: bool)
    ensures
        r == (a@ == b@),
{
    if a.len() != b.len() {
        return false;
    }
    let mut i: usize = 0;
    while i < a.len()
        invariant
            a@.len() == b@.len(),
            i <= a@.len(),
            forall|j: int| 0 <= j < i ==> a@[j] == b@[j],
        decreases a@.len() - i,
    {
        if a[i] != b[i] {
            return false;
        }
        i += 1;
    }
    assert(a@ =~= b@);
    true
}

/// The tags of the items whose interval contains `[start, end]`.
pub open spec fn spanning_ids(items: Seq<(Interval, usize)>, start: int, end: int) -> Set<usize> {
    Set::new(
        |id: usize|
            exists|i: int|
                0 <= i < items.len() && (#[trigger] items[i]).0.lower <= start && items[i].0.upper
                    >= end && items[i].1 == id,
    )
}

fn spanning(items: &Vec<(Interval, usize)>, start: i64, end: i64) -> (r: Vec<usize>)
    ensures
        increasing(r@),
        r@.to_set() == spanning_ids(items@, start as int, end as int),
{
    let mut ids: Vec<usize> = Vec::new();
    let mut i: usize = 0;
    while i < items.len()
        invariant
            i <= items@.len(),
            increasing(ids@),
            ids@.to_set() == spanning_ids(items@.subrange(0, i as int), start as int, end as int),
        decreases items@.len() - i,
    {
        let ghost before = ids@;
        let (iv, id) = items[i];
        if (iv.lower as i64) <= start && (iv.upper as i64) >= end {
            insert_id(&mut ids, id);
        }
        assert(ids@.to_set() =~= spanning_ids(items@.subrange(0, i + 1), start as int, end as int))
            by {
            let s0 = items@.subrange(0, i as int);
            let s1 = items@.subrange(0, i + 1);
            assert forall|y: usize| spanning_ids(s1, start as int, end as int).contains(y) implies ids@.to_set().contains(y) by {
                let k = choose|k: int|
                    0 <= k < s1.len() && (#[trigger] s1[k]).0.lower <= start && s1[k].0.upper >= end
                        && s1[k].1 == y;
                if k < i {
                    assert(s0[k] == s1[k]);
                    assert(spanning_ids(s0, start as int, end as int).contains(y));
                }
            }
            assert forall|y: usize| ids@.to_set().contains(y) implies spanning_ids(s1, start as int, end as int).contains(y) by {
                if before.to_set().contains(y) {
                    assert(spanning_ids(s0, start as int, end as int).contains(y));
                    let k = choose|k: int|
                        0 <= k < s0.len() && (#[trigger] s0[k]).0.lower <= start && s0[k].0.upper
                            >= end && s0[k].1 == y;
                    assert(s1[k] == s0[k]);
                } else {
                    assert(s1[i as int] == items@[i as int]);
                }
            }
        }
        i += 1;
    }
    assert(items@.subrange(0, items@.len() as int) =~= items@);
    ids
}

/// Between two consecutive breakpoints, an item covers an instant exactly when its
/// interval spans the whole segment.
proof fn lemma_segment(items: Seq<(Interval, usize)>, p: Seq<i64>, k: int, t: int)
    requires
        sorted_points(p),
        has_breakpoints(items, p),
        0 <= k,
        k + 1 < p.len(),
        p[k] <= t <= p[k + 1] - 1,
    ensures
        covering_ids(items, t) == spanning_ids(items, p[k] as int, p[k + 1] - 1),
        covered(items, t) <==> exists|i: int|
            0 <= i < items.len() && (#[trigger] items[i]).0.lower <= p[k] && items[i].0.upper
                >= p[k + 1] - 1,
{
    assert forall|i: int| 0 <= i < items.len() implies (covers(items[i], t) <==> ((
    #[trigger] items[i]).0.lower <= p[k] && items[i].0.upper >= p[k + 1] - 1)) by {
        let lo = items[i].0.lower as i64;
        let hi = (items[i].0.upper + 1) as i64;
        assert(p.contains(lo));
        assert(p.contains(hi));
        let j = choose|j: int| 0 <= j < p.len() && p[j] == lo;
        let j2 = choose|j: int| 0 <= j < p.len() && p[j] == hi;
        if covers(items[i], t) {
            if j > k {
                assert(p[k + 1] <= p[j]) by {
                    if j > k + 1 {
                        assert(p[k + 1] < p[j]);
                    }
                }
            } else if j < k {
                assert(p[j] < p[k]);
            }
            if j2 <= k {
                assert(p[j2] <= p[k]) by {
                    if j2 < k {
                        assert(p[j2] < p[k]);
                    }
                }
            } else if j2 > k + 1 {
                assert(p[k + 1] < p[j2]);
            }
        }
    }
    assert(covering_ids(items, t) =~= spanning_ids(items, p[k] as int, p[k + 1] - 1)) by {
        assert forall|id: usize| covering_ids(items, t).contains(id) implies spanning_ids(
            items,
            p[k] as int,
            p[k + 1] - 1,
        ).contains(id) by {
            let i = choose|i: int| 0 <= i < items.len() && #[trigger] covers(items[i], t) && items[i].1 == id;
            assert(items[i].0.lower <= p[k] && items[i].0.upper >= p[k + 1] - 1);
        }
        assert forall|id: usize| spanning_ids(items, p[k] as int, p[k + 1] - 1).contains(id) implies covering_ids(
            items,
            t,
        ).contains(id) by {
            let i = choose|i: int|
                0 <= i < items.len() && (#[trigger] items[i]).0.lower <= p[k] && items[i].0.upper
                    >= p[k + 1] - 1 && items[i].1 == id;
            assert(covers(items[i], t));
        }
    }
    if covered(items, t) {
        let i = choose|i: int| 0 <= i < items.len() && #[trigger] covers(items[i], t);
        assert(items[i].0.lower <= p[k] && items[i].0.upper >= p[k + 1] - 1);
    }
    if exists|i: int|
        0 <= i < items.len() && (#[trigger] items[i]).0.lower <= p[k] && items[i].0.upper >= p[k + 1]
            - 1 {
        let i = choose|i: int|
            0 <= i < items.len() && (#[trigger] items[i]).0.lower <= p[k] && items[i].0.upper
                >= p[k + 1] - 1;
        assert(covers(items[i], t));
    }
}

/// Before the first breakpoint and from the last one on, nothing is covered.
proof fn lemma_outside(items: Seq<(Interval, usize)>, p: Seq<i64>, t: int)
    requires
        sorted_points(p),
        has_breakpoints(items, p),
        p.len() > 0,
        t < p[0] || t >= p[p.len() - 1],
    ensures
        !covered(items, t),
{
    if covered(items, t) {
        let i = choose|i: int| 0 <= i < items.len() && #[trigger] covers(items[i], t);
        let lo = items[i].0.lower as i64;
        let hi = (items[i].0.upper + 1) as i64;
        assert(p.contains(lo));
        assert(p.contains(hi));
        let j = choose|j: int| 0 <= j < p.len() && p[j] == lo;
        let j2 = choose|j: int| 0 <= j < p.len() && p[j] == hi;
        if j > 0 {
            assert(p[0] < p[j]);
        }
        if j2 < p.len() - 1 {
            assert(p[j2] < p[p.len() - 1]);
        }
    }
}

/// Splits the instants covered by the tagged intervals `items` into maximal runs covered
/// by the same tags (see `is_merge`).
pub fn merge_intervals(items: Vec<(Interval, usize)>) -> (r: Vec<(Interval, Vec<usize>)>)
    ensures
        is_merge(items@, segments_view(r@)),
{
    let mut result: Vec<(Interval, Vec<usize>)> = Vec::new();
    if items.len() == 0 {
        assert(segments_view(result@).len() == 0);
        return result;
    }
    let mut points: Vec<i64> = Vec::new();
    let mut i: usize = 0;
    while i < items.len()
        invariant
            i <= items@.len(),
            sorted_points(points@),
            forall|a: int|
                0 <= a < i ==> points@.to_set().contains((#[trigger] items@[a]).0.lower as i64)
                    && points@.to_set().contains((items@[a].0.upper + 1) as i64),
            forall|y: i64| points@.to_set().contains(y) ==> i32::MIN <= y <= i32::MAX + 1,
        decreases items@.len() - i,
    {
        let (iv, _) = items[i];
        insert_point(&mut points, iv.lower as i64);
        insert_point(&mut points, iv.upper as i64 + 1);
        i += 1;
    }
    let ghost pp = points@;
    let ghost s = items@;
    assert(has_breakpoints(s, pp)) by {
        assert forall|a: int| 0 <= a < s.len() implies pp.contains((#[trigger] s[a]).0.lower as i64)
            && pp.contains((s[a].0.upper + 1) as i64) by {
            assert(pp.to_set().contains(s[a].0.lower as i64));
            assert(pp.to_set().contains((s[a].0.upper + 1) as i64));
        }
        assert forall|j: int| 0 <= j < pp.len() implies i32::MIN <= #[trigger] pp[j] <= i32::MAX
            + 1 by {
            assert(pp.to_set().contains(pp[j]));
        }
    }
    assert(pp.len() > 0) by {
        assert(pp.contains(s[0].0.lower as i64));
    }
    let mut k: usize = 0;
    while k < points.len() - 1
        invariant
            points@ == pp,
            pp.len() > 0,
            items@ == s,
            s.len() > 0,
            sorted_points(pp),
            has_breakpoints(s, pp),
            k < pp.len(),
            forall|j: int|
                0 <= j < result@.len() ==> (#[trigger] segments_view(result@)[j]).0.lower
                    <= segments_view(result@)[j].0.upper && increasing(
                    segments_view(result@)[j].1,
                ) && pp[0] <= segments_view(result@)[j].0.lower && segments_view(
                    result@,
                )[j].0.upper < pp[k as int],
            forall|j: int, l: int|
                0 <= j < l < result@.len() ==> (#[trigger] segments_view(result@)[j]).0.upper
                    < (#[trigger] segments_view(result@)[l]).0.lower,
            forall|t: int|
                pp[0] <= t < pp[k as int] ==> (covered(s, t) <==> exists|j: int|
                    0 <= j < result@.len() && #[trigger] within(segments_view(result@)[j].0, t)),
            forall|j: int, t: int|
                0 <= j < result@.len() && #[trigger] within(segments_view(result@)[j].0, t)
                    ==> segments_view(result@)[j].1.to_set() == covering_ids(s, t),
            forall|j: int|
                0 <= j < result@.len() - 1 && (#[trigger] segments_view(result@)[j]).0.upper + 1
                    == segments_view(result@)[j + 1].0.lower ==> segments_view(result@)[j].1.to_set()
                    != segments_view(result@)[j + 1].1.to_set(),
        decreases pp.len() - k,
    {
        let start = points[k];
        let end = points[k + 1] - 1;
        let ids = spanning(&items, start, end);
        let ghost before = segments_view(result@);
        proof {
            assert(pp[k as int] < pp[k + 1]);
            assert(pp[0] <= pp[k as int]) by {
                if k > 0 {
                    assert(pp[0] < pp[k as int]);
                }
            }
            assert forall|t: int| start <= t <= end implies covering_ids(s, t) == ids@.to_set()
                && (covered(s, t) <==> ids@.len() > 0) by {
                lemma_segment(s, pp, k as int, t);
                if ids@.len() > 0 {
                    assert(ids@.to_set().contains(ids@[0]));
                }
                if covered(s, t) {
                    let i = choose|i: int|
                        0 <= i < s.len() && (#[trigger] s[i]).0.lower <= pp[k as int] && s[i].0.upper
                            >= pp[k + 1] - 1;
                    assert(spanning_ids(s, start as int, end as int).contains(s[i].1));
                }
            }
        }
        if ids.len() > 0 {
            let n = result.len();
            let mut extended = false;
            if n > 0 {
                let last_upper = result[n - 1].0.upper;
                if (last_upper as i64) + 1 == start && same_ids(&result[n - 1].1, &ids) {
                    let (iv, lid) = result.pop().unwrap();
                    result.push((Interval { lower: iv.lower, upper: end as i32 }, lid));
                    extended = true;
                    proof {
                        let after = segments_view(result@);
                        assert(after.len() == before.len());
                        assert forall|j: int| 0 <= j < after.len() - 1 implies after[j] == before[j] by {}
                        assert(after[n - 1] == (Interval { lower: before[n - 1].0.lower, upper: end as i32 }, before[n - 1].1));
                        assert forall|t: int| pp[0] <= t < pp[k + 1] implies (covered(s, t) <==> exists|j: int|
                            0 <= j < after.len() && #[trigger] within(after[j].0, t)) by {
                            if t < start {
                                if exists|j: int| 0 <= j < before.len() && #[trigger] within(before[j].0, t) {
                                    let j = choose|j: int| 0 <= j < before.len() && #[trigger] within(before[j].0, t);
                                    assert(within(after[j].0, t));
                                }
                                if exists|j: int| 0 <= j < after.len() && #[trigger] within(after[j].0, t) {
                                    let j = choose|j: int| 0 <= j < after.len() && #[trigger] within(after[j].0, t);
                                    if j == n - 1 && t > before[n - 1].0.upper {
                                        assert(false);
                                    }
                                    assert(within(before[j].0, t));
                                }
                            } else {
                                assert(within(after[n - 1].0, t));
                            }
                        }
                        assert forall|j: int, t: int| 0 <= j < after.len() && #[trigger] within(after[j].0, t)
                            implies after[j].1.to_set() == covering_ids(s, t) by {
                            if j == n - 1 && t > before[n - 1].0.upper {
                            } else {
                                assert(within(before[j].0, t));
                            }
                        }
                    }
                }
            }
            if !extended {
                proof {
                    if n > 0 && before[n - 1].0.upper + 1 == start {
                        if before[n - 1].1.to_set() == ids@.to_set() {
                            lemma_increasing_set_eq(before[n - 1].1, ids@);
                        }
                    }
                }
                result.push((Interval { lower: start as i32, upper: end as i32 }, ids));
                proof {
                    let after = segments_view(result@);
                    assert(after.len() == before.len() + 1);
                    assert forall|j: int| 0 <= j < before.len() implies after[j] == before[j] by {}
                    assert forall|t: int| pp[0] <= t < pp[k + 1] implies (covered(s, t) <==> exists|j: int|
                        0 <= j < after.len() && #[trigger] within(after[j].0, t)) by {
                        if t < start {
                            if exists|j: int| 0 <= j < before.len() && #[trigger] within(before[j].0, t) {
                                let j = choose|j: int| 0 <= j < before.len() && #[trigger] within(before[j].0, t);
                                assert(within(after[j].0, t));
                            }
                            if exists|j: int| 0 <= j < after.len() && #[trigger] within(after[j].0, t) {
                                let j = choose|j: int| 0 <= j < after.len() && #[trigger] within(after[j].0, t);
                                assert(j < before.len());
                                assert(within(before[j].0, t));
                            }
                        } else {
                            assert(within(after[before.len() as int].0, t));
                        }
                    }
                    assert forall|j: int, t: int| 0 <= j < after.len() && #[trigger] within(after[j].0, t)
                        implies after[j].1.to_set() == covering_ids(s, t) by {
                        if j < before.len() {
                            assert(within(before[j].0, t));
                        }
                    }
                }
            }
        } else {
            proof {
                assert forall|t: int| pp[0] <= t < pp[k + 1] implies (covered(s, t) <==> exists|j: int|
                    0 <= j < before.len() && #[trigger] within(before[j].0, t)) by {
                    if t >= start {
                        if exists|j: int| 0 <= j < before.len() && #[trigger] within(before[j].0, t) {
                            let j = choose|j: int| 0 <= j < before.len() && #[trigger] within(before[j].0, t);
                            assert(before[j].0.upper < pp[k as int]);
                        }
                    }
                }
            }
        }
        k += 1;
    }
    proof {
        let r = segments_view(result@);
        let last = pp.len() - 1;
        assert(k == last);
        assert forall|t: int| covered(s, t) <==> exists|j: int| 0 <= j < r.len() && #[trigger] within(r[j].0, t) by {
            if t < pp[0] || t >= pp[last] {
                lemma_outside(s, pp, t);
                if exists|j: int| 0 <= j < r.len() && #[trigger] within(r[j].0, t) {
                    let j = choose|j: int| 0 <= j < r.len() && #[trigger] within(r[j].0, t);
                    assert(false);
                }
            }
        }
    }
    result
}

// ---------------------------------------------------------------------------------------
// Where variables occur
// ---------------------------------------------------------------------------------------
/// The instants an operand under a temporal operator over `iv` speaks of, when the
/// operator itself speaks of `ctx`: at top level the operator's interval with its lower
/// bound raised to that of `ctx`; below, `ctx` widened by `iv` (wrapping around).
pub open spec fn scope(ctx: Interval, iv: Interval, top: bool) -> Interval {
    if top {
        Interval { lower: if iv.lower >= ctx.lower { iv.lower } else { ctx.lower }, upper: iv.upper }
    } else {
        Interval { lower: wrap_add(ctx.lower, iv.lower), upper: wrap_add(ctx.upper, iv.upper) }
    }
}

/// The variables of a term, each with `ctx`, from left to right.
pub open spec fn aexpr_occurrences(e: AExprM, ctx: Interval) -> Seq<(Seq<char>, Interval)>
    decreases e,
{
    match e {
        AExprM::Var(n) => seq![(n, ctx)],
        AExprM::Num(_) => Seq::empty(),
        AExprM::Abs(b) => aexpr_occurrences(*b, ctx),
        AExprM::BinOp { left, right, .. } => aexpr_occurrences(*left, ctx) + aexpr_occurrences(
            *right,
            ctx,
        ),
    }
}

/// Each occurrence of a variable (boolean atom or real variable) in `f`, from left to right
/// (an implication: its premise, conclusion, then negated premise), with the instants it
/// is constrained at when `f` is read over `ctx`; `top` while no temporal operator
/// encloses it.
pub open spec fn occurrences(f: FormulaM, ctx: Interval, top: bool) -> Seq<(Seq<char>, Interval)>
    decreases f, 1int,
{
    match f {
        FormulaM::Prop(e) => match e.kind {
            ExprKindM::Atom(n) => seq![(n, ctx)],
            ExprKindM::Rel { left, right, .. } => aexpr_occurrences(left, ctx) + aexpr_occurrences(
                right,
                ctx,
            ),
            _ => Seq::empty(),
        },
        FormulaM::And(s) => occurrences_prefix(s, ctx, top, s.len() as int),
        FormulaM::Or(s) => occurrences_prefix(s, ctx, top, s.len() as int),
        FormulaM::Not(b) => occurrences(*b, ctx, top),
        FormulaM::O(b) => occurrences(*b, ctx, top),
        FormulaM::Imply { left, right, not_left } => occurrences(*left, ctx, top) + occurrences(
            *right,
            ctx,
            top,
        ) + occurrences(*not_left, ctx, top),
        FormulaM::G { interval, phi, .. } => occurrences(*phi, scope(ctx, interval, top), false),
        FormulaM::F { interval, phi, .. } => occurrences(*phi, scope(ctx, interval, top), false),
        FormulaM::U { interval, left, right, .. } => occurrences(
            *left,
            scope(ctx, interval, top),
            false,
        ) + occurrences(*right, scope(ctx, interval, top), false),
        FormulaM::R { interval, left, right, .. } => occurrences(
            *left,
            scope(ctx, interval, top),
            false,
        ) + occurrences(*right, scope(ctx, interval, top), false),
    }
}

pub open spec fn occurrences_prefix(s: Seq<FormulaM>, ctx: Interval, top: bool, n: int) -> Seq<
    (Seq<char>, Interval),
>
    decreases s, 0int, n,
{
    if n <= 0 || n > s.len() {
        Seq::empty()
    } else {
        occurrences_prefix(s, ctx, top, n - 1) + occurrences(s[n - 1], ctx, top)
    }
}

/// Occurrences with their names as sequences.
pub open spec fn occ_view(v: Seq<(String, Interval)>) -> Seq<(Seq<char>, Interval)> {
    Seq::new(v.len(), |i: int| (v[i].0@, v[i].1))
}

proof fn lemma_occ_view_push(v: Seq<(String, Interval)>, x: (String, Interval))
    ensures
        occ_view(v.push(x)) == occ_view(v).push((x.0@, x.1)),
{
    assert(occ_view(v.push(x)) =~= occ_view(v).push((x.0@, x.1)));
}

fn collect_aexpr_variables(e: &AExpr, ctx: Interval, vars: &mut Vec<(String, Interval)>)
    ensures
        occ_view(final(vars)@) == occ_view(old(vars)@) + aexpr_occurrences(e@, ctx),
    decreases e,
{
    let ghost start = vars@;
    match e {
        AExpr::Var(n) => {
            vars.push((n.clone(), ctx));
            proof {
                lemma_occ_view_push(start, vars@[vars@.len() - 1]);
                assert(vars@ =~= start.push(vars@[vars@.len() - 1]));
            }
            assert(occ_view(vars@) =~= occ_view(start) + aexpr_occurrences(e@, ctx));
        },
        AExpr::Num(_) => {
            assert(occ_view(vars@) =~= occ_view(start) + aexpr_occurrences(e@, ctx));
        },
        AExpr::Abs(b) => collect_aexpr_variables(b, ctx, vars),
        AExpr::BinOp { left, right, .. } => {
            collect_aexpr_variables(left, ctx, vars);
            collect_aexpr_variables(right, ctx, vars);
            assert(occ_view(vars@) =~= occ_view(start) + aexpr_occurrences(e@, ctx));
        },
    }
}

fn scope_of(ctx: Interval, iv: Interval, top: bool) -> (r: Interval)
    ensures
        r == scope(ctx, iv, top),
{
    if top {
        Interval { lower: if iv.lower >= ctx.lower { iv.lower } else { ctx.lower }, upper: iv.upper }
    } else {
        Interval {
            lower: ctx.lower.wrapping_add(iv.lower),
            upper: ctx.upper.wrapping_add(iv.upper),
        }
    }
}

/// Appends to `vars` each occurrence of a variable in `formula` read over `ctx` (see
/// `occurrences`).
pub fn collect_variables(
    formula: &Formula,
    ctx: Interval,
    vars: &mut Vec<(String, Interval)>,
    is_top_level: bool,
)
    ensures
        occ_view(final(vars)@) == occ_view(old(vars)@) + occurrences(formula@, ctx, is_top_level),
    decreases formula,
{
    let ghost start = vars@;
    match formula {
        Formula::Prop(expr) => {
            match &expr.kind {
                ExprKind::Atom(name) => {
                    vars.push((name.clone(), ctx));
                    proof {
                        lemma_occ_view_push(start, vars@[vars@.len() - 1]);
                        assert(vars@ =~= start.push(vars@[vars@.len() - 1]));
                    }
                },
                ExprKind::Rel { left, right, .. } => {
                    collect_aexpr_variables(left, ctx, vars);
                    collect_aexpr_variables(right, ctx, vars);
                },
                _ => {},
            }
            assert(occ_view(vars@) =~= occ_view(start) + occurrences(formula@, ctx, is_top_level));
        },
        Formula::And(v) | Formula::Or(v) => {
            proof {
                lemma_view_junction(*v);
            }
            let mut i: usize = 0;
            while i < v.len()
                invariant
                    operands_of(*formula, *v),
                    i <= v@.len(),
                    occ_view(vars@) == occ_view(start) + occurrences_prefix(
                        fviews(v@),
                        ctx,
                        is_top_level,
                        i as int,
                    ),
                decreases v@.len() - i,
            {
                proof {
                    lemma_operand_decreases(*formula, *v, i as int);
                }
                assert(fviews(v@)[i as int] == v@[i as int]@);
                collect_variables(&v[i], ctx, vars, is_top_level);
                assert(occ_view(vars@) =~= occ_view(start) + occurrences_prefix(
                    fviews(v@),
                    ctx,
                    is_top_level,
                    i + 1,
                ));
                i += 1;
            }
        },
        Formula::Not(b) | Formula::O(b) => collect_variables(b, ctx, vars, is_top_level),
        Formula::Imply { left, right, not_left } => {
            collect_variables(left, ctx, vars, is_top_level);
            collect_variables(right, ctx, vars, is_top_level);
            collect_variables(not_left, ctx, vars, is_top_level);
            assert(occ_view(vars@) =~= occ_view(start) + occurrences(formula@, ctx, is_top_level));
        },
        Formula::G { interval, phi, .. } | Formula::F { interval, phi, .. } => {
            let inner = scope_of(ctx, *interval, is_top_level);
            collect_variables(phi, inner, vars, false);
        },
        Formula::U { interval, left, right, .. } | Formula::R { interval, left, right, .. } => {
            let inner = scope_of(ctx, *interval, is_top_level);
            collect_variables(left, inner, vars, false);
            collect_variables(right, inner, vars, false);
            assert(occ_view(vars@) =~= occ_view(start) + occurrences(formula@, ctx, is_top_level));
        },
    }
}

// ---------------------------------------------------------------------------------------
// Signatures
// ---------------------------------------------------------------------------------------
/// Occurrences tagged with the place `k` of their operand in the node.
pub open spec fn tagged(o: Seq<(Seq<char>, Interval)>, k: int) -> Seq<(Seq<char>, Interval, usize)> {
    Seq::new(o.len(), |i: int| (o[i].0, o[i].1, k as usize))
}

/// The occurrences of variables in the first `n` operands, each read over `[t, t]` at top
/// level and tagged with its operand's place.
pub open spec fn node_occurrences(s: Seq<FormulaM>, t: i32, n: int) -> Seq<
    (Seq<char>, Interval, usize),
>
    decreases n,
{
    if n <= 0 || n > s.len() {
        Seq::empty()
    } else {
        node_occurrences(s, t, n - 1) + tagged(occurrences(s[n - 1], point(t), true), n - 1)
    }
}

/// The tagged intervals at which `name` occurs, in order.
pub open spec fn items_named(o: Seq<(Seq<char>, Interval, usize)>, name: Seq<char>) -> Seq<
    (Interval, usize),
>
    decreases o.len(),
{
    if o.len() == 0 {
        Seq::empty()
    } else {
        items_named(o.drop_last(), name) + if o.last().0 == name {
            seq![(o.last().1, o.last().2)]
        } else {
            Seq::empty()
        }
    }
}

pub open spec fn all_view(v: Seq<(String, Interval, usize)>) -> Seq<(Seq<char>, Interval, usize)> {
    Seq::new(v.len(), |i: int| (v[i].0@, v[i].1, v[i].2))
}

/// For each variable of a node, the instants at which its operands constrain it, split
/// into runs constrained by the same operands (each named by its place in the node).
pub struct Signature {
    pub map: Vec<(String, Vec<(Interval, Vec<usize>)>)>,
}

proof fn lemma_items_named_nonempty(o: Seq<(Seq<char>, Interval, usize)>, name: Seq<char>)
    ensures
        items_named(o, name).len() > 0 <==> exists|i: int| 0 <= i < o.len() && (#[trigger] o[i]).0 == name,
    decreases o.len(),
{
    if o.len() > 0 {
        lemma_items_named_nonempty(o.drop_last(), name);
        if exists|i: int| 0 <= i < o.len() && (#[trigger] o[i]).0 == name {
            let i = choose|i: int| 0 <= i < o.len() && (#[trigger] o[i]).0 == name;
            if i < o.len() - 1 {
                assert(o.drop_last()[i] == o[i]);
            }
        }
        if exists|i: int| 0 <= i < o.drop_last().len() && (#[trigger] o.drop_last()[i]).0 == name {
            let i = choose|i: int| 0 <= i < o.drop_last().len() && (#[trigger] o.drop_last()[i]).0 == name;
            assert(o[i] == o.drop_last()[i]);
        }
    }
}

fn items_with_name(all: &Vec<(String, Interval, usize)>, name: &String) -> (r: Vec<(Interval, usize)>)
    ensures
        r@ == items_named(all_view(all@), name@),
{
    let mut out: Vec<(Interval, usize)> = Vec::new();
    let mut i: usize = 0;
    while i < all.len()
        invariant
            i <= all@.len(),
            out@ == items_named(all_view(all@).subrange(0, i as int), name@),
        decreases all@.len() - i,
    {
        let ghost t = all_view(all@).subrange(0, i + 1);
        assert(t.drop_last() =~= all_view(all@).subrange(0, i as int));
        if all[i].0 == *name {
            out.push((all[i].1, all[i].2));
        }
        assert(out@ =~= items_named(t, name@));
        i += 1;
    }
    assert(all_view(all@).subrange(0, all@.len() as int) =~= all_view(all@));
    out
}

impl Signature {
    /// The signature of `node`: every operand is read at the node's instant; the runs of
    /// each variable are those of `merge_intervals` on its tagged intervals.
    pub fn new(node: &Node) -> (r: Signature)
        ensures
            forall|j: int, l: int|
                0 <= j < l < r.map@.len() ==> (#[trigger] r.map@[j]).0@ != (#[trigger] r.map@[l]).0@,
            forall|j: int|
                0 <= j < r.map@.len() ==> items_named(
                    node_occurrences(ops(node), node.current_time, node.operands@.len() as int),
                    (#[trigger] r.map@[j]).0@,
                ).len() > 0 && is_merge(
                    items_named(
                        node_occurrences(ops(node), node.current_time, node.operands@.len() as int),
                        r.map@[j].0@,
                    ),
                    segments_view(r.map@[j].1@),
                ),
            forall|name: Seq<char>|
                #[trigger] items_named(
                    node_occurrences(ops(node), node.current_time, node.operands@.len() as int),
                    name,
                ).len() > 0 ==> exists|j: int| 0 <= j < r.map@.len() && (#[trigger] r.map@[j]).0@ == name,
    {
        let ghost s = ops(node);
        let t = node.current_time;
        let ctx = Interval { lower: t, upper: t };
        let mut all: Vec<(String, Interval, usize)> = Vec::new();
        let mut k: usize = 0;
        while k < node.operands.len()
            invariant
                s == ops(node),
                t == node.current_time,
                ctx == point(t),
                k <= node.operands@.len(),
                all_view(all@) == node_occurrences(s, t, k as int),
            decreases node.operands@.len() - k,
        {
            let mut vars: Vec<(String, Interval)> = Vec::new();
            assert(occ_view(vars@) =~= Seq::empty());
            collect_variables(&node.operands[k], ctx, &mut vars, true);
            assert(s[k as int] == node.operands@[k as int]@);
            let ghost before = all@;
            let mut i: usize = 0;
            while i < vars.len()
                invariant
                    i <= vars@.len(),
                    all_view(all@) == all_view(before) + tagged(occ_view(vars@), k as int).subrange(
                        0,
                        i as int,
                    ),
                decreases vars@.len() - i,
            {
                let ghost prev = all@;
                let nm = vars[i].0.clone();
                all.push((nm, vars[i].1, k));
                assert(all_view(all@) =~= all_view(prev).push((vars@[i as int].0@, vars@[i as int].1, k)));
                assert(tagged(occ_view(vars@), k as int)[i as int] == (vars@[i as int].0@, vars@[i as int].1, k));
                assert(all_view(all@) =~= all_view(before) + tagged(occ_view(vars@), k as int).subrange(0, i + 1));
                i += 1;
            }
            assert(tagged(occ_view(vars@), k as int).subrange(0, vars@.len() as int) =~= tagged(
                occ_view(vars@),
                k as int,
            ));
            assert(all_view(all@) =~= node_occurrences(s, t, k + 1));
            k += 1;
        }
        let ghost o = all_view(all@);
        let mut map: Vec<(String, Vec<(Interval, Vec<usize>)>)> = Vec::new();
        let mut i: usize = 0;
        while i < all.len()
            invariant
                o == all_view(all@),
                i <= all@.len(),
                forall|j: int, l: int|
                    0 <= j < l < map@.len() ==> (#[trigger] map@[j]).0@ != (#[trigger] map@[l]).0@,
                forall|j: int|
                    0 <= j < map@.len() ==> items_named(o, (#[trigger] map@[j]).0@).len() > 0
                        && is_merge(items_named(o, map@[j].0@), segments_view(map@[j].1@)),
                forall|a: int|
                    #![trigger o[a]]
                    0 <= a < i ==> exists|j: int| 0 <= j < map@.len() && (#[trigger] map@[j]).0@ == o[a].0,
            decreases all@.len() - i,
        {
            let mut present = false;
            let mut j: usize = 0;
            while j < map.len()
                invariant
                    j <= map@.len(),
                    i < all@.len(),
                    present <==> exists|l: int| 0 <= l < j && (#[trigger] map@[l]).0@ == all@[i as int].0@,
                decreases map@.len() - j,
            {
                if map[j].0 == all[i].0 {
                    present = true;
                }
                j += 1;
            }
            assert(o[i as int].0 == all@[i as int].0@);
            if !present {
                let name = all[i].0.clone();
                let items = items_with_name(&all, &name);
                proof {
                    lemma_items_named_nonempty(o, name@);
                }
                let merged = merge_intervals(items);
                let ghost before = map@;
                map.push((name, merged));
                assert(map@[map@.len() - 1].0@ == o[i as int].0);
                assert forall|a: int| #![trigger o[a]] 0 <= a < i + 1 implies exists|j: int|
                    0 <= j < map@.len() && (#[trigger] map@[j]).0@ == o[a].0 by {
                    if a < i {
                        let j = choose|j: int| 0 <= j < before.len() && (#[trigger] before[j]).0@ == o[a].0;
                        assert(map@[j] == before[j]);
                    }
                }
            }
            i += 1;
        }
        proof {
            assert forall|name: Seq<char>| #[trigger] items_named(o, name).len() > 0 implies exists|j: int|
                0 <= j < map@.len() && (#[trigger] map@[j]).0@ == name by {
                lemma_items_named_nonempty(o, name);
                let a = choose|a: int| 0 <= a < o.len() && (#[trigger] o[a]).0 == name;
            }
        }
        Signature { map }
    }

    /// Some run of some variable is constrained by more than one operand.
    pub fn problematic(&self) -> (r: bool)
        ensures
            r == exists|j: int, k: int|
                0 <= j < self.map@.len() && 0 <= k < self.map@[j].1@.len()
                    && (#[trigger] self.map@[j].1@[k]).1@.len() > 1,
    {
        let mut j: usize = 0;
        while j < self.map.len()
            invariant
                j <= self.map@.len(),
                forall|a: int, k: int|
                    0 <= a < j && 0 <= k < self.map@[a].1@.len() ==> (#[trigger] self.map@[a].1@[k]).1@.len() <= 1,
            decreases self.map@.len() - j,
        {
            let segs = &self.map[j].1;
            let mut k: usize = 0;
            while k < segs.len()
                invariant
                    j < self.map@.len(),
                    segs == &self.map@[j as int].1,
                    k <= segs@.len(),
                    forall|b: int| 0 <= b < k ==> (#[trigger] segs@[b]).1@.len() <= 1,
                decreases segs@.len() - k,
            {
                if segs[k].1.len() > 1 {
                    assert(self.map@[j as int].1@[k as int].1@.len() > 1);
                    return true;
                }
                k += 1;
            }
            j += 1;
        }
        false
    }

    /// The runs of `name`, if it is a variable of the node.
    pub fn get(&self, name: &str) -> (r: Option<&Vec<(Interval, Vec<usize>)>>)
        ensures
            match r {
                Some(v) => exists|j: int| 0 <= j < self.map@.len() && (#[trigger] self.map@[j]).0@ == name@
                    && *v == self.map@[j].1,
                None => forall|j: int| 0 <= j < self.map@.len() ==> (#[trigger] self.map@[j]).0@ != name@,
            },
    {
        let key = name.to_string();
        let mut j: usize = 0;
        while j < self.map.len()
            invariant
                j <= self.map@.len(),
                key@ == name@,
                forall|a: int| 0 <= a < j ==> (#[trigger] self.map@[a]).0@ != name@,
            decreases self.map@.len() - j,
        {
            if self.map[j].0 == key {
                return Some(&self.map[j].1);
            }
            j += 1;
        }
        None
    }
}

} // verus!
