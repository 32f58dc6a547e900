use vstd::prelude::*;

use crate::bounds::{in_range, interval_in_range, spec_bounded};
use crate::formula::{
    formula_eq, fviews, spec_is_active_at, spec_with_interval, Formula, FormulaM,
};
use crate::formula::{clone_formulas, IdGen};
use crate::node::{ops, Node};
use crate::interval::{
    spec_contains, spec_contiguous, spec_intersects, spec_shift_left, spec_union, Interval,
};

verus! {

// ---------------------------------------------------------------------------------------
// Merging globally operators
// ---------------------------------------------------------------------------------------
/// What identifies a temporal operator for merging: its operand(s) and enclosing bound.
pub open spec fn merge_key(f: FormulaM) -> (FormulaM, Option<i32>) {
    match f {
        FormulaM::G { phi, parent_upper, .. } => (*phi, parent_upper),
        FormulaM::F { phi, parent_upper, .. } => (*phi, parent_upper),
        _ => (f, None),
    }
}

/// The first group among the first `k` of `groups` whose representative shares the key
/// of `f`.
pub open spec fn find_group(s: Seq<FormulaM>, groups: Seq<(int, Interval)>, f: FormulaM, k: int) -> Option<int>
    decreases k,
{
    if k <= 0 || k > groups.len() {
        None
    } else {
        match find_group(s, groups, f, k - 1) {
            Some(j) => Some(j),
            None => if merge_key(s[groups[k - 1].0]) == merge_key(f) {
                Some(k - 1)
            } else {
                None
            },
        }
    }
}

/// After the first `n` operands: the groups of `G` operators (index of the first one, merged
/// interval) and the indices of the operands merged away. A later `G` with the key of a
/// group joins it when, seen from `time`, both intervals are still running and they
/// overlap or touch.
pub open spec fn merge_g_state(s: Seq<FormulaM>, time: int, n: int) -> (Seq<(int, Interval)>, Set<int>)
    decreases n,
{
    if n <= 0 || n > s.len() {
        (Seq::empty(), Set::empty())
    } else {
        let (gs, rm) = merge_g_state(s, time, n - 1);
        let f = s[n - 1];
        match f {
            FormulaM::G { interval, .. } => match find_group(s, gs, f, gs.len() as int) {
                Some(j) => {
                    let cur = gs[j].1;
                    match (spec_shift_left(interval, time), spec_shift_left(cur, time)) {
                        (Some(a), Some(b)) => if spec_intersects(b, a) || spec_contiguous(b, a) {
                            (gs.update(j, (gs[j].0, spec_union(cur, interval))), rm.insert(n - 1))
                        } else {
                            (gs, rm)
                        },
                        _ => (gs, rm),
                    }
                },
                None => (gs.push((n - 1, interval)), rm),
            },
            _ => (gs, rm),
        }
    }
}

/// The group that operand `i` is the first of.
pub open spec fn group_of_first(gs: Seq<(int, Interval)>, i: int, k: int) -> Option<int>
    decreases k,
{
    if k <= 0 || k > gs.len() {
        None
    } else if gs[k - 1].0 == i {
        Some(k - 1)
    } else {
        group_of_first(gs, i, k - 1)
    }
}

/// The kept operands among the first `n`, each first member of a group carrying the
/// group's merged interval.
pub open spec fn merged_prefix(s: Seq<FormulaM>, gs: Seq<(int, Interval)>, rm: Set<int>, n: int) -> Seq<FormulaM>
    decreases n,
{
    if n <= 0 || n > s.len() {
        Seq::empty()
    } else if rm.contains(n - 1) {
        merged_prefix(s, gs, rm, n - 1)
    } else {
        merged_prefix(s, gs, rm, n - 1).push(
            match group_of_first(gs, n - 1, gs.len() as int) {
                Some(j) => spec_with_interval(s[n - 1], gs[j].1),
                None => s[n - 1],
            },
        )
    }
}

/// `merge_globally`: `None` when no `G` merges into another one.
pub open spec fn spec_merge_globally(s: Seq<FormulaM>, time: int) -> Option<Seq<FormulaM>> {
    let (gs, rm) = merge_g_state(s, time, s.len() as int);
    if rm.is_empty() {
        None
    } else {
        Some(merged_prefix(s, gs, rm, s.len() as int))
    }
}

fn same_merge_key(a: &Formula, b: &Formula) -> (r: bool)
    requires
        (a@ is G && b@ is G) || (a@ is F && b@ is F),
    ensures
        r == (merge_key(a@) == merge_key(b@)),
{
    match (a, b) {
        (Formula::G { phi: p1, parent_upper: u1, .. }, Formula::G { phi: p2, parent_upper: u2, .. }) => {
            formula_eq(p1, p2) && *u1 == *u2
        },
        (Formula::F { phi: p1, parent_upper: u1, .. }, Formula::F { phi: p2, parent_upper: u2, .. }) => {
            formula_eq(p1, p2) && *u1 == *u2
        },
        _ => false,
    }
}

pub open spec fn groups_view(gs: Seq<(usize, Interval)>) -> Seq<(int, Interval)> {
    Seq::new(gs.len(), |j: int| (gs[j].0 as int, gs[j].1))
}

pub open spec fn flag_set(flags: Seq<bool>) -> Set<int> {
    Set::new(|k: int| 0 <= k < flags.len() && flags[k])
}

/// Merges `G` operators with the same operand and enclosing bound whose intervals, seen
/// from `time`, overlap or touch: the first of them takes the union of the intervals and
/// the others go. `None` when nothing merges.
pub fn merge_globally(input: &Vec<Formula>, time: i32) -> (r: Option<Vec<Formula>>)
    requires
        spec_chain_ready(fviews(input@), time as int),
    ensures
        match r {
            Some(v) => spec_merge_globally(fviews(input@), time as int) == Some(fviews(v@)),
            None => spec_merge_globally(fviews(input@), time as int) is None,
        },
{
    let ghost s = fviews(input@);
    let n = input.len();
    let mut gs: Vec<(usize, Interval)> = Vec::new();
    let mut removed: Vec<bool> = Vec::new();
    let mut any_removed = false;
    let mut idx: usize = 0;
    while idx < n
        invariant
            s == fviews(input@),
            n == input@.len(),
            spec_chain_ready(s, time as int),
            idx <= n,
            removed@.len() == idx,
            (groups_view(gs@), flag_set(removed@)) == merge_g_state(s, time as int, idx as int),
            forall|j: int| 0 <= j < gs@.len() ==> (#[trigger] gs@[j]).0 < idx && s[gs@[j].0 as int] is G
                && loose_interval(gs@[j].1),
            any_removed <==> !flag_set(removed@).is_empty(),
        decreases n - idx,
    {
        let f = &input[idx];
        assert(s[idx as int] == f@);
        let ghost gs0 = gs@;
        let ghost rm0 = removed@;
        let mut flag = false;
        match f {
            Formula::G { interval, .. } => {
                assert(chain_operand_ready(s[idx as int]));
                let mut found: Option<usize> = None;
                let mut j: usize = 0;
                while j < gs.len()
                    invariant
                        s == fviews(input@),
                        idx < n == input@.len(),
                        f == &input@[idx as int],
                        f@ is G,
                        forall|k: int| 0 <= k < gs@.len() ==> (#[trigger] gs@[k]).0 < idx && s[gs@[k].0 as int] is G
                            && loose_interval(gs@[k].1),
                        in_range(time as int),
                        j <= gs@.len(),
                        found matches Some(k) ==> k < j,
                        (match found {
                            Some(k) => Some(k as int),
                            None => None,
                        }) == find_group(s, groups_view(gs@), f@, j as int),
                    decreases gs@.len() - j,
                {
                    if found.is_none() {
                        let rep = &input[gs[j].0];
                        assert(s[gs@[j as int].0 as int] == rep@);
                        if same_merge_key(rep, f) {
                            found = Some(j);
                        }
                    }
                    j += 1;
                }
                assert(groups_view(gs@).len() == gs@.len());
                match found {
                    Some(k) => {
                        let cur = gs[k].1;
                        let a = interval.shift_left(time);
                        let b = cur.shift_left(time);
                        match (a, b) {
                            (Some(a), Some(b)) => {
                                if b.intersects(&a) || b.contiguous(&a) {
                                    let first = gs[k].0;
                                    gs.set(k, (first, cur.union(interval)));
                                    flag = true;
                                    assert(groups_view(gs@) =~= groups_view(gs0).update(k as int, (first as int, crate::interval::spec_union(cur, *interval))));
                                }
                            },
                            _ => {},
                        }
                    },
                    None => {
                        gs.push((idx, *interval));
                        assert(groups_view(gs@) =~= groups_view(gs0).push((idx as int, *interval)));
                    },
                }
            },
            _ => {},
        }
        removed.push(flag);
        if flag {
            any_removed = true;
        }
        assert(flag_set(removed@) =~= (if flag { flag_set(rm0).insert(idx as int) } else { flag_set(rm0) }));
        idx += 1;
    }
    if !any_removed {
        return None;
    }
    let mut out: Vec<Formula> = Vec::new();
    let mut i: usize = 0;
    while i < n
        invariant
            s == fviews(input@),
            n == input@.len(),
            removed@.len() == n,
            i <= n,
            forall|j: int| 0 <= j < gs@.len() ==> (#[trigger] gs@[j]).0 < n && s[gs@[j].0 as int] is G,
            fviews(out@) == merged_prefix(s, groups_view(gs@), flag_set(removed@), i as int),
        decreases n - i,
    {
        assert(flag_set(removed@).contains(i as int) == removed@[i as int]);
        if !removed[i] {
            let mut g: Option<usize> = None;
            let mut j: usize = 0;
            while j < gs.len()
                invariant
                    j <= gs@.len(),
                    (match g {
                        Some(k) => Some(k as int),
                        None => None,
                    }) == group_of_first(groups_view(gs@), i as int, j as int),
                    g matches Some(k) ==> k < j && gs@[k as int].0 == i,
                    forall|k: int| 0 <= k < gs@.len() ==> (#[trigger] gs@[k]).0 < n,
                decreases gs@.len() - j,
            {
                if gs[j].0 == i {
                    g = Some(j);
                }
                j += 1;
            }
            assert(s[i as int] == input@[i as int]@);
            let ghost before = out@;
            let h = match g {
                Some(k) => {
                    assert(gs@[k as int].0 == i);
                    input[i].with_interval(gs[k].1)
                },
                None => input[i].clone(),
            };
            out.push(h);
            assert(fviews(out@) =~= fviews(before).push(h@));
        }
        i += 1;
    }
    Some(out)
}

// ---------------------------------------------------------------------------------------
// Merging finally operators
// ---------------------------------------------------------------------------------------
/// After the first `n` operands: for each key of `F` operators, the kept one (index and
/// interval), and the indices dropped. Seen from `time`, an `F` whose interval contains
/// the kept one's is dropped; one whose interval lies within the kept one's replaces it.
pub open spec fn merge_f_state(s: Seq<FormulaM>, time: int, n: int) -> (Seq<(int, Interval)>, Set<int>)
    decreases n,
{
    if n <= 0 || n > s.len() {
        (Seq::empty(), Set::empty())
    } else {
        let (gs, rm) = merge_f_state(s, time, n - 1);
        let f = s[n - 1];
        match f {
            FormulaM::F { interval, .. } => match find_group(s, gs, f, gs.len() as int) {
                Some(j) => {
                    let cur = gs[j].1;
                    match (spec_shift_left(interval, time), spec_shift_left(cur, time)) {
                        (Some(a), Some(b)) => if spec_contains(a, b) {
                            (gs, rm.insert(n - 1))
                        } else if spec_contains(b, a) {
                            (gs.update(j, (n - 1, interval)), rm.insert(gs[j].0))
                        } else {
                            (gs, rm)
                        },
                        _ => (gs, rm),
                    }
                },
                None => (gs.push((n - 1, interval)), rm),
            },
            _ => (gs, rm),
        }
    }
}

/// The operands among the first `n` whose index is not in `rm`.
pub open spec fn kept_prefix(s: Seq<FormulaM>, rm: Set<int>, n: int) -> Seq<FormulaM>
    decreases n,
{
    if n <= 0 || n > s.len() {
        Seq::empty()
    } else if rm.contains(n - 1) {
        kept_prefix(s, rm, n - 1)
    } else {
        kept_prefix(s, rm, n - 1).push(s[n - 1])
    }
}

/// `merge_finally`: `None` when no `F` is dropped.
pub open spec fn spec_merge_finally(s: Seq<FormulaM>, time: int) -> Option<Seq<FormulaM>> {
    let (gs, rm) = merge_f_state(s, time, s.len() as int);
    if rm.is_empty() {
        None
    } else {
        Some(kept_prefix(s, rm, s.len() as int))
    }
}

/// Drops the `F` operators implied by another one with the same operand and enclosing
/// bound: of two such, seen from `time`, the one with the larger interval goes. `None` when
/// none is dropped.
pub fn merge_finally(input: &Vec<Formula>, time: i32) -> (r: Option<Vec<Formula>>)
    requires
        spec_chain_ready(fviews(input@), time as int),
    ensures
        match r {
            Some(v) => spec_merge_finally(fviews(input@), time as int) == Some(fviews(v@)),
            None => spec_merge_finally(fviews(input@), time as int) is None,
        },
{
    let ghost s = fviews(input@);
    let n = input.len();
    let mut gs: Vec<(usize, Interval)> = Vec::new();
    let mut removed: Vec<bool> = Vec::new();
    let mut any_removed = false;
    let mut idx: usize = 0;
    while idx < n
        invariant
            s == fviews(input@),
            n == input@.len(),
            spec_chain_ready(s, time as int),
            idx <= n,
            removed@.len() == idx,
            (groups_view(gs@), flag_set(removed@)) == merge_f_state(s, time as int, idx as int),
            forall|j: int| 0 <= j < gs@.len() ==> (#[trigger] gs@[j]).0 < idx && s[gs@[j].0 as int] is F
                && loose_interval(gs@[j].1),
            !any_removed,
        decreases n - idx,
    {
        let f = &input[idx];
        assert(s[idx as int] == f@);
        let ghost gs0 = gs@;
        let ghost rm0 = removed@;
        removed.push(false);
        assert(flag_set(removed@) =~= flag_set(rm0));
        match f {
            Formula::F { interval, .. } => {
                let mut found: Option<usize> = None;
                let mut j: usize = 0;
                while j < gs.len()
                    invariant
                        s == fviews(input@),
                        idx < n == input@.len(),
                        f == &input@[idx as int],
                        f@ is F,
                        forall|k: int| 0 <= k < gs@.len() ==> (#[trigger] gs@[k]).0 < idx && s[gs@[k].0 as int] is F
                            && loose_interval(gs@[k].1),
                        j <= gs@.len(),
                        found matches Some(k) ==> k < j,
                        (match found {
                            Some(k) => Some(k as int),
                            None => None,
                        }) == find_group(s, groups_view(gs@), f@, j as int),
                    decreases gs@.len() - j,
                {
                    if found.is_none() {
                        let rep = &input[gs[j].0];
                        assert(s[gs@[j as int].0 as int] == rep@);
                        if same_merge_key(rep, f) {
                            found = Some(j);
                        }
                    }
                    j += 1;
                }
                assert(groups_view(gs@).len() == gs@.len());
                assert(loose_interval(*interval));
                match found {
                    Some(k) => {
                        let cur = gs[k].1;
                        let a = interval.shift_left(time);
                        let b = cur.shift_left(time);
                        match (a, b) {
                            (Some(a), Some(b)) => {
                                if a.contains(&b) {
                                    removed.set(idx, true);
                                    assert(flag_set(removed@) =~= flag_set(rm0).insert(idx as int));
                                } else if b.contains(&a) {
                                    let old_rep = gs[k].0;
                                    removed.set(old_rep, true);
                                    gs.set(k, (idx, *interval));
                                    assert(flag_set(removed@) =~= flag_set(rm0).insert(old_rep as int));
                                    assert(groups_view(gs@) =~= groups_view(gs0).update(k as int, (idx as int, *interval)));
                                }
                            },
                            _ => {},
                        }
                    },
                    None => {
                        gs.push((idx, *interval));
                        assert(groups_view(gs@) =~= groups_view(gs0).push((idx as int, *interval)));
                    },
                }
            },
            _ => {},
        }
        idx += 1;
    }
    let mut k: usize = 0;
    while k < n
        invariant
            removed@.len() == n,
            k <= n,
            any_removed <==> exists|j: int| 0 <= j < k && #[trigger] removed@[j],
        decreases n - k,
    {
        if removed[k] {
            any_removed = true;
        }
        k += 1;
    }
    if !any_removed {
        assert(flag_set(removed@) =~= Set::<int>::empty());
        return None;
    }
    proof {
        let j = choose|j: int| 0 <= j < n && #[trigger] removed@[j];
        assert(flag_set(removed@).contains(j));
    }
    let mut out: Vec<Formula> = Vec::new();
    let mut i: usize = 0;
    while i < n
        invariant
            s == fviews(input@),
            n == input@.len(),
            removed@.len() == n,
            i <= n,
            fviews(out@) == kept_prefix(s, flag_set(removed@), i as int),
        decreases n - i,
    {
        assert(flag_set(removed@).contains(i as int) == removed@[i as int]);
        if !removed[i] {
            let ghost before = out@;
            let h = input[i].clone();
            out.push(h);
            assert(fviews(out@) =~= fviews(before).push(h@));
        }
        i += 1;
    }
    Some(out)
}

/// Bounds within twice the range of instants.
pub open spec fn loose(x: int) -> bool {
    -2 * crate::bounds::TIME_LIMIT <= x <= 2 * crate::bounds::TIME_LIMIT
}

pub open spec fn loose_interval(i: Interval) -> bool {
    loose(i.lower as int) && loose(i.upper as int)
}

/// What the rewriting chain needs: `time` in range, and loose bounds on every top-level
/// `G` and `F`, and on an `F` right under a top-level `G`.
pub open spec fn spec_chain_ready(s: Seq<FormulaM>, time: int) -> bool {
    &&& in_range(time)
    &&& forall|i: int| 0 <= i < s.len() ==> chain_operand_ready(#[trigger] s[i])
}

pub open spec fn chain_operand_ready(f: FormulaM) -> bool {
    match f {
        FormulaM::G { interval, phi, .. } => loose_interval(interval) && match *phi {
            FormulaM::F { interval: fi, .. } => loose_interval(fi),
            _ => true,
        },
        FormulaM::F { interval, .. } => loose_interval(interval),
        _ => true,
    }
}

// ---------------------------------------------------------------------------------------
// Unrolling G F
// ---------------------------------------------------------------------------------------
/// An active `G[a,b] F[c,d] φ` with at least two more instants of `G` to come.
pub open spec fn gf_rewritable(f: FormulaM, time: int) -> bool {
    &&& f is G
    &&& time + 2 <= f->G_interval.upper
    &&& *f->G_phi is F
    &&& spec_is_active_at(f, time)
}

/// The `G` part after unrolling: it resumes at `time + 2`.
pub open spec fn gf_first(f: FormulaM, time: int) -> FormulaM {
    spec_with_interval(f, Interval { lower: (time + 2) as i32, upper: f->G_interval.upper })
}

/// What the next two instants of `G[a,b] F[c,d] φ` ask, moved to `time`:
/// `F[time+c+1, time+d] φ || (F[time+c, time+c] φ && F[time+d+1, time+d+1] φ)`.
pub open spec fn gf_second(f: FormulaM, time: int) -> FormulaM {
    let phi = *f->G_phi;
    let fi = phi->F_interval;
    FormulaM::Or(
        seq![
            spec_with_interval(
                phi,
                Interval { lower: (time + fi.lower + 1) as i32, upper: (time + fi.upper) as i32 },
            ),
            FormulaM::And(
                seq![
                    spec_with_interval(
                        phi,
                        Interval {
                            lower: (time + fi.lower) as i32,
                            upper: (time + fi.lower) as i32,
                        },
                    ),
                    spec_with_interval(
                        phi,
                        Interval {
                            lower: (time + fi.upper + 1) as i32,
                            upper: (time + fi.upper + 1) as i32,
                        },
                    ),
                ],
            ),
        ],
    )
}

pub open spec fn gf_ops_prefix(s: Seq<FormulaM>, time: int, n: int) -> Seq<FormulaM>
    decreases n,
{
    if n <= 0 || n > s.len() {
        Seq::empty()
    } else {
        gf_ops_prefix(s, time, n - 1).push(
            if gf_rewritable(s[n - 1], time) {
                gf_first(s[n - 1], time)
            } else {
                s[n - 1]
            },
        )
    }
}

pub open spec fn gf_new_prefix(s: Seq<FormulaM>, time: int, n: int) -> Seq<FormulaM>
    decreases n,
{
    if n <= 0 || n > s.len() {
        Seq::empty()
    } else if gf_rewritable(s[n - 1], time) {
        gf_new_prefix(s, time, n - 1).push(gf_second(s[n - 1], time))
    } else {
        gf_new_prefix(s, time, n - 1)
    }
}

/// `rewrite_globally_finally`: `None` when no operand unrolls.
pub open spec fn spec_rewrite_gf(s: Seq<FormulaM>, time: int) -> Option<Seq<FormulaM>> {
    let added = gf_new_prefix(s, time, s.len() as int);
    if added.len() == 0 {
        None
    } else {
        Some(gf_ops_prefix(s, time, s.len() as int) + added)
    }
}

/// Unrolls the next two instants of every active `G[a,b] F[c,d] φ` that runs at least two
/// more instants; the unrolled disjunctions follow the other operands. `None` when there
/// is none.
pub fn rewrite_globally_finally(input: &Vec<Formula>, time: i32) -> (r: Option<Vec<Formula>>)
    requires
        spec_chain_ready(fviews(input@), time as int),
    ensures
        match r {
            Some(v) => spec_rewrite_gf(fviews(input@), time as int) == Some(fviews(v@)),
            None => spec_rewrite_gf(fviews(input@), time as int) is None,
        },
{
    let ghost s = fviews(input@);
    let mut new_operands: Vec<Formula> = Vec::new();
    let mut new_nodes: Vec<Formula> = Vec::new();
    let mut i: usize = 0;
    while i < input.len()
        invariant
            s == fviews(input@),
            spec_chain_ready(s, time as int),
            i <= input@.len(),
            fviews(new_operands@) == gf_ops_prefix(s, time as int, i as int),
            fviews(new_nodes@) == gf_new_prefix(s, time as int, i as int),
        decreases input@.len() - i,
    {
        let op = &input[i];
        assert(s[i as int] == op@);
        assert(chain_operand_ready(op@));
        let ghost b1 = new_operands@;
        let ghost b2 = new_nodes@;
        let mut done = false;
        match op {
            Formula::G { interval: g_int, phi, .. } => {
                if time + 2 <= g_int.upper && op.is_active_at(time) {
                    match &**phi {
                        Formula::F { interval: f_int, .. } => {
                            assert(*op@->G_phi == phi@);
                            assert(phi@->F_interval == *f_int);
                            assert(loose_interval(*f_int));
                            let first = op.with_interval(Interval { lower: time + 2, upper: g_int.upper });
                            let a = phi.with_interval(Interval { lower: time + f_int.lower + 1, upper: time + f_int.upper });
                            let b = phi.with_interval(Interval { lower: time + f_int.lower, upper: time + f_int.lower });
                            let c = phi.with_interval(Interval { lower: time + f_int.upper + 1, upper: time + f_int.upper + 1 });
                            let v1 = vec![b, c];
                            assert(fviews(v1@) =~= seq![b@, c@]);
                            let conj = Formula::and(v1);
                            let v2 = vec![a, conj];
                            assert(fviews(v2@) =~= seq![a@, conj@]);
                            let second = Formula::or(v2);
                            new_operands.push(first);
                            new_nodes.push(second);
                            assert(fviews(new_operands@) =~= fviews(b1).push(first@));
                            assert(fviews(new_nodes@) =~= fviews(b2).push(second@));
                            done = true;
                        },
                        _ => {},
                    }
                }
            },
            _ => {},
        }
        if !done {
            let c = op.clone();
            new_operands.push(c);
            assert(fviews(new_operands@) =~= fviews(b1).push(c@));
        }
        i += 1;
    }
    if new_nodes.len() == 0 {
        return None;
    }
    let ghost ops_part = fviews(new_operands@);
    let ghost new_part = fviews(new_nodes@);
    new_operands.append(&mut new_nodes);
    assert(fviews(new_operands@) =~= ops_part + new_part);
    Some(new_operands)
}

// ---------------------------------------------------------------------------------------
// The rewriting chain
// ---------------------------------------------------------------------------------------
pub open spec fn is_gf(f: FormulaM) -> bool {
    f is G || f is F
}

/// The number of top-level `G` and `F` operators.
pub open spec fn count_gf(s: Seq<FormulaM>) -> nat
    decreases s.len(),
{
    if s.len() == 0 {
        0
    } else {
        count_gf(s.drop_last()) + if is_gf(s.last()) {
            1nat
        } else {
            0
        }
    }
}

pub open spec fn any_rewritable(s: Seq<FormulaM>, time: int) -> bool {
    exists|i: int| 0 <= i < s.len() && gf_rewritable(#[trigger] s[i], time)
}

/// Decreases with every step of the chain.
pub open spec fn chain_measure(s: Seq<FormulaM>, time: int) -> nat {
    2 * count_gf(s) + if any_rewritable(s, time) {
        1nat
    } else {
        0
    }
}

/// One step of the chain: merge `G`s, else merge `F`s, else unroll `G F`.
pub open spec fn chain_step(s: Seq<FormulaM>, time: int) -> Option<Seq<FormulaM>> {
    match spec_merge_globally(s, time) {
        Some(r) => Some(r),
        None => match spec_merge_finally(s, time) {
            Some(r) => Some(r),
            None => spec_rewrite_gf(s, time),
        },
    }
}


proof fn lemma_count_push(s: Seq<FormulaM>, x: FormulaM)
    ensures
        count_gf(s.push(x)) == count_gf(s) + if is_gf(x) {
            1nat
        } else {
            0
        },
{
    assert(s.push(x).drop_last() =~= s);
}

proof fn lemma_count_concat(a: Seq<FormulaM>, b: Seq<FormulaM>)
    ensures
        count_gf(a + b) == count_gf(a) + count_gf(b),
    decreases b.len(),
{
    if b.len() > 0 {
        lemma_count_concat(a, b.drop_last());
        assert((a + b).drop_last() =~= a + b.drop_last());
    } else {
        assert(a + b =~= a);
    }
}

pub open spec fn rm_count(rm: Set<int>, n: int) -> nat
    decreases n,
{
    if n <= 0 {
        0
    } else {
        rm_count(rm, n - 1) + if rm.contains(n - 1) {
            1nat
        } else {
            0
        }
    }
}

proof fn lemma_rm_count_pos(rm: Set<int>, n: int, k: int)
    requires
        0 <= k < n,
        rm.contains(k),
    ensures
        rm_count(rm, n) >= 1,
    decreases n,
{
    if k < n - 1 {
        lemma_rm_count_pos(rm, n - 1, k);
    }
}

proof fn lemma_count_take(s: Seq<FormulaM>, n: int)
    requires
        0 < n <= s.len(),
    ensures
        count_gf(s.take(n)) == count_gf(s.take(n - 1)) + if is_gf(s[n - 1]) {
            1nat
        } else {
            0
        },
{
    assert(s.take(n).drop_last() =~= s.take(n - 1));
}

proof fn lemma_find_group_bound(s: Seq<FormulaM>, gs: Seq<(int, Interval)>, f: FormulaM, k: int)
    ensures
        find_group(s, gs, f, k) matches Some(j) ==> 0 <= j < k && j < gs.len(),
    decreases k,
{
    if k > 0 && k <= gs.len() {
        lemma_find_group_bound(s, gs, f, k - 1);
    }
}

proof fn lemma_group_of_first(gs: Seq<(int, Interval)>, i: int, k: int)
    ensures
        group_of_first(gs, i, k) matches Some(j) ==> 0 <= j < k && j < gs.len() && gs[j].0 == i,
    decreases k,
{
    if k > 0 && k <= gs.len() {
        lemma_group_of_first(gs, i, k - 1);
    }
}

proof fn lemma_merge_g_state(s: Seq<FormulaM>, time: int, n: int)
    requires
        0 <= n <= s.len(),
        spec_chain_ready(s, time),
    ensures
        ({
            let (gs, rm) = merge_g_state(s, time, n);
            &&& forall|j: int| 0 <= j < gs.len() ==> 0 <= (#[trigger] gs[j]).0 < n && s[gs[j].0] is G && loose_interval(gs[j].1)
            &&& forall|k: int| #[trigger] rm.contains(k) ==> 0 <= k < n && s[k] is G
        }),
    decreases n,
{
    if n > 0 {
        lemma_merge_g_state(s, time, n - 1);
        let (gs, rm) = merge_g_state(s, time, n - 1);
        lemma_find_group_bound(s, gs, s[n - 1], gs.len() as int);
        assert(chain_operand_ready(s[n - 1]));
    }
}

proof fn lemma_merge_f_state(s: Seq<FormulaM>, time: int, n: int)
    requires
        0 <= n <= s.len(),
        spec_chain_ready(s, time),
    ensures
        ({
            let (gs, rm) = merge_f_state(s, time, n);
            &&& forall|j: int| 0 <= j < gs.len() ==> 0 <= (#[trigger] gs[j]).0 < n && s[gs[j].0] is F
            &&& forall|k: int| #[trigger] rm.contains(k) ==> 0 <= k < n && s[k] is F
        }),
    decreases n,
{
    if n > 0 {
        lemma_merge_f_state(s, time, n - 1);
        let (gs, rm) = merge_f_state(s, time, n - 1);
        lemma_find_group_bound(s, gs, s[n - 1], gs.len() as int);
    }
}

proof fn lemma_merged_prefix(s: Seq<FormulaM>, time: int, gs: Seq<(int, Interval)>, rm: Set<int>, n: int)
    requires
        0 <= n <= s.len(),
        spec_chain_ready(s, time),
        forall|j: int| 0 <= j < gs.len() ==> 0 <= (#[trigger] gs[j]).0 < s.len() && s[gs[j].0] is G && loose_interval(gs[j].1),
        forall|k: int| #[trigger] rm.contains(k) ==> 0 <= k < s.len() && s[k] is G,
    ensures
        count_gf(merged_prefix(s, gs, rm, n)) + rm_count(rm, n) == count_gf(s.take(n)),
        forall|i: int| 0 <= i < merged_prefix(s, gs, rm, n).len() ==> chain_operand_ready(#[trigger] merged_prefix(s, gs, rm, n)[i]),
    decreases n,
{
    if n == 0 {
        assert(s.take(0) =~= Seq::<FormulaM>::empty());
    } else {
        lemma_merged_prefix(s, time, gs, rm, n - 1);
        lemma_count_take(s, n);
        let prev = merged_prefix(s, gs, rm, n - 1);
        if !rm.contains(n - 1) {
            lemma_group_of_first(gs, n - 1, gs.len() as int);
            let x = match group_of_first(gs, n - 1, gs.len() as int) {
                Some(j) => spec_with_interval(s[n - 1], gs[j].1),
                None => s[n - 1],
            };
            assert(chain_operand_ready(s[n - 1]));
            lemma_count_push(prev, x);
            assert forall|i: int| 0 <= i < prev.push(x).len() implies chain_operand_ready(#[trigger] prev.push(x)[i]) by {
                if i < prev.len() {
                    assert(prev.push(x)[i] == prev[i]);
                }
            }
        }
    }
}

proof fn lemma_kept_prefix(s: Seq<FormulaM>, time: int, rm: Set<int>, n: int)
    requires
        0 <= n <= s.len(),
        spec_chain_ready(s, time),
        forall|k: int| #[trigger] rm.contains(k) ==> 0 <= k < s.len() && s[k] is F,
    ensures
        count_gf(kept_prefix(s, rm, n)) + rm_count(rm, n) == count_gf(s.take(n)),
        forall|i: int| 0 <= i < kept_prefix(s, rm, n).len() ==> chain_operand_ready(#[trigger] kept_prefix(s, rm, n)[i]),
    decreases n,
{
    if n == 0 {
        assert(s.take(0) =~= Seq::<FormulaM>::empty());
    } else {
        lemma_kept_prefix(s, time, rm, n - 1);
        lemma_count_take(s, n);
        let prev = kept_prefix(s, rm, n - 1);
        if !rm.contains(n - 1) {
            assert(chain_operand_ready(s[n - 1]));
            lemma_count_push(prev, s[n - 1]);
            assert forall|i: int| 0 <= i < prev.push(s[n - 1]).len() implies chain_operand_ready(#[trigger] prev.push(s[n - 1])[i]) by {
                if i < prev.len() {
                    assert(prev.push(s[n - 1])[i] == prev[i]);
                }
            }
        }
    }
}

proof fn lemma_gf_prefix(s: Seq<FormulaM>, time: int, n: int)
    requires
        0 <= n <= s.len(),
        spec_chain_ready(s, time),
    ensures
        count_gf(gf_ops_prefix(s, time, n)) == count_gf(s.take(n)),
        count_gf(gf_new_prefix(s, time, n)) == 0,
        forall|i: int| 0 <= i < gf_ops_prefix(s, time, n).len() ==> chain_operand_ready(#[trigger] gf_ops_prefix(s, time, n)[i]) && !gf_rewritable(gf_ops_prefix(s, time, n)[i], time),
        forall|i: int| 0 <= i < gf_new_prefix(s, time, n).len() ==> #[trigger] gf_new_prefix(s, time, n)[i] is Or,
    decreases n,
{
    if n == 0 {
        assert(s.take(0) =~= Seq::<FormulaM>::empty());
    } else {
        lemma_gf_prefix(s, time, n - 1);
        lemma_count_take(s, n);
        let prev = gf_ops_prefix(s, time, n - 1);
        let x = if gf_rewritable(s[n - 1], time) {
            gf_first(s[n - 1], time)
        } else {
            s[n - 1]
        };
        assert(chain_operand_ready(s[n - 1]));
        lemma_count_push(prev, x);
        assert forall|i: int| 0 <= i < prev.push(x).len() implies chain_operand_ready(#[trigger] prev.push(x)[i]) && !gf_rewritable(prev.push(x)[i], time) by {
            if i < prev.len() {
                assert(prev.push(x)[i] == prev[i]);
            }
        }
        let pn = gf_new_prefix(s, time, n - 1);
        if gf_rewritable(s[n - 1], time) {
            lemma_count_push(pn, gf_second(s[n - 1], time));
            assert forall|i: int| 0 <= i < pn.push(gf_second(s[n - 1], time)).len() implies #[trigger] pn.push(gf_second(s[n - 1], time))[i] is Or by {
                if i < pn.len() {
                    assert(pn.push(gf_second(s[n - 1], time))[i] == pn[i]);
                }
            }
        }
    }
}

/// A step of the chain keeps it applicable and decreases its measure.
pub proof fn lemma_chain_step(s: Seq<FormulaM>, time: int)
    requires
        spec_chain_ready(s, time),
    ensures
        chain_step(s, time) matches Some(r) ==> spec_chain_ready(r, time) && chain_measure(r, time) < chain_measure(s, time),
{
    assert(s.take(s.len() as int) =~= s);
    let n = s.len() as int;
    match spec_merge_globally(s, time) {
        Some(r) => {
            lemma_merge_g_state(s, time, n);
            let (gs, rm) = merge_g_state(s, time, n);
            lemma_merged_prefix(s, time, gs, rm, n);
            let k = rm.choose();
            lemma_rm_count_pos(rm, n, k);
            assert(count_gf(r) < count_gf(s));
        },
        None => match spec_merge_finally(s, time) {
            Some(r) => {
                lemma_merge_f_state(s, time, n);
                let (gs, rm) = merge_f_state(s, time, n);
                lemma_kept_prefix(s, time, rm, n);
                let k = rm.choose();
                lemma_rm_count_pos(rm, n, k);
                assert(count_gf(r) < count_gf(s));
            },
            None => {
                if let Some(r) = spec_rewrite_gf(s, time) {
                    lemma_gf_prefix(s, time, n);
                    let a = gf_ops_prefix(s, time, n);
                    let b = gf_new_prefix(s, time, n);
                    lemma_count_concat(a, b);
                    assert(r == a + b);
                    assert forall|i: int| 0 <= i < r.len() implies chain_operand_ready(#[trigger] r[i]) && !gf_rewritable(r[i], time) by {
                        if i < a.len() {
                            assert(r[i] == a[i]);
                        } else {
                            assert(r[i] == b[i - a.len()]);
                        }
                    }
                    assert(!any_rewritable(r, time));
                    assert(gf_new_prefix(s, time, n).len() > 0);
                    lemma_gf_new_has_rewritable(s, time, n);
                }
            },
        },
    }
}

proof fn lemma_gf_new_has_rewritable(s: Seq<FormulaM>, time: int, n: int)
    requires
        0 <= n <= s.len(),
        gf_new_prefix(s, time, n).len() > 0,
    ensures
        any_rewritable(s, time),
    decreases n,
{
    if n > 0 {
        if !gf_rewritable(s[n - 1], time) {
            lemma_gf_new_has_rewritable(s, time, n - 1);
        }
    }
}

/// Where the chain ends, stepping from `s` while a step applies.
pub open spec fn chain_fix(s: Seq<FormulaM>, time: int) -> Seq<FormulaM>
    decreases chain_measure(s, time),
    when spec_chain_ready(s, time)
{
    match chain_step(s, time) {
        Some(r) => {
            proof {
                lemma_chain_step(s, time);
            }
            chain_fix(r, time)
        },
        None => s,
    }
}

impl Node {
    /// Applies the merging and unrolling rewrites, in this order of preference, until none
    /// applies; a node with the result when any applied.
    pub fn rewrite_chain(&self, ids: &mut IdGen) -> (r: Option<Vec<Node>>)
        requires
            spec_chain_ready(ops(self), self.current_time as int),
        ensures
            r is None <==> chain_step(ops(self), self.current_time as int) is None,
            r matches Some(v) ==> v@.len() == 1 && v@[0].current_time == self.current_time
                && v@[0].implies is None && ops(&v@[0]) == chain_fix(ops(self), self.current_time as int),
    {
        let t = self.current_time;
        let mut current = clone_formulas(&self.operands);
        let mut changed = false;
        loop
            invariant
                t == self.current_time,
                spec_chain_ready(ops(self), t as int),
                spec_chain_ready(fviews(current@), t as int),
                chain_fix(fviews(current@), t as int) == chain_fix(ops(self), t as int),
                !changed ==> fviews(current@) == ops(self),
                changed ==> chain_step(ops(self), t as int) is Some,
            ensures
                chain_fix(fviews(current@), t as int) == chain_fix(ops(self), t as int),
                !changed ==> fviews(current@) == ops(self),
                changed ==> chain_step(ops(self), t as int) is Some,
                chain_step(fviews(current@), t as int) is None,
            decreases chain_measure(fviews(current@), t as int),
        {
            let ghost before = fviews(current@);
            proof {
                lemma_chain_step(before, t as int);
            }
            let next = match merge_globally(&current, t) {
                Some(res) => Some(res),
                None => match merge_finally(&current, t) {
                    Some(res) => Some(res),
                    None => rewrite_globally_finally(&current, t),
                },
            };
            match next {
                Some(res) => {
                    assert(chain_step(before, t as int) == Some(fviews(res@)));
                    assert(chain_fix(before, t as int) == chain_fix(fviews(res@), t as int));
                    current = res;
                    changed = true;
                },
                None => {
                    break;
                },
            }
        }
        assert(chain_fix(fviews(current@), t as int) == fviews(current@));
        if changed {
            let n = Node { operands: current, current_time: t, implies: None, id: ids.fresh() };
            Some(vec![n])
        } else {
            None
        }
    }
}

} // verus!
