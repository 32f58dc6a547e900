//! The length of a jump: the instants where a node's propositions are read, where its
//! postponed obligations could next be met, and the shortest jump that reaches one.
use vstd::prelude::*;

use crate::interval::Interval;
use crate::formula::{fviews, lemma_operand_decreases, lemma_view_junction, operands_of, Formula, FormulaM};

verus! {

/// The instants, as offsets from `delta`, at which the propositions of `f` are read. With
/// `targets`, along the bound where each operator can at the latest be met (`G` and the
/// released side of `R` at the lower bound, `F`, the awaited side of `U` and the left of `R`
/// at the upper bound, the left of `U` at the lower bound); otherwise, along the bound
/// where each operator is first read (`G` at its upper bound, every other operator at its
/// lower bound). The premise of an implication is read through its negation normal form,
/// and a postponed obligation like its operand.
pub open spec fn offsets(f: FormulaM, delta: int, targets: bool) -> Set<int>
    decreases f, 1int,
{
    match f {
        FormulaM::Prop(_) => set![delta],
        FormulaM::Not(b) => offsets(*b, delta, targets),
        FormulaM::O(b) => offsets(*b, delta, targets),
        FormulaM::And(s) => offsets_prefix(s, s.len() as int, delta, targets),
        FormulaM::Or(s) => offsets_prefix(s, s.len() as int, delta, targets),
        FormulaM::Imply { right, not_left, .. } => offsets(*not_left, delta, targets).union(
            offsets(*right, delta, targets),
        ),
        FormulaM::G { interval, phi, .. } => offsets(
            *phi,
            delta + if targets {
                interval.lower as int
            } else {
                interval.upper as int
            },
            targets,
        ),
        FormulaM::F { interval, phi, .. } => offsets(
            *phi,
            delta + if targets {
                interval.upper as int
            } else {
                interval.lower as int
            },
            targets,
        ),
        FormulaM::U { interval, left, right, .. } => offsets(*left, delta + interval.lower, targets).union(
            offsets(
                *right,
                delta + if targets {
                    interval.upper as int
                } else {
                    interval.lower as int
                },
                targets,
            ),
        ),
        FormulaM::R { interval, left, right, .. } => offsets(
            *left,
            delta + if targets {
                interval.upper as int
            } else {
                interval.lower as int
            },
            targets,
        ).union(offsets(*right, delta + interval.lower, targets)),
    }
}

/// The offsets of the first `n` operands together.
pub open spec fn offsets_prefix(s: Seq<FormulaM>, n: int, delta: int, targets: bool) -> Set<int>
    decreases s, n, 0int,
{
    if n <= 0 || n > s.len() {
        Set::empty()
    } else {
        offsets_prefix(s, n - 1, delta, targets).union(offsets(s[n - 1], delta, targets))
    }
}

/// Release is until with its roles swapped: as targets, `a R[l,u] b` waits on `a` at the
/// upper bound and reads `b` at the lower bound, as `b U[l,u] a` does; as obstacles, both
/// operators read both operands at the lower bound, so they agree operand for operand.
pub proof fn lemma_release_mirrors_until(interval: Interval, parent_upper: Option<i32>, a: FormulaM, b: FormulaM, delta: int)
    ensures
        offsets(FormulaM::R { interval, parent_upper, left: Box::new(a), right: Box::new(b) }, delta, true)
            == offsets(FormulaM::U { interval, parent_upper, left: Box::new(b), right: Box::new(a) }, delta, true),
        offsets(FormulaM::R { interval, parent_upper, left: Box::new(a), right: Box::new(b) }, delta, false)
            == offsets(FormulaM::U { interval, parent_upper, left: Box::new(a), right: Box::new(b) }, delta, false),
{
    assert(offsets(FormulaM::R { interval, parent_upper, left: Box::new(a), right: Box::new(b) }, delta, true)
        =~= offsets(FormulaM::U { interval, parent_upper, left: Box::new(b), right: Box::new(a) }, delta, true));
}

/// Obstacles are where operators are first read: every operand of an operator is read at
/// the operator's lower bound, except the operand of `G`, read at its upper bound.
pub proof fn lemma_obstacles_at_first_reading(interval: Interval, parent_upper: Option<i32>, a: FormulaM, b: FormulaM, delta: int)
    ensures
        offsets(FormulaM::U { interval, parent_upper, left: Box::new(a), right: Box::new(b) }, delta, false)
            == offsets(a, delta + interval.lower, false).union(offsets(b, delta + interval.lower, false)),
        offsets(FormulaM::R { interval, parent_upper, left: Box::new(a), right: Box::new(b) }, delta, false)
            == offsets(a, delta + interval.lower, false).union(offsets(b, delta + interval.lower, false)),
        offsets(FormulaM::F { interval, parent_upper, phi: Box::new(a) }, delta, false)
            == offsets(a, delta + interval.lower, false),
        offsets(FormulaM::G { interval, parent_upper, phi: Box::new(a) }, delta, false)
            == offsets(a, delta + interval.upper, false),
{
}

/// Targets are where operators are met at the latest: `G` and the left of `U` at the lower
/// bound; `F`, the right of `U` and the left of `R` at the upper bound; the right of `R` at
/// the lower bound.
pub proof fn lemma_targets_at_latest(interval: Interval, parent_upper: Option<i32>, a: FormulaM, b: FormulaM, delta: int)
    ensures
        offsets(FormulaM::U { interval, parent_upper, left: Box::new(a), right: Box::new(b) }, delta, true)
            == offsets(a, delta + interval.lower, true).union(offsets(b, delta + interval.upper, true)),
        offsets(FormulaM::R { interval, parent_upper, left: Box::new(a), right: Box::new(b) }, delta, true)
            == offsets(a, delta + interval.upper, true).union(offsets(b, delta + interval.lower, true)),
        offsets(FormulaM::F { interval, parent_upper, phi: Box::new(a) }, delta, true)
            == offsets(a, delta + interval.upper, true),
        offsets(FormulaM::G { interval, parent_upper, phi: Box::new(a) }, delta, true)
            == offsets(a, delta + interval.lower, true),
{
}

/// A 32-bit integer.
pub open spec fn in_i32(x: int) -> bool {
    i32::MIN <= x <= i32::MAX
}

/// Every offset reached while walking `f` from `delta` is a 32-bit integer.
pub open spec fn offsets_fit(f: FormulaM, delta: int, targets: bool) -> bool
    decreases f, 1int,
{
    match f {
        FormulaM::Prop(_) => true,
        FormulaM::Not(b) => offsets_fit(*b, delta, targets),
        FormulaM::O(b) => offsets_fit(*b, delta, targets),
        FormulaM::And(s) => fit_prefix(s, s.len() as int, delta, targets),
        FormulaM::Or(s) => fit_prefix(s, s.len() as int, delta, targets),
        FormulaM::Imply { right, not_left, .. } => offsets_fit(*not_left, delta, targets)
            && offsets_fit(*right, delta, targets),
        FormulaM::G { interval, phi, .. } => {
            let d = delta + if targets {
                interval.lower as int
            } else {
                interval.upper as int
            };
            in_i32(d) && offsets_fit(*phi, d, targets)
        },
        FormulaM::F { interval, phi, .. } => {
            let d = delta + if targets {
                interval.upper as int
            } else {
                interval.lower as int
            };
            in_i32(d) && offsets_fit(*phi, d, targets)
        },
        FormulaM::U { interval, left, right, .. } => {
            let dl = delta + interval.lower;
            let dr = delta + if targets {
                interval.upper as int
            } else {
                interval.lower as int
            };
            in_i32(dl) && offsets_fit(*left, dl, targets) && in_i32(dr) && offsets_fit(*right, dr, targets)
        },
        FormulaM::R { interval, left, right, .. } => {
            let dl = delta + if targets {
                interval.upper as int
            } else {
                interval.lower as int
            };
            let dr = delta + interval.lower;
            in_i32(dl) && offsets_fit(*left, dl, targets) && in_i32(dr) && offsets_fit(*right, dr, targets)
        },
    }
}

pub open spec fn fit_prefix(s: Seq<FormulaM>, n: int, delta: int, targets: bool) -> bool
    decreases s, n, 0int,
{
    if n <= 0 || n > s.len() {
        true
    } else {
        fit_prefix(s, n - 1, delta, targets) && offsets_fit(s[n - 1], delta, targets)
    }
}

/// The values of a sequence of 32-bit integers.
pub open spec fn int_set(v: Seq<i32>) -> Set<int> {
    Set::new(|x: int| exists|i: int| 0 <= i < v.len() && v[i] as int == x)
}

proof fn lemma_int_set_push(v: Seq<i32>, x: i32)
    ensures
        int_set(v.push(x)) == int_set(v).insert(x as int),
{
    assert forall|y: int| int_set(v.push(x)).contains(y) <==> int_set(v).insert(x as int).contains(y) by {
        if int_set(v).contains(y) {
            let i = choose|i: int| 0 <= i < v.len() && v[i] as int == y;
            assert(v.push(x)[i] == v[i]);
        }
        if y == x as int {
            assert(v.push(x)[v.len() as int] == x);
        }
    }
    assert(int_set(v.push(x)) =~= int_set(v).insert(x as int));
}

fn checked_offset(delta: i32, by: i32) -> (r: Option<i32>)
    ensures
        r matches Some(d) ==> d == delta + by,
        r is None <==> !in_i32(delta + by),
{
    delta.checked_add(by)
}

/// Adds the offsets of `f` from `delta` to `out`; `false`, with `out` partly filled, when an
/// offset leaves the 32-bit integers.
fn add_offsets(f: &Formula, delta: i32, targets: bool, out: &mut Vec<i32>) -> (ok: bool)
    ensures
        ok == offsets_fit(f@, delta as int, targets),
        ok ==> int_set(final(out)@) == int_set(old(out)@).union(offsets(f@, delta as int, targets)),
    decreases f, 1nat,
{
    let ghost o = old(out)@;
    match f {
        Formula::Prop(_) => {
            proof {
                lemma_int_set_push(out@, delta);
            }
            out.push(delta);
            assert(int_set(out@) =~= int_set(o).union(offsets(f@, delta as int, targets)));
            true
        },
        Formula::Not(b) => add_offsets(b, delta, targets, out),
        Formula::O(b) => add_offsets(b, delta, targets, out),
        Formula::And(v) => {
            proof {
                lemma_view_junction(*v);
            }
            add_offsets_all(f, v, delta, targets, out)
        },
        Formula::Or(v) => {
            proof {
                lemma_view_junction(*v);
            }
            add_offsets_all(f, v, delta, targets, out)
        },
        Formula::Imply { right, not_left, .. } => {
            if !add_offsets(not_left, delta, targets, out) {
                return false;
            }
            let ok = add_offsets(right, delta, targets, out);
            assert(ok ==> int_set(out@) =~= int_set(o).union(offsets(f@, delta as int, targets)));
            ok
        },
        Formula::G { interval, phi, .. } => {
            let by = if targets {
                interval.lower
            } else {
                interval.upper
            };
            match checked_offset(delta, by) {
                Some(d) => add_offsets(phi, d, targets, out),
                None => false,
            }
        },
        Formula::F { interval, phi, .. } => {
            let by = if targets {
                interval.upper
            } else {
                interval.lower
            };
            match checked_offset(delta, by) {
                Some(d) => add_offsets(phi, d, targets, out),
                None => false,
            }
        },
        Formula::U { interval, left, right, .. } => {
            let dl = match checked_offset(delta, interval.lower) {
                Some(d) => d,
                None => return false,
            };
            if !add_offsets(left, dl, targets, out) {
                return false;
            }
            let by = if targets {
                interval.upper
            } else {
                interval.lower
            };
            let dr = match checked_offset(delta, by) {
                Some(d) => d,
                None => return false,
            };
            let ok = add_offsets(right, dr, targets, out);
            assert(ok ==> int_set(out@) =~= int_set(o).union(offsets(f@, delta as int, targets)));
            ok
        },
        Formula::R { interval, left, right, .. } => {
            let by = if targets {
                interval.upper
            } else {
                interval.lower
            };
            let dl = match checked_offset(delta, by) {
                Some(d) => d,
                None => return false,
            };
            if !add_offsets(left, dl, targets, out) {
                return false;
            }
            let dr = match checked_offset(delta, interval.lower) {
                Some(d) => d,
                None => return false,
            };
            let ok = add_offsets(right, dr, targets, out);
            assert(ok ==> int_set(out@) =~= int_set(o).union(offsets(f@, delta as int, targets)));
            ok
        },
    }
}

fn add_offsets_all(f: &Formula, v: &Vec<Formula>, delta: i32, targets: bool, out: &mut Vec<i32>) -> (ok: bool)
    requires
        operands_of(*f, *v),
    ensures
        ok == fit_prefix(fviews(v@), v@.len() as int, delta as int, targets),
        ok ==> int_set(final(out)@) == int_set(old(out)@).union(
            offsets_prefix(fviews(v@), v@.len() as int, delta as int, targets),
        ),
    decreases f, 0nat,
{
    let ghost o = old(out)@;
    let ghost s = fviews(v@);
    let mut i: usize = 0;
    while i < v.len()
        invariant
            operands_of(*f, *v),
            s == fviews(v@),
            i <= v.len(),
            fit_prefix(s, i as int, delta as int, targets),
            int_set(out@) == int_set(o).union(offsets_prefix(s, i as int, delta as int, targets)),
        decreases v.len() - i,
    {
        proof {
            lemma_operand_decreases(*f, *v, i as int);
        }
        assert(s[i as int] == v@[i as int]@);
        if !add_offsets(&v[i], delta, targets, out) {
            proof {
                lemma_fit_prefix_stops(s, i as int + 1, v@.len() as int, delta as int, targets);
            }
            return false;
        }
        assert(int_set(out@) =~= int_set(o).union(offsets_prefix(s, i + 1, delta as int, targets)));
        i += 1;
    }
    true
}

proof fn lemma_fit_prefix_stops(s: Seq<FormulaM>, k: int, n: int, delta: int, targets: bool)
    requires
        0 < k <= n <= s.len(),
        !fit_prefix(s, k, delta, targets),
    ensures
        !fit_prefix(s, n, delta, targets),
    decreases n - k,
{
    if k < n {
        lemma_fit_prefix_stops(s, k, n - 1, delta, targets);
    }
}

/// The offsets from `delta` at which `f` must be met at the latest (`calculate_m`); `None`
/// when one leaves the 32-bit integers.
pub fn calculate_m(f: &Formula, delta: i32) -> (r: Option<Vec<i32>>)
    ensures
        r is Some <==> offsets_fit(f@, delta as int, true),
        r matches Some(v) ==> int_set(v@) == offsets(f@, delta as int, true),
{
    let mut out: Vec<i32> = Vec::new();
    assert(int_set(out@) =~= Set::<int>::empty());
    if add_offsets(f, delta, true, &mut out) {
        assert(int_set(out@) =~= offsets(f@, delta as int, true));
        Some(out)
    } else {
        None
    }
}

/// The offsets from `delta` at which `f` is first read (`calculate_s`); `None` when one
/// leaves the 32-bit integers.
pub fn calculate_s(f: &Formula, delta: i32) -> (r: Option<Vec<i32>>)
    ensures
        r is Some <==> offsets_fit(f@, delta as int, false),
        r matches Some(v) ==> int_set(v@) == offsets(f@, delta as int, false),
{
    let mut out: Vec<i32> = Vec::new();
    assert(int_set(out@) =~= Set::<int>::empty());
    if add_offsets(f, delta, false, &mut out) {
        assert(int_set(out@) =~= offsets(f@, delta as int, false));
        Some(out)
    } else {
        None
    }
}

/// `k` is a jump from a target to an obstacle: `o - t + 1` for some target `t` and obstacle
/// `o`, between 1 and `max_jump`.
pub open spec fn is_jump(targets: Set<int>, obstacles: Set<int>, max_jump: int, k: int) -> bool {
    1 <= k <= max_jump && exists|t: int, o: int| targets.contains(t) && obstacles.contains(o) && k == o - t + 1
}

/// The shortest jump from a target to an obstacle, or `max_jump` when there is none.
pub open spec fn is_k_star(targets: Set<int>, obstacles: Set<int>, max_jump: int, r: int) -> bool {
    &&& forall|k: int| #[trigger] is_jump(targets, obstacles, max_jump, k) ==> r <= k
    &&& (r == max_jump || is_jump(targets, obstacles, max_jump, r))
}

/// The shortest jump `o - t + 1` between 1 and `max_jump` from a target `t` to an obstacle
/// `o`, or `max_jump` when there is none (the choice of `calculate_k_star`).
pub fn k_star(targets: &Vec<i32>, obstacles: &Vec<i32>, max_jump: i32) -> (r: i32)
    ensures
        is_k_star(int_set(targets@), int_set(obstacles@), max_jump as int, r as int),
{
    let ghost ts = int_set(targets@);
    let ghost os = int_set(obstacles@);
    let mut best: i32 = max_jump;
    let mut i: usize = 0;
    while i < targets.len()
        invariant
            i <= targets@.len(),
            ts == int_set(targets@),
            os == int_set(obstacles@),
            best == max_jump || is_jump(ts, os, max_jump as int, best as int),
            forall|a: int, b: int|
                0 <= a < i && 0 <= b < obstacles@.len() && is_jump(
                    ts,
                    os,
                    max_jump as int,
                    obstacles@[b] - targets@[a] + 1,
                ) ==> best <= #[trigger] obstacles@[b] - #[trigger] targets@[a] + 1,
            best <= max_jump,
        decreases targets@.len() - i,
    {
        let mut j: usize = 0;
        while j < obstacles.len()
            invariant
                i < targets@.len(),
                j <= obstacles@.len(),
                ts == int_set(targets@),
                os == int_set(obstacles@),
                best == max_jump || is_jump(ts, os, max_jump as int, best as int),
                forall|a: int, b: int|
                    0 <= a < i && 0 <= b < obstacles@.len() && is_jump(
                        ts,
                        os,
                        max_jump as int,
                        obstacles@[b] - targets@[a] + 1,
                    ) ==> best <= #[trigger] obstacles@[b] - #[trigger] targets@[a] + 1,
                forall|b: int|
                    0 <= b < j && is_jump(ts, os, max_jump as int, obstacles@[b] - targets@[i as int] + 1)
                        ==> best <= #[trigger] obstacles@[b] - targets@[i as int] + 1,
                best <= max_jump,
            decreases obstacles@.len() - j,
        {
            let k: i64 = obstacles[j] as i64 - targets[i] as i64 + 1;
            if 1 <= k && k <= max_jump as i64 && k < best as i64 {
                proof {
                    assert(ts.contains(targets@[i as int] as int));
                    assert(os.contains(obstacles@[j as int] as int));
                    assert(is_jump(ts, os, max_jump as int, k as int));
                }
                best = k as i32;
            }
            j += 1;
        }
        i += 1;
    }
    proof {
        assert forall|k: int| #[trigger] is_jump(ts, os, max_jump as int, k) implies best <= k by {
            let (t, o) = choose|t: int, o: int| ts.contains(t) && os.contains(o) && k == o - t + 1;
            let a = choose|a: int| 0 <= a < targets@.len() && targets@[a] as int == t;
            let b = choose|b: int| 0 <= b < obstacles@.len() && obstacles@[b] as int == o;
            assert(best <= obstacles@[b] - targets@[a] + 1);
        }
    }
    best
}

} // verus!
