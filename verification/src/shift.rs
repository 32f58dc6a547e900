use vstd::prelude::*;

use crate::formula::{
    fview, fviews, lemma_operand_decreases, lemma_view_junction, operands_of, spec_get_interval,
    spec_with_interval, spec_with_operand, spec_with_operand_couple, Formula, FormulaM,
};
use crate::interval::{spec_shift_left, spec_shift_right, Interval};
use crate::node::{ops, Node};

verus! {

/// The smaller of two optional shifts, where `None` is below every shift.
pub open spec fn min_shift(a: Option<i32>, b: Option<i32>) -> Option<i32> {
    match (a, b) {
        (Some(x), Some(y)) => Some(if x <= y { x } else { y }),
        _ => None,
    }
}

/// How far the formula can be moved back: the least lower bound of its outermost temporal
/// operators, reached through `&&`, `||` and `->`; `None` as soon as one of them is not a
/// temporal operator (and for an empty junction).
pub open spec fn spec_get_shift(f: FormulaM) -> Option<i32>
    decreases f,
{
    match f {
        FormulaM::And(s) => shift_prefix(s, s.len() as int),
        FormulaM::Or(s) => shift_prefix(s, s.len() as int),
        FormulaM::Imply { left, right, not_left } => min_shift(
            min_shift(spec_get_shift(*left), spec_get_shift(*right)),
            spec_get_shift(*not_left),
        ),
        _ => match spec_get_interval(f) {
            Some(i) => Some(i.lower),
            None => None,
        },
    }
}

/// The least shift of the first `n` formulas (`None` for none).
pub open spec fn shift_prefix(s: Seq<FormulaM>, n: int) -> Option<i32>
    decreases s, n,
{
    if n <= 0 || n > s.len() {
        None
    } else if n == 1 {
        spec_get_shift(s[0])
    } else {
        min_shift(shift_prefix(s, n - 1), spec_get_shift(s[n - 1]))
    }
}

/// Moving back by `k` is defined: every outermost temporal operator (reached through
/// `&&`, `||`, `->`, `!` and `O`) ends at or after `k`, and no bound overflows.
pub open spec fn spec_backward_ok(f: FormulaM, k: int) -> bool
    decreases f,
{
    match f {
        FormulaM::Prop(_) => true,
        FormulaM::And(s) => backward_ok_prefix(s, k, s.len() as int),
        FormulaM::Or(s) => backward_ok_prefix(s, k, s.len() as int),
        FormulaM::Imply { left, right, not_left } => spec_backward_ok(*left, k)
            && spec_backward_ok(*right, k) && spec_backward_ok(*not_left, k),
        FormulaM::Not(b) => spec_backward_ok(*b, k),
        FormulaM::O(b) => spec_backward_ok(*b, k),
        _ => {
            let i = spec_get_interval(f).unwrap();
            k <= i.upper && i32::MIN <= i.lower - k <= i32::MAX && i32::MIN <= i.upper - k
                <= i32::MAX
        },
    }
}

pub open spec fn backward_ok_prefix(s: Seq<FormulaM>, k: int, n: int) -> bool
    decreases s, n,
{
    if n <= 0 || n > s.len() {
        true
    } else {
        backward_ok_prefix(s, k, n - 1) && spec_backward_ok(s[n - 1], k)
    }
}

/// The formula moved back by `k`: the outermost temporal operators get their intervals
/// shifted left by `k` (lower bounds clamped at 0); their operands are untouched.
pub open spec fn spec_shift_backward(f: FormulaM, k: int) -> FormulaM
    decreases f, 0int,
{
    match f {
        FormulaM::Prop(_) => f,
        FormulaM::And(s) => FormulaM::And(backward_each(s, k)),
        FormulaM::Or(s) => FormulaM::Or(backward_each(s, k)),
        FormulaM::Imply { left, right, not_left } => FormulaM::Imply {
            left: Box::new(spec_shift_backward(*left, k)),
            right: Box::new(spec_shift_backward(*right, k)),
            not_left: Box::new(spec_shift_backward(*not_left, k)),
        },
        FormulaM::Not(b) => FormulaM::Not(Box::new(spec_shift_backward(*b, k))),
        FormulaM::O(b) => FormulaM::O(Box::new(spec_shift_backward(*b, k))),
        _ => spec_with_interval(f, spec_shift_left(spec_get_interval(f).unwrap(), k).unwrap()),
    }
}

pub open spec fn backward_each(s: Seq<FormulaM>, k: int) -> Seq<FormulaM>
    decreases s, 1int,
{
    Seq::new(s.len(), |i: int| backward_at(s, k, i))
}

pub open spec fn backward_at(s: Seq<FormulaM>, k: int, i: int) -> FormulaM
    decreases s, 0int,
{
    if 0 <= i < s.len() {
        spec_shift_backward(s[i], k)
    } else {
        FormulaM::And(Seq::empty())
    }
}

/// Every temporal operator takes into its own interval the least lower bound of its
/// operand(s), whose outermost temporal operators move back by as much; applied bottom-up.
pub open spec fn spec_shift_bounds(f: FormulaM) -> FormulaM
    decreases f, 0int,
{
    match f {
        FormulaM::Prop(_) => f,
        FormulaM::And(s) => FormulaM::And(bounds_each(s)),
        FormulaM::Or(s) => FormulaM::Or(bounds_each(s)),
        FormulaM::Imply { left, right, not_left } => FormulaM::Imply {
            left: Box::new(spec_shift_bounds(*left)),
            right: Box::new(spec_shift_bounds(*right)),
            not_left: Box::new(spec_shift_bounds(*not_left)),
        },
        FormulaM::Not(b) => FormulaM::Not(Box::new(spec_shift_bounds(*b))),
        FormulaM::O(b) => FormulaM::O(Box::new(spec_shift_bounds(*b))),
        FormulaM::G { interval, phi, .. } | FormulaM::F { interval, phi, .. } => {
            let p = spec_shift_bounds(*phi);
            match spec_get_shift(p) {
                Some(k) => spec_with_operand(
                    spec_with_interval(f, spec_shift_right(interval, k as int)),
                    spec_shift_backward(p, k as int),
                ),
                None => spec_with_operand(f, p),
            }
        },
        FormulaM::U { interval, left, right, .. } | FormulaM::R { interval, left, right, .. } => {
            let l = spec_shift_bounds(*left);
            let r = spec_shift_bounds(*right);
            match min_shift(spec_get_shift(l), spec_get_shift(r)) {
                Some(k) => spec_with_operand_couple(
                    spec_with_interval(f, spec_shift_right(interval, k as int)),
                    spec_shift_backward(l, k as int),
                    spec_shift_backward(r, k as int),
                ),
                None => spec_with_operand_couple(f, l, r),
            }
        },
    }
}

pub open spec fn bounds_each(s: Seq<FormulaM>) -> Seq<FormulaM>
    decreases s, 1int,
{
    Seq::new(s.len(), |i: int| bounds_at(s, i))
}

pub open spec fn bounds_at(s: Seq<FormulaM>, i: int) -> FormulaM
    decreases s, 0int,
{
    if 0 <= i < s.len() {
        spec_shift_bounds(s[i])
    } else {
        FormulaM::And(Seq::empty())
    }
}

/// Shifting bounds is defined throughout: no interval overflows and every backward move
/// is defined.
pub open spec fn spec_shift_bounds_ok(f: FormulaM) -> bool
    decreases f,
{
    match f {
        FormulaM::Prop(_) => true,
        FormulaM::And(s) => bounds_ok_prefix(s, s.len() as int),
        FormulaM::Or(s) => bounds_ok_prefix(s, s.len() as int),
        FormulaM::Imply { left, right, not_left } => spec_shift_bounds_ok(*left)
            && spec_shift_bounds_ok(*right) && spec_shift_bounds_ok(*not_left),
        FormulaM::Not(b) => spec_shift_bounds_ok(*b),
        FormulaM::O(b) => spec_shift_bounds_ok(*b),
        FormulaM::G { interval, phi, .. } | FormulaM::F { interval, phi, .. } => {
            spec_shift_bounds_ok(*phi) && match spec_get_shift(spec_shift_bounds(*phi)) {
                Some(k) => shift_fits(interval, k as int) && spec_backward_ok(
                    spec_shift_bounds(*phi),
                    k as int,
                ),
                None => true,
            }
        },
        FormulaM::U { interval, left, right, .. } | FormulaM::R { interval, left, right, .. } => {
            spec_shift_bounds_ok(*left) && spec_shift_bounds_ok(*right) && match min_shift(
                spec_get_shift(spec_shift_bounds(*left)),
                spec_get_shift(spec_shift_bounds(*right)),
            ) {
                Some(k) => shift_fits(interval, k as int) && spec_backward_ok(
                    spec_shift_bounds(*left),
                    k as int,
                ) && spec_backward_ok(spec_shift_bounds(*right), k as int),
                None => true,
            }
        },
    }
}

pub open spec fn shift_fits(i: Interval, k: int) -> bool {
    i32::MIN <= i.lower + k <= i32::MAX && i32::MIN <= i.upper + k <= i32::MAX
}

pub open spec fn bounds_ok_prefix(s: Seq<FormulaM>, n: int) -> bool
    decreases s, n,
{
    if n <= 0 || n > s.len() {
        true
    } else {
        bounds_ok_prefix(s, n - 1) && spec_shift_bounds_ok(s[n - 1])
    }
}

fn min_shift_exec(a: Option<i32>, b: Option<i32>) -> (r: Option<i32>)
    ensures
        r == min_shift(a, b),
{
    match (a, b) {
        (Some(x), Some(y)) => Some(if x <= y { x } else { y }),
        _ => None,
    }
}

impl Formula {
    /// How far the formula can be moved back (see `spec_get_shift`).
    pub fn get_shift(&self) -> (r: Option<i32>)
        ensures
            r == spec_get_shift(self@),
        decreases self,
    {
        match self {
            Formula::And(v) | Formula::Or(v) => {
                proof {
                    lemma_view_junction(*v);
                }
                let mut acc: Option<i32> = None;
                let mut i: usize = 0;
                while i < v.len()
                    invariant
                        operands_of(*self, *v),
                        i <= v@.len(),
                        acc == shift_prefix(fviews(v@), i as int),
                    decreases v@.len() - i,
                {
                    proof {
                        lemma_operand_decreases(*self, *v, i as int);
                    }
                    let k = v[i].get_shift();
                    acc = if i == 0 {
                        k
                    } else {
                        min_shift_exec(acc, k)
                    };
                    i += 1;
                }
                acc
            },
            Formula::Imply { left, right, not_left } => {
                let a = min_shift_exec(left.get_shift(), right.get_shift());
                min_shift_exec(a, not_left.get_shift())
            },
            _ => self.lower_bound(),
        }
    }
}

/// Whether moving back by `k` is defined.
pub fn backward_ok(f: &Formula, k: i32) -> (r: bool)
    ensures
        r == spec_backward_ok(f@, k as int),
    decreases f, 1nat,
{
    match f {
        Formula::Prop(_) => true,
        Formula::And(v) | Formula::Or(v) => {
            proof {
                lemma_view_junction(*v);
            }
            let mut i: usize = 0;
            while i < v.len()
                invariant
                    operands_of(*f, *v),
                    f@ == FormulaM::And(fviews(v@)) || f@ == FormulaM::Or(fviews(v@)),
                    i <= v@.len(),
                    backward_ok_prefix(fviews(v@), k as int, i as int),
                decreases v@.len() - i,
            {
                proof {
                    lemma_operand_decreases(*f, *v, i as int);
                }
                assert(fviews(v@)[i as int] == v@[i as int]@);
                if !backward_ok(&v[i], k) {
                    proof {
                        lemma_backward_ok_prefix_false(fviews(v@), k as int, i as int, v@.len() as int);
                        assert(f@ == FormulaM::And(fviews(v@)) || f@ == FormulaM::Or(fviews(v@)));
                    }
                    return false;
                }
                i += 1;
            }
            true
        },
        Formula::Imply { left, right, not_left } => backward_ok(left, k) && backward_ok(right, k)
            && backward_ok(not_left, k),
        Formula::Not(b) | Formula::O(b) => backward_ok(b, k),
        Formula::G { interval, .. } | Formula::F { interval, .. } | Formula::U { interval, .. }
        | Formula::R { interval, .. } => {
            let lk = (interval.lower as i64) - (k as i64);
            let uk = (interval.upper as i64) - (k as i64);
            (k as i64) <= (interval.upper as i64) && lk >= (i32::MIN as i64) && lk <= (
            i32::MAX as i64) && uk >= (i32::MIN as i64) && uk <= (i32::MAX as i64)
        },
    }
}

proof fn lemma_backward_ok_prefix_false(s: Seq<FormulaM>, k: int, i: int, n: int)
    requires
        0 <= i < n <= s.len(),
        !spec_backward_ok(s[i], k),
    ensures
        !backward_ok_prefix(s, k, n),
    decreases n,
{
    if i < n - 1 {
        lemma_backward_ok_prefix_false(s, k, i, n - 1);
    }
}

proof fn lemma_backward_ok_prefix(s: Seq<FormulaM>, k: int, n: int, i: int)
    requires
        backward_ok_prefix(s, k, n),
        0 <= i < n <= s.len(),
    ensures
        spec_backward_ok(s[i], k),
    decreases n,
{
    if i < n - 1 {
        lemma_backward_ok_prefix(s, k, n - 1, i);
    }
}

/// The formula moved back by `k` (see `spec_shift_backward`).
pub fn shift_backward(f: &Formula, k: i32) -> (r: Formula)
    requires
        spec_backward_ok(f@, k as int),
    ensures
        r@ == spec_shift_backward(f@, k as int),
    decreases f, 1nat,
{
    match f {
        Formula::Prop(_) => f.clone(),
        Formula::And(v) | Formula::Or(v) => {
            proof {
                lemma_view_junction(*v);
            }
            let mut out: Vec<Formula> = Vec::new();
            let mut i: usize = 0;
            while i < v.len()
                invariant
                    operands_of(*f, *v),
                    backward_ok_prefix(fviews(v@), k as int, v@.len() as int),
                    i <= v@.len(),
                    out@.len() == i,
                    forall|j: int| 0 <= j < i ==> fview(#[trigger] out@[j]) == spec_shift_backward(v@[j]@, k as int),
                decreases v@.len() - i,
            {
                proof {
                    lemma_operand_decreases(*f, *v, i as int);
                    lemma_backward_ok_prefix(fviews(v@), k as int, v@.len() as int, i as int);
                }
                out.push(shift_backward(&v[i], k));
                i += 1;
            }
            proof {
                lemma_view_junction(out);
                assert forall|j: int| 0 <= j < v@.len() implies fviews(out@)[j] == backward_each(fviews(v@), k as int)[j] by {
                    assert(backward_each(fviews(v@), k as int)[j] == backward_at(fviews(v@), k as int, j));
                }
                assert(fviews(out@) =~= backward_each(fviews(v@), k as int));
            }
            f.with_operands(out)
        },
        Formula::Imply { left, right, not_left } => f.with_implication(
            shift_backward(left, k),
            shift_backward(right, k),
            shift_backward(not_left, k),
        ),
        Formula::Not(b) | Formula::O(b) => f.with_operand(shift_backward(b, k)),
        Formula::G { interval, .. } | Formula::F { interval, .. } | Formula::U { interval, .. }
        | Formula::R { interval, .. } => {
            let moved = interval.shift_left(k).unwrap();
            f.with_interval(moved)
        },
    }
}

/// The formula with bounds shifted (see `spec_shift_bounds`); `None` exactly when this is
/// not defined.
pub fn try_shift_bounds(f: &Formula) -> (r: Option<Formula>)
    ensures
        r is Some <==> spec_shift_bounds_ok(f@),
        r matches Some(g) ==> g@ == spec_shift_bounds(f@),
    decreases f, 1nat,
{
    match f {
        Formula::Prop(_) => Some(f.clone()),
        Formula::And(v) | Formula::Or(v) => {
            proof {
                lemma_view_junction(*v);
            }
            let mut out: Vec<Formula> = Vec::new();
            let mut i: usize = 0;
            while i < v.len()
                invariant
                    operands_of(*f, *v),
                    f@ == FormulaM::And(fviews(v@)) || f@ == FormulaM::Or(fviews(v@)),
                    i <= v@.len(),
                    out@.len() == i,
                    bounds_ok_prefix(fviews(v@), i as int),
                    forall|j: int| 0 <= j < i ==> fview(#[trigger] out@[j]) == spec_shift_bounds(v@[j]@),
                decreases v@.len() - i,
            {
                proof {
                    lemma_operand_decreases(*f, *v, i as int);
                }
                assert(fviews(v@)[i as int] == v@[i as int]@);
                match try_shift_bounds(&v[i]) {
                    Some(g) => out.push(g),
                    None => {
                        proof {
                            lemma_bounds_ok_prefix_false(fviews(v@), i as int, v@.len() as int);
                            assert(f@ == FormulaM::And(fviews(v@)) || f@ == FormulaM::Or(fviews(v@)));
                        }
                        return None;
                    },
                }
                i += 1;
            }
            proof {
                lemma_view_junction(out);
                assert forall|j: int| 0 <= j < v@.len() implies fviews(out@)[j] == bounds_each(fviews(v@))[j] by {
                    assert(bounds_each(fviews(v@))[j] == bounds_at(fviews(v@), j));
                }
                assert(fviews(out@) =~= bounds_each(fviews(v@)));
            }
            Some(f.with_operands(out))
        },
        Formula::Imply { left, right, not_left } => {
            let l = try_shift_bounds(left)?;
            let r = try_shift_bounds(right)?;
            let n = try_shift_bounds(not_left)?;
            Some(f.with_implication(l, r, n))
        },
        Formula::Not(b) | Formula::O(b) => {
            let g = try_shift_bounds(b)?;
            Some(f.with_operand(g))
        },
        Formula::G { interval, phi, .. } | Formula::F { interval, phi, .. } => {
            let p = try_shift_bounds(phi)?;
            match p.get_shift() {
                Some(k) => {
                    let fits = (interval.lower as i64) + (k as i64) >= (i32::MIN as i64)
                        && (interval.lower as i64) + (k as i64) <= (i32::MAX as i64)
                        && (interval.upper as i64) + (k as i64) >= (i32::MIN as i64)
                        && (interval.upper as i64) + (k as i64) <= (i32::MAX as i64);
                    if !fits || !backward_ok(&p, k) {
                        return None;
                    }
                    let moved = f.with_interval(interval.shift_right(k));
                    Some(moved.with_operand(shift_backward(&p, k)))
                },
                None => Some(f.with_operand(p)),
            }
        },
        Formula::U { interval, left, right, .. } | Formula::R { interval, left, right, .. } => {
            let l = try_shift_bounds(left)?;
            let r = try_shift_bounds(right)?;
            match min_shift_exec(l.get_shift(), r.get_shift()) {
                Some(k) => {
                    let fits = (interval.lower as i64) + (k as i64) >= (i32::MIN as i64)
                        && (interval.lower as i64) + (k as i64) <= (i32::MAX as i64)
                        && (interval.upper as i64) + (k as i64) >= (i32::MIN as i64)
                        && (interval.upper as i64) + (k as i64) <= (i32::MAX as i64);
                    if !fits || !backward_ok(&l, k) || !backward_ok(&r, k) {
                        return None;
                    }
                    let moved = f.with_interval(interval.shift_right(k));
                    Some(moved.with_operand_couple(shift_backward(&l, k), shift_backward(&r, k)))
                },
                None => Some(f.with_operand_couple(l, r)),
            }
        },
    }
}

proof fn lemma_bounds_ok_prefix_false(s: Seq<FormulaM>, i: int, n: int)
    requires
        0 <= i < n <= s.len(),
        !spec_shift_bounds_ok(s[i]),
    ensures
        !bounds_ok_prefix(s, n),
    decreases n,
{
    if i < n - 1 {
        lemma_bounds_ok_prefix_false(s, i, n - 1);
    }
}

/// Every operand can have its bounds shifted.
pub open spec fn spec_node_shift_ok(s: Seq<FormulaM>) -> bool {
    forall|i: int| 0 <= i < s.len() ==> spec_shift_bounds_ok(#[trigger] s[i])
}

pub open spec fn map_shift_bounds(s: Seq<FormulaM>) -> Seq<FormulaM> {
    Seq::new(s.len(), |i: int| spec_shift_bounds(s[i]))
}

impl Node {
    /// Shifts the bounds of every operand (see `spec_shift_bounds`).
    pub fn shift_bounds(&mut self)
        requires
            spec_node_shift_ok(ops(old(self))),
        ensures
            ops(final(self)) == map_shift_bounds(ops(old(self))),
            final(self).current_time == old(self).current_time,
            final(self).implies == old(self).implies,
            final(self).id == old(self).id,
    {
        let done = self.try_shift_bounds();
        assert(done);
    }

    /// Shifts the bounds of every operand when that is defined for all of them, and says
    /// whether it was; otherwise the node is left as it is.
    pub fn try_shift_bounds(&mut self) -> (r: bool)
        ensures
            r == spec_node_shift_ok(ops(old(self))),
            r ==> ops(final(self)) == map_shift_bounds(ops(old(self))),
            !r ==> ops(final(self)) == ops(old(self)),
            final(self).current_time == old(self).current_time,
            final(self).implies == old(self).implies,
            final(self).id == old(self).id,
    {
        let mut res: Vec<Formula> = Vec::new();
        let mut i: usize = 0;
        while i < self.operands.len()
            invariant
                i <= self.operands@.len(),
                res@.len() == i,
                forall|j: int| 0 <= j < i ==> spec_shift_bounds_ok(#[trigger] ops(self)[j]),
                forall|j: int| 0 <= j < i ==> fview(#[trigger] res@[j]) == spec_shift_bounds(ops(self)[j]),
            decreases self.operands@.len() - i,
        {
            assert(ops(self)[i as int] == self.operands@[i as int]@);
            match try_shift_bounds(&self.operands[i]) {
                Some(g) => res.push(g),
                None => {
                    return false;
                },
            }
            i += 1;
        }
        assert(fviews(res@) =~= map_shift_bounds(ops(self)));
        self.operands = res;
        true
    }
}

} // verus!
