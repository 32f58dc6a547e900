use vstd::prelude::*;

use crate::formula::{fviews, lemma_view_junction, lemma_operand_decreases, operands_of, Formula, FormulaM};
use crate::interval::Interval;
use crate::node::{ops, Node};

verus! {

/// The largest magnitude of an instant or a bound that the tableau rules take: the rules
/// add up to three such values (a bound, the current instant and a jump, or a bound shifted
/// twice), and `i32::MAX / 3` is the largest magnitude for which every such sum fits in an
/// `i32` (a jump spans up to twice the limit, and is added to a bound).
pub const TIME_LIMIT: i32 = 0x2AAA_AAAA;

pub open spec fn in_range(x: int) -> bool {
    -TIME_LIMIT <= x <= TIME_LIMIT
}

pub open spec fn interval_in_range(i: Interval) -> bool {
    in_range(i.lower as int) && in_range(i.upper as int)
}

pub open spec fn parent_in_range(p: Option<i32>) -> bool {
    match p {
        Some(u) => in_range(u as int),
        None => true,
    }
}

/// Every interval bound and recorded parent bound of the formula is in range.
pub open spec fn spec_bounded(f: FormulaM) -> bool
    decreases f,
{
    match f {
        FormulaM::Prop(_) => true,
        FormulaM::And(s) => bounded_prefix(s, s.len() as int),
        FormulaM::Or(s) => bounded_prefix(s, s.len() as int),
        FormulaM::Imply { left, right, not_left } => spec_bounded(*left) && spec_bounded(*right)
            && spec_bounded(*not_left),
        FormulaM::Not(b) => spec_bounded(*b),
        FormulaM::O(b) => spec_bounded(*b),
        FormulaM::G { interval, parent_upper, phi } => interval_in_range(interval)
            && parent_in_range(parent_upper) && spec_bounded(*phi),
        FormulaM::F { interval, parent_upper, phi } => interval_in_range(interval)
            && parent_in_range(parent_upper) && spec_bounded(*phi),
        FormulaM::U { interval, parent_upper, left, right } => interval_in_range(interval)
            && parent_in_range(parent_upper) && spec_bounded(*left) && spec_bounded(*right),
        FormulaM::R { interval, parent_upper, left, right } => interval_in_range(interval)
            && parent_in_range(parent_upper) && spec_bounded(*left) && spec_bounded(*right),
    }
}

/// The first `n` formulas of `s` are bounded.
pub open spec fn bounded_prefix(s: Seq<FormulaM>, n: int) -> bool
    decreases s, n,
{
    if n <= 0 || n > s.len() {
        true
    } else {
        bounded_prefix(s, n - 1) && spec_bounded(s[n - 1])
    }
}

pub proof fn lemma_bounded_prefix(s: Seq<FormulaM>, n: int, i: int)
    requires
        bounded_prefix(s, n),
        0 <= i < n <= s.len(),
    ensures
        spec_bounded(s[i]),
    decreases n,
{
    if i < n - 1 {
        lemma_bounded_prefix(s, n - 1, i);
    }
}

pub proof fn lemma_bounded_all(s: Seq<FormulaM>, n: int)
    requires
        0 <= n <= s.len(),
        forall|i: int| 0 <= i < n ==> spec_bounded(#[trigger] s[i]),
    ensures
        bounded_prefix(s, n),
    decreases n,
{
    if n > 0 {
        lemma_bounded_all(s, n - 1);
    }
}

/// Every operand is bounded and the node's instant is in range.
pub open spec fn spec_node_bounded(s: Seq<FormulaM>, t: int) -> bool {
    &&& in_range(t)
    &&& forall|i: int| 0 <= i < s.len() ==> spec_bounded(#[trigger] s[i])
}

fn in_range_exec(x: i32) -> (r: bool)
    ensures
        r == in_range(x as int),
{
    -TIME_LIMIT <= x && x <= TIME_LIMIT
}

fn interval_in_range_exec(i: &Interval) -> (r: bool)
    ensures
        r == interval_in_range(*i),
{
    in_range_exec(i.lower) && in_range_exec(i.upper)
}

fn parent_in_range_exec(p: Option<i32>) -> (r: bool)
    ensures
        r == parent_in_range(p),
{
    match p {
        Some(u) => in_range_exec(u),
        None => true,
    }
}

/// Whether every bound of the formula is in range.
pub fn is_bounded(f: &Formula) -> (r: bool)
    ensures
        r == spec_bounded(f@),
    decreases f, 1nat,
{
    match f {
        Formula::Prop(_) => true,
        Formula::And(v) | Formula::Or(v) => {
            proof {
                lemma_view_junction(*v);
            }
            all_bounded(f, v)
        },
        Formula::Imply { left, right, not_left } => is_bounded(left) && is_bounded(right)
            && is_bounded(not_left),
        Formula::Not(b) | Formula::O(b) => is_bounded(b),
        Formula::G { interval, parent_upper, phi } | Formula::F { interval, parent_upper, phi } => {
            interval_in_range_exec(interval) && parent_in_range_exec(*parent_upper) && is_bounded(
                phi,
            )
        },
        Formula::U { interval, parent_upper, left, right }
        | Formula::R { interval, parent_upper, left, right } => {
            interval_in_range_exec(interval) && parent_in_range_exec(*parent_upper) && is_bounded(
                left,
            ) && is_bounded(right)
        },
    }
}

fn all_bounded(f: &Formula, v: &Vec<Formula>) -> (r: bool)
    requires
        operands_of(*f, *v),
    ensures
        r == bounded_prefix(fviews(v@), v@.len() as int),
    decreases f, 0nat,
{
    let mut i: usize = 0;
    while i < v.len()
        invariant
            operands_of(*f, *v),
            i <= v.len(),
            bounded_prefix(fviews(v@), i as int),
        decreases v.len() - i,
    {
        proof {
            lemma_operand_decreases(*f, *v, i as int);
        }
        if !is_bounded(&v[i]) {
            proof {
                if bounded_prefix(fviews(v@), v@.len() as int) {
                    lemma_bounded_prefix(fviews(v@), v@.len() as int, i as int);
                }
            }
            return false;
        }
        i += 1;
    }
    true
}

impl Node {
    /// Whether the node's instant and all bounds of its operands are in range.
    pub fn is_bounded(&self) -> (r: bool)
        ensures
            r == spec_node_bounded(ops(self), self.current_time as int),
    {
        if !in_range_exec(self.current_time) {
            return false;
        }
        let mut i: usize = 0;
        while i < self.operands.len()
            invariant
                i <= self.operands@.len(),
                forall|j: int| 0 <= j < i ==> spec_bounded(#[trigger] ops(self)[j]),
            decreases self.operands@.len() - i,
        {
            if !is_bounded(&self.operands[i]) {
                assert(!spec_bounded(ops(self)[i as int]));
                return false;
            }
            i += 1;
        }
        true
    }
}

} // verus!
