use vstd::prelude::*;

use crate::bounds::{in_range, spec_bounded, spec_node_bounded, TIME_LIMIT};
use crate::formula::{clone_formulas, formula_eq, fviews, spec_get_interval, Formula, FormulaM};
use crate::interval::{spec_contains, spec_shift_left};
use crate::node::{ops, Node};

verus! {

/// `f` stands for `g`, `f` seen from instant `st` and `g` from `ot`: equal formulas
/// without interval; two `G` with the same operand where, seen from their instants, the
/// first interval contains the second; two `F` with the same operand where the second
/// interval contains the first.
pub open spec fn spec_quick_implies(f: FormulaM, g: FormulaM, st: int, ot: int) -> bool {
    if spec_get_interval(f) is None && spec_get_interval(g) is None {
        f == g
    } else {
        match (f, g) {
            (FormulaM::G { interval: i1, phi: f1, .. }, FormulaM::G { interval: i2, phi: f2, .. }) => {
                match (spec_shift_left(i1, st), spec_shift_left(i2, ot)) {
                    (Some(a), Some(b)) => spec_contains(a, b) && f1 == f2,
                    _ => false,
                }
            },
            (FormulaM::F { interval: i1, phi: f1, .. }, FormulaM::F { interval: i2, phi: f2, .. }) => {
                match (spec_shift_left(i1, st), spec_shift_left(i2, ot)) {
                    (Some(a), Some(b)) => spec_contains(b, a) && f1 == f2,
                    _ => false,
                }
            },
            _ => false,
        }
    }
}

impl Formula {
    pub fn quick_implies(&self, other: &Formula, self_time: i32, other_time: i32) -> (r: bool)
        requires
            spec_bounded(self@),
            spec_bounded(other@),
            in_range(self_time as int),
            in_range(other_time as int),
        ensures
            r == spec_quick_implies(self@, other@, self_time as int, other_time as int),
    {
        if self.get_interval().is_none() && other.get_interval().is_none() {
            return formula_eq(self, other);
        }
        match (self, other) {
            (Formula::G { interval: i1, phi: f1, .. }, Formula::G { interval: i2, phi: f2, .. }) => {
                match (i1.shift_left(self_time), i2.shift_left(other_time)) {
                    (Some(a), Some(b)) => a.contains(&b) && formula_eq(f1, f2),
                    _ => false,
                }
            },
            (Formula::F { interval: i1, phi: f1, .. }, Formula::F { interval: i2, phi: f2, .. }) => {
                match (i1.shift_left(self_time), i2.shift_left(other_time)) {
                    (Some(a), Some(b)) => b.contains(&a) && formula_eq(f1, f2),
                    _ => false,
                }
            },
            _ => false,
        }
    }
}

/// The operands and instant of a node whose subtree was found unsatisfiable.
#[derive(Debug)]
pub struct RejectedNode {
    operands: Vec<Formula>,
    time: i32,
}

/// Every formula of `b` is implied by some formula of `a`, `a` seen from `at`, `b` from `bt`.
pub open spec fn spec_covers(a: Seq<FormulaM>, at: int, b: Seq<FormulaM>, bt: int) -> bool {
    forall|j: int| 0 <= j < b.len() ==> spec_implied_by(a, at, #[trigger] b[j], bt)
}

/// Some formula of `a`, seen from `at`, implies `g` seen from `gt`.
pub open spec fn spec_implied_by(a: Seq<FormulaM>, at: int, g: FormulaM, gt: int) -> bool {
    exists|i: int| 0 <= i < a.len() && #[trigger] spec_quick_implies(a[i], g, at, gt)
}

/// A later instant worth comparing from: a lower bound of `a` after `at`.
pub open spec fn spec_later_start(a: Seq<FormulaM>, at: int, t: int) -> bool {
    exists|i: int|
        0 <= i < a.len() && (#[trigger] spec_get_interval(a[i]) matches Some(iv) && iv.lower == t
            && t > at)
}

/// `a` at `at` implies `b` at `bt`: it covers `b` seen from `at`, or from some later
/// instant where one of its intervals starts.
pub open spec fn spec_node_implies(a: Seq<FormulaM>, at: int, b: Seq<FormulaM>, bt: int) -> bool {
    spec_covers(a, at, b, bt) || exists|t: int| #[trigger] spec_later_start(a, at, t) && spec_covers(a, t, b, bt)
}

/// Seen from `t`, `f` stands for itself: it has no interval, or it is a `G` or an `F`
/// whose interval has not ended before `t`.
pub open spec fn spec_self_comparable(f: FormulaM, t: int) -> bool {
    match f {
        FormulaM::G { interval, .. } => t <= interval.upper,
        FormulaM::F { interval, .. } => t <= interval.upper,
        _ => spec_get_interval(f) is None,
    }
}

/// A node whose operands all stand for themselves at its instant implies itself: once
/// such a node is rejected, meeting it again is recognised.
pub proof fn lemma_node_implies_itself(a: Seq<FormulaM>, t: int)
    requires
        forall|i: int| 0 <= i < a.len() ==> spec_self_comparable(#[trigger] a[i], t),
    ensures
        spec_node_implies(a, t, a, t),
{
    assert forall|j: int| 0 <= j < a.len() implies spec_implied_by(a, t, #[trigger] a[j], t) by {
        assert(spec_self_comparable(a[j], t));
        assert(spec_quick_implies(a[j], a[j], t, t));
    }
}

impl RejectedNode {
    pub closed spec fn operands_view(&self) -> Seq<FormulaM> {
        fviews(self.operands@)
    }

    pub closed spec fn time_view(&self) -> int {
        self.time as int
    }

    pub open spec fn wf(&self) -> bool {
        spec_node_bounded(self.operands_view(), self.time_view())
    }

    pub fn from_node(node: &Node) -> (r: RejectedNode)
        ensures
            r.operands_view() == ops(node),
            r.time_view() == node.current_time,
    {
        RejectedNode { operands: clone_formulas(&node.operands), time: node.current_time }
    }

    pub fn clone_node(&self) -> (r: RejectedNode)
        ensures
            r.operands_view() == self.operands_view(),
            r.time_view() == self.time_view(),
    {
        RejectedNode { operands: clone_formulas(&self.operands), time: self.time }
    }

    fn covers(&self, at: i32, other: &RejectedNode) -> (r: bool)
        requires
            self.wf(),
            other.wf(),
            in_range(at as int),
        ensures
            r == spec_covers(self.operands_view(), at as int, other.operands_view(), other.time_view()),
    {
        let ghost a = self.operands_view();
        let ghost b = other.operands_view();
        let mut j: usize = 0;
        while j < other.operands.len()
            invariant
                self.wf(),
                other.wf(),
                in_range(at as int),
                a == self.operands_view(),
                b == other.operands_view(),
                j <= b.len(),
                forall|k: int| 0 <= k < j ==> spec_implied_by(a, at as int, #[trigger] b[k], other.time as int),
            decreases b.len() - j,
        {
            let rf = &other.operands[j];
            assert(b[j as int] == rf@);
            let mut found = false;
            let mut i: usize = 0;
            while i < self.operands.len()
                invariant
                    self.wf(),
                    other.wf(),
                    in_range(at as int),
                    a == self.operands_view(),
                    b == other.operands_view(),
                    j < b.len(),
                    rf@ == b[j as int],
                    i <= a.len(),
                    found <==> exists|k: int| 0 <= k < i && #[trigger] spec_quick_implies(a[k], b[j as int], at as int, other.time as int),
                decreases a.len() - i,
            {
                let lf = &self.operands[i];
                assert(a[i as int] == lf@);
                if lf.quick_implies(rf, at, other.time) {
                    found = true;
                }
                i += 1;
            }
            if !found {
                return false;
            }
            j += 1;
        }
        true
    }

    /// This rejected node implies `other`, so a node matching this one is rejected too.
    pub fn implies(&self, other: &RejectedNode) -> (r: bool)
        requires
            self.wf(),
            other.wf(),
        ensures
            r == spec_node_implies(self.operands_view(), self.time_view(), other.operands_view(), other.time_view()),
    {
        let ghost a = self.operands_view();
        let ghost b = other.operands_view();
        if self.covers(self.time, other) {
            return true;
        }
        let mut i: usize = 0;
        while i < self.operands.len()
            invariant
                self.wf(),
                other.wf(),
                a == self.operands_view(),
                b == other.operands_view(),
                i <= a.len(),
                !spec_covers(a, self.time as int, b, other.time as int),
                forall|t: int| #[trigger] spec_later_start(a.take(i as int), self.time as int, t) ==> !spec_covers(a, t, b, other.time as int),
            decreases a.len() - i,
        {
            let f = &self.operands[i];
            assert(a[i as int] == f@);
            assert(spec_bounded(a[i as int]));
            let ghost before = a.take(i as int);
            assert forall|t: int| #[trigger] spec_later_start(a.take(i + 1), self.time as int, t) implies spec_later_start(before, self.time as int, t)
                || (spec_get_interval(f@) matches Some(iv) && iv.lower == t && t > self.time) by {
                let k = choose|k: int| 0 <= k < i + 1 && (#[trigger] spec_get_interval(a.take(i + 1)[k]) matches Some(iv) && iv.lower == t && t > self.time);
                if k < i {
                    assert(a.take(i + 1)[k] == before[k]);
                }
            }
            match f.lower_bound() {
                Some(t) => {
                    if t > self.time {
                        if self.covers(t, other) {
                            assert(spec_later_start(a, self.time as int, t as int)) by {
                                assert(spec_get_interval(a[i as int]) matches Some(iv) && iv.lower == t);
                            }
                            return true;
                        }
                    }
                },
                None => {},
            }
            i += 1;
        }
        assert(a.take(a.len() as int) =~= a);
        false
    }
}

/// The rejected nodes met so far.
pub struct Store {
    pub store: Vec<RejectedNode>,
}

impl Store {
    pub open spec fn wf(&self) -> bool {
        forall|k: int| 0 <= k < self.store@.len() ==> (#[trigger] self.store@[k]).wf()
    }

    pub fn new() -> (r: Store)
        ensures
            r.wf(),
            r.store@.len() == 0,
    {
        Store { store: Vec::new() }
    }

    /// Some stored node is implied by `node`.
    pub fn check_rejected(&self, node: &RejectedNode) -> (r: bool)
        requires
            self.wf(),
            node.wf(),
        ensures
            r == exists|k: int| 0 <= k < self.store@.len() && spec_node_implies(
                node.operands_view(),
                node.time_view(),
                (#[trigger] self.store@[k]).operands_view(),
                self.store@[k].time_view(),
            ),
    {
        let mut k: usize = 0;
        while k < self.store.len()
            invariant
                self.wf(),
                node.wf(),
                k <= self.store@.len(),
                forall|j: int| 0 <= j < k ==> !spec_node_implies(
                    node.operands_view(),
                    node.time_view(),
                    (#[trigger] self.store@[j]).operands_view(),
                    self.store@[j].time_view(),
                ),
            decreases self.store@.len() - k,
        {
            if node.implies(&self.store[k]) {
                return true;
            }
            k += 1;
        }
        false
    }

    /// Stores `node` unless a stored node is implied by it.
    pub fn add_rejected(&mut self, node: RejectedNode)
        requires
            old(self).wf(),
            node.wf(),
        ensures
            final(self).wf(),
            (exists|k: int| 0 <= k < old(self).store@.len() && spec_node_implies(
                node.operands_view(),
                node.time_view(),
                (#[trigger] old(self).store@[k]).operands_view(),
                old(self).store@[k].time_view(),
            )) ==> final(self).store@ == old(self).store@,
            !(exists|k: int| 0 <= k < old(self).store@.len() && spec_node_implies(
                node.operands_view(),
                node.time_view(),
                (#[trigger] old(self).store@[k]).operands_view(),
                old(self).store@[k].time_view(),
            )) ==> final(self).store@.len() == old(self).store@.len() + 1 && final(self).store@.last().operands_view()
                == node.operands_view() && final(self).store@.last().time_view() == node.time_view()
                && final(self).store@.drop_last() == old(self).store@,
            spec_node_implies(node.operands_view(), node.time_view(), node.operands_view(), node.time_view())
                ==> exists|k: int| 0 <= k < final(self).store@.len() && spec_node_implies(
                node.operands_view(),
                node.time_view(),
                (#[trigger] final(self).store@[k]).operands_view(),
                final(self).store@[k].time_view(),
            ),
    {
        if !self.check_rejected(&node) {
            let ghost a = node.operands_view();
            let ghost t = node.time_view();
            self.store.push(node);
            assert(self.store@.drop_last() =~= old(self).store@);
            assert(self.store@[self.store@.len() - 1].operands_view() == a);
        }
    }
}

} // verus!
