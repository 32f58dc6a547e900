use vstd::prelude::*;

use crate::formula::{
    fview, fviews, lemma_view_and, spec_is_active_at, Formula, FormulaM, IdGen,
};
use crate::transform::{
    flat, lemma_fviews_concat, mltl, nnf, spec_flat, spec_mltl, spec_nnf,
};

verus! {

/// A tableau node: the formulas that must hold together at instant `current_time`.
///
/// `implies` is set on a node produced by the simple-first rule: it lists the nodes whose
/// satisfiability its own satisfiability settles.
#[derive(Debug)]
pub struct Node {
    pub operands: Vec<Formula>,
    pub current_time: i32,
    pub implies: Option<Vec<usize>>,
    pub id: usize,
}

/// The model of a node's operands.
pub open spec fn ops(n: &Node) -> Seq<FormulaM> {
    fviews(n.operands@)
}

/// Every operand is a proposition, a negation, a postponed obligation, or a temporal
/// operator that is not active at `t`.
pub open spec fn spec_is_poised(s: Seq<FormulaM>, t: int) -> bool {
    forall|i: int|
        0 <= i < s.len() ==> (#[trigger] s[i] is Prop || s[i] is Not || s[i] is O
            || !spec_is_active_at(s[i], t))
}

/// A single operand stands for itself; several (or none) for their conjunction.
pub open spec fn spec_to_formula(s: Seq<FormulaM>) -> FormulaM {
    if s.len() == 1 {
        s[0]
    } else {
        FormulaM::And(s)
    }
}

/// The operands after `f` is rewritten into each of them.
pub open spec fn map_mltl(s: Seq<FormulaM>) -> Seq<FormulaM> {
    Seq::new(s.len(), |i: int| spec_mltl(s[i]))
}

pub open spec fn map_nnf(s: Seq<FormulaM>) -> Seq<FormulaM> {
    Seq::new(s.len(), |i: int| spec_nnf(s[i]))
}

/// A flattened operand, spliced into the node when it is a conjunction.
pub open spec fn flatten_piece(g: FormulaM) -> Seq<FormulaM> {
    match g {
        FormulaM::And(s) => s,
        _ => seq![g],
    }
}

/// The first `n` operands of `s`, each flattened, conjunctions spliced in.
pub open spec fn flatten_prefix(s: Seq<FormulaM>, n: int) -> Seq<FormulaM>
    decreases n,
{
    if n <= 0 || n > s.len() {
        Seq::empty()
    } else {
        flatten_prefix(s, n - 1) + flatten_piece(spec_flat(s[n - 1]))
    }
}

pub open spec fn spec_flatten(s: Seq<FormulaM>) -> Seq<FormulaM> {
    flatten_prefix(s, s.len() as int)
}

impl Node {
    /// A node at instant 0 holding `operands`, with the next identifier of `ids`.
    pub fn from_operands(operands: Vec<Formula>, ids: &mut IdGen) -> (r: Node)
        ensures
            r.operands@ == operands@,
            r.current_time == 0,
            r.implies is None,
            r.id == old(ids).next,
            final(ids).next == (if old(ids).next == usize::MAX { 0 } else { (old(ids).next
                + 1) as usize }),
    {
        let id = ids.fresh();
        Node { operands, current_time: 0, implies: None, id }
    }

    /// A copy with the same operands and instant, a fresh identifier and no `implies`.
    pub fn duplicate(&self, ids: &mut IdGen) -> (r: Node)
        ensures
            ops(&r) == ops(self),
            r.current_time == self.current_time,
            r.implies is None,
            r.id == old(ids).next,
            final(ids).next == (if old(ids).next == usize::MAX { 0 } else { (old(ids).next
                + 1) as usize }),
    {
        let operands = crate::formula::clone_formulas(&self.operands);
        let id = ids.fresh();
        Node { operands, current_time: self.current_time, implies: None, id }
    }

    /// No rule other than a jump in time applies at the current instant.
    pub fn is_poised(&self) -> (r: bool)
        ensures
            r == spec_is_poised(ops(self), self.current_time as int),
    {
        let mut i: usize = 0;
        while i < self.operands.len()
            invariant
                i <= self.operands@.len(),
                forall|j: int|
                    0 <= j < i ==> (#[trigger] ops(self)[j] is Prop || ops(self)[j] is Not
                        || ops(self)[j] is O || !spec_is_active_at(
                        ops(self)[j],
                        self.current_time as int,
                    )),
            decreases self.operands@.len() - i,
        {
            let f = &self.operands[i];
            match f {
                Formula::Prop(_) | Formula::Not(_) | Formula::O(_) => {},
                _ => {
                    if f.is_active_at(self.current_time) {
                        assert(!(ops(self)[i as int] is Prop || ops(self)[i as int] is Not
                            || ops(self)[i as int] is O));
                        return false;
                    }
                },
            }
            i += 1;
        }
        true
    }

    /// The formula the node stands for.
    pub fn to_formula(&self) -> (r: Formula)
        ensures
            r@ == spec_to_formula(ops(self)),
    {
        if self.operands.len() == 1 {
            self.operands[0].clone()
        } else {
            let v = crate::formula::clone_formulas(&self.operands);
            proof {
                lemma_view_and(v);
            }
            Formula::And(v)
        }
    }

    /// Rewrites `U` and `R` for the semantics that let the left operand hold up to the
    /// start of the interval.
    pub fn mltl_rewrite(&mut self)
        ensures
            ops(final(self)) == map_mltl(ops(old(self))),
            final(self).current_time == old(self).current_time,
            final(self).implies == old(self).implies,
            final(self).id == old(self).id,
    {
        let mut res: Vec<Formula> = Vec::new();
        let mut i: usize = 0;
        while i < self.operands.len()
            invariant
                i <= self.operands@.len(),
                res@.len() == i,
                forall|j: int| 0 <= j < i ==> fview(#[trigger] res@[j]) == spec_mltl(ops(self)[j]),
            decreases self.operands@.len() - i,
        {
            let g = mltl(&self.operands[i]);
            res.push(g);
            i += 1;
        }
        assert(fviews(res@) =~= map_mltl(ops(self)));
        self.operands = res;
    }

    /// Pushes negations inwards in every operand.
    pub fn negative_normal_form_rewrite(&mut self)
        ensures
            ops(final(self)) == map_nnf(ops(old(self))),
            final(self).current_time == old(self).current_time,
            final(self).implies == old(self).implies,
            final(self).id == old(self).id,
    {
        let mut res: Vec<Formula> = Vec::new();
        let mut i: usize = 0;
        while i < self.operands.len()
            invariant
                i <= self.operands@.len(),
                res@.len() == i,
                forall|j: int| 0 <= j < i ==> fview(#[trigger] res@[j]) == spec_nnf(ops(self)[j]),
            decreases self.operands@.len() - i,
        {
            let g = nnf(&self.operands[i]);
            res.push(g);
            i += 1;
        }
        assert(fviews(res@) =~= map_nnf(ops(self)));
        self.operands = res;
    }

    /// Flattens every operand and splices top-level conjunctions into the node.
    pub fn flatten(&mut self)
        ensures
            ops(final(self)) == spec_flatten(ops(old(self))),
            final(self).current_time == old(self).current_time,
            final(self).implies == old(self).implies,
            final(self).id == old(self).id,
    {
        let mut res: Vec<Formula> = Vec::new();
        let mut i: usize = 0;
        while i < self.operands.len()
            invariant
                i <= self.operands@.len(),
                fviews(res@) == flatten_prefix(ops(self), i as int),
            decreases self.operands@.len() - i,
        {
            let g = flat(&self.operands[i]);
            let ghost before = res@;
            let ghost gv = g@;
            match g {
                Formula::And(mut inner) => {
                    proof {
                        lemma_view_and(inner);
                        lemma_fviews_concat(before, inner@);
                    }
                    res.append(&mut inner);
                },
                other => {
                    proof {
                        lemma_fviews_concat(before, seq![other]);
                        assert(fviews(seq![other]) =~= seq![other@]);
                    }
                    res.push(other);
                    assert(res@ =~= before + seq![other]);
                },
            }
            assert(fviews(res@) == flatten_prefix(ops(self), i + 1));
            i += 1;
        }
        self.operands = res;
    }
}

} // verus!
