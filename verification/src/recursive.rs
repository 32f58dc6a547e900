use vstd::prelude::*;

use crate::formula::{lemma_operand_decreases, operands_of, Formula, FormulaM};
use crate::node::{ops, Node};
use crate::store::Store;
use crate::tableau::{spec_normalized, spec_prepared, spec_reaches_leaf, Tableau, TableauOptions};

verus! {

/// The settings of the small tableau tried on a subformula: those given, with a depth
/// limit of 5.
pub open spec fn small_options(options: TableauOptions) -> TableauOptions {
    TableauOptions { max_depth: 5, ..options }
}

/// Within the small tableau's depth limit, the rules reach a leaf from the prepared node
/// that holds `f` alone.
pub open spec fn spec_small_leaf(options: TableauOptions, f: FormulaM) -> bool {
    exists|a: Seq<FormulaM>|
        #[trigger] spec_prepared(small_options(options), seq![f], a) && (spec_normalized(
            small_options(options),
            a,
        ) matches Some(s) && spec_reaches_leaf(small_options(options), s, 0, 5))
}

/// Adds every node of `from` to `into`.
fn copy_rejected(from: &Store, into: &mut Store)
    requires
        from.wf(),
        old(into).wf(),
    ensures
        final(into).wf(),
{
    let mut i: usize = 0;
    while i < from.store.len()
        invariant
            from.wf(),
            into.wf(),
            i <= from.store@.len(),
        decreases from.store@.len() - i,
    {
        let node = from.store[i].clone_node();
        into.add_rejected(node);
        i += 1;
    }
}

/// Runs `local` on `root`, and hands the tableau back with its answer.
fn run_small(local: Tableau, root: Node) -> (r: (Option<bool>, Tableau))
    requires
        local.wf(),
    ensures
        r.1.wf(),
        r.0 == Some(true) ==> exists|a: Seq<FormulaM>|
            #[trigger] spec_prepared(local.options, ops(&root), a) && (spec_normalized(
                local.options,
                a,
            ) matches Some(s) && spec_reaches_leaf(
                local.options,
                s,
                root.current_time as int,
                local.options.max_depth as nat,
            )),
{
    let mut local = local;
    let answer = local.make_tableau_from_root(root);
    (answer, local)
}

impl Tableau {
    /// Refutes `formula` early where a part of it is refuted: a refuted conjunct, all
    /// disjuncts refuted (checked until one is not), a refuted conclusion under a premise
    /// that is not, a refuted operand of `G` or `F`, or a refuted right side of `U` or
    /// `R`; otherwise the answer of a small tableau on `formula`.
    pub fn check_subformulas_recursively(&mut self, formula: &Formula) -> (r: Option<bool>)
        requires
            old(self).wf(),
        ensures
            final(self).wf(),
            final(self).options == old(self).options,
            r == Some(true) ==> spec_small_leaf(old(self).options, formula@),
        decreases formula,
    {
        match formula {
            Formula::And(children) => {
                let mut i: usize = 0;
                while i < children.len()
                    invariant
                        self.wf(),
                        self.options == old(self).options,
                        operands_of(*formula, *children),
                        i <= children@.len(),
                    decreases children@.len() - i,
                {
                    proof {
                        lemma_operand_decreases(*formula, *children, i as int);
                    }
                    if let Some(false) = self.check_subformulas_recursively(&children[i]) {
                        return Some(false);
                    }
                    i += 1;
                }
            },
            Formula::Or(children) => {
                let mut all_unsat = true;
                let mut i: usize = 0;
                while i < children.len() && all_unsat
                    invariant
                        self.wf(),
                        self.options == old(self).options,
                        operands_of(*formula, *children),
                        i <= children@.len(),
                    decreases children@.len() - i,
                {
                    proof {
                        lemma_operand_decreases(*formula, *children, i as int);
                    }
                    match self.check_subformulas_recursively(&children[i]) {
                        Some(false) => {},
                        _ => {
                            all_unsat = false;
                        },
                    }
                    i += 1;
                }
                if all_unsat {
                    return Some(false);
                }
            },
            Formula::Imply { left, right, .. } => {
                let left_unsat = match self.check_subformulas_recursively(left) {
                    Some(false) => true,
                    _ => false,
                };
                let right_unsat = match self.check_subformulas_recursively(right) {
                    Some(false) => true,
                    _ => false,
                };
                if !left_unsat && right_unsat {
                    return Some(false);
                }
            },
            Formula::G { phi, .. } | Formula::F { phi, .. } => {
                if let Some(false) = self.check_subformulas_recursively(phi) {
                    return Some(false);
                }
            },
            Formula::U { right, .. } | Formula::R { right, .. } => {
                if let Some(false) = self.check_subformulas_recursively(right) {
                    return Some(false);
                }
            },
            _ => {},
        }
        self.try_tableau(formula)
    }

    /// A tableau of depth at most 5 on `formula` alone, sharing the rejected nodes both ways.
    fn try_tableau(&mut self, formula: &Formula) -> (r: Option<bool>)
        requires
            old(self).wf(),
        ensures
            final(self).wf(),
            final(self).options == old(self).options,
            r == Some(true) ==> spec_small_leaf(old(self).options, formula@),
    {
        let mut options = self.options;
        options.max_depth = 5;
        assert(options == small_options(self.options));
        let mut local = Tableau::new(options);
        let v = vec![formula.clone()];
        let node = Node::from_operands(v, &mut local.node_ids);
        assert(ops(&node) =~= seq![formula@]);
        if let Some(global_store) = &self.store {
            if let Some(local_store) = &mut local.store {
                copy_rejected(global_store, local_store);
            }
        }
        let result = run_small(local, node);
        if let Some(global_store) = &mut self.store {
            if let Some(local_store) = &result.1.store {
                copy_rejected(local_store, global_store);
            }
        }
        result.0
    }
}

} // verus!
