use stlsat::formula::{Expr, ExprKind, Formula, IdGen};
use stlsat::node::Node;
use stlsat::unsat_core::UnsatCore;

fn atom(id: usize, name: &str) -> Formula {
    Formula::Prop(Expr { id, kind: ExprKind::Atom(name.to_string()) })
}

fn node_of(operands: Vec<Formula>) -> Node {
    let mut node_ids = IdGen::new();
    Node::from_operands(operands, &mut node_ids)
}

#[test]
fn test_unsat_core_new() {
    let core = UnsatCore::new();
    assert_eq!(core.entry_count(), 0);
    assert!(!core.has_root());
    assert_eq!(core.core_len(), 0);
}

#[test]
fn test_initialize_root_node() {
    let mut core = UnsatCore::new();
    let node = node_of(vec![atom(1, "p"), atom(2, "q")]);
    core.initialize_root_node(&node);
    assert!(core.has_root());
    assert_eq!(core.owner_of(1), Some(0));
    assert_eq!(core.owner_of(2), Some(1));
}

#[test]
fn test_get_unsat_core() {
    let mut core = UnsatCore::new();
    let node = node_of(vec![atom(1, "p"), atom(2, "q"), atom(3, "r")]);
    core.initialize_root_node(&node);
    core.add_to_unsat_core(vec![1]);
    core.add_to_unsat_core(vec![3]);
    let unsat_formulas = core.get_unsat_core();
    assert_eq!(unsat_formulas.len(), 2);
    assert!(unsat_formulas.contains(&atom(1, "p")));
    assert!(unsat_formulas.contains(&atom(3, "r")));
}

#[test]
fn unsat_core_single_operand() {
    let mut core = UnsatCore::new();
    let node = node_of(vec![atom(1, "p"), atom(2, "q")]);
    core.initialize_root_node(&node);
    core.add_to_unsat_core(vec![1, 2]);
    core.set_single_unsat_core(1);
    let unsat_formulas = core.get_unsat_core();
    assert_eq!(unsat_formulas, vec![atom(2, "q")]);
}

#[test]
fn unsat_core_root_and_single_getters() {
    let mut core = UnsatCore::new();
    assert_eq!(core.root_len(), None);
    assert_eq!(core.single_id(), None);
    let node = node_of(vec![atom(1, "p"), atom(2, "q"), atom(3, "r")]);
    core.initialize_root_node(&node);
    assert_eq!(core.root_len(), Some(3));
    core.set_single_unsat_core(2);
    assert_eq!(core.single_id(), Some(2));
    assert_eq!(core.get_unsat_core(), vec![atom(3, "r")]);
}

#[test]
fn unsat_core_empty_core_names_nothing() {
    let mut core = UnsatCore::new();
    let node = node_of(vec![atom(1, "p"), atom(2, "q")]);
    core.initialize_root_node(&node);
    assert!(core.get_unsat_core().is_empty());
}
