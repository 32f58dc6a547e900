use stlsat::formula::{AExpr, Expr, Formula, IdGen, Rational, RelOp};
use stlsat::node::Node;
use stlsat::parser::parse_formula;
use stlsat::solver::{BooleanSolver, TableauSolver};

fn parse_node(input: &str, ids: &mut IdGen) -> Node {
    let (_, formula) = parse_formula(input, ids).unwrap();
    let mut node_ids = IdGen::new();
    let mut node = Node::from_operands(vec![formula], &mut node_ids);
    node.flatten();
    node
}

fn node_of(operands: Vec<Formula>) -> Node {
    let mut node_ids = IdGen::new();
    Node::from_operands(operands, &mut node_ids)
}

fn bool_prop(name: &str, ids: &mut IdGen) -> Formula {
    Formula::prop(Expr::bool(name.to_string(), ids))
}

fn rel(op: RelOp, var: &str, k: i64, ids: &mut IdGen) -> Formula {
    Formula::prop(Expr::real_rel(op, AExpr::Var(var.to_string()), AExpr::Num(Rational::from_integer(k)), ids))
}

fn prop_id(f: &Formula) -> usize {
    match f {
        Formula::Prop(e) => e.id,
        Formula::Not(inner) => match &**inner {
            Formula::Prop(e) => e.id,
            _ => unreachable!(),
        },
        _ => unreachable!(),
    }
}

#[test]
fn test_push_pop_bool() {
    let mut ids = IdGen::new();
    let mut solver = TableauSolver::new(false, false);
    solver.push();
    let node = parse_node("a && b", &mut ids);
    assert_eq!(solver.check(&node), true);
    solver.push();
    let node_false = parse_node("!a, a", &mut ids);
    assert_eq!(solver.check(&node_false), false);
    solver.pop();
    solver.push();
    let node_true = parse_node("c", &mut ids);
    assert_eq!(solver.check(&node_true), true);
    solver.push();
    let node_false_2 = parse_node("!a", &mut ids);
    assert_eq!(solver.check(&node_false_2), false);
}

#[test]
fn test_push_pop_real() {
    let mut ids = IdGen::new();
    let mut solver = TableauSolver::new(false, false);
    solver.push();
    let node = parse_node("R_x > 0 && R_x < 5", &mut ids);
    assert_eq!(solver.check(&node), true);
    solver.push();
    let node_false = parse_node("R_x < 0", &mut ids);
    assert_eq!(solver.check(&node_false), false);
    solver.pop();
    solver.push();
    let node_true = parse_node("R_y > 1", &mut ids);
    assert_eq!(solver.check(&node_true), true);
    solver.push();
    let node_false_2 = parse_node("R_x < 0", &mut ids);
    assert_eq!(solver.check(&node_false_2), false);
}

#[test]
fn mltl_boolean() {
    let mut ids = IdGen::new();
    let mut solver = TableauSolver::new(false, true);
    let node = parse_node("a && b", &mut ids);
    assert_eq!(solver.check(&node), true);
}

#[test]
fn test_unsat_core_not_enabled() {
    let mut ids = IdGen::new();
    let mut solver = TableauSolver::new(false, false);
    let one = bool_prop("a", &mut ids);
    let two = Formula::not(bool_prop("a", &mut ids));
    let node = node_of(vec![one, two]);
    assert_eq!(solver.check(&node), false);
    assert_eq!(solver.extract_unsat_core(), None);
}

#[test]
fn test_unsat_core_bool() {
    let mut ids = IdGen::new();
    let mut solver = TableauSolver::new(true, false);
    let one = bool_prop("a", &mut ids);
    let two = Formula::not(bool_prop("a", &mut ids));
    let node = node_of(vec![one.clone(), two.clone()]);
    assert_eq!(solver.check(&node), false);
    assert_eq!(solver.extract_unsat_core(), Some(vec![prop_id(&one), prop_id(&two)]));
}

#[test]
fn test_unsat_core_bool_sat() {
    let mut ids = IdGen::new();
    let mut solver = TableauSolver::new(true, false);
    let node = node_of(vec![bool_prop("a", &mut ids), bool_prop("b", &mut ids)]);
    assert_eq!(solver.check(&node), true);
    assert_eq!(solver.extract_unsat_core(), None);
}

#[test]
fn test_unsat_core_bool_one_excluded() {
    let mut ids = IdGen::new();
    let mut solver = TableauSolver::new(true, false);
    let one = bool_prop("a", &mut ids);
    let two = Formula::not(bool_prop("a", &mut ids));
    let three = bool_prop("b", &mut ids);
    let node = node_of(vec![one.clone(), two.clone(), three]);
    assert_eq!(solver.check(&node), false);
    let core = solver.extract_unsat_core().unwrap();
    assert_eq!(core.len(), 2);
    assert!(core.contains(&prop_id(&one)));
    assert!(core.contains(&prop_id(&two)));
}

#[test]
fn test_unsat_core_real() {
    let mut ids = IdGen::new();
    let mut solver = TableauSolver::new(true, false);
    let one = rel(RelOp::Ge, "x", 5, &mut ids);
    let two = rel(RelOp::Le, "x", 0, &mut ids);
    let node = node_of(vec![one.clone(), two.clone()]);
    assert_eq!(solver.check(&node), false);
    assert_eq!(solver.extract_unsat_core(), Some(vec![prop_id(&one), prop_id(&two)]));
}

#[test]
fn test_unsat_core_real_sat() {
    let mut ids = IdGen::new();
    let mut solver = TableauSolver::new(true, false);
    let node = node_of(vec![rel(RelOp::Ge, "x", 0, &mut ids), rel(RelOp::Le, "x", 5, &mut ids)]);
    assert_eq!(solver.check(&node), true);
    assert_eq!(solver.extract_unsat_core(), None);
}

#[test]
fn test_unsat_core_real_one_excluded() {
    let mut ids = IdGen::new();
    let mut solver = TableauSolver::new(true, false);
    let one = rel(RelOp::Ge, "x", 5, &mut ids);
    let two = rel(RelOp::Le, "x", 0, &mut ids);
    let three = rel(RelOp::Ge, "y", 1, &mut ids);
    let node = node_of(vec![one.clone(), two.clone(), three]);
    assert_eq!(solver.check(&node), false);
    let core = solver.extract_unsat_core().unwrap();
    assert_eq!(core.len(), 2);
    assert!(core.contains(&prop_id(&one)));
    assert!(core.contains(&prop_id(&two)));
}

#[test]
fn boolean_push_add_pop_round_trip() {
    let mut solver = BooleanSolver::new(false);
    solver.add_constraint(false, &"a".to_string(), 1);
    solver.add_constraint(true, &"b".to_string(), 2);
    assert!(solver.check());
    solver.push();
    solver.add_constraint(true, &"a".to_string(), 3);
    solver.add_constraint(false, &"c".to_string(), 4);
    assert!(!solver.check());
    solver.pop();
    assert!(solver.check());
    solver.push();
    solver.add_constraint(false, &"b".to_string(), 5);
    assert!(!solver.check());
    solver.pop();
    assert!(solver.check());
}
