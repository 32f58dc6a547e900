use stlsat::formula::{AExpr, Expr, Formula, IdGen, Rational, RelOp};
use stlsat::interval::Interval;

fn prop(name: &str, ids: &mut IdGen) -> Formula {
    Formula::prop(Expr::bool(name.to_string(), ids))
}

fn rel(op: RelOp, var: &str, k: i64, ids: &mut IdGen) -> Formula {
    Formula::Prop(Expr::real_rel(
        op,
        AExpr::Var(var.to_string()),
        AExpr::Num(Rational::from_integer(k)),
        ids,
    ))
}

/// `(a || !b) && (c U[0,5] G[1,3] last)`
fn nested(last: &str, ids: &mut IdGen) -> Formula {
    Formula::And(vec![
        Formula::or(vec![prop("a", ids), Formula::Not(Box::new(prop("b", ids)))]),
        Formula::u(
            Interval { lower: 0, upper: 5 },
            None,
            prop("c", ids),
            Formula::g(Interval { lower: 1, upper: 3 }, None, prop(last, ids)),
        ),
    ])
}

fn nested_real(last: &str, ids: &mut IdGen) -> Formula {
    Formula::And(vec![
        rel(RelOp::Ge, "x", 1, ids),
        Formula::u(
            Interval { lower: 0, upper: 5 },
            None,
            rel(RelOp::Lt, "y", 2, ids),
            Formula::g(Interval { lower: 1, upper: 3 }, None, rel(RelOp::Eq, last, 3, ids)),
        ),
    ])
}

#[test]
fn temporal_operator_depth_tests_test_nested() {
    let mut ids = IdGen::new();
    let f = nested("d", &mut ids);
    assert_eq!(f.temporal_operator_depth(), 2);
}

#[test]
fn test_prop() {
    let mut ids = IdGen::new();
    let f = prop("a", &mut ids);
    assert_eq!(f.depth(), 0);
}

#[test]
fn tests_test_nested() {
    let mut ids = IdGen::new();
    let f = nested("d", &mut ids);
    assert_eq!(f.depth(), 3);
}

#[test]
fn tests_test_prop() {
    let mut ids = IdGen::new();
    let f = prop("a", &mut ids);
    assert_eq!(f.horizon(), 0);
}

#[test]
fn horizon_tests_test_nested() {
    let mut ids = IdGen::new();
    let f = nested("d", &mut ids);
    assert_eq!(f.horizon(), 8);
}

#[test]
fn nodes_tests_test_prop() {
    let mut ids = IdGen::new();
    let f = prop("a", &mut ids);
    assert_eq!(f.nodes(), 1);
}

#[test]
fn nodes_tests_test_nested() {
    let mut ids = IdGen::new();
    let f = nested("d", &mut ids);
    assert_eq!(f.nodes(), 9);
}

#[test]
fn test_filter_g() {
    let mut ids = IdGen::new();
    let f = Formula::g(Interval { lower: 0, upper: 5 }, None, prop("a", &mut ids));
    assert_eq!(f.count_nodes(|f| matches!(f, Formula::G { .. })), 1);
}

#[test]
fn test_nested_no_rep() {
    let mut ids = IdGen::new();
    let f = nested("d", &mut ids);
    assert_eq!(f.boolean_variables(), 4);
}

#[test]
fn test_nested_with_rep() {
    let mut ids = IdGen::new();
    let f = nested("a", &mut ids);
    assert_eq!(f.boolean_variables(), 3);
}

#[test]
fn tests_test_nested_no_rep() {
    let mut ids = IdGen::new();
    let f = nested_real("z", &mut ids);
    assert_eq!(f.real_variables(), 3);
}

#[test]
fn test_nested_rep() {
    let mut ids = IdGen::new();
    let f = nested_real("x", &mut ids);
    assert_eq!(f.real_variables(), 2);
}

#[test]
fn boolean_constraints_tests_test_nested() {
    let mut ids = IdGen::new();
    let f = nested("d", &mut ids);
    assert_eq!(f.boolean_constraints(), 4);
}

#[test]
fn real_constraints_tests_test_nested() {
    let mut ids = IdGen::new();
    let f = nested_real("z", &mut ids);
    assert_eq!(f.real_constraints(), 3);
}

#[test]
fn disjunction_max_width_tests_test_nested() {
    let mut ids = IdGen::new();
    let f = Formula::And(vec![
        Formula::or(vec![
            prop("a", &mut ids),
            Formula::Not(Box::new(prop("b", &mut ids))),
            prop("c", &mut ids),
        ]),
        Formula::u(
            Interval { lower: 0, upper: 5 },
            None,
            prop("d", &mut ids),
            Formula::g(
                Interval { lower: 1, upper: 3 },
                None,
                Formula::or(vec![prop("e", &mut ids), prop("f", &mut ids)]),
            ),
        ),
    ]);
    assert_eq!(f.disjunction_max_width(), 3);
}

#[test]
fn disjunction_total_width_tests_test_nested() {
    let mut ids = IdGen::new();
    let f = Formula::And(vec![
        Formula::or(vec![
            prop("a", &mut ids),
            Formula::Not(Box::new(prop("b", &mut ids))),
            prop("c", &mut ids),
        ]),
        Formula::u(
            Interval { lower: 0, upper: 5 },
            None,
            prop("d", &mut ids),
            Formula::g(
                Interval { lower: 1, upper: 3 },
                None,
                Formula::or(vec![prop("e", &mut ids), prop("f", &mut ids)]),
            ),
        ),
    ]);
    assert_eq!(f.disjunction_total_width(), 5);
}

#[test]
fn test_and_or() {
    let mut ids = IdGen::new();
    let f = Formula::And(vec![
        Formula::or(vec![
            prop("a", &mut ids),
            Formula::Not(Box::new(prop("b", &mut ids))),
            prop("c", &mut ids),
        ]),
        Formula::or(vec![prop("d", &mut ids), prop("e", &mut ids)]),
    ]);
    assert_eq!(f.combinatorial_branching_count(), 6);
}

#[test]
fn test_or_and() {
    let mut ids = IdGen::new();
    let f = Formula::or(vec![
        Formula::And(vec![
            prop("a", &mut ids),
            Formula::Not(Box::new(prop("b", &mut ids))),
            prop("c", &mut ids),
        ]),
        Formula::And(vec![prop("d", &mut ids), prop("e", &mut ids)]),
    ]);
    assert_eq!(f.combinatorial_branching_count(), 2);
}

#[test]
fn test_or_u() {
    let mut ids = IdGen::new();
    let f = Formula::or(vec![
        Formula::u(Interval { lower: 0, upper: 5 }, None, prop("a", &mut ids), prop("b", &mut ids)),
        Formula::u(Interval { lower: 1, upper: 3 }, None, prop("c", &mut ids), prop("d", &mut ids)),
    ]);
    assert_eq!(f.combinatorial_branching_count(), 2);
}

#[test]
fn statistics_variables_and_constraints_add_up() {
    let mut ids = IdGen::new();
    let f = Formula::And(vec![nested("d", &mut ids), nested_real("x", &mut ids)]);
    assert_eq!(f.variables(), 4 + 2);
    assert_eq!(f.constraints(), 4 + 3);
}

#[test]
fn statistics_count_nodes_non_propositions() {
    let mut ids = IdGen::new();
    let f = nested("d", &mut ids);
    assert_eq!(f.count_nodes(|f| !matches!(f, Formula::Prop(_))), 5);
}

#[test]
fn statistics_horizon_of_disjunction_takes_largest() {
    let mut ids = IdGen::new();
    let f = Formula::or(vec![
        Formula::f(Interval { lower: 2, upper: 7 }, None, prop("a", &mut ids)),
        Formula::g(Interval { lower: 0, upper: 4 }, None, prop("b", &mut ids)),
    ]);
    assert_eq!(f.horizon(), 7);
}

#[test]
fn statistics_empty_conjunction_branches_once() {
    let f = Formula::And(vec![]);
    assert_eq!(f.combinatorial_branching_count(), 1);
    assert_eq!(Formula::Or(vec![]).combinatorial_branching_count(), 0);
}
