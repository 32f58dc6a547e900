use stlsat::formula::{Expr, Formula, IdGen};
use stlsat::interval::Interval;
use stlsat::node::Node;
use stlsat::tableau::{Tableau, TableauOptions};

fn prop(name: &str, ids: &mut IdGen) -> Formula {
    Formula::prop(Expr::bool(name.to_string(), ids))
}

fn iv(lower: i32, upper: i32) -> Interval {
    Interval { lower, upper }
}

fn node_of(operands: Vec<Formula>) -> Node {
    let mut node_ids = IdGen::new();
    Node::from_operands(operands, &mut node_ids)
}

fn tableau_data_gen(options: Option<TableauOptions>) -> Tableau {
    Tableau::new(if let Some(tops) = options {
        tops
    } else {
        TableauOptions { graph_output: false, ..Default::default() }
    })
}

fn decompose_jump_opt() -> TableauOptions {
    TableauOptions {
        jump_rule_enabled: true,
        graph_output: false,
        simple_first: false,
        ..Default::default()
    }
}

fn make_test_decompose(input: Vec<Formula>, expected: Vec<Node>, options: Option<TableauOptions>) {
    let node = node_of(input);
    let tableau_data = tableau_data_gen(options);
    let mut ids = IdGen::starting_at(1000);
    let decomposed = tableau_data.decompose(&node, &mut ids).unwrap();
    let decomposed_operands =
        decomposed.iter().map(|n| n.operands.clone()).collect::<Vec<Vec<Formula>>>();
    let expected_operands =
        expected.iter().map(|n| n.operands.clone()).collect::<Vec<Vec<Formula>>>();
    assert_eq!(decomposed_operands, expected_operands);
}

#[test]
fn tests_test_and() {
    let mut ids = IdGen::new();
    let a = prop("a", &mut ids);
    let b = prop("b", &mut ids);
    let expected = node_of(vec![a.clone(), b.clone()]);
    make_test_decompose(vec![Formula::and(vec![a, b])], vec![expected], None);
}

#[test]
fn tests_test_or() {
    let mut ids = IdGen::new();
    let a = prop("a", &mut ids);
    let b = prop("b", &mut ids);
    let expected1 = node_of(vec![a.clone()]);
    let expected2 = node_of(vec![b.clone()]);
    make_test_decompose(vec![Formula::or(vec![a, b])], vec![expected1, expected2], None);
}

#[test]
fn tests_test_imply() {
    let mut ids = IdGen::new();
    let a = prop("a", &mut ids);
    let b = prop("b", &mut ids);
    let imply = Formula::imply(a.clone(), b.clone(), &mut ids);
    let Formula::Imply { not_left, .. } = imply.clone() else { panic!() };
    let expected1 = node_of(vec![*not_left.clone()]);
    let expected_optimization = node_of(vec![a.clone(), b.clone()]);
    let expected_non_optimization = node_of(vec![b.clone()]);
    make_test_decompose(
        vec![imply.clone()],
        vec![node_of(vec![*not_left.clone()]), expected_optimization],
        None,
    );
    make_test_decompose(
        vec![imply],
        vec![expected1, expected_non_optimization],
        Some(TableauOptions { formula_optimizations: false, ..Default::default() }),
    );
}

#[test]
fn tests_test_globally() {
    let mut ids = IdGen::new();
    let a = prop("a", &mut ids);
    let expected1 = node_of(vec![Formula::o(Formula::g(iv(0, 5), None, a.clone())), a.clone()]);
    make_test_decompose(vec![Formula::g(iv(0, 5), None, a)], vec![expected1], None);
}

#[test]
fn tests_test_finally() {
    let mut ids = IdGen::new();
    let a = prop("a", &mut ids);
    let expected1 = node_of(vec![a.clone()]);
    let expected2 = node_of(vec![Formula::o(Formula::f(iv(0, 5), None, a.clone()))]);
    make_test_decompose(vec![Formula::f(iv(0, 5), None, a.clone())], vec![expected1, expected2], None);
}

#[test]
fn test_finally_end() {
    let mut ids = IdGen::new();
    let a = prop("a", &mut ids);
    let expected1 = node_of(vec![a.clone()]);
    make_test_decompose(vec![Formula::f(iv(0, 0), None, a.clone())], vec![expected1], None);
}

#[test]
fn tests_test_gf() {
    let mut ids = IdGen::new();
    let a = prop("a", &mut ids);
    let expected1 = node_of(vec![
        Formula::o(Formula::g(iv(0, 5), None, Formula::f(iv(0, 5), None, a.clone()))),
        Formula::f(iv(0, 5), Some(5), a.clone()),
    ]);
    let options = TableauOptions { formula_optimizations: false, ..Default::default() };
    make_test_decompose(
        vec![Formula::g(iv(0, 5), None, Formula::f(iv(0, 5), None, a.clone()))],
        vec![expected1],
        Some(options),
    );
}

#[test]
fn tests_test_until() {
    let mut ids = IdGen::new();
    let a = prop("a", &mut ids);
    let b = prop("b", &mut ids);
    let expected1 = node_of(vec![b.clone()]);
    let expected2 =
        node_of(vec![a.clone(), Formula::o(Formula::u(iv(0, 5), None, a.clone(), b.clone()))]);
    make_test_decompose(
        vec![Formula::u(iv(0, 5), None, a.clone(), b.clone())],
        vec![expected1, expected2],
        None,
    );
}

#[test]
fn test_until_end() {
    let mut ids = IdGen::new();
    let a = prop("a", &mut ids);
    let b = prop("b", &mut ids);
    let expected1 = node_of(vec![b.clone()]);
    make_test_decompose(vec![Formula::u(iv(0, 0), None, a.clone(), b.clone())], vec![expected1], None);
}

#[test]
fn tests_test_release() {
    let mut ids = IdGen::new();
    let a = prop("a", &mut ids);
    let b = prop("b", &mut ids);
    let expected1 = node_of(vec![a.clone(), b.clone()]);
    let expected2 =
        node_of(vec![b.clone(), Formula::o(Formula::r(iv(0, 5), None, a.clone(), b.clone()))]);
    make_test_decompose(
        vec![Formula::r(iv(0, 5), None, a.clone(), b.clone())],
        vec![expected1, expected2],
        None,
    );
}

#[test]
fn tests_test_jump_only_prop() {
    let mut ids = IdGen::new();
    let a = prop("a", &mut ids);
    let b = prop("b", &mut ids);
    let to_decompose = node_of(vec![a.clone(), b.clone()]);
    let res = tableau_data_gen(Some(decompose_jump_opt())).decompose_jump(&to_decompose, &mut ids);
    assert!(res.is_none());
}

#[test]
fn tests_test_jump_temporal_end() {
    let mut ids = IdGen::new();
    let a = prop("a", &mut ids);
    let mut to_decompose = node_of(vec![
        Formula::o(Formula::g(iv(0, 5), None, a.clone())),
        Formula::f(iv(3, 5), None, a.clone()),
    ]);
    to_decompose.current_time = 5;
    let res = tableau_data_gen(Some(decompose_jump_opt())).decompose_jump(&to_decompose, &mut ids);
    assert!(res.is_none());
}

#[test]
fn tests_test_jump_step_interval_end() {
    let mut ids = IdGen::new();
    let a = prop("a", &mut ids);
    let mut to_decompose = node_of(vec![
        Formula::o(Formula::g(iv(0, 5), None, a.clone())),
        Formula::o(Formula::f(iv(0, 8), None, Formula::not(a.clone()))),
    ]);
    to_decompose.current_time = 5;
    let res = tableau_data_gen(Some(decompose_jump_opt())).decompose_jump(&to_decompose, &mut ids);
    assert!(res.is_some());
    let vec = res.unwrap();
    assert_eq!(vec.len(), 1);
    let node = &vec[0];
    let expected = node_of(vec![Formula::f(iv(0, 8), None, Formula::not(a.clone()))]);
    assert_eq!(node.current_time, 6);
    assert_eq!(node.operands, expected.operands);
}

#[test]
fn tests_test_jump_step_closure() {
    let mut ids = IdGen::new();
    let a = prop("a", &mut ids);
    let mut to_decompose = node_of(vec![Formula::o(Formula::g(
        iv(0, 5),
        None,
        Formula::f(iv(0, 2), None, a.clone()),
    ))]);
    to_decompose.current_time = 1;
    let res = tableau_data_gen(Some(decompose_jump_opt())).decompose_jump(&to_decompose, &mut ids);
    assert!(res.is_some());
    let vec = res.unwrap();
    assert_eq!(vec.len(), 1);
    let node = &vec[0];
    let expected =
        node_of(vec![Formula::g(iv(0, 5), None, Formula::f(iv(0, 2), None, a.clone()))]);
    assert_eq!(node.current_time, 2);
    assert_eq!(node.operands, expected.operands);
}

#[test]
fn test_jump_end() {
    let mut ids = IdGen::new();
    let a = prop("a", &mut ids);
    let mut to_decompose = node_of(vec![Formula::o(Formula::f(iv(20, 50), None, a.clone()))]);
    to_decompose.current_time = 20;
    let res = tableau_data_gen(Some(decompose_jump_opt())).decompose_jump(&to_decompose, &mut ids);
    assert!(res.is_some());
    let vec = res.unwrap();
    assert_eq!(vec.len(), 1);
    let node = &vec[0];
    let expected = node_of(vec![Formula::f(iv(20, 50), None, a.clone())]);
    assert_eq!(node.current_time, 50);
    assert_eq!(node.operands, expected.operands);
}
