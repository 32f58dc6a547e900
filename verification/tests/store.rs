use stlsat::formula::{Expr, Formula, IdGen};
use stlsat::interval::Interval;
use stlsat::node::Node;
use stlsat::store::{RejectedNode, Store};

fn prop(name: &str, ids: &mut IdGen) -> Formula {
    Formula::prop(Expr::bool(name.to_string(), ids))
}

fn make_check_rejected_test(
    store_content: Vec<Vec<Formula>>,
    test_node: Vec<Formula>,
    store_time: i32,
    test_time: i32,
) -> bool {
    let mut node_ids = IdGen::new();
    let mut store = Store::new();
    for content in store_content {
        let mut node = Node::from_operands(content, &mut node_ids);
        node.flatten();
        node.current_time = store_time;
        let rejected = RejectedNode::from_node(&node);
        store.add_rejected(rejected);
    }
    let mut test_node = Node::from_operands(test_node, &mut node_ids);
    test_node.flatten();
    test_node.current_time = test_time;
    let rejected_test_node = RejectedNode::from_node(&test_node);
    store.check_rejected(&rejected_test_node)
}

fn iv(lower: i32, upper: i32) -> Interval {
    Interval { lower, upper }
}

#[test]
fn test_empty_store() {
    let mut ids = IdGen::new();
    let a = prop("a", &mut ids);
    assert!(!make_check_rejected_test(vec![], vec![Formula::g(iv(0, 10), None, a.clone())], 0, 0));
}

#[test]
fn test_globally() {
    let mut ids = IdGen::new();
    let a = prop("a", &mut ids);
    assert!(!make_check_rejected_test(
        vec![vec![Formula::g(iv(0, 10), None, a.clone())]],
        vec![Formula::g(iv(2, 5), None, a.clone())],
        0,
        0
    ));
    assert!(make_check_rejected_test(
        vec![vec![Formula::g(iv(0, 10), None, a.clone())]],
        vec![Formula::g(iv(0, 10), None, a.clone())],
        0,
        0
    ));
    assert!(make_check_rejected_test(
        vec![vec![Formula::g(iv(0, 10), None, a.clone())]],
        vec![Formula::g(iv(0, 15), None, a.clone())],
        0,
        0
    ));
}

#[test]
fn test_finally() {
    let mut ids = IdGen::new();
    let a = prop("a", &mut ids);
    assert!(make_check_rejected_test(
        vec![vec![Formula::f(iv(0, 10), None, a.clone())]],
        vec![Formula::f(iv(2, 5), None, a.clone())],
        0,
        0
    ));
    assert!(make_check_rejected_test(
        vec![vec![Formula::f(iv(0, 10), None, a.clone())]],
        vec![Formula::f(iv(0, 10), None, a.clone())],
        0,
        0
    ));
    assert!(!make_check_rejected_test(
        vec![vec![Formula::f(iv(0, 10), None, a.clone())]],
        vec![Formula::f(iv(0, 15), None, a.clone())],
        0,
        0
    ));
}

#[test]
fn test_shift() {
    let mut ids = IdGen::new();
    let a = prop("a", &mut ids);
    assert!(!make_check_rejected_test(
        vec![vec![
            Formula::g(iv(16, 17), None, Formula::not(a.clone())),
            Formula::f(iv(16, 17), None, a.clone())
        ]],
        vec![
            Formula::g(iv(16, 17), None, Formula::not(a.clone())),
            Formula::f(iv(18, 18), None, a.clone())
        ],
        17,
        16
    ));
}

#[test]
fn store_finds_again_a_stored_globally_node() {
    let mut ids = IdGen::new();
    let a = prop("a", &mut ids);
    let b = prop("b", &mut ids);
    assert!(make_check_rejected_test(
        vec![vec![Formula::g(iv(0, 10), None, a.clone()), b.clone()]],
        vec![Formula::g(iv(0, 10), None, a.clone()), b.clone()],
        3,
        3
    ));
}

#[test]
fn store_does_not_find_again_an_until_node() {
    let mut ids = IdGen::new();
    let a = prop("a", &mut ids);
    let b = prop("b", &mut ids);
    assert!(!make_check_rejected_test(
        vec![vec![Formula::u(iv(0, 5), None, a.clone(), b.clone())]],
        vec![Formula::u(iv(0, 5), None, a.clone(), b.clone())],
        0,
        0
    ));
}
