use stlsat::formula::{Expr, Formula, IdGen};
use stlsat::interval::Interval;
use stlsat::node::Node;

fn prop(name: &str, ids: &mut IdGen) -> Formula {
    Formula::prop(Expr::bool(name.to_string(), ids))
}

fn iv(lower: i32, upper: i32) -> Interval {
    Interval { lower, upper }
}

fn node_of(operands: Vec<Formula>) -> Node {
    let mut node_ids = IdGen::new();
    Node::from_operands(operands, &mut node_ids)
}

fn make_test_push_negation(input: Vec<Formula>, result: Vec<Formula>) -> (Node, Node) {
    let mut input_node = node_of(input);
    input_node.negative_normal_form_rewrite();
    let result_node = node_of(result);
    (input_node, result_node)
}

fn make_test_shift_bounds(input: Formula, result: Formula) -> (Node, Node) {
    let mut input_node = node_of(vec![input]);
    input_node.shift_bounds();
    let result_node = node_of(vec![result]);
    (input_node, result_node)
}

fn make_test_flatten(input: Formula) -> Node {
    let mut input_node = node_of(vec![input]);
    input_node.flatten();
    input_node
}

#[test]
fn push_negation_prop() {
    let mut ids = IdGen::new();
    let p = prop("a", &mut ids);
    let (res, exp) = make_test_push_negation(vec![Formula::not(p.clone())], vec![Formula::not(p)]);
    assert_eq!(res.operands, exp.operands);
}

#[test]
fn push_negation_double_negation() {
    let mut ids = IdGen::new();
    let a = prop("a", &mut ids);
    let (res, exp) =
        make_test_push_negation(vec![Formula::not(Formula::not(a.clone()))], vec![a]);
    assert_eq!(res.operands, exp.operands);
}

#[test]
fn push_negation_not_and() {
    let mut ids = IdGen::new();
    let a = prop("a", &mut ids);
    let b = prop("b", &mut ids);
    let input = Formula::not(Formula::and(vec![a.clone(), b.clone()]));
    let result = Formula::or(vec![Formula::not(a), Formula::not(b)]);
    let (res, exp) = make_test_push_negation(vec![input], vec![result]);
    assert_eq!(res.operands, exp.operands);
}

#[test]
fn push_negation_not_or() {
    let mut ids = IdGen::new();
    let a = prop("a", &mut ids);
    let b = prop("b", &mut ids);
    let input = Formula::not(Formula::or(vec![a.clone(), b.clone()]));
    let result = Formula::and(vec![Formula::not(a), Formula::not(b)]);
    let (res, exp) = make_test_push_negation(vec![input], vec![result]);
    assert_eq!(res.operands, exp.operands);
}

#[test]
fn push_negation_not_imply() {
    let mut ids = IdGen::new();
    let a = prop("a", &mut ids);
    let b = prop("b", &mut ids);
    let input = Formula::not(Formula::imply(a.clone(), b.clone(), &mut ids));
    let result = Formula::and(vec![a, Formula::not(b)]);
    let (res, exp) = make_test_push_negation(vec![input], vec![result]);
    assert_eq!(res.operands, exp.operands);
}

#[test]
fn push_negation_not_globally() {
    let mut ids = IdGen::new();
    let a = prop("a", &mut ids);
    let input = Formula::not(Formula::g(iv(0, 5), None, a.clone()));
    let result = Formula::f(iv(0, 5), None, Formula::not(a));
    let (res, exp) = make_test_push_negation(vec![input], vec![result]);
    assert_eq!(res.operands, exp.operands);
}

#[test]
fn push_negation_not_finally() {
    let mut ids = IdGen::new();
    let a = prop("a", &mut ids);
    let input = Formula::not(Formula::f(iv(0, 5), None, a.clone()));
    let result = Formula::g(iv(0, 5), None, Formula::not(a));
    let (res, exp) = make_test_push_negation(vec![input], vec![result]);
    assert_eq!(res.operands, exp.operands);
}

#[test]
fn push_negation_not_until() {
    let mut ids = IdGen::new();
    let a = prop("a", &mut ids);
    let b = prop("b", &mut ids);
    let input = Formula::not(Formula::u(iv(0, 5), None, a.clone(), b.clone()));
    let result = Formula::r(iv(0, 5), None, Formula::not(a), Formula::not(b));
    let (res, exp) = make_test_push_negation(vec![input], vec![result]);
    assert_eq!(res.operands, exp.operands);
}

#[test]
fn push_negation_not_release() {
    let mut ids = IdGen::new();
    let a = prop("a", &mut ids);
    let b = prop("b", &mut ids);
    let input = Formula::not(Formula::r(iv(0, 5), None, a.clone(), b.clone()));
    let result = Formula::u(iv(0, 5), None, Formula::not(a), Formula::not(b));
    let (res, exp) = make_test_push_negation(vec![input], vec![result]);
    assert_eq!(res.operands, exp.operands);
}

#[test]
fn push_negation_not_next() {
    let mut ids = IdGen::new();
    let a = prop("a", &mut ids);
    let input = Formula::not(Formula::o(a.clone()));
    let result = Formula::o(Formula::not(a));
    let (res, exp) = make_test_push_negation(vec![input], vec![result]);
    assert_eq!(res.operands, exp.operands);
}

#[test]
fn push_negation_nested_globally_and() {
    let mut ids = IdGen::new();
    let a = prop("a", &mut ids);
    let b = prop("b", &mut ids);
    let input = Formula::not(Formula::g(iv(0, 5), None, Formula::and(vec![a.clone(), b.clone()])));
    let result = Formula::f(iv(0, 5), None, Formula::or(vec![Formula::not(a), Formula::not(b)]));
    let (res, exp) = make_test_push_negation(vec![input], vec![result]);
    assert_eq!(res.operands, exp.operands);
}

#[test]
fn push_negation_nested_until_or() {
    let mut ids = IdGen::new();
    let a = prop("a", &mut ids);
    let b = prop("b", &mut ids);
    let c = prop("c", &mut ids);
    let input = Formula::not(Formula::u(
        iv(0, 5),
        None,
        a.clone(),
        Formula::or(vec![b.clone(), c.clone()]),
    ));
    let result = Formula::r(
        iv(0, 5),
        None,
        Formula::not(a),
        Formula::and(vec![Formula::not(b), Formula::not(c)]),
    );
    let (res, exp) = make_test_push_negation(vec![input], vec![result]);
    assert_eq!(res.operands, exp.operands);
}

#[test]
fn push_negation_inside() {
    let mut ids = IdGen::new();
    let a = prop("a", &mut ids);
    let b = prop("b", &mut ids);
    let input = Formula::g(iv(0, 5), None, Formula::not(Formula::and(vec![a.clone(), b.clone()])));
    let result = Formula::g(iv(0, 5), None, Formula::or(vec![Formula::not(a), Formula::not(b)]));
    let (res, exp) = make_test_push_negation(vec![input], vec![result]);
    assert_eq!(res.operands, exp.operands);
}

#[test]
fn no_shift() {
    let mut ids = IdGen::new();
    let a = prop("a", &mut ids);
    let (res, exp) = make_test_shift_bounds(
        Formula::g(iv(0, 5), None, a.clone()),
        Formula::g(iv(0, 5), None, a),
    );
    assert_eq!(res.operands, exp.operands);
}

#[test]
fn nested_globally_finally() {
    let mut ids = IdGen::new();
    let b_a = prop("B_a", &mut ids);
    let (res, exp) = make_test_shift_bounds(
        Formula::g(iv(3, 50), None, Formula::f(iv(5, 20), None, b_a.clone())),
        Formula::g(iv(8, 55), None, Formula::f(iv(0, 15), None, b_a)),
    );
    assert_eq!(res.operands, exp.operands);
}

#[test]
fn no_shift_complex() {
    let mut ids = IdGen::new();
    let b_a = prop("B_a", &mut ids);
    let input = Formula::g(
        iv(10, 60),
        None,
        Formula::imply(b_a.clone(), Formula::g(iv(20, 40), None, Formula::not(b_a)), &mut ids),
    );
    let (res, exp) = make_test_shift_bounds(input.clone(), input);
    assert_eq!(res.operands, exp.operands);
}

#[test]
fn nested_finally_globally() {
    let mut ids = IdGen::new();
    let b_a = prop("B_a", &mut ids);
    let (res, exp) = make_test_shift_bounds(
        Formula::g(
            iv(3, 50),
            None,
            Formula::f(
                iv(5, 20),
                None,
                Formula::f(iv(20, 30), None, Formula::g(iv(20, 40), None, Formula::not(b_a.clone()))),
            ),
        ),
        Formula::g(
            iv(48, 95),
            None,
            Formula::f(
                iv(0, 15),
                None,
                Formula::f(iv(0, 10), None, Formula::g(iv(0, 20), None, Formula::not(b_a))),
            ),
        ),
    );
    assert_eq!(res.operands, exp.operands);
}

#[test]
fn finally_and_globally() {
    let mut ids = IdGen::new();
    let b_a = prop("B_a", &mut ids);
    let (res, exp) = make_test_shift_bounds(
        Formula::f(
            iv(0, 5),
            None,
            Formula::and(vec![
                Formula::g(iv(10, 20), None, b_a.clone()),
                Formula::g(iv(20, 30), None, b_a.clone()),
            ]),
        ),
        Formula::f(
            iv(10, 15),
            None,
            Formula::and(vec![
                Formula::g(iv(0, 10), None, b_a.clone()),
                Formula::g(iv(10, 20), None, b_a),
            ]),
        ),
    );
    assert_eq!(res.operands, exp.operands);
}

#[test]
fn until_globally() {
    let mut ids = IdGen::new();
    let b_a = prop("B_a", &mut ids);
    let (res, exp) = make_test_shift_bounds(
        Formula::u(
            iv(0, 5),
            None,
            Formula::g(iv(10, 20), None, b_a.clone()),
            Formula::g(iv(20, 30), None, b_a.clone()),
        ),
        Formula::u(
            iv(10, 15),
            None,
            Formula::g(iv(0, 10), None, b_a.clone()),
            Formula::g(iv(10, 20), None, b_a),
        ),
    );
    assert_eq!(res.operands, exp.operands);
}

#[test]
fn until_globally_or() {
    let mut ids = IdGen::new();
    let b_a = prop("B_a", &mut ids);
    let (res, exp) = make_test_shift_bounds(
        Formula::u(
            iv(0, 5),
            None,
            Formula::g(iv(10, 20), None, b_a.clone()),
            Formula::or(vec![Formula::g(iv(20, 30), None, b_a.clone()), b_a.clone()]),
        ),
        Formula::u(
            iv(0, 5),
            None,
            Formula::g(iv(10, 20), None, b_a.clone()),
            Formula::or(vec![Formula::g(iv(20, 30), None, b_a.clone()), b_a]),
        ),
    );
    assert_eq!(res.operands, exp.operands);
}

#[test]
fn flatten_and() {
    let mut ids = IdGen::new();
    let p1 = prop("a", &mut ids);
    let p2 = prop("b", &mut ids);
    let p3 = prop("c", &mut ids);
    let res = make_test_flatten(Formula::and(vec![
        p1.clone(),
        Formula::and(vec![p2.clone(), p3.clone()]),
    ]));
    let exp = node_of(vec![p1, p2, p3]);
    assert_eq!(res.operands, exp.operands);
}

#[test]
fn flatten_or() {
    let mut ids = IdGen::new();
    let p1 = prop("a", &mut ids);
    let p2 = prop("b", &mut ids);
    let p3 = prop("c", &mut ids);
    let res = make_test_flatten(Formula::or(vec![
        p1.clone(),
        Formula::or(vec![p2.clone(), p3.clone()]),
    ]));
    let exp = node_of(vec![Formula::or(vec![p1, p2, p3])]);
    assert_eq!(res.operands, exp.operands);
}

#[test]
fn flatten_mixed() {
    let mut ids = IdGen::new();
    let p1 = prop("a", &mut ids);
    let p2 = prop("b", &mut ids);
    let p3 = prop("c", &mut ids);
    let p4 = prop("d", &mut ids);
    let p5 = prop("e", &mut ids);
    let res = make_test_flatten(Formula::and(vec![
        p1.clone(),
        Formula::or(vec![p2.clone(), p3.clone()]),
        p4.clone(),
        p5.clone(),
    ]));
    let exp = node_of(vec![p1, Formula::or(vec![p2, p3]), p4, p5]);
    assert_eq!(res.operands, exp.operands);
}

#[test]
fn flatten_nested() {
    let mut ids = IdGen::new();
    let p1 = prop("a", &mut ids);
    let p2 = prop("b", &mut ids);
    let p3 = prop("c", &mut ids);
    let res = make_test_flatten(Formula::g(
        iv(0, 10),
        None,
        Formula::and(vec![p1.clone(), Formula::and(vec![p2.clone(), p3.clone()])]),
    ));
    let exp = node_of(vec![Formula::g(iv(0, 10), None, Formula::and(vec![p1, p2, p3]))]);
    assert_eq!(res.operands, exp.operands);
}

#[test]
fn push_negation_not_imply_normalises_premise() {
    let mut ids = IdGen::new();
    let a = prop("a", &mut ids);
    let b = prop("b", &mut ids);
    let premise = Formula::not(Formula::and(vec![a.clone(), b.clone()]));
    let input = Formula::not(Formula::imply(premise, a.clone(), &mut ids));
    let result = Formula::and(vec![
        Formula::or(vec![Formula::not(a.clone()), Formula::not(b)]),
        Formula::not(a),
    ]);
    let (res, exp) = make_test_push_negation(vec![input], vec![result]);
    assert_eq!(res.operands, exp.operands);
    assert!(res.operands[0].is_negation_normal_form());
}
