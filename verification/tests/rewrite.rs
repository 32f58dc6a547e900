use stlsat::formula::{Expr, Formula, IdGen};
use stlsat::interval::Interval;
use stlsat::node::Node;

fn prop(ids: &mut IdGen, name: &str) -> Formula {
    Formula::prop(Expr::bool(name.to_string(), ids))
}

fn make_test_rewrite_chain(
    input: Vec<Formula>,
    expected: Vec<Formula>,
    time_input: i32,
) -> (Node, Node) {
    let mut node_ids = IdGen::new();
    let mut input_node = Node::from_operands(input, &mut node_ids);
    input_node.current_time = time_input;
    input_node.flatten();
    let input_node = match input_node.rewrite_chain(&mut node_ids) {
        Some(mut v) => v.remove(0),
        None => input_node,
    };
    let mut expected_node = Node::from_operands(expected, &mut node_ids);
    expected_node.flatten();
    (input_node, expected_node)
}



#[test]
fn no_rewrite() {
    let mut ids = IdGen::new();
    let a = prop(&mut ids, "a");
    let f = Formula::g(Interval { lower: 0, upper: 5 }, None, a);
    let (res, exp) = make_test_rewrite_chain(vec![f.clone()], vec![f], 0);
    assert_eq!(res.operands, exp.operands);
}

#[test]
fn rewrite_containment() {
    let mut ids = IdGen::new();
    let a = prop(&mut ids, "a");
    let f1 = Formula::g(Interval { lower: 0, upper: 5 }, None, a.clone());
    let f2 = Formula::g(Interval { lower: 1, upper: 4 }, None, a);
    let (res, exp) = make_test_rewrite_chain(
        vec![f1.clone(), f2.clone()],
        vec![f1],
        0,
    );
    assert_eq!(res.operands, exp.operands);
}

#[test]
fn rewrite_union_intersection() {
    let mut ids = IdGen::new();
    let a = prop(&mut ids, "a");
    let f1 = Formula::g(Interval { lower: 0, upper: 5 }, None, a.clone());
    let f2 = Formula::g(
        Interval {
            lower: 4,
            upper: 10,
        }, None,
        a.clone(),
    );
    let (res, exp) = make_test_rewrite_chain(
        vec![f1.clone(), f2.clone()],
        vec![
            Formula::g(
                Interval {
                    lower: 0,
                    upper: 10,
                }, None,
                a,
            ),
        ],
        0,
    );
    assert_eq!(res.operands, exp.operands);
}

#[test]
fn rewrite_union_contiguous() {
    let mut ids = IdGen::new();
    let a = prop(&mut ids, "a");
    let (res, exp) = make_test_rewrite_chain(
        vec![
            Formula::g(Interval { lower: 0, upper: 5 }, None, a.clone()),
            Formula::g(
                Interval {
                    lower: 6,
                    upper: 10,
                }, None,
                a.clone(),
            ),
        ],
        vec![
            Formula::g(
                Interval {
                    lower: 0,
                    upper: 10,
                }, None,
                a,
            ),
        ],
        0,
    );
    assert_eq!(res.operands, exp.operands);
}

#[test]
fn rewrite_no_match() {
    let mut ids = IdGen::new();
    let a = prop(&mut ids, "a");
    let f = Formula::and(vec![
        Formula::g(Interval { lower: 0, upper: 5 }, None, a.clone()),
        Formula::g(
            Interval {
                lower: 7,
                upper: 10,
            }, None,
            a,
        ),
    ]);
    let (res, exp) = make_test_rewrite_chain(vec![f.clone()], vec![f], 0);
    assert_eq!(res.operands, exp.operands);
}

#[test]
fn rewrite_multiple() {
    let mut ids = IdGen::new();
    let a = prop(&mut ids, "a");
    let (res, exp) = make_test_rewrite_chain(
        vec![
            Formula::g(Interval { lower: 0, upper: 5 }, None, a.clone()),
            Formula::g(
                Interval {
                    lower: 8,
                    upper: 12,
                }, None,
                a.clone(),
            ),
            Formula::g(Interval { lower: 4, upper: 8 }, None, a.clone()),
        ],
        vec![
            Formula::g(
                Interval {
                    lower: 0,
                    upper: 12,
                }, None,
                a,
            ),
        ],
        0,
    );
    assert_eq!(res.operands, exp.operands);
}

#[test]
fn rewrite_multiple_one_excluded() {
    let mut ids = IdGen::new();
    let a = prop(&mut ids, "a");
    let (res, exp) = make_test_rewrite_chain(
        vec![
            Formula::g(Interval { lower: 0, upper: 5 }, None, a.clone()),
            Formula::g(
                Interval {
                    lower: 10,
                    upper: 12,
                }, None,
                a.clone(),
            ),
            Formula::g(Interval { lower: 4, upper: 7 }, None, a.clone()),
        ],
        vec![
            Formula::g(Interval { lower: 0, upper: 7 }, None, a.clone()),
            Formula::g(
                Interval {
                    lower: 10,
                    upper: 12,
                }, None,
                a,
            ),
        ],
        0,
    );
    assert_eq!(res.operands, exp.operands);
}

#[test]
fn rewrite_single_count_match() {
    let mut ids = IdGen::new();
    let a = prop(&mut ids, "a");
    let b = prop(&mut ids, "b");
    let (res, exp) = make_test_rewrite_chain(
        vec![
            Formula::g(
                Interval {
                    lower: 0,
                    upper: 10,
                }, None,
                a.clone(),
            ),
            Formula::g(
                Interval {
                    lower: 11,
                    upper: 20,
                }, None,
                a.clone(),
            ),
            Formula::g(
                Interval {
                    lower: 0,
                    upper: 10,
                }, None,
                b.clone(),
            ),
        ],
        vec![
            Formula::g(
                Interval {
                    lower: 0,
                    upper: 20,
                }, None,
                a,
            ),
            Formula::g(
                Interval {
                    lower: 0,
                    upper: 10,
                }, None,
                b,
            ),
        ],
        0,
    );
    assert_eq!(res.operands, exp.operands);
}

#[test]
fn tests_no_rewrite() {
    let mut ids = IdGen::new();
    let a = prop(&mut ids, "a");
    let f = Formula::f(Interval { lower: 0, upper: 5 }, None, a);
    let (res, exp) = make_test_rewrite_chain(vec![f.clone()], vec![f], 0);
    assert_eq!(res.operands, exp.operands);
}

#[test]
fn tests_rewrite_containment() {
    let mut ids = IdGen::new();
    let a = prop(&mut ids, "a");
    let (res, exp) = make_test_rewrite_chain(
        vec![
            Formula::f(Interval { lower: 0, upper: 5 }, None, a.clone()),
            Formula::f(Interval { lower: 1, upper: 4 }, None, a.clone()),
        ],
        vec![Formula::f(Interval { lower: 1, upper: 4 }, None, a)],
        0,
    );
    assert_eq!(res.operands, exp.operands);
}

#[test]
fn rewrite_containment_2() {
    let mut ids = IdGen::new();
    let a = prop(&mut ids, "a");
    let (res, exp) = make_test_rewrite_chain(
        vec![
            Formula::f(Interval { lower: 1, upper: 4 }, None, a.clone()),
            Formula::f(Interval { lower: 0, upper: 5 }, None, a.clone()),
        ],
        vec![Formula::f(Interval { lower: 1, upper: 4 }, None, a)],
        0,
    );
    assert_eq!(res.operands, exp.operands);
}

#[test]
fn tests_rewrite_no_match() {
    let mut ids = IdGen::new();
    let a = prop(&mut ids, "a");
    let (res, exp) = make_test_rewrite_chain(
        vec![
            Formula::f(Interval { lower: 0, upper: 5 }, None, a.clone()),
            Formula::f(
                Interval {
                    lower: 4,
                    upper: 10,
                }, None,
                a.clone(),
            ),
        ],
        vec![
            Formula::f(Interval { lower: 0, upper: 5 }, None, a.clone()),
            Formula::f(
                Interval {
                    lower: 4,
                    upper: 10,
                }, None,
                a,
            ),
        ],
        0,
    );
    assert_eq!(res.operands, exp.operands);
}

#[test]
fn tests_rewrite_multiple() {
    let mut ids = IdGen::new();
    let a = prop(&mut ids, "a");
    let (res, exp) = make_test_rewrite_chain(
        vec![
            Formula::f(
                Interval {
                    lower: 0,
                    upper: 10,
                }, None,
                a.clone(),
            ),
            Formula::f(Interval { lower: 1, upper: 5 }, None, a.clone()),
            Formula::f(Interval { lower: 2, upper: 4 }, None, a.clone()),
        ],
        vec![Formula::f(Interval { lower: 2, upper: 4 }, None, a)],
        0,
    );
    assert_eq!(res.operands, exp.operands);
}

#[test]
fn tests_rewrite_multiple_one_excluded() {
    let mut ids = IdGen::new();
    let a = prop(&mut ids, "a");
    let (res, exp) = make_test_rewrite_chain(
        vec![
            Formula::f(Interval { lower: 0, upper: 5 }, None, a.clone()),
            Formula::f(
                Interval {
                    lower: 10,
                    upper: 12,
                }, None,
                a.clone(),
            ),
            Formula::f(Interval { lower: 1, upper: 4 }, None, a.clone()),
        ],
        vec![
            Formula::f(
                Interval {
                    lower: 10,
                    upper: 12,
                }, None,
                a.clone(),
            ),
            Formula::f(Interval { lower: 1, upper: 4 }, None, a.clone()),
        ],
        0,
    );
    assert_eq!(res.operands, exp.operands);
}

#[test]
fn tests_rewrite_single_count_match() {
    let mut ids = IdGen::new();
    let a = prop(&mut ids, "a");
    let b = prop(&mut ids, "b");
    let (res, exp) = make_test_rewrite_chain(
        vec![
            Formula::f(
                Interval {
                    lower: 0,
                    upper: 20,
                }, None,
                a.clone(),
            ),
            Formula::f(
                Interval {
                    lower: 5,
                    upper: 15,
                }, None,
                a.clone(),
            ),
            Formula::f(
                Interval {
                    lower: 0,
                    upper: 10,
                }, None,
                b.clone(),
            ),
        ],
        vec![
            Formula::f(
                Interval {
                    lower: 5,
                    upper: 15,
                }, None,
                a,
            ),
            Formula::f(
                Interval {
                    lower: 0,
                    upper: 10,
                }, None,
                b,
            ),
        ],
        0,
    );
    assert_eq!(res.operands, exp.operands);
}

#[test]
fn rewrite_equal() {
    let mut ids = IdGen::new();
    let a = prop(&mut ids, "a");
    let (res, exp) = make_test_rewrite_chain(
        vec![
            Formula::f(Interval { lower: 0, upper: 5 }, None, a.clone()),
            Formula::f(Interval { lower: 0, upper: 5 }, None, a.clone()),
        ],
        vec![Formula::f(Interval { lower: 0, upper: 5 }, None, a)],
        0,
    );
    assert_eq!(res.operands, exp.operands);
}

#[test]
fn rewrite_equal_position() {
    let mut ids = IdGen::new();
    let a = prop(&mut ids, "a");
    let b = prop(&mut ids, "b");
    let (res, exp) = make_test_rewrite_chain(
        vec![
            Formula::f(Interval { lower: 0, upper: 5 }, None, a.clone()),
            b.clone(),
            Formula::f(Interval { lower: 0, upper: 5 }, None, a.clone()),
        ],
        vec![
            Formula::f(Interval { lower: 0, upper: 5 }, None, a.clone()),
            b,
        ],
        0,
    );
    assert_eq!(res.operands, exp.operands);
}

#[test]
fn rewrite_finally_time_shift() {
    let mut ids = IdGen::new();
    let a = prop(&mut ids, "a");
    let (res, exp) = make_test_rewrite_chain(
        vec![
            Formula::f(
                Interval {
                    lower: 18,
                    upper: 20,
                }, None,
                a.clone(),
            ),
            Formula::f(
                Interval {
                    lower: 17,
                    upper: 19,
                }, None,
                a.clone(),
            ),
            Formula::f(
                Interval {
                    lower: 18,
                    upper: 18,
                }, None,
                a.clone(),
            ),
        ],
        vec![
            Formula::f(
                Interval {
                    lower: 18,
                    upper: 18,
                }, None,
                a,
            ),
        ],
        18,
    );
    assert_eq!(res.operands, exp.operands);
}

#[test]
fn rewrite_globally_finally_tests_rewrite_no_match() {
    let mut ids = IdGen::new();
    let a = prop(&mut ids, "a");
    let (res, exp) = make_test_rewrite_chain(
        vec![
            Formula::g(Interval { lower: 0, upper: 5 }, None, a.clone()),
            Formula::f(Interval { lower: 1, upper: 3 }, None, a.clone()),
            Formula::f(Interval { lower: 2, upper: 4 }, None, a.clone()),
        ],
        vec![
            Formula::g(Interval { lower: 0, upper: 5 }, None, a.clone()),
            Formula::f(Interval { lower: 1, upper: 3 }, None, a.clone()),
            Formula::f(Interval { lower: 2, upper: 4 }, None, a),
        ],
        0,
    );
    assert_eq!(res.operands, exp.operands);
}

#[test]
fn rewrite_match_simple() {
    let mut ids = IdGen::new();
    let a = prop(&mut ids, "a");
    let (res, exp) = make_test_rewrite_chain(
        vec![
            Formula::g(
                Interval { lower: 0, upper: 5 }, None,
                Formula::f(Interval { lower: 0, upper: 3 }, None, a.clone()),
            ),
        ],
        vec![
            Formula::g(
                Interval { lower: 2, upper: 5 }, None,
                Formula::f(Interval { lower: 0, upper: 3 }, None, a.clone()),
            ),
            Formula::or(vec![
                Formula::f(Interval { lower: 1, upper: 3 }, None, a.clone()),
                Formula::and(vec![
                    Formula::f(Interval { lower: 0, upper: 0 }, None, a.clone()),
                    Formula::f(Interval { lower: 4, upper: 4 }, None, a.clone()),
                ]),
            ]),
        ],
        0,
    );
    assert_eq!(res.operands, exp.operands);
}

#[test]
fn rewrite_order() {
    let mut ids = IdGen::new();
    let a = prop(&mut ids, "a");
    let b = prop(&mut ids, "b");
    let (res, exp) = make_test_rewrite_chain(
        vec![
            Formula::g(
                Interval { lower: 0, upper: 5 }, None,
                Formula::f(Interval { lower: 0, upper: 3 }, None, a.clone()),
            ),
            Formula::f(Interval { lower: 0, upper: 3 }, None, b.clone()),
        ],
        vec![
            Formula::g(
                Interval { lower: 2, upper: 5 }, None,
                Formula::f(Interval { lower: 0, upper: 3 }, None, a.clone()),
            ),
            Formula::f(Interval { lower: 0, upper: 3 }, None, b.clone()),
            Formula::or(vec![
                Formula::f(Interval { lower: 1, upper: 3 }, None, a.clone()),
                Formula::and(vec![
                    Formula::f(Interval { lower: 0, upper: 0 }, None, a.clone()),
                    Formula::f(Interval { lower: 4, upper: 4 }, None, a.clone()),
                ]),
            ]),
        ],
        0,
    );
    assert_eq!(res.operands, exp.operands);
}
