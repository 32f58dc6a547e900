use stlsat::formula::{AExpr, Expr, Formula, IdGen, Rational, RelOp};
use stlsat::interval::Interval;
use stlsat::parser::parse_formula;

fn atom(name: &str, ids: &mut IdGen) -> Formula {
    Formula::Prop(Expr::bool(name.to_string(), ids))
}

fn parses_to(input: &str, expected: &Formula, ids: &mut IdGen) -> bool {
    match parse_formula(input, ids) {
        Ok((_, f)) => f.eq_structural(expected),
        Err(_) => false,
    }
}

fn parses(input: &str) -> bool {
    let mut ids = IdGen::new();
    parse_formula(input, &mut ids).is_ok()
}

#[test]
fn test_parse_simple_proposition() {
    let mut ids = IdGen::new();
    let expected = atom("a", &mut ids);
    assert!(parses_to("a", &expected, &mut ids));
}

#[test]
fn test_parse_true() {
    let mut ids = IdGen::new();
    let expected = Formula::Prop(Expr::true_expr(&mut ids));
    assert!(parses_to("TRUE", &expected, &mut ids));
}

#[test]
fn test_parse_false() {
    let mut ids = IdGen::new();
    let expected = Formula::Prop(Expr::false_expr(&mut ids));
    assert!(parses_to("FALSE", &expected, &mut ids));
}

#[test]
fn test_parse_negation() {
    let mut ids = IdGen::new();
    let expected = Formula::Not(Box::new(atom("a", &mut ids)));
    assert!(parses_to("!a", &expected, &mut ids));
}

#[test]
fn test_parse_conjunction() {
    let mut ids = IdGen::new();
    let expected = Formula::And(vec![atom("a", &mut ids), atom("b", &mut ids)]);
    assert!(parses_to("a && b", &expected, &mut ids));
}

#[test]
fn test_parse_disjunction() {
    let mut ids = IdGen::new();
    let expected = Formula::Or(vec![atom("a", &mut ids), atom("b", &mut ids)]);
    assert!(parses_to("a || b", &expected, &mut ids));
}

#[test]
fn test_parse_implication() {
    let mut ids = IdGen::new();
    let expected = Formula::Imply {
        left: Box::new(atom("a", &mut ids)),
        right: Box::new(atom("b", &mut ids)),
        not_left: Box::new(Formula::Not(Box::new(atom("a", &mut ids)))),
    };
    assert!(parses_to("a -> b", &expected, &mut ids));
}

#[test]
fn test_parse_globally() {
    let mut ids = IdGen::new();
    let expected = Formula::g(Interval { lower: 0, upper: 10 }, None, atom("a", &mut ids));
    assert!(parses_to("G[0,10] a", &expected, &mut ids));
}

#[test]
fn test_parse_finally() {
    let mut ids = IdGen::new();
    let expected = Formula::f(Interval { lower: 1, upper: 5 }, None, atom("b", &mut ids));
    assert!(parses_to("F[1,5] b", &expected, &mut ids));
}

#[test]
fn test_parse_until() {
    let mut ids = IdGen::new();
    let expected = Formula::u(
        Interval { lower: 2, upper: 8 },
        None,
        atom("a", &mut ids),
        atom("b", &mut ids),
    );
    assert!(parses_to("a U[2,8] b", &expected, &mut ids));
}

#[test]
fn test_parse_release() {
    let mut ids = IdGen::new();
    let expected = Formula::r(
        Interval { lower: 3, upper: 7 },
        None,
        atom("a", &mut ids),
        atom("b", &mut ids),
    );
    assert!(parses_to("a R[3,7] b", &expected, &mut ids));
}

#[test]
fn test_parse_with_parentheses() {
    let mut ids = IdGen::new();
    let expected = Formula::And(vec![atom("a", &mut ids), atom("b", &mut ids)]);
    assert!(parses_to("(a && b)", &expected, &mut ids));
}

#[test]
fn test_parse_parentheses_nested() {
    let mut ids = IdGen::new();
    let inner_imply = Formula::Imply {
        left: Box::new(atom("a", &mut ids)),
        right: Box::new(atom("b", &mut ids)),
        not_left: Box::new(Formula::Not(Box::new(atom("a", &mut ids)))),
    };
    let expected = Formula::Imply {
        left: Box::new(Formula::Prop(Expr::true_expr(&mut ids))),
        right: Box::new(inner_imply),
        not_left: Box::new(Formula::Not(Box::new(Formula::Prop(Expr::true_expr(&mut ids))))),
    };
    assert!(parses_to("(TRUE -> (a -> b))", &expected, &mut ids));
}

#[test]
fn test_parse_parentheses_space() {
    let mut ids = IdGen::new();
    let expected = Formula::And(vec![atom("a", &mut ids), atom("b", &mut ids)]);
    assert!(parses_to("( a && b )", &expected, &mut ids));
}

#[test]
fn test_parse_decimal() {
    let mut ids = IdGen::new();
    let expected = Formula::Prop(Expr::real_rel(
        RelOp::Gt,
        AExpr::Var("x".to_string()),
        AExpr::Num(Rational::new(3, 4)),
        &mut ids,
    ));
    assert!(parses_to("x > 0.75", &expected, &mut ids));
}

#[test]
fn test_parse_fraction() {
    let mut ids = IdGen::new();
    let expected = Formula::Prop(Expr::real_rel(
        RelOp::Gt,
        AExpr::Var("x".to_string()),
        AExpr::Num(Rational::new(3, 4)),
        &mut ids,
    ));
    assert!(parses_to("x > 3/4", &expected, &mut ids));
}

#[test]
fn test_single_mid_or() {
    let mut ids = IdGen::new();
    let expected = Formula::Or(vec![
        Formula::Or(vec![atom("a", &mut ids), atom("b", &mut ids)]),
        atom("c", &mut ids),
    ]);
    assert!(parses_to("a | b | c", &expected, &mut ids));
}

#[test]
fn test_single_and() {
    let mut ids = IdGen::new();
    let expected = Formula::And(vec![
        Formula::And(vec![atom("a", &mut ids), atom("b", &mut ids)]),
        atom("c", &mut ids),
    ]);
    assert!(parses_to("a & b & c", &expected, &mut ids));
}

#[test]
fn test_iff() {
    let mut ids = IdGen::new();
    let left = atom("a", &mut ids);
    let right = atom("b", &mut ids);
    let expected = Formula::or(vec![
        Formula::and(vec![left.clone(), right.clone()]),
        Formula::and(vec![Formula::Not(Box::new(left)), Formula::Not(Box::new(right))]),
    ]);
    assert!(parses_to("a <-> b", &expected, &mut ids));
}

#[test]
fn test_next() {
    let mut ids = IdGen::new();
    let expected = Formula::f(Interval { lower: 1, upper: 1 }, None, atom("a", &mut ids));
    assert!(parses_to("X a", &expected, &mut ids));
}

#[test]
fn tests_test_parse_simple_proposition() {
    assert!(parses("a"));
}

#[test]
fn tests_test_parse_true() {
    assert!(parses("TRUE"));
}

#[test]
fn tests_test_parse_false() {
    assert!(parses("FALSE"));
}

#[test]
fn tests_test_parse_negation() {
    assert!(parses("!a"));
}

#[test]
fn tests_test_parse_conjunction() {
    assert!(parses("a && b"));
}

#[test]
fn tests_test_parse_disjunction() {
    assert!(parses("a || b"));
}

#[test]
fn tests_test_parse_implication() {
    assert!(parses("a -> b"));
}

#[test]
fn tests_test_parse_globally() {
    assert!(parses("G[0,10] a"));
}

#[test]
fn tests_test_parse_finally() {
    assert!(parses("F[1,5] b"));
}

#[test]
fn tests_test_parse_until() {
    assert!(parses("a U[2,8] b"));
}

#[test]
fn tests_test_parse_release() {
    assert!(parses("a R[3,7] b"));
}

#[test]
fn tests_test_parse_with_parentheses() {
    assert!(parses("(a && b)"));
}

#[test]
fn tests_test_parse_parentheses_nested() {
    assert!(parses("(TRUE -> (a -> b))"));
}

#[test]
fn tests_test_parse_parentheses_space() {
    assert!(parses("( a && b )"));
}

#[test]
fn parser_rejects_missing_operand() {
    let mut ids = IdGen::new();
    assert!(parse_formula("&& a", &mut ids).is_err());
    assert!(parse_formula("", &mut ids).is_err());
}

#[test]
fn parser_leaves_unparsed_rest() {
    let mut ids = IdGen::new();
    let (rest, f) = parse_formula("a )", &mut ids).unwrap();
    assert_eq!(rest.trim(), ")");
    let expected = atom("a", &mut ids);
    assert!(f.eq_structural(&expected));
}

#[test]
fn parser_real_terms() {
    let mut ids = IdGen::new();
    let expected = Formula::Prop(Expr::real_rel(
        RelOp::Le,
        AExpr::BinOp {
            op: stlsat::formula::ArithOp::Add,
            left: Box::new(AExpr::Var("x".to_string())),
            right: Box::new(AExpr::Abs(Box::new(AExpr::Var("y".to_string())))),
        },
        AExpr::Num(Rational::from_integer(-2)),
        &mut ids,
    ));
    assert!(parses_to("x + |y| <= -2", &expected, &mut ids));
}

#[test]
fn parser_next_is_finally_one_one() {
    let mut ids = IdGen::new();
    let a = atom("a", &mut ids);
    let expected = Formula::f(Interval { lower: 1, upper: 1 }, None, a);
    assert!(parses_to("X a", &expected, &mut ids));
}

#[test]
fn parser_keywords_in_any_case() {
    let mut ids = IdGen::new();
    let t = Formula::Prop(Expr::true_expr(&mut ids));
    assert!(parses_to("tRuE", &t, &mut ids));
    let a = atom("TRUEx", &mut ids);
    assert!(parses_to("TRUEx", &a, &mut ids));
}

#[test]
fn parser_equivalence_expands() {
    let mut ids = IdGen::new();
    let a = atom("a", &mut ids);
    let b = atom("b", &mut ids);
    let expected = Formula::or(vec![
        Formula::and(vec![a.clone(), b.clone()]),
        Formula::and(vec![Formula::not(a), Formula::not(b)]),
    ]);
    assert!(parses_to("a <-> b", &expected, &mut ids));
}

#[test]
fn parser_reports_rest_and_error_position() {
    let mut ids = IdGen::new();
    match parse_formula("a && b )", &mut ids) {
        Ok((rest, _)) => assert_eq!(rest, " )"),
        Err(_) => panic!("expected a formula"),
    }
    match parse_formula("   )", &mut ids) {
        Ok(_) => panic!("expected an error"),
        Err(e) => assert_eq!(e.position, 3),
    }
}

#[test]
fn parser_decimal_and_negative_numbers() {
    let mut ids = IdGen::new();
    let expected = Formula::Prop(Expr::real_rel(
        RelOp::Ge,
        AExpr::Var("x".to_string()),
        AExpr::Num(Rational::new(-5, 2)),
        &mut ids,
    ));
    assert!(parses_to("x >= -2.5", &expected, &mut ids));
}
