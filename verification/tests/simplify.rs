use stlsat::formula::{Formula, IdGen};
use stlsat::node::Node;
use stlsat::parser::parse_formula;
use stlsat::simplify::FormulaSimplifier;

fn parse(input: &str, ids: &mut IdGen) -> Formula {
    parse_formula(input, ids).unwrap().1
}

fn check(input: &str, expected: &str) {
    let mut ids = IdGen::new();
    let f = parse(input, &mut ids);
    let simplified = FormulaSimplifier.visit(&f, &mut ids);
    let want = parse(expected, &mut ids);
    assert!(
        simplified.eq_structural(&want),
        "{} simplified to {}, expected {}",
        input,
        simplified.to_text(),
        want.to_text()
    );
}

#[test]
fn simplify_duplicate_conjuncts() {
    check("a && a", "a");
}

#[test]
fn simplify_true_conjunct() {
    check("a && TRUE", "a");
}

#[test]
fn simplify_false_conjunct() {
    check("a && FALSE", "FALSE");
}

#[test]
fn simplify_contradiction() {
    check("a && !a", "FALSE");
}

#[test]
fn simplify_tautology() {
    check("a || !a", "TRUE");
}

#[test]
fn simplify_false_disjunct() {
    check("a || FALSE || b", "a || b");
}

#[test]
fn simplify_absorption_and() {
    check("a && (a || b)", "a");
}

#[test]
fn simplify_absorption_or() {
    check("a || (a && b)", "a");
}

#[test]
fn simplify_finally_absorbed() {
    check("a && F[0,3] a", "a");
}

#[test]
fn simplify_globally_absorbed() {
    check("a || G[0,3] a", "a");
}

#[test]
fn simplify_merge_overlapping_globally() {
    check("G[0,5] a && G[3,8] a", "G[0,8] a");
}

#[test]
fn simplify_merge_contiguous_globally() {
    check("G[0,5] a && G[6,8] a", "G[0,8] a");
}

#[test]
fn simplify_keep_separate_globally() {
    check("G[0,5] a && G[7,8] a", "G[0,5] a && G[7,8] a");
}

#[test]
fn simplify_globally_in_disjunction() {
    check("G[0,5] a || G[0,3] a", "G[0,3] a");
}

#[test]
fn simplify_nested_globally() {
    check("G[1,2] G[3,4] a", "G[4,6] a");
}

#[test]
fn simplify_nested_finally() {
    check("F[1,2] F[3,4] a", "F[4,6] a");
}

#[test]
fn simplify_point_globally() {
    check("G[2,2] a", "F[2,2] a");
}

#[test]
fn simplify_point_globally_shifts_operators() {
    check("G[2,2] (G[1,3] a && b)", "G[3,5] a && F[2,2] b");
}

#[test]
fn simplify_zero_globally() {
    check("G[0,0] a", "a");
}

#[test]
fn simplify_globally_constant() {
    check("G[1,4] TRUE", "TRUE");
}

#[test]
fn simplify_until_true_left() {
    check("TRUE U[1,5] b", "F[1,5] b");
}

#[test]
fn simplify_until_false_left() {
    check("FALSE U[1,5] b", "F[1,1] b");
}

#[test]
fn simplify_until_negated_right() {
    check("a U[1,5] !a", "F[1,5] !a");
}

#[test]
fn simplify_until_kept() {
    check("a U[1,5] b", "a U[1,5] b");
}

#[test]
fn simplify_release_false_right() {
    check("a R[1,5] FALSE", "FALSE");
}

#[test]
fn simplify_release_false_left() {
    check("FALSE R[2,5] b", "G[2,5] b");
}

#[test]
fn simplify_release_true_left() {
    check("TRUE R[2,5] b", "F[2,2] b");
}

#[test]
fn simplify_node_operands() {
    let mut ids = IdGen::new();
    let mut node_ids = IdGen::new();
    let f = parse("a && a", &mut ids);
    let g = parse("G[0,0] b", &mut ids);
    let mut node = Node::from_operands(vec![f, g], &mut node_ids);
    node.simplify(&mut ids);
    let a = parse("a", &mut ids);
    let b = parse("b", &mut ids);
    assert_eq!(node.operands.len(), 2);
    assert!(node.operands[0].eq_structural(&a));
    assert!(node.operands[1].eq_structural(&b));
}

#[test]
fn simplify_false_conjunct_dominates() {
    check("a && G[0,3] b && FALSE", "FALSE");
}

#[test]
fn simplify_true_disjunct_dominates() {
    check("a || TRUE", "TRUE");
}

#[test]
fn simplify_complement_collapses_conjunction() {
    check("G[0,2] a && !G[0,2] a", "FALSE");
}

#[test]
fn simplify_leaves_no_neutral_constant() {
    check("(a && TRUE) && (b && TRUE)", "a && b");
    check("a || FALSE || (b || FALSE)", "a || b");
}

#[test]
fn simplify_merges_globally_in_one_pass() {
    check("G[0,1] a && G[5,6] a && G[2,4] a", "G[0,4] a && G[5,6] a");
    check("G[0,4] a && G[5,6] a", "G[0,6] a");
}
