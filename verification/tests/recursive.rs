use stlsat::formula::IdGen;
use stlsat::parser::parse_formula;
use stlsat::tableau::{Tableau, TableauOptions};

fn check(input: &str) -> Option<bool> {
    let mut tableau = Tableau::new(TableauOptions::default());
    let mut ids = IdGen::new();
    let (_, f) = parse_formula(input, &mut ids).unwrap();
    tableau.check_subformulas_recursively(&f)
}

#[test]
fn recursive_refutes_contradiction() {
    assert_eq!(check("a && !a"), Some(false));
}

#[test]
fn recursive_refuted_conjunct_refutes_whole() {
    assert_eq!(check("b && G[0,3] (a && !a)"), Some(false));
}

#[test]
fn recursive_satisfiable_formula() {
    assert_eq!(check("G[0,2] a"), Some(true));
}

#[test]
fn recursive_disjunction_with_one_satisfiable_side() {
    assert_eq!(check("(a && !a) || b"), Some(true));
}
