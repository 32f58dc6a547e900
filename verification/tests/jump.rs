use stlsat::formula::{Formula, IdGen};
use stlsat::parser::parse_formula;
use stlsat::sat::jump::{calculate_m, calculate_s, k_star};

fn parse(input: &str) -> Formula {
    let mut ids = IdGen::new();
    parse_formula(input, &mut ids).unwrap().1
}

fn sorted(mut v: Vec<i32>) -> Vec<i32> {
    v.sort();
    v.dedup();
    v
}

#[test]
fn targets_of_until_and_release() {
    let f = parse("a U[2,5] b");
    assert_eq!(sorted(calculate_m(&f, 0).unwrap()), vec![2, 5]);
    let g = parse("a R[2,5] b");
    assert_eq!(sorted(calculate_m(&g, 10).unwrap()), vec![12, 15]);
}

#[test]
fn obstacles_of_until_and_globally() {
    let f = parse("a U[2,5] b");
    assert_eq!(sorted(calculate_s(&f, 0).unwrap()), vec![2]);
    let g = parse("G[1,3] F[0,2] c");
    assert_eq!(sorted(calculate_s(&g, 0).unwrap()), vec![3]);
    assert_eq!(sorted(calculate_m(&g, 0).unwrap()), vec![3]);
}

#[test]
fn offsets_that_overflow_are_refused() {
    let f = parse("G[2147483000,2147483600] a");
    assert_eq!(calculate_m(&f, 1000), None);
}

#[test]
fn shortest_jump() {
    assert_eq!(k_star(&vec![3], &vec![5, 7], 10), 3);
    assert_eq!(k_star(&vec![3, 6], &vec![7], 10), 2);
    assert_eq!(k_star(&vec![8], &vec![5], 10), 10);
    assert_eq!(k_star(&vec![1], &vec![40], 10), 10);
}
