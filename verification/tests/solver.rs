use stlsat::solver::make_solver_test;

#[test]
fn test_bool_true() {
    assert_eq!(make_solver_test("a && b"), Some(true));
}

#[test]
fn test_bool_false() {
    assert_eq!(make_solver_test("a && !a"), Some(false));
}

#[test]
fn test_real_true() {
    assert_eq!(make_solver_test("R_x > 0 && R_x < 5"), Some(true));
}

#[test]
fn test_real_false() {
    assert_eq!(make_solver_test("R_x > 5 && R_x < 0"), Some(false));
}

#[test]
fn tests_test_bool_true() {
    assert_eq!(make_solver_test("a && b"), Some(true));
}

#[test]
fn tests_test_bool_false() {
    assert_eq!(make_solver_test("a && !a"), Some(false));
}

#[test]
fn tests_test_real_true() {
    assert_eq!(make_solver_test("R_x > 0 && R_x < 5"), Some(true));
}

#[test]
fn tests_test_real_false() {
    assert_eq!(make_solver_test("R_x > 5 && R_x < 0"), Some(false));
}
