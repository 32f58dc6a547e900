use stlsat::formula::{Expr, Formula, IdGen};
use stlsat::interval::Interval;
use stlsat::node::Node;
use stlsat::signature::{merge_intervals, Signature};

fn interval(lower: i32, upper: i32) -> Interval {
    Interval { lower, upper }
}

fn prop(name: &str, ids: &mut IdGen) -> Formula {
    Formula::Prop(Expr::bool(name.into(), ids))
}

fn node_of(operands: Vec<Formula>) -> Node {
    let mut node_ids = IdGen::new();
    Node::from_operands(operands, &mut node_ids)
}

#[test]
fn test_simple_prop() {
    let mut ids = IdGen::new();
    let f1 = prop("p", &mut ids);
    let node = node_of(vec![f1]);
    let sig = Signature::new(&node);

    let p_sig = sig.get("p").unwrap();
    assert_eq!(p_sig.len(), 1);
    assert_eq!(p_sig[0].0, interval(0, 0));
    assert_eq!(p_sig[0].1.len(), 1);
}

#[test]
fn test_global() {
    let mut ids = IdGen::new();
    let f1 = Formula::g(interval(0, 5), None, prop("p", &mut ids));
    let node = node_of(vec![f1]);
    let sig = Signature::new(&node);

    let p_sig = sig.get("p").unwrap();
    assert_eq!(p_sig.len(), 1);
    assert_eq!(p_sig[0].0, interval(0, 5));
}

#[test]
fn test_future() {
    let mut ids = IdGen::new();
    let f1 = Formula::f(interval(2, 4), None, prop("q", &mut ids));
    let node = node_of(vec![f1]);
    let sig = Signature::new(&node);

    let q_sig = sig.get("q").unwrap();
    assert_eq!(q_sig.len(), 1);
    assert_eq!(q_sig[0].0, interval(2, 4));
}

#[test]
fn test_overlap() {
    let mut ids = IdGen::new();
    // G[0, 5] p
    let f1 = Formula::g(interval(0, 5), None, prop("p", &mut ids));
    // F[4, 6] p
    let f2 = Formula::f(interval(4, 6), None, prop("p", &mut ids));
    // operands are named by their place in the node
    let id1 = 0;
    let id2 = 1;

    let node = node_of(vec![f1, f2]);
    let sig = Signature::new(&node);

    let p_sig = sig.get("p").unwrap();

    // Expected: [0, 3] -> {id1}, [4, 5] -> {id1, id2}, [6, 6] -> {id2}
    assert_eq!(p_sig.len(), 3);

    assert_eq!(p_sig[0].0, interval(0, 3));
    assert_eq!(p_sig[0].1, vec![id1]);

    assert_eq!(p_sig[1].0, interval(4, 5));
    let mut ids_mid = p_sig[1].1.clone();
    ids_mid.sort();
    let mut expected_mid = vec![id1, id2];
    expected_mid.sort();
    assert_eq!(ids_mid, expected_mid);

    assert_eq!(p_sig[2].0, interval(6, 6));
    assert_eq!(p_sig[2].1, vec![id2]);
}

#[test]
fn test_until() {
    let mut ids = IdGen::new();
    let f1 = Formula::u(interval(0, 5), None, prop("p", &mut ids), prop("q", &mut ids));
    let node = node_of(vec![f1]);
    let sig = Signature::new(&node);

    let p_sig = sig.get("p").unwrap();
    assert_eq!(p_sig[0].0, interval(0, 5));

    let q_sig = sig.get("q").unwrap();
    assert_eq!(q_sig[0].0, interval(0, 5));
}

#[test]
fn test_until_nonzero_start() {
    let mut ids = IdGen::new();
    let f1 = Formula::u(interval(2, 5), None, prop("p", &mut ids), prop("q", &mut ids));
    let node = node_of(vec![f1]);
    let sig = Signature::new(&node);

    let p_sig = sig.get("p").unwrap();
    assert_eq!(p_sig[0].0, interval(2, 5));

    let q_sig = sig.get("q").unwrap();
    assert_eq!(q_sig[0].0, interval(2, 5));
}

#[test]
fn test_nested() {
    let mut ids = IdGen::new();
    // G[0, 2] (F[1, 2] p): p at [0+1, 2+2] = [1, 4]
    let f1 = Formula::g(
        interval(0, 2),
        None,
        Formula::f(interval(1, 2), None, prop("p", &mut ids)),
    );

    let node = node_of(vec![f1]);
    let sig = Signature::new(&node);

    let p_sig = sig.get("p").unwrap();
    assert_eq!(p_sig.len(), 1);
    assert_eq!(p_sig[0].0, interval(1, 4));
}

#[test]
fn signature_problematic_when_operands_share_instants() {
    let mut ids = IdGen::new();
    let f1 = Formula::g(interval(0, 5), None, prop("p", &mut ids));
    let f2 = Formula::f(interval(4, 6), None, prop("p", &mut ids));
    let sig = Signature::new(&node_of(vec![f1, f2]));
    assert!(sig.problematic());

    let g1 = Formula::g(interval(0, 3), None, prop("p", &mut ids));
    let g2 = Formula::f(interval(4, 6), None, prop("p", &mut ids));
    let sig2 = Signature::new(&node_of(vec![g1, g2]));
    assert!(!sig2.problematic());
    assert!(sig2.get("x").is_none());
}

#[test]
fn merge_intervals_empty() {
    assert!(merge_intervals(vec![]).is_empty());
}

#[test]
fn merge_intervals_joins_touching_runs_with_same_tags() {
    let r = merge_intervals(vec![(interval(0, 2), 7), (interval(3, 5), 7)]);
    assert_eq!(r, vec![(interval(0, 5), vec![7])]);
}

#[test]
fn merge_intervals_splits_at_every_change() {
    let r = merge_intervals(vec![
        (interval(0, 10), 2),
        (interval(3, 4), 1),
        (interval(8, 12), 1),
        (interval(20, 21), 3),
    ]);
    assert_eq!(
        r,
        vec![
            (interval(0, 2), vec![2]),
            (interval(3, 4), vec![1, 2]),
            (interval(5, 7), vec![2]),
            (interval(8, 10), vec![1, 2]),
            (interval(11, 12), vec![1]),
            (interval(20, 21), vec![3]),
        ]
    );
}

#[test]
fn merge_intervals_ignores_empty_intervals_and_duplicate_tags() {
    let r = merge_intervals(vec![(interval(5, 4), 1), (interval(1, 3), 2), (interval(2, 3), 2)]);
    assert_eq!(r, vec![(interval(1, 3), vec![2])]);
}
