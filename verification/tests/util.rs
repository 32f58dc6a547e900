use stlsat::formula::{Expr, Formula, IdGen};
use stlsat::interval::Interval;
use stlsat::node::Node;
use stlsat::util::{build_graph, esc_label};

fn prop(name: &str, ids: &mut IdGen) -> Formula {
    Formula::prop(Expr::bool(name.to_string(), ids))
}

#[test]
fn esc_label_escapes_backslashes_and_quotes() {
    assert_eq!(esc_label("a\"b\\c"), "a\\\"b\\\\c");
    assert_eq!(esc_label("G[0,2]"), "G[0,2]");
    assert_eq!(esc_label(""), "");
}

#[test]
fn build_graph_numbers_nodes_depth_first() {
    let mut prop_ids = IdGen::new();
    let f = Formula::And(vec![
        prop("a", &mut prop_ids),
        Formula::g(Interval { lower: 0, upper: 2 }, None, prop("b", &mut prop_ids)),
    ]);
    let mut graph = dot_graph::Graph::new("t", dot_graph::Kind::Digraph);
    let mut ids = IdGen::starting_at(5);
    let root = build_graph(&f, &mut graph, &mut ids);
    assert_eq!(root, 5);
    assert_eq!(ids.next, 9);
    let dot = graph.to_dot_string().unwrap();
    assert!(dot.contains("\"n5\"[label=\"&&\"];"));
    assert!(dot.contains("\"n6\"[label=\"a ~ 0\"];"));
    assert!(dot.contains("\"n7\"[label=\"G[0,2]\"];"));
    assert!(dot.contains("\"n8\"[label=\"b ~ 1\"];"));
    let e1 = dot.find("\"n5\" -> \"n6\"").unwrap();
    let e2 = dot.find("\"n7\" -> \"n8\"").unwrap();
    let e3 = dot.find("\"n5\" -> \"n7\"").unwrap();
    assert!(e1 < e2 && e2 < e3);
}

#[test]
fn id_tree_draws_every_operand() {
    let mut prop_ids = IdGen::new();
    let mut node_ids = IdGen::new();
    let node = Node::from_operands(
        vec![prop("p", &mut prop_ids), Formula::Not(Box::new(prop("q", &mut prop_ids)))],
        &mut node_ids,
    );
    let mut ids = IdGen::new();
    let graph = node.id_tree(&mut ids);
    let dot = graph.to_dot_string().unwrap();
    assert!(dot.starts_with("digraph node_formulas {"));
    assert!(dot.contains("\"n0\"[label=\"p ~ 0\"];"));
    assert!(dot.contains("\"n1\"[label=\"!q ~ 1\"];"));
    assert!(!dot.contains("->"));
}
