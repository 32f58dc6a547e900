use stlsat::formula::{Expr, Formula, IdGen};
use stlsat::interval::Interval;
use stlsat::node::Node;
use stlsat::trace::TraceBuilder;

fn prop(name: &str, ids: &mut IdGen) -> Formula {
    Formula::prop(Expr::bool(name.to_string(), ids))
}

fn node_at(operands: Vec<Formula>, time: i32) -> Node {
    Node { operands, current_time: time, implies: None, id: 0 }
}

fn texts(v: &[Formula]) -> Vec<String> {
    v.iter().map(|f| f.to_text()).collect()
}

#[test]
fn trace_keeps_each_literal_once_in_order() {
    let mut ids = IdGen::new();
    let a = prop("a", &mut ids);
    let b = prop("b", &mut ids);
    let g = Formula::g(Interval { lower: 0, upper: 5 }, None, prop("c", &mut ids));
    let node = node_at(vec![a.clone(), Formula::not(b.clone()), g, a.clone()], 0);
    let mut builder = TraceBuilder::new();
    builder.add_node(&node);
    let trace = builder.freeze();
    assert_eq!(texts(&trace.eval(0)), vec!["a ~ 0".to_string(), "!b ~ 1".to_string()]);
    assert_eq!(trace.to_text(), "Time 0: a ~ 0, !b ~ 1\n");
    assert_eq!(trace.length(), 0);
}

#[test]
fn trace_steps_and_full_trace() {
    let mut ids = IdGen::new();
    let a = prop("a", &mut ids);
    let b = prop("b", &mut ids);
    let root = node_at(vec![a.clone()], 0);
    let leaf = node_at(vec![b.clone()], 3);
    let mut builder = TraceBuilder::default();
    builder.add_node(&leaf);
    builder.add_node(&root);
    let trace = builder.freeze();
    assert_eq!(trace.length(), 3);
    assert_eq!(texts(&trace.eval(0)), vec!["a ~ 0".to_string()]);
    assert_eq!(texts(&trace.eval(2)), vec!["a ~ 0".to_string()]);
    assert_eq!(texts(&trace.eval(3)), vec!["b ~ 1".to_string()]);
    assert_eq!(texts(&trace.eval(7)), vec!["b ~ 1".to_string()]);
    let full = trace.full_trace();
    assert_eq!(full.len(), 4);
    assert_eq!(texts(&full[0]), vec!["a ~ 0".to_string()]);
    assert_eq!(texts(&full[2]), vec!["a ~ 0".to_string()]);
    assert_eq!(texts(&full[3]), vec!["b ~ 1".to_string()]);
    assert_eq!(trace.to_text(), "Time 0: a ~ 0\nTime 3: b ~ 1\n");
}

#[test]
fn trace_eval_before_first_step_is_empty() {
    let mut ids = IdGen::new();
    let a = prop("a", &mut ids);
    let mut builder = TraceBuilder::new();
    builder.add_node(&node_at(vec![a], 2));
    let trace = builder.freeze();
    assert!(trace.eval(1).is_empty());
    assert_eq!(trace.full_trace().len(), 3);
    assert!(trace.full_trace()[0].is_empty());
}

#[test]
fn trace_reset_forgets_steps() {
    let mut ids = IdGen::new();
    let a = prop("a", &mut ids);
    let mut builder = TraceBuilder::new();
    builder.add_node(&node_at(vec![a], 0));
    builder.reset();
    let trace = builder.freeze();
    assert_eq!(trace.to_text(), "");
    assert!(trace.full_trace().is_empty());
    assert!(trace.eval(0).is_empty());
}
