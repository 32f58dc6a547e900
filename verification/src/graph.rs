use vstd::prelude::*;

use crate::display::{digit_char, nat_text};

verus! {

// The DOT graphs drawn of tableaux and formulas, built with the `dot_graph` crate. A graph
// is modelled by what was added to it: nodes (name, label, drawn filled or not) and edges
// (from, to). How `dot_graph` renders them is not modelled.

#[verifier::external_type_specification]
#[verifier::external_body]
pub struct ExDotGraph(dot_graph::Graph);

/// The nodes added to a graph, in order: name, label, and whether it is filled light gray.
pub uninterp spec fn dot_nodes(g: dot_graph::Graph) -> Seq<(Seq<char>, Seq<char>, bool)>;

/// The edges added to a graph, in order: the names of their two ends.
pub uninterp spec fn dot_edges(g: dot_graph::Graph) -> Seq<(Seq<char>, Seq<char>)>;

/// `dot_graph::Graph::new` with kind `Graph` (undirected) or `Digraph`: no nodes, no edges.
#[verifier::external_body]
pub(crate) fn dot_graph_new(name: &str, directed: bool) -> (r: dot_graph::Graph)
    ensures
        dot_nodes(r) == Seq::<(Seq<char>, Seq<char>, bool)>::empty(),
        dot_edges(r) == Seq::<(Seq<char>, Seq<char>)>::empty(),
{
    if directed {
        dot_graph::Graph::new(name, dot_graph::Kind::Digraph)
    } else {
        dot_graph::Graph::new(name, dot_graph::Kind::Graph)
    }
}

/// A letter, an underscore or a dot.
pub open spec fn dot_name_start(c: char) -> bool {
    (97 <= c as u32 <= 122) || (65 <= c as u32 <= 90) || c == '_' || c == '.'
}

/// A letter, digit, underscore or dot.
pub open spec fn dot_name_char(c: char) -> bool {
    dot_name_start(c) || (48 <= c as u32 <= 57)
}

/// A name `dot_graph` takes for a node: a letter, underscore or dot, then letters, digits,
/// underscores or dots.
pub open spec fn dot_identifier(s: Seq<char>) -> bool {
    s.len() > 0 && dot_name_start(s[0]) && forall|i: int| 1 <= i < s.len() ==> dot_name_char(#[trigger] s[i])
}

/// A word of letters followed by the decimal digits of `n` is a node name.
pub proof fn lemma_numbered_name(word: Seq<char>, n: nat)
    requires
        word.len() > 0,
        forall|i: int| 0 <= i < word.len() ==> dot_name_start(#[trigger] word[i]),
    ensures
        dot_identifier(word + nat_text(n)),
{
    lemma_nat_text_digits(n);
    let s = word + nat_text(n);
    assert forall|i: int| 1 <= i < s.len() implies dot_name_char(#[trigger] s[i]) by {
        if i >= word.len() {
            assert(s[i] == nat_text(n)[i - word.len()]);
        } else {
            assert(s[i] == word[i]);
        }
    }
}

pub proof fn lemma_nat_text_digits(n: nat)
    ensures
        forall|i: int| 0 <= i < nat_text(n).len() ==> 48 <= (#[trigger] nat_text(n)[i]) as u32 <= 57,
    decreases n,
{
    lemma_digit_char((n % 10) as nat);
    if n >= 10 {
        lemma_nat_text_digits(n / 10);
        let t = nat_text(n);
        assert(t == nat_text(n / 10).push(digit_char(n % 10)));
        assert forall|i: int| 0 <= i < t.len() implies 48 <= (#[trigger] t[i]) as u32 <= 57 by {
            if i < t.len() - 1 {
                assert(t[i] == nat_text(n / 10)[i]);
            }
        }
    } else {
        lemma_digit_char(n);
        assert(nat_text(n) == seq![digit_char(n)]);
    }
}

proof fn lemma_digit_char(d: nat)
    requires
        d < 10,
    ensures
        48 <= digit_char(d) as u32 <= 57,
{
    let c = digit_char(d);
    assert(c == ((48 + d) as u32) as char);
    assert(((48 + d) as u32) as char as u32 == (48 + d) as u32);
}

/// `dot_graph::Graph::add_node` of `dot_graph::Node::new(name).label(label)`, filled light
/// gray (`style(Style::Filled)` and `color(Some("lightgray"))`) when `filled`: the node is
/// appended. `Node::new` panics on a name that is not an identifier, which `requires`
/// leaves out.
#[verifier::external_body]
pub(crate) fn dot_add_node(g: &mut dot_graph::Graph, name: &str, label: &str, filled: bool)
    requires
        dot_identifier(name@),
    ensures
        dot_nodes(*final(g)) == dot_nodes(*old(g)).push((name@, label@, filled)),
        dot_edges(*final(g)) == dot_edges(*old(g)),
{
    let mut node = dot_graph::Node::new(name).label(label);
    if filled {
        node = node.style(dot_graph::Style::Filled).color(Some("lightgray"));
    }
    g.add_node(node);
}

/// `dot_graph::Graph::add_edge` of `dot_graph::Edge::new(from, to, "")`: the edge is
/// appended.
#[verifier::external_body]
pub(crate) fn dot_add_edge(g: &mut dot_graph::Graph, from: &str, to: &str)
    ensures
        dot_edges(*final(g)) == dot_edges(*old(g)).push((from@, to@)),
        dot_nodes(*final(g)) == dot_nodes(*old(g)),
{
    g.add_edge(dot_graph::Edge::new(from, to, ""));
}

} // verus!
