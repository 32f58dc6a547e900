//! Drawing the syntax trees of formulas as DOT graphs.
use vstd::prelude::*;

use crate::display::{
    formula_text, interval_text, nat_text, push_all, push_formula, push_interval, push_nat,
    string_from_chars,
};
use crate::formula::{
    fviews, lemma_operand_decreases, lemma_view_junction, operands_of, Formula, FormulaM, IdGen,
};
use crate::graph::{
    dot_add_edge, dot_add_node, dot_edges, dot_graph_new, dot_identifier, dot_name_start, dot_nodes,
    lemma_numbered_name,
};
use crate::node::{ops, Node};

verus! {

// ---------------------------------------------------------------------------------------
// Labels
// ---------------------------------------------------------------------------------------
/// `c` as written inside a quoted label: a backslash or a double quote gets a backslash
/// before it.
pub open spec fn escaped_char(c: char) -> Seq<char> {
    if c == '\\' {
        seq!['\\', '\\']
    } else if c == '"' {
        seq!['\\', '"']
    } else {
        seq![c]
    }
}

/// Each character of `s` escaped.
pub open spec fn spec_escape(s: Seq<char>) -> Seq<char>
    decreases s.len(),
{
    if s.len() == 0 {
        Seq::empty()
    } else {
        spec_escape(s.drop_last()) + escaped_char(s.last())
    }
}

/// The label with backslashes and double quotes escaped.
pub fn esc_label(s: &str) -> (r: String)
    ensures
        r@ == spec_escape(s@),
{
    let n = s.unicode_len();
    let mut out: Vec<char> = Vec::new();
    let mut i: usize = 0;
    while i < n
        invariant
            n == s@.len(),
            i <= n,
            out@ == spec_escape(s@.subrange(0, i as int)),
        decreases n - i,
    {
        let c = s.get_char(i);
        if c == '\\' {
            out.push('\\');
            out.push('\\');
        } else if c == '"' {
            out.push('\\');
            out.push('"');
        } else {
            out.push(c);
        }
        assert(s@.subrange(0, i + 1).drop_last() =~= s@.subrange(0, i as int));
        assert(out@ =~= spec_escape(s@.subrange(0, i + 1)));
        i += 1;
    }
    assert(s@.subrange(0, n as int) =~= s@);
    string_from_chars(&out)
}

// ---------------------------------------------------------------------------------------
// Syntax trees
// ---------------------------------------------------------------------------------------
/// What a formula's node shows: the whole text of a proposition, negation or `O`; the
/// connective of a junction or implication; a temporal operator with its interval.
pub open spec fn tree_label(f: FormulaM) -> Seq<char> {
    match f {
        FormulaM::And(_) => seq!['&', '&'],
        FormulaM::Or(_) => seq!['|', '|'],
        FormulaM::Imply { .. } => seq!['-', '>'],
        FormulaM::G { interval, .. } => seq!['G'] + interval_text(interval),
        FormulaM::F { interval, .. } => seq!['F'] + interval_text(interval),
        FormulaM::U { interval, .. } => seq!['U'] + interval_text(interval),
        FormulaM::R { interval, .. } => seq!['R'] + interval_text(interval),
        _ => formula_text(f),
    }
}

/// The name of the node numbered `id`: `n` and the number.
pub open spec fn tree_name(id: nat) -> Seq<char> {
    seq!['n'] + nat_text(id)
}

/// The number of nodes of the tree: operands of junctions, of implications (all three)
/// and of temporal operators are drawn below them; propositions, negations and `O` are
/// leaves.
pub open spec fn tree_size(f: FormulaM) -> nat
    decreases f, 1int,
{
    match f {
        FormulaM::And(s) => 1 + forest_size(s, s.len() as int),
        FormulaM::Or(s) => 1 + forest_size(s, s.len() as int),
        FormulaM::Imply { left, right, not_left } => 1 + tree_size(*left) + tree_size(*right)
            + tree_size(*not_left),
        FormulaM::G { phi, .. } => 1 + tree_size(*phi),
        FormulaM::F { phi, .. } => 1 + tree_size(*phi),
        FormulaM::U { left, right, .. } => 1 + tree_size(*left) + tree_size(*right),
        FormulaM::R { left, right, .. } => 1 + tree_size(*left) + tree_size(*right),
        _ => 1,
    }
}

pub open spec fn forest_size(s: Seq<FormulaM>, n: int) -> nat
    decreases s, 0int, n,
{
    if n <= 0 || n > s.len() {
        0
    } else {
        forest_size(s, n - 1) + tree_size(s[n - 1])
    }
}

/// The nodes drawn for `f` when its root is numbered `id`, in the order they are added:
/// the root, then the subtrees of its operands from left to right, numbered on.
pub open spec fn tree_nodes(f: FormulaM, id: nat) -> Seq<(Seq<char>, Seq<char>, bool)>
    decreases f, 2int,
{
    seq![(tree_name(id), spec_escape(tree_label(f)), false)] + nodes_below(f, id)
}

/// The nodes drawn below the root of `f`, numbered `id`.
pub open spec fn nodes_below(f: FormulaM, id: nat) -> Seq<(Seq<char>, Seq<char>, bool)>
    decreases f, 1int,
{
    match f {
        FormulaM::And(s) => forest_nodes(s, id + 1, s.len() as int),
        FormulaM::Or(s) => forest_nodes(s, id + 1, s.len() as int),
        FormulaM::Imply { left, right, not_left } => tree_nodes(*left, id + 1) + tree_nodes(
            *right,
            id + 1 + tree_size(*left),
        ) + tree_nodes(*not_left, id + 1 + tree_size(*left) + tree_size(*right)),
        FormulaM::G { phi, .. } => tree_nodes(*phi, id + 1),
        FormulaM::F { phi, .. } => tree_nodes(*phi, id + 1),
        FormulaM::U { left, right, .. } => tree_nodes(*left, id + 1) + tree_nodes(
            *right,
            id + 1 + tree_size(*left),
        ),
        FormulaM::R { left, right, .. } => tree_nodes(*left, id + 1) + tree_nodes(
            *right,
            id + 1 + tree_size(*left),
        ),
        _ => Seq::empty(),
    }
}

/// The nodes of the first `n` trees, numbered on from `start`.
pub open spec fn forest_nodes(s: Seq<FormulaM>, start: nat, n: int) -> Seq<
    (Seq<char>, Seq<char>, bool),
>
    decreases s, 0int, n,
{
    if n <= 0 || n > s.len() {
        Seq::empty()
    } else {
        forest_nodes(s, start, n - 1) + tree_nodes(s[n - 1], start + forest_size(s, n - 1))
    }
}

/// An edge between the nodes numbered `a` and `b`.
pub open spec fn tree_edge(a: nat, b: nat) -> (Seq<char>, Seq<char>) {
    (tree_name(a), tree_name(b))
}

/// The edges drawn for `f` when its root is numbered `id`, in the order they are added:
/// under a junction, each operand's subtree followed by the edge to it; under an
/// implication or `U`/`R`, the subtrees of all operands, then the edges to them.
pub open spec fn tree_edges(f: FormulaM, id: nat) -> Seq<(Seq<char>, Seq<char>)>
    decreases f, 1int,
{
    match f {
        FormulaM::And(s) => junction_edges(s, id, id + 1, s.len() as int),
        FormulaM::Or(s) => junction_edges(s, id, id + 1, s.len() as int),
        FormulaM::Imply { left, right, not_left } => {
            let a = id + 1;
            let b = a + tree_size(*left);
            let c = b + tree_size(*right);
            tree_edges(*left, a) + tree_edges(*right, b) + tree_edges(*not_left, c) + seq![
                tree_edge(id, a),
                tree_edge(id, b),
                tree_edge(id, c),
            ]
        },
        FormulaM::G { phi, .. } => tree_edges(*phi, id + 1).push(tree_edge(id, id + 1)),
        FormulaM::F { phi, .. } => tree_edges(*phi, id + 1).push(tree_edge(id, id + 1)),
        FormulaM::U { left, right, .. } => {
            let a = id + 1;
            let b = a + tree_size(*left);
            tree_edges(*left, a) + tree_edges(*right, b) + seq![tree_edge(id, a), tree_edge(id, b)]
        },
        FormulaM::R { left, right, .. } => {
            let a = id + 1;
            let b = a + tree_size(*left);
            tree_edges(*left, a) + tree_edges(*right, b) + seq![tree_edge(id, a), tree_edge(id, b)]
        },
        _ => Seq::empty(),
    }
}

/// The edges below a junction numbered `parent` for its first `n` operands, numbered on
/// from `start`.
pub open spec fn junction_edges(s: Seq<FormulaM>, parent: nat, start: nat, n: int) -> Seq<
    (Seq<char>, Seq<char>),
>
    decreases s, 0int, n,
{
    if n <= 0 || n > s.len() {
        Seq::empty()
    } else {
        let child = start + forest_size(s, n - 1);
        (junction_edges(s, parent, start, n - 1) + tree_edges(s[n - 1], child)).push(
            tree_edge(parent, child),
        )
    }
}

/// The edges of the first `n` trees, numbered on from `start`, with no edge between them.
pub open spec fn forest_edges(s: Seq<FormulaM>, start: nat, n: int) -> Seq<(Seq<char>, Seq<char>)>
    decreases s, 0int, n,
{
    if n <= 0 || n > s.len() {
        Seq::empty()
    } else {
        forest_edges(s, start, n - 1) + tree_edges(s[n - 1], start + forest_size(s, n - 1))
    }
}

fn node_name(id: usize) -> (r: String)
    ensures
        r@ == tree_name(id as nat),
        dot_identifier(r@),
{
    proof {
        let word = seq!['n'];
        assert forall|i: int| 0 <= i < word.len() implies dot_name_start(#[trigger] word[i]) by {}
        lemma_numbered_name(word, id as nat);
    }
    let mut out: Vec<char> = Vec::new();
    out.push('n');
    push_nat(&mut out, id as u64);
    assert(out@ =~= tree_name(id as nat));
    string_from_chars(&out)
}

fn label_of(f: &Formula) -> (r: String)
    ensures
        r@ == tree_label(f@),
{
    let mut out: Vec<char> = Vec::new();
    match f {
        Formula::And(_) => push_all(&mut out, &['&', '&']),
        Formula::Or(_) => push_all(&mut out, &['|', '|']),
        Formula::Imply { .. } => push_all(&mut out, &['-', '>']),
        Formula::G { interval, .. } => {
            out.push('G');
            push_interval(&mut out, interval);
        },
        Formula::F { interval, .. } => {
            out.push('F');
            push_interval(&mut out, interval);
        },
        Formula::U { interval, .. } => {
            out.push('U');
            push_interval(&mut out, interval);
        },
        Formula::R { interval, .. } => {
            out.push('R');
            push_interval(&mut out, interval);
        },
        _ => push_formula(&mut out, f),
    }
    assert(out@ =~= tree_label(f@));
    string_from_chars(&out)
}

/// Adds the syntax tree of `formula` to `graph`, its nodes numbered from the next
/// identifier of `ids` on; returns the root's number.
pub fn build_graph(formula: &Formula, graph: &mut dot_graph::Graph, ids: &mut IdGen) -> (id: usize)
    requires
        old(ids).next + tree_size(formula@) <= usize::MAX,
    ensures
        id == old(ids).next,
        final(ids).next == old(ids).next + tree_size(formula@),
        dot_nodes(*final(graph)) == dot_nodes(*old(graph)) + tree_nodes(formula@, id as nat),
        dot_edges(*final(graph)) == dot_edges(*old(graph)) + tree_edges(formula@, id as nat),
    decreases formula, 2nat,
{
    let label = label_of(formula);
    let escaped = esc_label(label.as_str());
    let id = ids.fresh();
    let name = node_name(id);
    let ghost nodes0 = dot_nodes(*graph);
    dot_add_node(graph, name.as_str(), escaped.as_str(), false);
    build_below(formula, graph, ids, id, &name);
    assert(dot_nodes(*graph) =~= nodes0 + tree_nodes(formula@, id as nat));
    id
}

/// Adds what lies below the root of `formula`, numbered `id` and named `name`.
fn build_below(
    formula: &Formula,
    graph: &mut dot_graph::Graph,
    ids: &mut IdGen,
    id: usize,
    name: &String,
)
    requires
        old(ids).next == id + 1,
        id + tree_size(formula@) <= usize::MAX,
        name@ == tree_name(id as nat),
        dot_identifier(name@),
    ensures
        final(ids).next == id + tree_size(formula@),
        dot_nodes(*final(graph)) == dot_nodes(*old(graph)) + nodes_below(formula@, id as nat),
        dot_edges(*final(graph)) == dot_edges(*old(graph)) + tree_edges(formula@, id as nat),
    decreases formula, 1nat,
{
    let ghost nodes0 = dot_nodes(*graph);
    let ghost edges0 = dot_edges(*graph);
    match formula {
        Formula::And(v) | Formula::Or(v) => {
            build_operands(formula, v, graph, ids, id, name);
        },
        Formula::Imply { left, right, not_left } => {
            let a = build_graph(left, graph, ids);
            let b = build_graph(right, graph, ids);
            let c = build_graph(not_left, graph, ids);
            let an = node_name(a);
            let bn = node_name(b);
            let cn = node_name(c);
            dot_add_edge(graph, name.as_str(), an.as_str());
            dot_add_edge(graph, name.as_str(), bn.as_str());
            dot_add_edge(graph, name.as_str(), cn.as_str());
            assert(dot_nodes(*graph) =~= nodes0 + nodes_below(formula@, id as nat));
            assert(dot_edges(*graph) =~= edges0 + tree_edges(formula@, id as nat));
        },
        Formula::G { phi, .. } | Formula::F { phi, .. } => {
            let a = build_graph(phi, graph, ids);
            let an = node_name(a);
            dot_add_edge(graph, name.as_str(), an.as_str());
            assert(dot_nodes(*graph) =~= nodes0 + nodes_below(formula@, id as nat));
            assert(dot_edges(*graph) =~= edges0 + tree_edges(formula@, id as nat));
        },
        Formula::U { left, right, .. } | Formula::R { left, right, .. } => {
            let a = build_graph(left, graph, ids);
            let b = build_graph(right, graph, ids);
            let an = node_name(a);
            let bn = node_name(b);
            dot_add_edge(graph, name.as_str(), an.as_str());
            dot_add_edge(graph, name.as_str(), bn.as_str());
            assert(dot_nodes(*graph) =~= nodes0 + nodes_below(formula@, id as nat));
            assert(dot_edges(*graph) =~= edges0 + tree_edges(formula@, id as nat));
        },
        _ => {
            assert(dot_nodes(*graph) =~= nodes0 + nodes_below(formula@, id as nat));
            assert(dot_edges(*graph) =~= edges0 + tree_edges(formula@, id as nat));
        },
    }
}

/// Adds the subtrees of the operands `v` of the junction `formula`, each followed by the
/// edge to it.
fn build_operands(
    formula: &Formula,
    v: &Vec<Formula>,
    graph: &mut dot_graph::Graph,
    ids: &mut IdGen,
    id: usize,
    name: &String,
)
    requires
        operands_of(*formula, *v),
        old(ids).next == id + 1,
        id + tree_size(formula@) <= usize::MAX,
        name@ == tree_name(id as nat),
        dot_identifier(name@),
    ensures
        final(ids).next == id + tree_size(formula@),
        dot_nodes(*final(graph)) == dot_nodes(*old(graph)) + nodes_below(formula@, id as nat),
        dot_edges(*final(graph)) == dot_edges(*old(graph)) + tree_edges(formula@, id as nat),
    decreases formula, 0nat,
{
    proof {
        lemma_view_junction(*v);
    }
    let ghost nodes0 = dot_nodes(*graph);
    let ghost edges0 = dot_edges(*graph);
    let ghost s = fviews(v@);
    assert(tree_size(formula@) == 1 + forest_size(s, s.len() as int));
    let mut i: usize = 0;
    while i < v.len()
        invariant
            operands_of(*formula, *v),
            s == fviews(v@),
            i <= v@.len(),
            ids.next == id + 1 + forest_size(s, i as int),
            id + 1 + forest_size(s, s.len() as int) <= usize::MAX,
            dot_nodes(*graph) == nodes0 + forest_nodes(s, (id + 1) as nat, i as int),
            dot_edges(*graph) == edges0 + junction_edges(s, id as nat, (id + 1) as nat, i as int),
            name@ == tree_name(id as nat),
        decreases v@.len() - i,
    {
        proof {
            lemma_operand_decreases(*formula, *v, i as int);
            lemma_forest_size_prefix(s, i + 1, s.len() as int);
        }
        assert(s[i as int] == v@[i as int]@);
        let cid = build_graph(&v[i], graph, ids);
        let cname = node_name(cid);
        dot_add_edge(graph, name.as_str(), cname.as_str());
        assert(dot_nodes(*graph) =~= nodes0 + forest_nodes(s, (id + 1) as nat, i + 1));
        assert(dot_edges(*graph) =~= edges0 + junction_edges(s, id as nat, (id + 1) as nat, i + 1));
        i += 1;
    }
}

proof fn lemma_forest_size_prefix(s: Seq<FormulaM>, m: int, n: int)
    requires
        0 <= m <= n <= s.len(),
    ensures
        forest_size(s, m) <= forest_size(s, n),
    decreases n,
{
    if m < n {
        lemma_forest_size_prefix(s, m, n - 1);
    }
}

impl Node {
    /// The syntax trees of the operands, side by side in one directed graph named
    /// `node_formulas`; nodes are numbered from the next identifier of `ids` on.
    pub fn id_tree(&self, ids: &mut IdGen) -> (g: dot_graph::Graph)
        requires
            old(ids).next + forest_size(ops(self), self.operands@.len() as int) <= usize::MAX,
        ensures
            dot_nodes(g) == forest_nodes(ops(self), old(ids).next as nat, self.operands@.len() as int),
            dot_edges(g) == forest_edges(ops(self), old(ids).next as nat, self.operands@.len() as int),
    {
        let mut graph = dot_graph_new("node_formulas", true);
        let ghost start = ids.next;
        let mut i: usize = 0;
        while i < self.operands.len()
            invariant
                i <= self.operands@.len(),
                ids.next == start + forest_size(ops(self), i as int),
                start + forest_size(ops(self), self.operands@.len() as int) <= usize::MAX,
                dot_nodes(graph) == forest_nodes(ops(self), start as nat, i as int),
                dot_edges(graph) == forest_edges(ops(self), start as nat, i as int),
            decreases self.operands@.len() - i,
        {
            proof {
                lemma_forest_size_prefix(ops(self), i + 1, self.operands@.len() as int);
            }
            assert(ops(self)[i as int] == self.operands@[i as int]@);
            build_graph(&self.operands[i], &mut graph, ids);
            i += 1;
        }
        graph
    }
}

} // verus!
