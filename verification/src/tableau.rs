use vstd::prelude::*;

use crate::bounds::spec_node_bounded;
use crate::decompose::{children_view, spec_decompose, spec_node_ready};
use crate::display::nat_text;
use crate::formula::{strip, ExprKindM, ExprM, FormulaM, IdGen};
use crate::graph::{dot_add_edge, dot_add_node, dot_graph_new};
use crate::node::{map_mltl, map_nnf, ops, spec_flatten, Node};
use crate::shift::{map_shift_bounds, spec_node_shift_ok};
use crate::simplify::{map_simplify, strip_all};
use crate::parser::{parse_formula, spec_parse_formula, spec_ws, ParseError};
use crate::solver::{
    atoms_after, get_assertion, has_relation, lemma_conflict_persists, literal_names_are_ok, literals,
    recorded_in_last, relations, spec_assertion, spec_conflict, spec_has_false, frame_keys, RelConstraintM,
    TableauSolver,
};
use crate::store::{RejectedNode, Store};
use crate::unsat_core::UnsatCore;

verus! {

/// The settings of a tableau run.
#[derive(Clone, Copy, Debug, PartialEq, Eq, Structural)]
pub struct TableauOptions {
    pub max_depth: usize,
    pub graph_output: bool,
    pub memoization: bool,
    pub simple_first: bool,
    pub formula_optimizations: bool,
    pub jump_rule_enabled: bool,
    pub formula_simplifications: bool,
    pub mltl: bool,
    pub smtlib_result: bool,
    pub unsat_core_extraction: bool,
}

impl Default for TableauOptions {
    fn default() -> (r: TableauOptions)
        ensures
            r == (TableauOptions {
                max_depth: 1000000,
                graph_output: false,
                memoization: true,
                simple_first: true,
                formula_optimizations: true,
                jump_rule_enabled: true,
                formula_simplifications: true,
                mltl: false,
                smtlib_result: false,
                unsat_core_extraction: false,
            }),
    {
        TableauOptions {
            max_depth: 1000000,
            graph_output: false,
            memoization: true,
            simple_first: true,
            formula_optimizations: true,
            jump_rule_enabled: true,
            formula_simplifications: true,
            mltl: false,
            smtlib_result: false,
            unsat_core_extraction: false,
        }
    }
}

/// A tableau for the satisfiability of a formula: nodes are expanded depth first until
/// one has no future left (satisfiable), all branches close (unsatisfiable), or the depth
/// limit is reached (unknown).
pub struct Tableau {
    pub options: TableauOptions,
    pub graph: Option<dot_graph::Graph>,
    pub store: Option<Store>,
    pub unsat_core: Option<UnsatCore>,
    pub node_ids: IdGen,
    pub prop_ids: IdGen,
}

/// The node's own propositions do not contradict each other: no operand is `FALSE` or
/// `!TRUE`, and no atom is asserted both ways among its literals.
pub open spec fn spec_locally_consistent(s: Seq<FormulaM>) -> bool {
    let u = literals(s, s.len() as int);
    !spec_has_false(s) && !spec_conflict(
        atoms_after(Map::empty(), u, false, u.len() as int),
        atoms_after(Map::empty(), u, true, u.len() as int),
    )
}

/// Within `fuel` expansions from the node with operands `s` at instant `t`, the rules reach
/// a node that is ready to expand and has no future left to explore.
pub open spec fn spec_reaches_leaf(options: TableauOptions, s: Seq<FormulaM>, t: int, fuel: nat) -> bool
    decreases fuel, 0int,
{
    fuel > 0 && spec_node_ready(s, t) && spec_locally_consistent(s) && match spec_decompose(options, s, t) {
        None => true,
        Some(c) => some_child_reaches_leaf(options, c, c.len() as int, (fuel - 1) as nat),
    }
}

/// One of the first `n` children reaches a leaf within `fuel` expansions.
pub open spec fn some_child_reaches_leaf(options: TableauOptions, c: Seq<(Seq<FormulaM>, int, bool)>, n: int, fuel: nat) -> bool
    decreases fuel, n + 1,
{
    if n <= 0 || n > c.len() {
        false
    } else {
        spec_reaches_leaf(options, c[n - 1].0, c[n - 1].1, fuel) || some_child_reaches_leaf(options, c, n - 1, fuel)
    }
}

proof fn lemma_some_child(options: TableauOptions, c: Seq<(Seq<FormulaM>, int, bool)>, n: int, fuel: nat, k: int)
    requires
        0 <= k < n <= c.len(),
        spec_reaches_leaf(options, c[k].0, c[k].1, fuel),
    ensures
        some_child_reaches_leaf(options, c, n, fuel),
    decreases n,
{
    if k < n - 1 {
        lemma_some_child(options, c, n - 1, fuel, k);
    }
}

proof fn lemma_leaf_here(options: TableauOptions, s: Seq<FormulaM>, t: int, fuel: nat)
    requires
        fuel > 0,
        spec_node_ready(s, t),
        spec_locally_consistent(s),
        spec_decompose(options, s, t) is None,
    ensures
        spec_reaches_leaf(options, s, t, fuel),
{
}

/// Within `fuel` expansions, every branch from the node with operands `s` at instant `t`
/// closes, where `pos`, `neg` and `rels` are the atoms and relations asserted before it at
/// the same instant. A node closes when its own propositions, with those before it, hold
/// `FALSE`, an atom both ways, or some relation (where z3 decides); or when its expansion
/// closes (`children_close`).
pub open spec fn spec_closes(
    options: TableauOptions,
    s: Seq<FormulaM>,
    t: int,
    fuel: nat,
    pos: Map<Seq<char>, usize>,
    neg: Map<Seq<char>, usize>,
    rels: Set<RelConstraintM>,
    stored: bool,
) -> bool
    decreases fuel, 2int,
{
    let u = literals(s, s.len() as int);
    let p = atoms_after(pos, u, false, u.len() as int);
    let n = atoms_after(neg, u, true, u.len() as int);
    let c = rels.union(relations(u, u.len() as int));
    &&& fuel > 0
    &&& spec_node_ready(s, t)
    &&& (spec_has_false(s) || spec_conflict(p, n) || c != Set::<RelConstraintM>::empty() || (
    spec_decompose(options, s, t) matches Some(ch) && children_close(options, ch, t, fuel, p, n, c, stored)))
}

/// The children of a node at instant `t` close: each one that does not imply its siblings
/// closes, or one that implies its siblings closes.
pub open spec fn children_close(
    options: TableauOptions,
    ch: Seq<(Seq<FormulaM>, int, bool)>,
    t: int,
    fuel: nat,
    pos: Map<Seq<char>, usize>,
    neg: Map<Seq<char>, usize>,
    rels: Set<RelConstraintM>,
    stored: bool,
) -> bool
    decreases fuel, 1int,
{
    ||| forall|k: int|
        0 <= k < ch.len() && !(#[trigger] ch[k]).2 ==> child_closes(options, ch[k], t, fuel, pos, neg, rels, stored)
    ||| exists|k: int|
        0 <= k < ch.len() && (#[trigger] ch[k]).2 && child_closes(options, ch[k], t, fuel, pos, neg, rels, stored)
}

/// A child of a node at instant `t` closes within the remaining expansions: at the same
/// instant, on top of what the node asserted; at a later instant, from nothing asserted,
/// or, when `stored` (rejected nodes are remembered), as a node the store rejects.
pub open spec fn child_closes(
    options: TableauOptions,
    x: (Seq<FormulaM>, int, bool),
    t: int,
    fuel: nat,
    pos: Map<Seq<char>, usize>,
    neg: Map<Seq<char>, usize>,
    rels: Set<RelConstraintM>,
    stored: bool,
) -> bool
    decreases fuel, 0int,
{
    fuel > 0 && if x.1 == t {
        spec_closes(options, x.0, t, (fuel - 1) as nat, pos, neg, rels, stored)
    } else {
        stored || spec_closes(
            options,
            x.0,
            x.1,
            (fuel - 1) as nat,
            Map::empty(),
            Map::empty(),
            Set::empty(),
            stored,
        )
    }
}

proof fn lemma_atoms_after_mono(
    m1: Map<Seq<char>, usize>,
    m2: Map<Seq<char>, usize>,
    u: Seq<(bool, ExprM)>,
    negated: bool,
    n: int,
)
    requires
        m1.dom().subset_of(m2.dom()),
    ensures
        atoms_after(m1, u, negated, n).dom().subset_of(atoms_after(m2, u, negated, n).dom()),
    decreases n,
{
    if 0 < n <= u.len() {
        lemma_atoms_after_mono(m1, m2, u, negated, n - 1);
    }
}

/// Closing is kept on top of more atoms and relations.
pub proof fn lemma_closes_mono(
    options: TableauOptions,
    s: Seq<FormulaM>,
    t: int,
    fuel: nat,
    p1: Map<Seq<char>, usize>,
    n1: Map<Seq<char>, usize>,
    c1: Set<RelConstraintM>,
    p2: Map<Seq<char>, usize>,
    n2: Map<Seq<char>, usize>,
    c2: Set<RelConstraintM>,
    stored: bool,
)
    requires
        spec_closes(options, s, t, fuel, p1, n1, c1, stored),
        p1.dom().subset_of(p2.dom()),
        n1.dom().subset_of(n2.dom()),
        c1.subset_of(c2),
    ensures
        spec_closes(options, s, t, fuel, p2, n2, c2, stored),
    decreases fuel, 2int,
{
    let u = literals(s, s.len() as int);
    let pa = atoms_after(p1, u, false, u.len() as int);
    let na = atoms_after(n1, u, true, u.len() as int);
    let ca = c1.union(relations(u, u.len() as int));
    let pb = atoms_after(p2, u, false, u.len() as int);
    let nb = atoms_after(n2, u, true, u.len() as int);
    let cb = c2.union(relations(u, u.len() as int));
    lemma_atoms_after_mono(p1, p2, u, false, u.len() as int);
    lemma_atoms_after_mono(n1, n2, u, true, u.len() as int);
    if spec_conflict(pa, na) {
        let k = choose|k: Seq<char>| #[trigger] pa.contains_key(k) && na.contains_key(k);
        assert(pb.contains_key(k) && nb.contains_key(k));
    }
    if ca != Set::<RelConstraintM>::empty() {
        let x = choose|x: RelConstraintM| ca.contains(x);
        if !ca.contains(x) {
            assert(ca =~= Set::<RelConstraintM>::empty());
        }
        assert(cb.contains(x));
        assert(cb != Set::<RelConstraintM>::empty());
    }
    if !(spec_has_false(s) || spec_conflict(pa, na) || ca != Set::<RelConstraintM>::empty()) {
        let ch = spec_decompose(options, s, t)->Some_0;
        lemma_children_close_mono(options, ch, t, fuel, pa, na, ca, pb, nb, cb, stored);
    }
}

proof fn lemma_children_close_mono(
    options: TableauOptions,
    ch: Seq<(Seq<FormulaM>, int, bool)>,
    t: int,
    fuel: nat,
    p1: Map<Seq<char>, usize>,
    n1: Map<Seq<char>, usize>,
    c1: Set<RelConstraintM>,
    p2: Map<Seq<char>, usize>,
    n2: Map<Seq<char>, usize>,
    c2: Set<RelConstraintM>,
    stored: bool,
)
    requires
        children_close(options, ch, t, fuel, p1, n1, c1, stored),
        p1.dom().subset_of(p2.dom()),
        n1.dom().subset_of(n2.dom()),
        c1.subset_of(c2),
    ensures
        children_close(options, ch, t, fuel, p2, n2, c2, stored),
    decreases fuel, 1int,
{
    if forall|k: int|
        0 <= k < ch.len() && !(#[trigger] ch[k]).2 ==> child_closes(options, ch[k], t, fuel, p1, n1, c1, stored) {
        assert forall|k: int| 0 <= k < ch.len() && !(#[trigger] ch[k]).2 implies child_closes(
            options,
            ch[k],
            t,
            fuel,
            p2,
            n2,
            c2,
            stored,
        ) by {
            if ch[k].1 == t {
                lemma_closes_mono(options, ch[k].0, t, (fuel - 1) as nat, p1, n1, c1, p2, n2, c2, stored);
            }
        }
    } else {
        let k = choose|k: int|
            0 <= k < ch.len() && (#[trigger] ch[k]).2 && child_closes(options, ch[k], t, fuel, p1, n1, c1, stored);
        if ch[k].1 == t {
            lemma_closes_mono(options, ch[k].0, t, (fuel - 1) as nat, p1, n1, c1, p2, n2, c2, stored);
        }
        assert(child_closes(options, ch[k], t, fuel, p2, n2, c2, stored));
    }
}

/// The solver is back where it was: the same frames, and nothing held that was not held
/// before.
pub open spec fn solver_restored(a: TableauSolver, b: TableauSolver) -> bool {
    &&& b.atom_part().frames() == a.atom_part().frames()
    &&& b.rel_part().frames() == a.rel_part().frames()
    &&& b.atom_part().pos().dom().subset_of(a.atom_part().pos().dom())
    &&& b.atom_part().neg().dom().subset_of(a.atom_part().neg().dom())
    &&& b.rel_part().constraints().subset_of(a.rel_part().constraints())
}

/// `a` is what the root's operands `o` become before they are flattened: the negation
/// normal form, the discrete reading of until and release unless `mltl`, then, with
/// simplifications, the simplified formulas (determined up to the identifiers of
/// propositions).
pub open spec fn spec_prepared(options: TableauOptions, o: Seq<FormulaM>, a: Seq<FormulaM>) -> bool {
    let n = map_nnf(o);
    let m = if options.mltl {
        n
    } else {
        map_mltl(n)
    };
    if options.formula_simplifications {
        strip_all(a) == map_simplify(strip_all(m))
    } else {
        a == m
    }
}

/// The operands that are expanded, from the prepared ones: flattened, then, with
/// formula optimizations, with their bounds shifted; `None` when a bound cannot be shifted.
pub open spec fn spec_normalized(options: TableauOptions, a: Seq<FormulaM>) -> Option<Seq<FormulaM>> {
    let f = spec_flatten(a);
    if !options.formula_optimizations {
        Some(f)
    } else if spec_node_shift_ok(f) {
        Some(map_shift_bounds(f))
    } else {
        None
    }
}

/// What the graph shows of a node: its name, its text, and whether it implies its siblings.
pub open spec fn graph_node_of(n: Node) -> (Seq<char>, Seq<char>, bool) {
    (node_name(n.id), crate::display::node_text(ops(&n), n.current_time as int), n.implies is Some)
}

pub open spec fn graph_nodes_of(v: Seq<Node>) -> Seq<(Seq<char>, Seq<char>, bool)> {
    Seq::new(v.len(), |k: int| graph_node_of(v[k]))
}

/// The edges from the node numbered `parent` to each of `v`.
pub open spec fn graph_edges_to(parent: usize, v: Seq<Node>) -> Seq<(Seq<char>, Seq<char>)> {
    Seq::new(v.len(), |k: int| (node_name(parent), node_name(v[k].id)))
}

/// A node where the search ends at once with a satisfiable answer: ready, without
/// relations, its propositions consistent, and no rule left to apply.
pub open spec fn spec_immediate_leaf(options: TableauOptions, s: Seq<FormulaM>, t: int) -> bool {
    &&& spec_node_ready(s, t)
    &&& no_relation_operand(s)
    &&& spec_locally_consistent(s)
    &&& spec_decompose(options, s, t) is None
}

/// A node whose own propositions contradict each other (an operand `FALSE` or `!TRUE`, or
/// an atom asserted both ways), ready to be checked: the search refutes it at once.
pub open spec fn spec_immediate_contradiction(mltl: bool, s: Seq<FormulaM>, t: int) -> bool {
    &&& spec_node_ready(s, t)
    &&& crate::solver::literal_names_ok(literals(s, s.len() as int))
    &&& (mltl ==> no_relation_operand(s))
    &&& !spec_locally_consistent(s)
}

/// No operand is a relation under negations.
pub open spec fn no_relation_operand(s: Seq<FormulaM>) -> bool {
    forall|i: int|
        0 <= i < s.len() ==> !(#[trigger] spec_assertion(s[i]) matches Some((_, e)) && e.kind is Rel)
}

proof fn lemma_no_relation(s: Seq<FormulaM>, n: int)
    requires
        0 <= n <= s.len(),
        no_relation_operand(s),
    ensures
        !has_relation(literals(s, n)),
    decreases n,
{
    if n > 0 {
        lemma_no_relation(s, n - 1);
        let u = literals(s, n - 1);
        let w = literals(s, n);
        assert forall|i: int| 0 <= i < w.len() implies !(#[trigger] w[i].1.kind is Rel) by {
            if i < u.len() {
                assert(w[i] == u[i]);
            } else {
                assert(spec_assertion(s[n - 1]) matches Some(x) && w[i] == x);
            }
        }
    }
}

fn has_relation_operand(node: &Node) -> (r: bool)
    ensures
        r == !no_relation_operand(ops(node)),
{
    let mut i: usize = 0;
    while i < node.operands.len()
        invariant
            i <= node.operands@.len(),
            forall|j: int|
                0 <= j < i ==> !(#[trigger] spec_assertion(ops(node)[j]) matches Some((_, e))
                    && e.kind is Rel),
        decreases node.operands@.len() - i,
    {
        assert(ops(node)[i as int] == node.operands@[i as int]@);
        match get_assertion(&node.operands[i]) {
            Some(a) => {
                if let crate::formula::ExprKind::Rel { .. } = a.expr.kind {
                    return true;
                }
            },
            None => {},
        }
        i += 1;
    }
    false
}

/// `Node<id>`, the name of a node in the tableau's graph.
pub open spec fn node_name(id: usize) -> Seq<char> {
    seq!['N', 'o', 'd', 'e'] + nat_text(id as nat)
}

fn node_name_string(id: usize) -> (r: String)
    ensures
        r@ == node_name(id),
        crate::graph::dot_identifier(r@),
{
    proof {
        let word = seq!['N', 'o', 'd', 'e'];
        assert forall|i: int| 0 <= i < word.len() implies crate::graph::dot_name_start(#[trigger] word[i]) by {}
        crate::graph::lemma_numbered_name(word, id as nat);
    }
    let mut out: Vec<char> = Vec::new();
    out.push('N');
    out.push('o');
    out.push('d');
    out.push('e');
    let ghost before = out@;
    crate::display::push_nat(&mut out, id as u64);
    assert(out@ =~= node_name(id));
    crate::display::string_from_chars(&out)
}

impl Tableau {
    pub open spec fn wf(&self) -> bool {
        &&& (self.store matches Some(st) ==> st.wf())
        &&& (self.unsat_core matches Some(c) ==> c.wf())
    }

    /// A tableau with the given settings: a graph when `graph_output`, a store of rejected
    /// nodes when `memoization`, an unsat core when `unsat_core_extraction`.
    pub fn new(options: TableauOptions) -> (r: Tableau)
        ensures
            r.wf(),
            r.options == options,
            r.graph is Some <==> options.graph_output,
            r.store is Some <==> options.memoization,
            r.unsat_core is Some <==> options.unsat_core_extraction,
    {
        let graph = if options.graph_output {
            Some(dot_graph_new("Tableau", false))
        } else {
            None
        };
        let store = if options.memoization {
            Some(Store::new())
        } else {
            None
        };
        let unsat_core = if options.unsat_core_extraction {
            Some(UnsatCore::new())
        } else {
            None
        };
        Tableau {
            options,
            graph,
            store,
            unsat_core,
            node_ids: IdGen::new(),
            prop_ids: IdGen::new(),
        }
    }

    /// Draws `node` into the graph, if there is one: named `Node<id>`, labelled with its
    /// text, filled when it implies its siblings.
    pub fn add_graph_node(&mut self, node: &Node)
        ensures
            final(self).options == old(self).options,
            final(self).store == old(self).store,
            final(self).unsat_core == old(self).unsat_core,
            final(self).node_ids == old(self).node_ids,
            final(self).prop_ids == old(self).prop_ids,
            final(self).graph is Some == old(self).graph is Some,
            old(self).graph matches Some(g) ==> crate::graph::dot_nodes(final(self).graph.unwrap())
                == crate::graph::dot_nodes(g).push((node_name(node.id), crate::display::node_text(ops(node), node.current_time as int), node.implies is Some)),
            old(self).graph matches Some(g) ==> crate::graph::dot_edges(final(self).graph.unwrap())
                == crate::graph::dot_edges(g),
    {
        if let Some(g) = &mut self.graph {
            let name = node_name_string(node.id);
            let label = node.to_text();
            dot_add_node(g, name.as_str(), label.as_str(), node.implies.is_some());
        }
    }

    /// Draws an edge between two nodes into the graph, if there is one.
    pub fn add_graph_edge(&mut self, from: &Node, to: &Node)
        ensures
            final(self).options == old(self).options,
            final(self).store == old(self).store,
            final(self).unsat_core == old(self).unsat_core,
            final(self).node_ids == old(self).node_ids,
            final(self).prop_ids == old(self).prop_ids,
            final(self).graph is Some == old(self).graph is Some,
            old(self).graph matches Some(g) ==> crate::graph::dot_edges(final(self).graph.unwrap())
                == crate::graph::dot_edges(g).push((node_name(from.id), node_name(to.id))),
            old(self).graph matches Some(g) ==> crate::graph::dot_nodes(final(self).graph.unwrap())
                == crate::graph::dot_nodes(g),
    {
        if let Some(g) = &mut self.graph {
            let a = node_name_string(from.id);
            let b = node_name_string(to.id);
            dot_add_edge(g, a.as_str(), b.as_str());
        }
    }

    /// Draws each child and an edge to it from `parent`, in order.
    pub fn add_graph_children(&mut self, parent: &Node, children: &Vec<Node>)
        ensures
            final(self).options == old(self).options,
            final(self).store == old(self).store,
            final(self).unsat_core == old(self).unsat_core,
            final(self).node_ids == old(self).node_ids,
            final(self).prop_ids == old(self).prop_ids,
            final(self).graph is Some == old(self).graph is Some,
            old(self).graph matches Some(g) ==> crate::graph::dot_nodes(final(self).graph.unwrap())
                == crate::graph::dot_nodes(g) + graph_nodes_of(children@),
            old(self).graph matches Some(g) ==> crate::graph::dot_edges(final(self).graph.unwrap())
                == crate::graph::dot_edges(g) + graph_edges_to(parent.id, children@),
    {
        let ghost g0 = self.graph;
        let mut k: usize = 0;
        while k < children.len()
            invariant
                self.options == old(self).options,
                self.store == old(self).store,
                self.unsat_core == old(self).unsat_core,
                self.node_ids == old(self).node_ids,
                self.prop_ids == old(self).prop_ids,
                self.graph is Some == old(self).graph is Some,
                g0 == old(self).graph,
                k <= children@.len(),
                g0 matches Some(g) ==> crate::graph::dot_nodes(self.graph.unwrap())
                    == crate::graph::dot_nodes(g) + graph_nodes_of(children@.take(k as int)),
                g0 matches Some(g) ==> crate::graph::dot_edges(self.graph.unwrap())
                    == crate::graph::dot_edges(g) + graph_edges_to(parent.id, children@.take(k as int)),
            decreases children@.len() - k,
        {
            self.add_graph_node(&children[k]);
            self.add_graph_edge(parent, &children[k]);
            proof {
                let t = children@.take(k + 1);
                assert(t =~= children@.take(k as int).push(children@[k as int]));
                assert(graph_nodes_of(t) =~= graph_nodes_of(children@.take(k as int)).push(
                    graph_node_of(children@[k as int]),
                ));
                assert(graph_edges_to(parent.id, t) =~= graph_edges_to(parent.id, children@.take(k as int)).push(
                    (node_name(parent.id), node_name(children@[k as int].id)),
                ));
                if let Some(g) = g0 {
                    assert(crate::graph::dot_nodes(self.graph.unwrap()) =~= crate::graph::dot_nodes(g)
                        + graph_nodes_of(t));
                    assert(crate::graph::dot_edges(self.graph.unwrap()) =~= crate::graph::dot_edges(g)
                        + graph_edges_to(parent.id, t));
                }
            }
            k += 1;
        }
        assert(children@.take(children@.len() as int) =~= children@);
    }

    /// Normalizes the root (negation normal form, the discrete reading of until and
    /// release unless `mltl`, flattening, and bound shifting under formula optimizations),
    /// then expands it. `Some(true)` only when a leaf is reached through consistent nodes;
    /// `Some(false)` only when every branch closes (`spec_closes`); `None` (unknown) when the
    /// depth limit is reached, and also when bounds cannot be shifted, a node leaves the
    /// range the rules take, or a relation names a variable that holds a NUL character.
    pub fn make_tableau_from_root(&mut self, root: Node) -> (r: Option<bool>)
        requires
            old(self).wf(),
        ensures
            final(self).wf(),
            final(self).options == old(self).options,
            old(self).options.max_depth > 0 && (forall|a: Seq<FormulaM>|
                #[trigger] spec_prepared(old(self).options, ops(&root), a) ==> (spec_normalized(
                    old(self).options,
                    a,
                ) matches Some(s) && spec_immediate_contradiction(
                    old(self).options.mltl,
                    s,
                    root.current_time as int,
                ))) ==> r == Some(false),
            old(self).options.max_depth > 0 && (forall|a: Seq<FormulaM>|
                #[trigger] spec_prepared(old(self).options, ops(&root), a) ==> (spec_normalized(
                    old(self).options,
                    a,
                ) matches Some(s) && spec_immediate_leaf(old(self).options, s, root.current_time as int)))
                ==> r == Some(true),
            r == Some(true) ==> exists|a: Seq<FormulaM>|
                #[trigger] spec_prepared(old(self).options, ops(&root), a) && (spec_normalized(
                    old(self).options,
                    a,
                ) matches Some(s) && spec_reaches_leaf(
                    old(self).options,
                    s,
                    root.current_time as int,
                    old(self).options.max_depth as nat,
                )),
            r == Some(false) ==> exists|a: Seq<FormulaM>|
                #[trigger] spec_prepared(old(self).options, ops(&root), a) && (spec_normalized(
                    old(self).options,
                    a,
                ) matches Some(s) && spec_closes(
                    old(self).options,
                    s,
                    root.current_time as int,
                    old(self).options.max_depth as nat,
                    Map::empty(),
                    Map::empty(),
                    Set::empty(),
                    old(self).store is Some,
                )),
    {
        let ghost o = ops(&root);
        let ghost t = root.current_time as int;
        let mut root = root;
        root.negative_normal_form_rewrite();
        if !self.options.mltl {
            root.mltl_rewrite();
        }
        if self.options.formula_simplifications {
            root.simplify(&mut self.prop_ids);
        }
        let ghost a = ops(&root);
        assert(spec_prepared(self.options, o, a));
        root.flatten();
        if self.options.formula_optimizations {
            if !root.try_shift_bounds() {
                return None;
            }
        }
        assert(spec_normalized(self.options, a) == Some(ops(&root)));
        if let Some(core) = &mut self.unsat_core {
            core.initialize_root_node(&root);
        }
        self.add_graph_node(&root);
        let mut local_solver = TableauSolver::new(
            self.options.unsat_core_extraction,
            self.options.mltl,
        );
        let ghost s = ops(&root);
        let r = self.add_children(root, &mut local_solver, 0);
        assert(r == Some(true) ==> spec_reaches_leaf(self.options, s, t, self.options.max_depth as nat));
        assert(r == Some(false) ==> spec_closes(
            self.options,
            s,
            t,
            self.options.max_depth as nat,
            Map::empty(),
            Map::empty(),
            Set::empty(),
            old(self).store is Some,
        ));
        r
    }

    /// Parses `formula` with the tableau's proposition identifiers and checks it; the
    /// parse error when `formula` does not start with a formula.
    pub fn make_tableau_from_str(&mut self, formula: &str) -> (r: Result<Option<bool>, ParseError>)
        requires
            old(self).wf(),
            formula@.len() < usize::MAX,
        ensures
            final(self).wf(),
            final(self).options == old(self).options,
            r is Err <==> spec_parse_formula(formula@) is None,
            old(self).options.max_depth > 0 && spec_parse_formula(formula@) is Some && (forall|
                f: FormulaM,
                a: Seq<FormulaM>,
            |
                #[trigger] crate::solver::parsed_as(formula@, f) && #[trigger] spec_prepared(
                    old(self).options,
                    seq![f],
                    a,
                ) ==> (spec_normalized(old(self).options, a) matches Some(s) && spec_immediate_leaf(
                    old(self).options,
                    s,
                    0,
                ))) ==> r == Ok::<Option<bool>, ParseError>(Some(true)),
            old(self).options.max_depth > 0 && spec_parse_formula(formula@) is Some && (forall|
                f: FormulaM,
                a: Seq<FormulaM>,
            |
                #[trigger] crate::solver::parsed_as(formula@, f) && #[trigger] spec_prepared(
                    old(self).options,
                    seq![f],
                    a,
                ) ==> (spec_normalized(old(self).options, a) matches Some(s)
                    && spec_immediate_contradiction(old(self).options.mltl, s, 0))) ==> r == Ok::<
                Option<bool>,
                ParseError,
            >(Some(false)),
            r matches Err(e) ==> e.position == spec_ws(formula@, 0),
            r == Ok::<Option<bool>, ParseError>(Some(true)) ==> exists|f: FormulaM, a: Seq<FormulaM>|
                #[trigger] spec_prepared(old(self).options, seq![f], a) && (spec_parse_formula(
                    formula@,
                ) matches Some((_, g)) && strip(f) == g) && (spec_normalized(old(self).options, a) matches Some(
                    s,
                ) && spec_reaches_leaf(old(self).options, s, 0, old(self).options.max_depth as nat)),
            r == Ok::<Option<bool>, ParseError>(Some(false)) ==> exists|f: FormulaM, a: Seq<FormulaM>|
                #[trigger] spec_prepared(old(self).options, seq![f], a) && (spec_parse_formula(
                    formula@,
                ) matches Some((_, g)) && strip(f) == g) && (spec_normalized(old(self).options, a) matches Some(
                    s,
                ) && spec_closes(
                    old(self).options,
                    s,
                    0,
                    old(self).options.max_depth as nat,
                    Map::empty(),
                    Map::empty(),
                    Set::empty(),
                    old(self).store is Some,
                )),
    {
        let parsed = parse_formula(formula, &mut self.prop_ids);
        match parsed {
            Ok((_, f)) => {
                let ghost fv = f@;
                assert(crate::solver::parsed_as(formula@, fv));
                let v = vec![f];
                let root = Node::from_operands(v, &mut self.node_ids);
                assert(ops(&root) =~= seq![fv]);
                Ok(self.make_tableau_from_root(root))
            },
            Err(e) => Err(e),
        }
    }

    /// Expands `node` at `depth` with the solver of its instant.
    fn add_children(&mut self, node: Node, local_solver: &mut TableauSolver, depth: usize) -> (r: Option<bool>)
        requires
            old(self).wf(),
            old(local_solver).wf(),
        ensures
            final(self).wf(),
            final(self).options == old(self).options,
            final(local_solver).wf(),
            final(local_solver).depth() >= old(local_solver).depth(),
            final(local_solver).mltl() == old(local_solver).mltl(),
            final(local_solver).extraction() == old(local_solver).extraction(),
            depth >= old(self).options.max_depth ==> r is None,
            depth < old(self).options.max_depth && spec_immediate_leaf(
                old(self).options,
                ops(&node),
                node.current_time as int,
            ) && old(local_solver).atom_part().pos() == Map::<Seq<char>, usize>::empty()
                && old(local_solver).atom_part().neg() == Map::<Seq<char>, usize>::empty()
                && old(local_solver).rel_part().cache() == Some(true) ==> r == Some(true),
            depth < old(self).options.max_depth && spec_immediate_contradiction(
                old(local_solver).mltl(),
                ops(&node),
                node.current_time as int,
            ) ==> r == Some(false),
            r == Some(true) ==> spec_reaches_leaf(
                old(self).options,
                ops(&node),
                node.current_time as int,
                (old(self).options.max_depth - depth) as nat,
            ),
            r == Some(false) ==> spec_closes(
                old(self).options,
                ops(&node),
                node.current_time as int,
                (old(self).options.max_depth - depth) as nat,
                old(local_solver).atom_part().pos(),
                old(local_solver).atom_part().neg(),
                old(local_solver).rel_part().constraints(),
                old(self).store is Some,
            ),
            r != Some(true) ==> solver_restored(*old(local_solver), *final(local_solver)),
            final(self).store is Some == old(self).store is Some,
        decreases self.options.max_depth - depth, 1nat,
    {
        if depth >= self.options.max_depth {
            return None;
        }
        if !node.is_ready() {
            return None;
        }
        if local_solver.mltl_mode() && has_relation_operand(&node) {
            return None;
        }
        proof {
            if local_solver.mltl() || no_relation_operand(ops(&node)) {
                lemma_no_relation(ops(&node), ops(&node).len() as int);
            }
        }
        if !literal_names_are_ok(&node) {
            return None;
        }
        let ghost ls0 = *local_solver;
        let ghost stored = self.store is Some;
        local_solver.push();
        let ghost ls1 = *local_solver;
        let ghost pos0 = local_solver.atom_part().pos();
        let ghost neg0 = local_solver.atom_part().neg();
        let consistent = local_solver.check(&node);
        let ghost ls2 = *local_solver;
        proof {
            let s = ops(&node);
            let u = literals(s, s.len() as int);
            if consistent && spec_conflict(
                atoms_after(Map::empty(), u, false, u.len() as int),
                atoms_after(Map::empty(), u, true, u.len() as int),
            ) {
                lemma_conflict_persists(pos0, neg0, u);
            }
        }
        let result: Option<bool> = if !consistent {
            if let Some(core) = &mut self.unsat_core {
                if let Some(new_core) = local_solver.extract_unsat_core() {
                    core.add_to_unsat_core(new_core);
                }
            }
            proof {
                let s = ops(&node);
                let u = literals(s, s.len() as int);
                if !spec_has_false(s) && ls2.rel_part().constraints() == Set::<RelConstraintM>::empty() {
                    assert(spec_conflict(ls2.atom_part().pos(), ls2.atom_part().neg()));
                }
                assert(spec_closes(
                    self.options,
                    s,
                    node.current_time as int,
                    (self.options.max_depth - depth) as nat,
                    ls0.atom_part().pos(),
                    ls0.atom_part().neg(),
                    ls0.rel_part().constraints(),
                    stored,
                ));
            }
            Some(false)
        } else {
            let mut ids = IdGen::starting_at(self.node_ids.next);
            let new_nodes = self.decompose(&node, &mut ids);
            self.node_ids = ids;
            match new_nodes {
                None => {
                    proof {
                        lemma_leaf_here(self.options, ops(&node), node.current_time as int, (self.options.max_depth - depth) as nat);
                    }
                    return Some(true);
                },
                Some(children) => {
                    let ghost s = ops(&node);
                    let ghost t = node.current_time as int;
                    let ghost c = children_view(children@);
                    let r = self.process_children(children, node, local_solver, depth);
                    assert(r == Some(true) ==> spec_reaches_leaf(self.options, s, t, (self.options.max_depth - depth) as nat));
                    assert(r == Some(false) ==> spec_closes(
                        self.options,
                        s,
                        t,
                        (self.options.max_depth - depth) as nat,
                        ls0.atom_part().pos(),
                        ls0.atom_part().neg(),
                        ls0.rel_part().constraints(),
                        stored,
                    ));
                    r
                },
            }
        };
        let ghost ls3 = *local_solver;
        local_solver.pop();
        proof {
            if result != Some(true) {
                let ls4 = *local_solver;
                assert(solver_restored(ls2, ls3));
                assert(ls1.atom_part().frames().drop_last() =~= ls0.atom_part().frames());
                assert(ls1.rel_part().frames().drop_last() =~= ls0.rel_part().frames());
                assert(ls4.atom_part().frames() == ls0.atom_part().frames());
                assert(ls4.rel_part().frames() == ls0.rel_part().frames());
                assert forall|k: Seq<char>| ls4.atom_part().pos().dom().contains(k) implies ls0.atom_part().pos().dom().contains(k) by {
                    assert(ls3.atom_part().pos().contains_key(k));
                    assert(ls2.atom_part().pos().contains_key(k));
                }
                assert forall|k: Seq<char>| ls4.atom_part().neg().dom().contains(k) implies ls0.atom_part().neg().dom().contains(k) by {
                    assert(ls3.atom_part().neg().contains_key(k));
                    assert(ls2.atom_part().neg().contains_key(k));
                }
                assert forall|x: RelConstraintM| ls4.rel_part().constraints().contains(x) implies ls0.rel_part().constraints().contains(x) by {
                    assert(ls3.rel_part().constraints().contains(x));
                    assert(ls2.rel_part().constraints().contains(x));
                }
            }
        }
        result
    }

    /// Explores the children of `node` in order: a satisfiable child settles the node
    /// (unless it only implies its siblings), a refuted child that implies its siblings
    /// refutes the node, and a child at a later instant is first looked up among the
    /// rejected nodes and, when refuted, stored.
    fn process_children(&mut self, children: Vec<Node>, node: Node, local_solver: &mut TableauSolver, depth: usize) -> (r: Option<bool>)
        requires
            old(self).wf(),
            old(local_solver).wf(),
            depth < old(self).options.max_depth,
            spec_decompose(old(self).options, ops(&node), node.current_time as int) == Some(
                children_view(children@),
            ),
        ensures
            final(self).wf(),
            final(self).options == old(self).options,
            final(local_solver).wf(),
            final(local_solver).depth() >= old(local_solver).depth(),
            final(local_solver).mltl() == old(local_solver).mltl(),
            final(local_solver).extraction() == old(local_solver).extraction(),
            r == Some(true) ==> some_child_reaches_leaf(
                old(self).options,
                children_view(children@),
                children@.len() as int,
                (old(self).options.max_depth - depth - 1) as nat,
            ),
            r == Some(false) ==> children_close(
                old(self).options,
                children_view(children@),
                node.current_time as int,
                (old(self).options.max_depth - depth) as nat,
                old(local_solver).atom_part().pos(),
                old(local_solver).atom_part().neg(),
                old(local_solver).rel_part().constraints(),
                old(self).store is Some,
            ),
            r != Some(true) ==> solver_restored(*old(local_solver), *final(local_solver)),
            final(self).store is Some == old(self).store is Some,
        decreases self.options.max_depth - depth, 0nat,
    {
        let ghost all = children@;
        let ghost fuel = (self.options.max_depth - depth - 1) as nat;
        let ghost t = node.current_time as int;
        let ghost cv = children_view(children@);
        let ghost ls0 = *local_solver;
        let ghost p0 = ls0.atom_part().pos();
        let ghost n0 = ls0.atom_part().neg();
        let ghost c0 = ls0.rel_part().constraints();
        let ghost stored = self.store is Some;
        let ghost f = (self.options.max_depth - depth) as nat;
        proof {
            crate::decompose::lemma_implying_children_later(self.options, ops(&node), t);
            assert(spec_decompose(self.options, ops(&node), t) == Some(cv));
            assert forall|k: int| 0 <= k < cv.len() && (#[trigger] cv[k]).2 implies cv[k].1 > t by {
                let ch = spec_decompose(self.options, ops(&node), t)->Some_0;
                assert(ch[k] == cv[k]);
            }
        }
        self.add_graph_children(&node, &children);
        let mut pending = children;
        let mut depth_reached = false;
        let ghost mut j: int = 0;
        while pending.len() > 0
            invariant
                self.wf(),
                self.options == old(self).options,
                depth < self.options.max_depth,
                local_solver.wf(),
                local_solver.depth() >= old(local_solver).depth(),
                local_solver.mltl() == old(local_solver).mltl(),
                local_solver.extraction() == old(local_solver).extraction(),
                fuel == (self.options.max_depth - depth - 1) as nat,
                f == (self.options.max_depth - depth) as nat,
                0 <= j <= all.len(),
                all == children@,
                cv == children_view(all),
                t == node.current_time as int,
                pending@ == all.subrange(j, all.len() as int),
                (self.store is Some) == stored,
                stored == (old(self).store is Some),
                ls0 == *old(local_solver),
                p0 == ls0.atom_part().pos(),
                n0 == ls0.atom_part().neg(),
                c0 == ls0.rel_part().constraints(),
                solver_restored(ls0, *local_solver),
                forall|k: int| 0 <= k < cv.len() && (#[trigger] cv[k]).2 ==> cv[k].1 > t,
                !depth_reached ==> forall|k: int|
                    0 <= k < j && !(#[trigger] cv[k]).2 ==> child_closes(self.options, cv[k], t, f, p0, n0, c0, stored),
            decreases pending@.len(),
        {
            let child = pending.remove(0);
            let ghost jj = j;
            assert(child == all[jj]);
            assert(cv[jj] == (ops(&child), child.current_time as int, child.implies is Some));
            proof {
                j = j + 1;
                assert(pending@ =~= all.subrange(j, all.len() as int));
            }
            let implies_siblings = child.implies.is_some();
            let child_time = child.current_time;
            let bounded = child.is_bounded();
            let rejected_node = RejectedNode::from_node(&child);
            let ghost lsc = *local_solver;
            let ghost x = cv[jj];
            let result = if child.current_time == node.current_time {
                let r = self.add_children(child, local_solver, depth + 1);
                proof {
                    if r == Some(false) {
                        lemma_closes_mono(
                            self.options,
                            x.0,
                            t,
                            fuel,
                            lsc.atom_part().pos(),
                            lsc.atom_part().neg(),
                            lsc.rel_part().constraints(),
                            p0,
                            n0,
                            c0,
                            stored,
                        );
                        assert(child_closes(self.options, x, t, f, p0, n0, c0, stored));
                    }
                }
                r
            } else {
                let known = match &self.store {
                    Some(store) => bounded && store.check_rejected(&rejected_node),
                    None => false,
                };
                if known {
                    assert(child_closes(self.options, x, t, f, p0, n0, c0, stored));
                    Some(false)
                } else {
                    let mut fresh = local_solver.empty_solver();
                    let r = self.add_children(child, &mut fresh, depth + 1);
                    proof {
                        if r == Some(false) {
                            assert(child_closes(self.options, x, t, f, p0, n0, c0, stored));
                        }
                    }
                    r
                }
            };
            match result {
                Some(true) => {
                    if !implies_siblings {
                        assert(spec_reaches_leaf(self.options, children_view(all)[jj].0, children_view(all)[jj].1, fuel));
                        proof {
                            lemma_some_child(self.options, children_view(all), all.len() as int, fuel, jj);
                        }
                        return Some(true);
                    }
                },
                Some(false) => {
                    if child_time > node.current_time && bounded {
                        if let Some(store) = &mut self.store {
                            store.add_rejected(rejected_node);
                        }
                    }
                    if implies_siblings {
                        return Some(false);
                    }
                },
                None => {
                    depth_reached = true;
                },
            }
        }
        if depth_reached {
            None
        } else {
            Some(false)
        }
    }
}

} // verus!
