use vstd::prelude::*;

use crate::bounds::{
    bounded_prefix, in_range, interval_in_range, lemma_bounded_prefix, spec_bounded,
    spec_node_bounded, TIME_LIMIT,
};
use crate::formula::{
    spec_get_max_upper, spec_is_complex_temporal, spec_is_parent_active_at,
    clone_formulas, fview, fviews, lemma_operand_decreases, lemma_view_and, lemma_view_junction,
    operands_of, spec_get_interval, spec_is_active_at, spec_with_interval,
    spec_with_parent_upper, Formula, FormulaM, IdGen,
};
use crate::interval::{spec_shift_right, Interval};
use crate::node::{flatten_piece, ops, Node};
use crate::tableau::Tableau;
use crate::transform::lemma_fviews_concat;
use crate::rewrite::{chain_fix, chain_operand_ready, chain_step, spec_chain_ready};

verus! {

// ---------------------------------------------------------------------------------------
// Temporal expansion
// ---------------------------------------------------------------------------------------
/// `O` occurs nowhere in the formula.
pub open spec fn spec_o_free(f: FormulaM) -> bool
    decreases f,
{
    match f {
        FormulaM::Prop(_) => true,
        FormulaM::And(s) => o_free_prefix(s, s.len() as int),
        FormulaM::Or(s) => o_free_prefix(s, s.len() as int),
        FormulaM::Imply { left, right, not_left } => spec_o_free(*left) && spec_o_free(*right)
            && spec_o_free(*not_left),
        FormulaM::Not(b) => spec_o_free(*b),
        FormulaM::G { phi, .. } => spec_o_free(*phi),
        FormulaM::F { phi, .. } => spec_o_free(*phi),
        FormulaM::U { left, right, .. } => spec_o_free(*left) && spec_o_free(*right),
        FormulaM::R { left, right, .. } => spec_o_free(*left) && spec_o_free(*right),
        FormulaM::O(_) => false,
    }
}

pub open spec fn o_free_prefix(s: Seq<FormulaM>, n: int) -> bool
    decreases s, n,
{
    if n <= 0 || n > s.len() {
        true
    } else {
        o_free_prefix(s, n - 1) && spec_o_free(s[n - 1])
    }
}

pub proof fn lemma_o_free_prefix(s: Seq<FormulaM>, n: int, i: int)
    requires
        o_free_prefix(s, n),
        0 <= i < n <= s.len(),
    ensures
        spec_o_free(s[i]),
    decreases n,
{
    if i < n - 1 {
        lemma_o_free_prefix(s, n - 1, i);
    }
}

/// An operand of a node as the rules produce them: free of `O`, or `O` of such a formula.
pub open spec fn spec_operand_ready(f: FormulaM) -> bool {
    match f {
        FormulaM::O(b) => spec_o_free(*b),
        _ => spec_o_free(f),
    }
}

/// Every operand is ready, and the instant and all bounds are in range.
pub open spec fn spec_node_ready(s: Seq<FormulaM>, t: int) -> bool {
    &&& spec_node_bounded(s, t)
    &&& forall|i: int| 0 <= i < s.len() ==> spec_operand_ready(#[trigger] s[i])
}

/// The formula is moved forward to instant `t`: every outermost temporal operator, reached
/// through `&&`, `||` and `->`, gets its interval shifted by `t` and records `parent_upper`.
pub open spec fn spec_temporal_expansion(f: FormulaM, t: int, parent_upper: Option<i32>) -> FormulaM
    decreases f, 0int,
{
    match f {
        FormulaM::And(s) => FormulaM::And(expansion_each(s, t, parent_upper)),
        FormulaM::Or(s) => FormulaM::Or(expansion_each(s, t, parent_upper)),
        FormulaM::Imply { left, right, not_left } => FormulaM::Imply {
            left: Box::new(spec_temporal_expansion(*left, t, parent_upper)),
            right: Box::new(spec_temporal_expansion(*right, t, parent_upper)),
            not_left: Box::new(spec_temporal_expansion(*not_left, t, parent_upper)),
        },
        FormulaM::G { .. } | FormulaM::F { .. } | FormulaM::U { .. } | FormulaM::R { .. } => {
            spec_with_parent_upper(
                spec_with_interval(f, spec_shift_right(spec_get_interval(f).unwrap(), t)),
                parent_upper,
            )
        },
        _ => f,
    }
}

pub open spec fn expansion_each(s: Seq<FormulaM>, t: int, parent_upper: Option<i32>) -> Seq<FormulaM>
    decreases s, 1int,
{
    Seq::new(s.len(), |i: int| expansion_at(s, i, t, parent_upper))
}

pub open spec fn expansion_at(s: Seq<FormulaM>, i: int, t: int, parent_upper: Option<i32>) -> FormulaM
    decreases s, 0int,
{
    if 0 <= i < s.len() {
        spec_temporal_expansion(s[i], t, parent_upper)
    } else {
        FormulaM::And(Seq::empty())
    }
}

/// Temporal expansion applies: no `O` is reached through `&&`, `||` and `->`, and every
/// bound is in range.
pub open spec fn spec_expandable(f: FormulaM) -> bool
    decreases f,
{
    match f {
        FormulaM::And(s) => expandable_prefix(s, s.len() as int),
        FormulaM::Or(s) => expandable_prefix(s, s.len() as int),
        FormulaM::Imply { left, right, not_left } => spec_expandable(*left) && spec_expandable(
            *right,
        ) && spec_expandable(*not_left),
        FormulaM::O(_) => false,
        _ => true,
    }
}

pub open spec fn expandable_prefix(s: Seq<FormulaM>, n: int) -> bool
    decreases s, n,
{
    if n <= 0 || n > s.len() {
        true
    } else {
        expandable_prefix(s, n - 1) && spec_expandable(s[n - 1])
    }
}

pub proof fn lemma_expandable_prefix(s: Seq<FormulaM>, n: int, i: int)
    requires
        expandable_prefix(s, n),
        0 <= i < n <= s.len(),
    ensures
        spec_expandable(s[i]),
    decreases n,
{
    if i < n - 1 {
        lemma_expandable_prefix(s, n - 1, i);
    }
}

/// A formula free of `O` can be expanded.
pub proof fn lemma_o_free_expandable(f: FormulaM)
    requires
        spec_o_free(f),
    ensures
        spec_expandable(f),
    decreases f,
{
    match f {
        FormulaM::And(s) | FormulaM::Or(s) => {
            lemma_o_free_expandable_prefix(s, s.len() as int);
        },
        FormulaM::Imply { left, right, not_left } => {
            lemma_o_free_expandable(*left);
            lemma_o_free_expandable(*right);
            lemma_o_free_expandable(*not_left);
        },
        _ => {},
    }
}

proof fn lemma_o_free_expandable_prefix(s: Seq<FormulaM>, n: int)
    requires
        o_free_prefix(s, n),
        0 <= n <= s.len(),
    ensures
        expandable_prefix(s, n),
    decreases s, n,
{
    if n > 0 {
        lemma_o_free_expandable_prefix(s, n - 1);
        lemma_o_free_prefix(s, n, n - 1);
        lemma_o_free_expandable(s[n - 1]);
    }
}

pub proof fn lemma_expansion_each(s: Seq<FormulaM>, t: int, parent_upper: Option<i32>)
    ensures
        expansion_each(s, t, parent_upper) == Seq::new(
            s.len(),
            |i: int| spec_temporal_expansion(s[i], t, parent_upper),
        ),
{
    let e = expansion_each(s, t, parent_upper);
    assert forall|i: int| 0 <= i < s.len() implies e[i] == spec_temporal_expansion(
        s[i],
        t,
        parent_upper,
    ) by {
        assert(e[i] == expansion_at(s, i, t, parent_upper));
    }
    assert(e =~= Seq::new(s.len(), |i: int| spec_temporal_expansion(s[i], t, parent_upper)));
}

impl Formula {
    /// The formula moved forward to instant `current_time` inside an operator with the
    /// given interval.
    pub fn temporal_expansion(&self, current_time: i32, parent_interval: Option<Interval>) -> (r:
        Formula)
        requires
            spec_expandable(self@),
            spec_bounded(self@),
            in_range(current_time as int),
        ensures
            r@ == spec_temporal_expansion(
                self@,
                current_time as int,
                match parent_interval {
                    Some(p) => Some(p.upper),
                    None => None,
                },
            ),
        decreases self, 1nat,
    {
        let pu = match parent_interval {
            Some(p) => Some(p.upper),
            None => None,
        };
        match self {
            Formula::Prop(_) | Formula::Not(_) => self.clone(),
            Formula::G { interval, .. } | Formula::F { interval, .. } | Formula::U { interval, .. }
            | Formula::R { interval, .. } => {
                let moved = self.with_interval(interval.shift_right(current_time));
                moved.with_parent_upper(pu)
            },
            Formula::And(v) => {
                proof {
                    lemma_view_junction(*v);
                }
                let out = expand_operands(self, v, current_time, parent_interval);
                proof {
                    lemma_view_junction(out);
                    lemma_expansion_each(fviews(v@), current_time as int, pu);
                    assert(fviews(out@) =~= expansion_each(fviews(v@), current_time as int, pu));
                }
                Formula::And(out)
            },
            Formula::Or(v) => {
                proof {
                    lemma_view_junction(*v);
                }
                let out = expand_operands(self, v, current_time, parent_interval);
                proof {
                    lemma_view_junction(out);
                    lemma_expansion_each(fviews(v@), current_time as int, pu);
                    assert(fviews(out@) =~= expansion_each(fviews(v@), current_time as int, pu));
                }
                Formula::Or(out)
            },
            Formula::Imply { left, right, not_left } => self.with_implication(
                left.temporal_expansion(current_time, parent_interval),
                right.temporal_expansion(current_time, parent_interval),
                not_left.temporal_expansion(current_time, parent_interval),
            ),
            Formula::O(_) => {
                assert(false);
                self.clone()
            },
        }
    }
}

fn expand_operands(f: &Formula, v: &Vec<Formula>, current_time: i32, parent_interval: Option<
    Interval,
>) -> (r: Vec<Formula>)
    requires
        operands_of(*f, *v),
        expandable_prefix(fviews(v@), v@.len() as int),
        bounded_prefix(fviews(v@), v@.len() as int),
        in_range(current_time as int),
    ensures
        r@.len() == v@.len(),
        forall|j: int|
            0 <= j < v@.len() ==> (#[trigger] r@[j])@ == spec_temporal_expansion(
                v@[j]@,
                current_time as int,
                match parent_interval {
                    Some(p) => Some(p.upper),
                    None => None,
                },
            ),
    decreases f, 0nat,
{
    let mut out: Vec<Formula> = Vec::new();
    let mut i: usize = 0;
    while i < v.len()
        invariant
            operands_of(*f, *v),
            expandable_prefix(fviews(v@), v@.len() as int),
            bounded_prefix(fviews(v@), v@.len() as int),
            in_range(current_time as int),
            i <= v.len(),
            out@.len() == i,
            forall|j: int|
                0 <= j < i ==> (#[trigger] out@[j])@ == spec_temporal_expansion(
                    v@[j]@,
                    current_time as int,
                    match parent_interval {
                        Some(p) => Some(p.upper),
                        None => None,
                    },
                ),
        decreases v.len() - i,
    {
        proof {
            lemma_operand_decreases(*f, *v, i as int);
            lemma_expandable_prefix(fviews(v@), v@.len() as int, i as int);
            lemma_bounded_prefix(fviews(v@), v@.len() as int, i as int);
        }
        let c = v[i].temporal_expansion(current_time, parent_interval);
        out.push(c);
        i += 1;
    }
    out
}

// ---------------------------------------------------------------------------------------
// Tableau rules
// ---------------------------------------------------------------------------------------
pub proof fn lemma_ready_operand(s: Seq<FormulaM>, t: int, i: int)
    requires
        spec_node_ready(s, t),
        0 <= i < s.len(),
    ensures
        spec_operand_ready(s[i]),
        spec_bounded(s[i]),
        !(s[i] is O) ==> spec_o_free(s[i]) && spec_expandable(s[i]),
{
    if !(s[i] is O) {
        lemma_o_free_expandable(s[i]);
    }
}

/// The operands after every top-level conjunction is replaced by its operands.
pub open spec fn splice_prefix(s: Seq<FormulaM>, n: int) -> Seq<FormulaM>
    decreases n,
{
    if n <= 0 || n > s.len() {
        Seq::empty()
    } else {
        splice_prefix(s, n - 1) + flatten_piece(s[n - 1])
    }
}

/// What the `G` rule makes of an operand at instant `t`: an active `G[a,b] φ` yields `φ`
/// expanded at `t`, preceded by `O G[a,b] φ` while `t + 1` is still in `[a,b]`.
pub open spec fn g_piece(f: FormulaM, t: int) -> Seq<FormulaM> {
    match f {
        FormulaM::G { interval, phi, .. } => if spec_is_active_at(f, t) {
            if spec_is_active_at(f, t + 1) {
                seq![
                    FormulaM::O(Box::new(f)),
                    spec_temporal_expansion(*phi, t, Some(interval.upper)),
                ]
            } else {
                seq![spec_temporal_expansion(*phi, t, Some(interval.upper))]
            }
        } else {
            seq![f]
        },
        _ => seq![f],
    }
}

pub open spec fn g_prefix(s: Seq<FormulaM>, t: int, n: int) -> Seq<FormulaM>
    decreases n,
{
    if n <= 0 || n > s.len() {
        Seq::empty()
    } else {
        g_prefix(s, t, n - 1) + g_piece(s[n - 1], t)
    }
}

/// Some operand is a `G` active at `t`.
pub open spec fn spec_has_active_g(s: Seq<FormulaM>, t: int) -> bool {
    exists|i: int| 0 <= i < s.len() && #[trigger] s[i] is G && spec_is_active_at(s[i], t)
}

/// A node derived from `node`: same instant, no `implies`, the next identifier.
fn child(node: &Node, operands: Vec<Formula>, ids: &mut IdGen) -> (r: Node)
    ensures
        r.operands@ == operands@,
        r.current_time == node.current_time,
        r.implies is None,
{
    Node { operands, current_time: node.current_time, implies: None, id: ids.fresh() }
}

proof fn lemma_fviews_push(a: Seq<Formula>, x: Formula)
    ensures
        fviews(a.push(x)) == fviews(a).push(x@),
{
    assert(fviews(a.push(x)) =~= fviews(a).push(x@));
}

proof fn lemma_fviews_update(a: Seq<Formula>, i: int, x: Formula)
    requires
        0 <= i < a.len(),
    ensures
        fviews(a.update(i, x)) == fviews(a).update(i, x@),
{
    assert(fviews(a.update(i, x)) =~= fviews(a).update(i, x@));
}

impl Tableau {
    /// Replaces every top-level conjunction by its operands; `None` when there is none.
    pub fn decompose_and(&self, node: &Node, ids: &mut IdGen) -> (r: Option<Vec<Node>>)
        ensures
            r is Some <==> exists|i: int| 0 <= i < ops(node).len() && #[trigger] ops(node)[i] is And,
            r matches Some(v) ==> v@.len() == 1 && ops(&v@[0]) == splice_prefix(
                ops(node),
                ops(node).len() as int,
            ) && v@[0].current_time == node.current_time && v@[0].implies is None,
    {
        let mut changed = false;
        let mut res: Vec<Formula> = Vec::new();
        let mut i: usize = 0;
        while i < node.operands.len()
            invariant
                i <= node.operands@.len(),
                fviews(res@) == splice_prefix(ops(node), i as int),
                changed <==> exists|j: int| 0 <= j < i && #[trigger] ops(node)[j] is And,
            decreases node.operands@.len() - i,
        {
            let f = &node.operands[i];
            let ghost before = res@;
            assert(ops(node)[i as int] == f@);
            match f {
                Formula::And(inner) => {
                    changed = true;
                    let mut c = clone_formulas(inner);
                    proof {
                        lemma_view_and(*inner);
                        lemma_fviews_concat(before, c@);
                    }
                    res.append(&mut c);
                },
                _ => {
                    let c = f.clone();
                    proof {
                        lemma_fviews_push(before, c);
                    }
                    res.push(c);
                    assert(fviews(res@) == fviews(before).push(f@));
                    assert(flatten_piece(f@) == seq![f@]);
                },
            }
            assert(fviews(res@) == splice_prefix(ops(node), i + 1));
            i += 1;
        }
        if changed {
            let n = child(node, res, ids);
            Some(vec![n])
        } else {
            None
        }
    }

    /// Expands every `G` active at the node's instant; `None` when there is none.
    pub fn decompose_g(&self, node: &Node, ids: &mut IdGen) -> (r: Option<Vec<Node>>)
        requires
            spec_node_ready(ops(node), node.current_time as int),
        ensures
            r is Some <==> spec_has_active_g(ops(node), node.current_time as int),
            r matches Some(v) ==> v@.len() == 1 && ops(&v@[0]) == g_prefix(
                ops(node),
                node.current_time as int,
                ops(node).len() as int,
            ) && v@[0].current_time == node.current_time && v@[0].implies is None,
    {
        let t = node.current_time;
        let mut changed = false;
        let mut res: Vec<Formula> = Vec::new();
        let mut i: usize = 0;
        while i < node.operands.len()
            invariant
                t == node.current_time,
                spec_node_ready(ops(node), t as int),
                i <= node.operands@.len(),
                fviews(res@) == g_prefix(ops(node), t as int, i as int),
                changed <==> exists|j: int|
                    0 <= j < i && #[trigger] ops(node)[j] is G && spec_is_active_at(
                        ops(node)[j],
                        t as int,
                    ),
            decreases node.operands@.len() - i,
        {
            let f = &node.operands[i];
            let ghost before = res@;
            assert(ops(node)[i as int] == f@);
            proof {
                lemma_ready_operand(ops(node), t as int, i as int);
            }
            match f {
                Formula::G { interval, phi, .. } => {
                    if f.is_active_at(t) {
                        changed = true;
                        assert(spec_o_free(phi@));
                        proof {
                            lemma_o_free_expandable(phi@);
                        }
                        let e = phi.temporal_expansion(t, Some(*interval));
                        if f.is_active_at(t + 1) {
                            let o = Formula::o(f.clone());
                            proof {
                                lemma_fviews_push(before, o);
                                lemma_fviews_push(before.push(o), e);
                            }
                            res.push(o);
                            res.push(e);
                            assert(fviews(res@) =~= fviews(before) + g_piece(f@, t as int));
                        } else {
                            proof {
                                lemma_fviews_push(before, e);
                            }
                            res.push(e);
                            assert(fviews(res@) =~= fviews(before) + g_piece(f@, t as int));
                        }
                    } else {
                        let c = f.clone();
                        proof {
                            lemma_fviews_push(before, c);
                        }
                        res.push(c);
                        assert(fviews(res@) =~= fviews(before) + g_piece(f@, t as int));
                    }
                },
                _ => {
                    let c = f.clone();
                    proof {
                        lemma_fviews_push(before, c);
                    }
                    res.push(c);
                    assert(fviews(res@) =~= fviews(before) + g_piece(f@, t as int));
                },
            }
            assert(fviews(res@) == g_prefix(ops(node), t as int, i + 1));
            i += 1;
        }
        if changed {
            let n = child(node, res, ids);
            Some(vec![n])
        } else {
            None
        }
    }

    /// One node per disjunct of the disjunction at `i`, standing in its place.
    pub fn decompose_or_at(&self, node: &Node, i: usize, ids: &mut IdGen) -> (r: Vec<Node>)
        requires
            i < ops(node).len(),
            ops(node)[i as int] is Or,
        ensures
            r@.len() == ops(node)[i as int]->Or_0.len(),
            forall|k: int|
                0 <= k < r@.len() ==> ops(&#[trigger] r@[k]) == ops(node).update(
                    i as int,
                    ops(node)[i as int]->Or_0[k],
                ) && r@[k].current_time == node.current_time && r@[k].implies is None,
    {
        let f = &node.operands[i];
        assert(ops(node)[i as int] == f@);
        match f {
            Formula::Or(disjuncts) => {
                proof {
                    crate::formula::lemma_view_or(*disjuncts);
                }
                let mut out: Vec<Node> = Vec::new();
                let mut k: usize = 0;
                while k < disjuncts.len()
                    invariant
                        i < ops(node).len(),
                        f == &node.operands@[i as int],
                        f@ == FormulaM::Or(fviews(disjuncts@)),
                        k <= disjuncts@.len(),
                        out@.len() == k,
                        forall|j: int|
                            0 <= j < k ==> ops(&#[trigger] out@[j]) == ops(node).update(
                                i as int,
                                fviews(disjuncts@)[j],
                            ) && out@[j].current_time == node.current_time && out@[j].implies is None,
                    decreases disjuncts@.len() - k,
                {
                    let mut operands = clone_formulas(&node.operands);
                    let d = disjuncts[k].clone();
                    let ghost before = operands@;
                    operands.set(i, d);
                    proof {
                        lemma_fviews_update(before, i as int, d);
                    }
                    let n = child(node, operands, ids);
                    out.push(n);
                    k += 1;
                }
                out
            },
            _ => {
                assert(false);
                Vec::new()
            },
        }
    }

    /// The implication at `i` splits into a node with its negated premise and a node with
    /// its conclusion (preceded by the premise itself under formula optimizations).
    pub fn decompose_imply_at(&self, node: &Node, i: usize, ids: &mut IdGen) -> (r: Vec<Node>)
        requires
            i < ops(node).len(),
            ops(node)[i as int] is Imply,
        ensures
            r@.len() == 2,
            ops(&r@[0]) == ops(node).update(i as int, *ops(node)[i as int]->Imply_not_left),
            ops(&r@[1]) == (if self.options.formula_optimizations {
                ops(node).update(i as int, *ops(node)[i as int]->Imply_right).insert(
                    i as int,
                    *ops(node)[i as int]->Imply_left,
                )
            } else {
                ops(node).update(i as int, *ops(node)[i as int]->Imply_right)
            }),
            r@[0].current_time == node.current_time && r@[0].implies is None,
            r@[1].current_time == node.current_time && r@[1].implies is None,
    {
        let f = &node.operands[i];
        assert(ops(node)[i as int] == f@);
        match f {
            Formula::Imply { left, right, not_left } => {
                let mut ops1 = clone_formulas(&node.operands);
                let ghost b1 = ops1@;
                let nl = (**not_left).clone();
                ops1.set(i, nl);
                proof {
                    lemma_fviews_update(b1, i as int, nl);
                }
                let mut ops2 = clone_formulas(&node.operands);
                let ghost b2 = ops2@;
                let rt = (**right).clone();
                ops2.set(i, rt);
                proof {
                    lemma_fviews_update(b2, i as int, rt);
                }
                if self.options.formula_optimizations {
                    let ghost b3 = ops2@;
                    let lt = (**left).clone();
                    ops2.insert(i, lt);
                    assert(fviews(ops2@) =~= fviews(b3).insert(i as int, lt@));
                }
                let n1 = child(node, ops1, ids);
                let n2 = child(node, ops2, ids);
                vec![n1, n2]
            },
            _ => {
                assert(false);
                Vec::new()
            },
        }
    }

    /// The `F[a,b] φ` at `i`, active now: a node where `φ` holds now and, while `b` is
    /// ahead, one where the obligation is postponed.
    pub fn decompose_f_at(&self, node: &Node, i: usize, ids: &mut IdGen) -> (r: Vec<Node>)
        requires
            spec_node_ready(ops(node), node.current_time as int),
            i < ops(node).len(),
            ops(node)[i as int] is F,
            spec_is_active_at(ops(node)[i as int], node.current_time as int),
        ensures
            ({
                let f = ops(node)[i as int];
                let t = node.current_time as int;
                &&& r@.len() == (if t < f->F_interval.upper { 2int } else { 1 })
                &&& ops(&r@[0]) == ops(node).update(
                    i as int,
                    spec_temporal_expansion(*f->F_phi, t, None),
                )
                &&& r@.len() == 2 ==> ops(&r@[1]) == ops(node).update(
                    i as int,
                    FormulaM::O(Box::new(f)),
                )
            }),
            forall|k: int|
                0 <= k < r@.len() ==> #[trigger] r@[k].current_time == node.current_time
                    && r@[k].implies is None,
    {
        let f = &node.operands[i];
        let t = node.current_time;
        assert(ops(node)[i as int] == f@);
        proof {
            lemma_ready_operand(ops(node), t as int, i as int);
        }
        match f {
            Formula::F { phi, interval, .. } => {
                proof {
                    lemma_o_free_expandable(phi@);
                }
                let mut ops1 = clone_formulas(&node.operands);
                let ghost b1 = ops1@;
                let e = phi.temporal_expansion(t, None);
                ops1.set(i, e);
                proof {
                    lemma_fviews_update(b1, i as int, e);
                }
                let n1 = child(node, ops1, ids);
                if t < interval.upper {
                    let mut ops2 = clone_formulas(&node.operands);
                    let ghost b2 = ops2@;
                    let o = Formula::o(f.clone());
                    ops2.set(i, o);
                    proof {
                        lemma_fviews_update(b2, i as int, o);
                    }
                    let n2 = child(node, ops2, ids);
                    vec![n1, n2]
                } else {
                    vec![n1]
                }
            },
            _ => {
                assert(false);
                Vec::new()
            },
        }
    }

    /// The `φ U[a,b] ψ` at `i`, active now: a node where `ψ` holds now and, while `b` is
    /// ahead, one where `φ` holds now and the until is postponed.
    pub fn decompose_u_at(&self, node: &Node, i: usize, ids: &mut IdGen) -> (r: Vec<Node>)
        requires
            spec_node_ready(ops(node), node.current_time as int),
            i < ops(node).len(),
            ops(node)[i as int] is U,
            spec_is_active_at(ops(node)[i as int], node.current_time as int),
        ensures
            ({
                let f = ops(node)[i as int];
                let t = node.current_time as int;
                &&& r@.len() == (if t < f->U_interval.upper { 2int } else { 1 })
                &&& ops(&r@[0]) == ops(node).update(
                    i as int,
                    spec_temporal_expansion(*f->U_right, t, None),
                )
                &&& r@.len() == 2 ==> ops(&r@[1]) == ops(node).update(
                    i as int,
                    spec_temporal_expansion(*f->U_left, t, Some(f->U_interval.upper)),
                ).push(FormulaM::O(Box::new(f)))
            }),
            forall|k: int|
                0 <= k < r@.len() ==> #[trigger] r@[k].current_time == node.current_time
                    && r@[k].implies is None,
    {
        let f = &node.operands[i];
        let t = node.current_time;
        assert(ops(node)[i as int] == f@);
        proof {
            lemma_ready_operand(ops(node), t as int, i as int);
        }
        match f {
            Formula::U { left, right, interval, .. } => {
                proof {
                    lemma_o_free_expandable(left@);
                    lemma_o_free_expandable(right@);
                }
                let mut ops1 = clone_formulas(&node.operands);
                let ghost b1 = ops1@;
                let e = right.temporal_expansion(t, None);
                ops1.set(i, e);
                proof {
                    lemma_fviews_update(b1, i as int, e);
                }
                let n1 = child(node, ops1, ids);
                if t < interval.upper {
                    let mut ops2 = clone_formulas(&node.operands);
                    let ghost b2 = ops2@;
                    let l = left.temporal_expansion(t, Some(*interval));
                    ops2.set(i, l);
                    proof {
                        lemma_fviews_update(b2, i as int, l);
                    }
                    let ghost b3 = ops2@;
                    let o = Formula::o(f.clone());
                    ops2.push(o);
                    proof {
                        lemma_fviews_push(b3, o);
                    }
                    let n2 = child(node, ops2, ids);
                    vec![n1, n2]
                } else {
                    vec![n1]
                }
            },
            _ => {
                assert(false);
                Vec::new()
            },
        }
    }

    /// The `φ R[a,b] ψ` at `i`, active now: a node where both hold now and one where `ψ`
    /// holds now and the release is postponed.
    pub fn decompose_r_at(&self, node: &Node, i: usize, ids: &mut IdGen) -> (r: Vec<Node>)
        requires
            spec_node_ready(ops(node), node.current_time as int),
            i < ops(node).len(),
            ops(node)[i as int] is R,
            spec_is_active_at(ops(node)[i as int], node.current_time as int),
        ensures
            ({
                let f = ops(node)[i as int];
                let t = node.current_time as int;
                &&& r@.len() == 2
                &&& ops(&r@[0]) == ops(node).update(
                    i as int,
                    spec_temporal_expansion(*f->R_left, t, None),
                ).push(spec_temporal_expansion(*f->R_right, t, None))
                &&& ops(&r@[1]) == ops(node).update(
                    i as int,
                    spec_temporal_expansion(*f->R_right, t, Some(f->R_interval.upper)),
                ).push(FormulaM::O(Box::new(f)))
            }),
            forall|k: int|
                0 <= k < r@.len() ==> #[trigger] r@[k].current_time == node.current_time
                    && r@[k].implies is None,
    {
        let f = &node.operands[i];
        let t = node.current_time;
        assert(ops(node)[i as int] == f@);
        proof {
            lemma_ready_operand(ops(node), t as int, i as int);
        }
        match f {
            Formula::R { left, right, interval, .. } => {
                proof {
                    lemma_o_free_expandable(left@);
                    lemma_o_free_expandable(right@);
                }
                let mut ops1 = clone_formulas(&node.operands);
                let ghost b1 = ops1@;
                let l = left.temporal_expansion(t, None);
                ops1.set(i, l);
                proof {
                    lemma_fviews_update(b1, i as int, l);
                }
                let ghost b1b = ops1@;
                let rr = right.temporal_expansion(t, None);
                ops1.push(rr);
                proof {
                    lemma_fviews_push(b1b, rr);
                }
                let n1 = child(node, ops1, ids);
                let mut ops2 = clone_formulas(&node.operands);
                let ghost b2 = ops2@;
                let r2 = right.temporal_expansion(t, Some(*interval));
                ops2.set(i, r2);
                proof {
                    lemma_fviews_update(b2, i as int, r2);
                }
                let ghost b3 = ops2@;
                let o = Formula::o(f.clone());
                ops2.push(o);
                proof {
                    lemma_fviews_push(b3, o);
                }
                let n2 = child(node, ops2, ids);
                vec![n1, n2]
            },
            _ => {
                assert(false);
                Vec::new()
            },
        }
    }
}

// ---------------------------------------------------------------------------------------
// The jump rule
// ---------------------------------------------------------------------------------------
/// A temporal operator carried to the next instant, after a jump of `jump` instants from
/// `t`: dropped once its interval ends at or before `t`; its interval moved by `jump` when
/// the jump is longer than one instant and its enclosing operator is still running.
pub open spec fn spec_retime(f: FormulaM, t: int, jump: int) -> Option<FormulaM> {
    match spec_get_interval(f) {
        None => None,
        Some(iv) => if t >= iv.upper {
            None
        } else if jump != 1 && spec_is_parent_active_at(f, t) {
            Some(spec_with_interval(f, spec_shift_right(iv, jump)))
        } else {
            Some(f)
        },
    }
}

pub open spec fn opt_seq(o: Option<FormulaM>) -> Seq<FormulaM> {
    match o {
        Some(g) => seq![g],
        None => Seq::empty(),
    }
}

/// What survives a jump of an operand: temporal operators and postponed obligations,
/// retimed; everything else is dropped.
pub open spec fn jump_piece(f: FormulaM, t: int, jump: int) -> Seq<FormulaM> {
    match f {
        FormulaM::G { .. } | FormulaM::F { .. } | FormulaM::U { .. } | FormulaM::R { .. } => opt_seq(
            spec_retime(f, t, jump),
        ),
        FormulaM::O(b) => opt_seq(spec_retime(*b, t, jump)),
        _ => Seq::empty(),
    }
}

pub open spec fn jump_prefix(s: Seq<FormulaM>, t: int, jump: int, n: int) -> Seq<FormulaM>
    decreases n,
{
    if n <= 0 || n > s.len() {
        Seq::empty()
    } else {
        jump_prefix(s, t, jump, n - 1) + jump_piece(s[n - 1], t, jump)
    }
}

/// The interval of an outermost temporal operator (under `O`) whose enclosing operator is
/// not running at `t`.
pub open spec fn spec_top_level_interval(f: FormulaM, t: int) -> Option<Interval>
    decreases f,
{
    match f {
        FormulaM::O(b) => spec_top_level_interval(*b, t),
        FormulaM::G { interval, .. } | FormulaM::F { interval, .. } | FormulaM::U { interval, .. }
        | FormulaM::R { interval, .. } => if !spec_is_parent_active_at(f, t) {
            Some(interval)
        } else {
            None
        },
        _ => None,
    }
}

/// The least of `a` and `x`, counting `x` only when it lies after `t`.
pub open spec fn min_above(a: Option<int>, x: int, t: int) -> Option<int> {
    if x > t {
        match a {
            Some(y) => Some(if x <= y { x } else { y }),
            None => Some(x),
        }
    } else {
        a
    }
}

/// The first instant after `t` among `lower - 1`, `lower` and `upper` of the top-level
/// intervals of the first `n` operands.
pub open spec fn next_instant_prefix(s: Seq<FormulaM>, t: int, n: int) -> Option<int>
    decreases n,
{
    if n <= 0 || n > s.len() {
        None
    } else {
        let a = next_instant_prefix(s, t, n - 1);
        match spec_top_level_interval(s[n - 1], t) {
            Some(iv) => min_above(
                min_above(min_above(a, iv.lower - 1, t), iv.lower as int, t),
                iv.upper as int,
                t,
            ),
            None => a,
        }
    }
}

/// `φ`, the operand that `G`, `U` (left) or `R` (right) repeats, reaches an upper bound
/// beyond the current instant relative to the operator's start.
pub open spec fn spec_repeats_beyond(f: FormulaM, t: int) -> bool {
    match f {
        FormulaM::G { phi, interval, .. } => match spec_get_max_upper(*phi) {
            Some(mu) => t < interval.lower + mu,
            None => false,
        },
        FormulaM::U { left, interval, .. } => match spec_get_max_upper(*left) {
            Some(mu) => t < interval.lower + mu,
            None => false,
        },
        FormulaM::R { right, interval, .. } => match spec_get_max_upper(*right) {
            Some(mu) => t < interval.lower + mu,
            None => false,
        },
        _ => false,
    }
}

/// A postponed obligation that forbids jumping further than one instant.
pub open spec fn spec_forces_step(f: FormulaM, t: int) -> bool {
    match f {
        FormulaM::O(inner) => !spec_is_parent_active_at(*inner, t) && ((spec_get_interval(
            *inner,
        ) matches Some(iv) && iv.upper == t) || spec_repeats_beyond(*inner, t)),
        _ => false,
    }
}

/// The node must advance by a single instant.
pub open spec fn spec_step(jump_rule_enabled: bool, s: Seq<FormulaM>, t: int) -> bool {
    !jump_rule_enabled || exists|i: int| 0 <= i < s.len() && spec_forces_step(#[trigger] s[i], t)
}

/// How far the node jumps, if anywhere.
pub open spec fn spec_jump(jump_rule_enabled: bool, s: Seq<FormulaM>, t: int) -> Option<int> {
    if spec_step(jump_rule_enabled, s, t) {
        Some(1)
    } else {
        match next_instant_prefix(s, t, s.len() as int) {
            Some(x) => Some(x - t),
            None => None,
        }
    }
}

/// The operands that are not complex temporal operators, among the first `n`.
pub open spec fn simple_prefix(s: Seq<FormulaM>, n: int) -> Seq<FormulaM>
    decreases n,
{
    if n <= 0 || n > s.len() {
        Seq::empty()
    } else if spec_is_complex_temporal(s[n - 1]) {
        simple_prefix(s, n - 1)
    } else {
        simple_prefix(s, n - 1).push(s[n - 1])
    }
}

proof fn lemma_next_instant_bounds(s: Seq<FormulaM>, t: int, n: int)
    requires
        0 <= n <= s.len(),
        forall|i: int|
            0 <= i < s.len() ==> (#[trigger] spec_top_level_interval(s[i], t) matches Some(iv)
                ==> interval_in_range(iv)),
    ensures
        next_instant_prefix(s, t, n) matches Some(x) ==> x > t && -TIME_LIMIT - 1 <= x
            <= TIME_LIMIT,
    decreases n,
{
    if n > 0 {
        lemma_next_instant_bounds(s, t, n - 1);
        let _ = spec_top_level_interval(s[n - 1], t);
    }
}

proof fn lemma_top_level_bounded(f: FormulaM, t: int)
    requires
        spec_bounded(f),
    ensures
        spec_top_level_interval(f, t) matches Some(iv) ==> interval_in_range(iv),
    decreases f,
{
    if let FormulaM::O(b) = f {
        lemma_top_level_bounded(*b, t);
    }
}

fn top_level_interval(f: &Formula, t: i32) -> (r: Option<Interval>)
    ensures
        r == spec_top_level_interval(f@, t as int),
    decreases f,
{
    match f {
        Formula::O(b) => top_level_interval(b, t),
        Formula::G { interval, .. } | Formula::F { interval, .. } | Formula::U { interval, .. }
        | Formula::R { interval, .. } => {
            if !f.is_parent_active_at(t) {
                Some(*interval)
            } else {
                None
            }
        },
        _ => None,
    }
}

fn min_above_exec(a: Option<i64>, x: i64, t: i64) -> (r: Option<i64>)
    ensures
        (match r {
            Some(v) => Some(v as int),
            None => None,
        }) == min_above(
            match a {
                Some(v) => Some(v as int),
                None => None,
            },
            x as int,
            t as int,
        ),
{
    if x > t {
        match a {
            Some(y) => Some(if x <= y { x } else { y }),
            None => Some(x),
        }
    } else {
        a
    }
}

fn repeats_beyond(f: &Formula, t: i32) -> (r: bool)
    ensures
        r == spec_repeats_beyond(f@, t as int),
{
    let (phi, lower) = match f {
        Formula::G { phi, interval, .. } => (phi, interval.lower),
        Formula::U { left, interval, .. } => (left, interval.lower),
        Formula::R { right, interval, .. } => (right, interval.lower),
        _ => return false,
    };
    match phi.get_max_upper() {
        Some(mu) => (t as i64) < (lower as i64) + (mu as i64),
        None => false,
    }
}

fn forces_step(f: &Formula, t: i32) -> (r: bool)
    ensures
        r == spec_forces_step(f@, t as int),
{
    match f {
        Formula::O(inner) => {
            !inner.is_parent_active_at(t) && (match inner.upper_bound() {
                Some(u) => u == t,
                None => false,
            } || repeats_beyond(inner, t))
        },
        _ => false,
    }
}

fn retime(f: &Formula, t: i32, jump: i32) -> (r: Option<Formula>)
    requires
        spec_bounded(f@),
        in_range(t as int),
        0 < jump <= 2 * TIME_LIMIT + 1,
    ensures
        match r {
            Some(g) => spec_retime(f@, t as int, jump as int) == Some(g@),
            None => spec_retime(f@, t as int, jump as int) is None,
        },
{
    let interval = match f.get_interval() {
        Some(i) => i,
        None => return None,
    };
    if t >= interval.upper {
        return None;
    }
    if jump != 1 && f.is_parent_active_at(t) {
        Some(f.with_interval(interval.shift_right(jump)))
    } else {
        Some(f.clone())
    }
}

impl Tableau {
    /// Moves the node to the next instant worth visiting: one instant ahead when the jump
    /// rule is off or a postponed obligation needs the next instant, else the first
    /// instant after the current one where some top-level interval starts, ends or is
    /// about to start. Only temporal operators and postponed obligations go along, retimed.
    /// With `simple_first`, a node without the complex temporal operators comes first,
    /// marked as implying the full one. `None` when nothing is left to visit.
    pub fn decompose_jump(&self, node: &Node, ids: &mut IdGen) -> (r: Option<Vec<Node>>)
        requires
            spec_node_ready(ops(node), node.current_time as int),
        ensures
            ({
                let s = ops(node);
                let t = node.current_time as int;
                match spec_jump(self.options.jump_rule_enabled, s, t) {
                    None => r is None,
                    Some(jump) => {
                        let next = jump_prefix(s, t, jump, s.len() as int);
                        let simple = simple_prefix(next, next.len() as int);
                        if next.len() == 0 {
                            r is None
                        } else if self.options.simple_first && 0 < simple.len() < next.len() {
                            r matches Some(v) && v@.len() == 2 && ops(&v@[0]) == simple
                                && v@[0].current_time == t + jump && (v@[0].implies matches Some(
                                w) && w@ == seq![v@[1].id]) && ops(&v@[1]) == next
                                && v@[1].current_time == t + jump && v@[1].implies is None
                        } else {
                            r matches Some(v) && v@.len() == 1 && ops(&v@[0]) == next
                                && v@[0].current_time == t + jump && v@[0].implies is None
                        }
                    },
                }
            }),
    {
        let t = node.current_time;
        let ghost s = ops(node);
        // Must the node advance by one instant only?
        let mut step = !self.options.jump_rule_enabled;
        if !step {
            let mut i: usize = 0;
            while i < node.operands.len()
                invariant
                    s == ops(node),
                    i <= s.len(),
                    step <==> exists|j: int| 0 <= j < i && spec_forces_step(#[trigger] s[j], t as int),
                decreases s.len() - i,
            {
                assert(s[i as int] == node.operands@[i as int]@);
                if forces_step(&node.operands[i], t) {
                    step = true;
                }
                i += 1;
            }
        }
        assert(step == spec_step(self.options.jump_rule_enabled, s, t as int));
        // How far?
        proof {
            assert forall|i: int| 0 <= i < s.len() implies (#[trigger] spec_top_level_interval(s[i], t as int) matches Some(iv)
                ==> interval_in_range(iv)) by {
                lemma_ready_operand(s, t as int, i);
                lemma_top_level_bounded(s[i], t as int);
            }
            lemma_next_instant_bounds(s, t as int, s.len() as int);
        }
        let jump: i32 = if step {
            1
        } else {
            let mut next: Option<i64> = None;
            let mut i: usize = 0;
            while i < node.operands.len()
                invariant
                    s == ops(node),
                    i <= s.len(),
                    forall|j: int| 0 <= j < s.len() ==> (#[trigger] spec_top_level_interval(s[j], t as int) matches Some(iv)
                        ==> interval_in_range(iv)),
                    (match next {
                        Some(v) => Some(v as int),
                        None => None,
                    }) == next_instant_prefix(s, t as int, i as int),
                decreases s.len() - i,
            {
                assert(s[i as int] == node.operands@[i as int]@);
                match top_level_interval(&node.operands[i], t) {
                    Some(iv) => {
                        assert(interval_in_range(iv));
                        let a = min_above_exec(next, iv.lower as i64 - 1, t as i64);
                        let b = min_above_exec(a, iv.lower as i64, t as i64);
                        next = min_above_exec(b, iv.upper as i64, t as i64);
                    },
                    None => {},
                }
                i += 1;
            }
            match next {
                Some(x) => (x - t as i64) as i32,
                None => return None,
            }
        };
        assert(spec_jump(self.options.jump_rule_enabled, s, t as int) == Some(jump as int));
        // The operands that go along.
        let mut new_operands: Vec<Formula> = Vec::new();
        let mut i: usize = 0;
        while i < node.operands.len()
            invariant
                s == ops(node),
                spec_node_ready(s, t as int),
                0 < jump <= 2 * TIME_LIMIT + 1,
                i <= s.len(),
                fviews(new_operands@) == jump_prefix(s, t as int, jump as int, i as int),
            decreases s.len() - i,
        {
            let f = &node.operands[i];
            assert(s[i as int] == f@);
            proof {
                lemma_ready_operand(s, t as int, i as int);
            }
            let ghost before = new_operands@;
            let kept = match f {
                Formula::G { .. } | Formula::F { .. } | Formula::U { .. } | Formula::R { .. } => retime(
                    f,
                    t,
                    jump,
                ),
                Formula::O(inner) => retime(inner, t, jump),
                _ => None,
            };
            match kept {
                Some(g) => {
                    proof {
                        lemma_fviews_push(before, g);
                    }
                    new_operands.push(g);
                    assert(fviews(new_operands@) =~= fviews(before) + jump_piece(f@, t as int, jump as int));
                },
                None => {
                    assert(fviews(new_operands@) =~= fviews(before) + jump_piece(f@, t as int, jump as int));
                },
            }
            i += 1;
        }
        if new_operands.len() == 0 {
            return None;
        }
        let ghost next = fviews(new_operands@);
        let new_time = t + jump;
        if self.options.simple_first {
            let mut simple: Vec<Formula> = Vec::new();
            let mut k: usize = 0;
            while k < new_operands.len()
                invariant
                    next == fviews(new_operands@),
                    k <= new_operands@.len(),
                    fviews(simple@) == simple_prefix(next, k as int),
                decreases new_operands@.len() - k,
            {
                let g = &new_operands[k];
                assert(next[k as int] == g@);
                if !g.is_complex_temporal_operator() {
                    let ghost before = simple@;
                    let c = g.clone();
                    proof {
                        lemma_fviews_push(before, c);
                    }
                    simple.push(c);
                }
                k += 1;
            }
            if simple.len() > 0 && simple.len() < new_operands.len() {
                let main_id = ids.fresh();
                let simple_node = Node {
                    operands: simple,
                    current_time: new_time,
                    implies: Some(vec![main_id]),
                    id: ids.fresh(),
                };
                let main = Node { operands: new_operands, current_time: new_time, implies: None, id: main_id };
                return Some(vec![simple_node, main]);
            }
        }
        let main = Node { operands: new_operands, current_time: new_time, implies: None, id: ids.fresh() };
        Some(vec![main])
    }
}

// ---------------------------------------------------------------------------------------
// Choosing the rule
// ---------------------------------------------------------------------------------------
/// A child as the rules describe it: operands, instant, and whether it implies siblings.
pub open spec fn child_view(n: Node) -> (Seq<FormulaM>, int, bool) {
    (ops(&n), n.current_time as int, n.implies is Some)
}

pub open spec fn children_view(v: Seq<Node>) -> Seq<(Seq<FormulaM>, int, bool)> {
    Seq::new(v.len(), |k: int| child_view(v[k]))
}

/// The first index from `i` on of a disjunction or implication.
pub open spec fn first_branching(s: Seq<FormulaM>, i: int) -> Option<int>
    decreases s.len() - i,
{
    if i < 0 || i >= s.len() {
        None
    } else if is_branching(s[i]) {
        Some(i)
    } else {
        first_branching(s, i + 1)
    }
}

/// The first index from `i` on of an `F`, `U` or `R` active at `t`.
pub open spec fn first_active_fur(s: Seq<FormulaM>, t: int, i: int) -> Option<int>
    decreases s.len() - i,
{
    if i < 0 || i >= s.len() {
        None
    } else if is_active_fur(s[i], t) {
        Some(i)
    } else {
        first_active_fur(s, t, i + 1)
    }
}

pub open spec fn is_branching(f: FormulaM) -> bool {
    f is Or || f is Imply
}

pub open spec fn is_active_fur(f: FormulaM, t: int) -> bool {
    (f is F || f is U || f is R) && spec_is_active_at(f, t)
}

pub open spec fn spec_or_children(s: Seq<FormulaM>, i: int, t: int) -> Seq<(Seq<FormulaM>, int, bool)> {
    let d = s[i]->Or_0;
    Seq::new(d.len(), |k: int| (s.update(i, d[k]), t, false))
}

pub open spec fn spec_imply_children(optimize: bool, s: Seq<FormulaM>, i: int, t: int) -> Seq<(Seq<FormulaM>, int, bool)> {
    let f = s[i];
    seq![
        (s.update(i, *f->Imply_not_left), t, false),
        (if optimize {
            s.update(i, *f->Imply_right).insert(i, *f->Imply_left)
        } else {
            s.update(i, *f->Imply_right)
        }, t, false),
    ]
}

pub open spec fn spec_fur_children(s: Seq<FormulaM>, i: int, t: int) -> Seq<(Seq<FormulaM>, int, bool)> {
    let f = s[i];
    match f {
        FormulaM::F { interval, phi, .. } => {
            let first = (s.update(i, spec_temporal_expansion(*phi, t, None)), t, false);
            if t < interval.upper {
                seq![first, (s.update(i, FormulaM::O(Box::new(f))), t, false)]
            } else {
                seq![first]
            }
        },
        FormulaM::U { interval, left, right, .. } => {
            let first = (s.update(i, spec_temporal_expansion(*right, t, None)), t, false);
            if t < interval.upper {
                seq![
                    first,
                    (s.update(i, spec_temporal_expansion(*left, t, Some(interval.upper))).push(
                        FormulaM::O(Box::new(f)),
                    ), t, false),
                ]
            } else {
                seq![first]
            }
        },
        FormulaM::R { interval, left, right, .. } => seq![
            (s.update(i, spec_temporal_expansion(*left, t, None)).push(
                spec_temporal_expansion(*right, t, None),
            ), t, false),
            (s.update(i, spec_temporal_expansion(*right, t, Some(interval.upper))).push(
                FormulaM::O(Box::new(f)),
            ), t, false),
        ],
        _ => Seq::empty(),
    }
}

pub open spec fn spec_jump_children(jump_rule_enabled: bool, simple_first: bool, s: Seq<FormulaM>, t: int) -> Option<Seq<(Seq<FormulaM>, int, bool)>> {
    match spec_jump(jump_rule_enabled, s, t) {
        None => None,
        Some(jump) => {
            let next = jump_prefix(s, t, jump, s.len() as int);
            let simple = simple_prefix(next, next.len() as int);
            if next.len() == 0 {
                None
            } else if simple_first && 0 < simple.len() < next.len() {
                Some(seq![(simple, t + jump, true), (next, t + jump, false)])
            } else {
                Some(seq![(next, t + jump, false)])
            }
        },
    }
}

/// What `decompose` yields: the rewriting chain (with formula optimizations), else the
/// rule for conjunctions, else the `G` rule, else the first disjunction or implication,
/// else the first active `F`, `U` or `R`, else the jump rule.
pub open spec fn spec_decompose(options: crate::tableau::TableauOptions, s: Seq<FormulaM>, t: int) -> Option<Seq<(Seq<FormulaM>, int, bool)>> {
    if options.formula_optimizations && chain_step(s, t) is Some {
        Some(seq![(chain_fix(s, t), t, false)])
    } else if exists|i: int| 0 <= i < s.len() && #[trigger] s[i] is And {
        Some(seq![(splice_prefix(s, s.len() as int), t, false)])
    } else if spec_has_active_g(s, t) {
        Some(seq![(g_prefix(s, t, s.len() as int), t, false)])
    } else {
        match first_branching(s, 0) {
            Some(i) => Some(if s[i] is Or {
                spec_or_children(s, i, t)
            } else {
                spec_imply_children(options.formula_optimizations, s, i, t)
            }),
            None => match first_active_fur(s, t, 0) {
                Some(i) => Some(spec_fur_children(s, i, t)),
                None => spec_jump_children(options.jump_rule_enabled, options.simple_first, s, t),
            },
        }
    }
}

proof fn lemma_next_instant_above(s: Seq<FormulaM>, t: int, n: int)
    ensures
        next_instant_prefix(s, t, n) matches Some(x) ==> x > t,
    decreases n,
{
    if 0 < n <= s.len() {
        lemma_next_instant_above(s, t, n - 1);
    }
}

/// Only the jump rule marks a child as implying its siblings, and it moves to a later
/// instant.
pub proof fn lemma_implying_children_later(options: crate::tableau::TableauOptions, s: Seq<FormulaM>, t: int)
    ensures
        spec_decompose(options, s, t) matches Some(ch) ==> forall|k: int|
            0 <= k < ch.len() && (#[trigger] ch[k]).2 ==> ch[k].1 > t,
{
    lemma_next_instant_above(s, t, s.len() as int);
    if let Some(ch) = spec_decompose(options, s, t) {
        assert forall|k: int| 0 <= k < ch.len() && (#[trigger] ch[k]).2 implies ch[k].1 > t by {
            if options.formula_optimizations && chain_step(s, t) is Some {
            } else if exists|i: int| 0 <= i < s.len() && #[trigger] s[i] is And {
            } else if spec_has_active_g(s, t) {
            } else {
                match first_branching(s, 0) {
                    Some(i) => {
                        if s[i] is Or {
                            let d = s[i]->Or_0;
                            assert(ch[k] == (s.update(i, d[k]), t, false));
                        }
                    },
                    None => match first_active_fur(s, t, 0) {
                        Some(i) => {},
                        None => {},
                    },
                }
            }
        }
    }
}

pub proof fn lemma_ready_chain(s: Seq<FormulaM>, t: int)
    requires
        spec_node_ready(s, t),
    ensures
        spec_chain_ready(s, t),
{
    assert forall|i: int| 0 <= i < s.len() implies chain_operand_ready(#[trigger] s[i]) by {
        assert(spec_bounded(s[i]));
        match s[i] {
            FormulaM::G { phi, .. } => {
                if let FormulaM::F { .. } = *phi {
                    assert(spec_bounded(*phi));
                }
            },
            _ => {},
        }
    }
}

proof fn lemma_first_branching(s: Seq<FormulaM>, i: int, k: int)
    requires
        0 <= i <= k < s.len(),
        forall|j: int| i <= j < k ==> !is_branching(#[trigger] s[j]),
    ensures
        is_branching(s[k]) ==> first_branching(s, i) == Some(k),
        !is_branching(s[k]) ==> first_branching(s, i) == first_branching(s, k + 1),
    decreases k - i,
{
    if i < k {
        lemma_first_branching(s, i + 1, k);
    }
}

proof fn lemma_first_active_fur(s: Seq<FormulaM>, t: int, i: int, k: int)
    requires
        0 <= i <= k < s.len(),
        forall|j: int| i <= j < k ==> !is_active_fur(#[trigger] s[j], t),
    ensures
        is_active_fur(s[k], t) ==> first_active_fur(s, t, i) == Some(k),
        !is_active_fur(s[k], t) ==> first_active_fur(s, t, i) == first_active_fur(s, t, k + 1),
    decreases k - i,
{
    if i < k {
        lemma_first_active_fur(s, t, i + 1, k);
    }
}

impl Tableau {
    /// The children of `node` by the first rule that applies; `None` when the node has no
    /// future to explore.
    pub fn decompose(&self, node: &Node, ids: &mut IdGen) -> (r: Option<Vec<Node>>)
        requires
            spec_node_ready(ops(node), node.current_time as int),
        ensures
            match r {
                Some(v) => spec_decompose(self.options, ops(node), node.current_time as int) == Some(children_view(v@)),
                None => spec_decompose(self.options, ops(node), node.current_time as int) is None,
            },
    {
        let t = node.current_time;
        let ghost s = ops(node);
        proof {
            lemma_ready_chain(s, t as int);
        }
        if self.options.formula_optimizations {
            if let Some(res) = node.rewrite_chain(ids) {
                assert(children_view(res@) =~= seq![(chain_fix(s, t as int), t as int, false)]);
                return Some(res);
            }
        }
        if let Some(res) = self.decompose_and(node, ids) {
            assert(children_view(res@) =~= seq![(splice_prefix(s, s.len() as int), t as int, false)]);
            return Some(res);
        }
        if let Some(res) = self.decompose_g(node, ids) {
            assert(children_view(res@) =~= seq![(g_prefix(s, t as int, s.len() as int), t as int, false)]);
            return Some(res);
        }
        let mut i: usize = 0;
        while i < node.operands.len()
            invariant
                s == ops(node),
                t == node.current_time,
                spec_node_ready(s, t as int),
                i <= s.len(),
                forall|j: int| 0 <= j < i ==> !is_branching(#[trigger] s[j]),
                first_branching(s, 0) == first_branching(s, i as int),
                !(self.options.formula_optimizations && chain_step(s, t as int) is Some),
                !(exists|j: int| 0 <= j < s.len() && #[trigger] s[j] is And),
                !spec_has_active_g(s, t as int),
            decreases s.len() - i,
        {
            assert(s[i as int] == node.operands@[i as int]@);
            proof {
                lemma_first_branching(s, 0, i as int);
            }
            match &node.operands[i] {
                Formula::Or(_) => {
                    let res = self.decompose_or_at(node, i, ids);
                    assert(children_view(res@) =~= spec_or_children(s, i as int, t as int));
                    return Some(res);
                },
                Formula::Imply { .. } => {
                    let res = self.decompose_imply_at(node, i, ids);
                    assert(children_view(res@) =~= spec_imply_children(self.options.formula_optimizations, s, i as int, t as int));
                    return Some(res);
                },
                _ => {},
            }
            i += 1;
        }
        assert(first_branching(s, 0) is None);
        let mut i: usize = 0;
        while i < node.operands.len()
            invariant
                s == ops(node),
                t == node.current_time,
                spec_node_ready(s, t as int),
                i <= s.len(),
                forall|j: int| 0 <= j < i ==> !is_active_fur(#[trigger] s[j], t as int),
                first_active_fur(s, t as int, 0) == first_active_fur(s, t as int, i as int),
                !(self.options.formula_optimizations && chain_step(s, t as int) is Some),
                !(exists|j: int| 0 <= j < s.len() && #[trigger] s[j] is And),
                !spec_has_active_g(s, t as int),
                first_branching(s, 0) is None,
            decreases s.len() - i,
        {
            let f = &node.operands[i];
            assert(s[i as int] == f@);
            proof {
                lemma_first_active_fur(s, t as int, 0, i as int);
            }
            match f {
                Formula::F { .. } => {
                    if f.is_active_at(t) {
                        let res = self.decompose_f_at(node, i, ids);
                        assert(children_view(res@) =~= spec_fur_children(s, i as int, t as int));
                        return Some(res);
                    }
                },
                Formula::U { .. } => {
                    if f.is_active_at(t) {
                        let res = self.decompose_u_at(node, i, ids);
                        assert(children_view(res@) =~= spec_fur_children(s, i as int, t as int));
                        return Some(res);
                    }
                },
                Formula::R { .. } => {
                    if f.is_active_at(t) {
                        let res = self.decompose_r_at(node, i, ids);
                        assert(children_view(res@) =~= spec_fur_children(s, i as int, t as int));
                        return Some(res);
                    }
                },
                _ => {},
            }
            i += 1;
        }
        assert(first_active_fur(s, t as int, 0) is None);
        let res = self.decompose_jump(node, ids);
        match res {
            Some(v) => {
                assert(spec_jump_children(self.options.jump_rule_enabled, self.options.simple_first, s, t as int) == Some(children_view(v@))) by {
                    let ghost cv = children_view(v@);
                    if v@.len() == 2 {
                        assert(cv =~= seq![child_view(v@[0]), child_view(v@[1])]);
                    } else {
                        assert(cv =~= seq![child_view(v@[0])]);
                    }
                }
                Some(v)
            },
            None => None,
        }
    }
}

/// Whether `O` occurs nowhere in the formula.
pub fn is_o_free(f: &Formula) -> (r: bool)
    ensures
        r == spec_o_free(f@),
    decreases f, 1nat,
{
    match f {
        Formula::Prop(_) => true,
        Formula::And(v) | Formula::Or(v) => {
            proof {
                lemma_view_junction(*v);
            }
            let mut i: usize = 0;
            while i < v.len()
                invariant
                    operands_of(*f, *v),
                    f@ == FormulaM::And(fviews(v@)) || f@ == FormulaM::Or(fviews(v@)),
                    i <= v@.len(),
                    o_free_prefix(fviews(v@), i as int),
                decreases v@.len() - i,
            {
                proof {
                    lemma_operand_decreases(*f, *v, i as int);
                }
                assert(fviews(v@)[i as int] == v@[i as int]@);
                if !is_o_free(&v[i]) {
                    proof {
                        lemma_o_free_prefix_false(fviews(v@), i as int, v@.len() as int);
                    }
                    return false;
                }
                i += 1;
            }
            true
        },
        Formula::Imply { left, right, not_left } => is_o_free(left) && is_o_free(right) && is_o_free(not_left),
        Formula::Not(b) => is_o_free(b),
        Formula::G { phi, .. } | Formula::F { phi, .. } => is_o_free(phi),
        Formula::U { left, right, .. } | Formula::R { left, right, .. } => is_o_free(left) && is_o_free(right),
        Formula::O(_) => false,
    }
}

proof fn lemma_o_free_prefix_false(s: Seq<FormulaM>, i: int, n: int)
    requires
        0 <= i < n <= s.len(),
        !spec_o_free(s[i]),
    ensures
        !o_free_prefix(s, n),
    decreases n,
{
    if i < n - 1 {
        lemma_o_free_prefix_false(s, i, n - 1);
    }
}

impl Node {
    /// Whether the rules apply to the node (see `spec_node_ready`).
    pub fn is_ready(&self) -> (r: bool)
        ensures
            r == spec_node_ready(ops(self), self.current_time as int),
    {
        if !self.is_bounded() {
            return false;
        }
        let mut i: usize = 0;
        while i < self.operands.len()
            invariant
                i <= self.operands@.len(),
                forall|j: int| 0 <= j < i ==> spec_operand_ready(#[trigger] ops(self)[j]),
            decreases self.operands@.len() - i,
        {
            let f = &self.operands[i];
            assert(ops(self)[i as int] == f@);
            let ok = match f {
                Formula::O(b) => is_o_free(b),
                _ => is_o_free(f),
            };
            if !ok {
                return false;
            }
            i += 1;
        }
        true
    }
}

// ---------------------------------------------------------------------------------------
// Time along a branch
// ---------------------------------------------------------------------------------------
proof fn lemma_next_instant_after(s: Seq<FormulaM>, t: int, n: int)
    ensures
        next_instant_prefix(s, t, n) matches Some(x) ==> x > t,
    decreases n,
{
    if 0 < n <= s.len() {
        lemma_next_instant_after(s, t, n - 1);
    }
}

/// A jump always moves forward, by at least one instant.
pub proof fn lemma_jump_forward(jump_rule_enabled: bool, s: Seq<FormulaM>, t: int)
    ensures
        spec_jump(jump_rule_enabled, s, t) matches Some(j) ==> j >= 1,
{
    lemma_next_instant_after(s, t, s.len() as int);
}

/// Time never runs backwards along a branch: every child that a rule yields stands at the
/// node's instant or, after a jump, strictly later, and children of one node share an
/// instant.
pub proof fn lemma_children_never_earlier(options: crate::tableau::TableauOptions, s: Seq<FormulaM>, t: int)
    ensures
        spec_decompose(options, s, t) matches Some(c) ==> forall|k: int|
            0 <= k < c.len() ==> #[trigger] c[k].1 >= t && c[k].1 == c[0].1,
        spec_decompose(options, s, t) matches Some(c) ==> forall|k: int|
            0 <= k < c.len() && #[trigger] c[k].1 > t ==> spec_jump_children(
                options.jump_rule_enabled,
                options.simple_first,
                s,
                t,
            ) == Some(c),
{
    lemma_jump_forward(options.jump_rule_enabled, s, t);
}

} // verus!
