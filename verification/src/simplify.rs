//! Algebraic simplification of formulas: constant folding, absorption, merging of
//! `G` operators and collapsing of nested or degenerate temporal operators.
use vstd::prelude::*;

use crate::formula::{
    formula_clone, fview, fviews, lemma_operand_decreases, lemma_strip_junction,
    lemma_view_junction, operands_of, strip, Expr, ExprKind, ExprKindM, ExprM, Formula,
    FormulaM, IdGen,
};
use crate::node::Node;
use crate::interval::{spec_contains, spec_contiguous, spec_intersects, spec_union, Interval};
use crate::rewrite::{flag_set, group_of_first, groups_view, kept_prefix, merged_prefix};

verus! {

// ---------------------------------------------------------------------------------------
// Models up to identifiers
// ---------------------------------------------------------------------------------------
/// The model of a formula with every proposition identifier set to 0.
pub open spec fn sview(f: Formula) -> FormulaM {
    strip(fview(f))
}

/// Each model with its identifiers set to 0.
pub open spec fn strip_all(t: Seq<FormulaM>) -> Seq<FormulaM> {
    Seq::new(t.len(), |i: int| strip(t[i]))
}

/// `sview` of each formula.
pub open spec fn sviews(s: Seq<Formula>) -> Seq<FormulaM> {
    strip_all(fviews(s))
}

/// The proposition `true` (for `b`) or `false`, with identifier 0.
pub open spec fn constant(b: bool) -> FormulaM {
    FormulaM::Prop(ExprM { id: 0, kind: if b { ExprKindM::True } else { ExprKindM::False } })
}

/// `f` is the proposition `true` (for `b`) or `false`, whatever its identifier.
pub open spec fn is_constant(f: FormulaM, b: bool) -> bool {
    f matches FormulaM::Prop(e) && (if b { e.kind is True } else { e.kind is False })
}

// ---------------------------------------------------------------------------------------
// Moving a formula forward in time
// ---------------------------------------------------------------------------------------
/// `a + b` with the wrap-around of 32-bit integers.
pub open spec fn wrap_add(a: i32, b: i32) -> i32 {
    vstd::wrapping::i32_specs::wrapping_add(a, b)
}

/// Both bounds moved forward by `t`, wrapping around.
pub open spec fn shifted(i: Interval, t: i32) -> Interval {
    Interval { lower: wrap_add(i.lower, t), upper: wrap_add(i.upper, t) }
}

/// The bounds of two intervals added, wrapping around.
pub open spec fn summed(a: Interval, b: Interval) -> Interval {
    Interval { lower: wrap_add(a.lower, b.lower), upper: wrap_add(a.upper, b.upper) }
}

/// The interval `[t, t]`.
pub open spec fn point(t: i32) -> Interval {
    Interval { lower: t, upper: t }
}

/// The formula `f` read `t` instants later: temporal operators, down through `&&`, `||`,
/// implications and `O`, have their interval moved forward by `t`; a proposition or a
/// negation is put under `F[t,t]`.
pub open spec fn spec_shift_forward(f: FormulaM, t: i32) -> FormulaM
    decreases f,
{
    match f {
        FormulaM::And(s) => FormulaM::And(Seq::new(s.len(), |i: int| shift_forward_at(s, i, t))),
        FormulaM::Or(s) => FormulaM::Or(Seq::new(s.len(), |i: int| shift_forward_at(s, i, t))),
        FormulaM::Imply { left, right, not_left } => FormulaM::Imply {
            left: Box::new(spec_shift_forward(*left, t)),
            right: Box::new(spec_shift_forward(*right, t)),
            not_left: Box::new(spec_shift_forward(*not_left, t)),
        },
        FormulaM::O(b) => FormulaM::O(Box::new(spec_shift_forward(*b, t))),
        FormulaM::G { interval, parent_upper, phi } => FormulaM::G {
            interval: shifted(interval, t),
            parent_upper,
            phi,
        },
        FormulaM::F { interval, parent_upper, phi } => FormulaM::F {
            interval: shifted(interval, t),
            parent_upper,
            phi,
        },
        FormulaM::U { interval, parent_upper, left, right } => FormulaM::U {
            interval: shifted(interval, t),
            parent_upper,
            left,
            right,
        },
        FormulaM::R { interval, parent_upper, left, right } => FormulaM::R {
            interval: shifted(interval, t),
            parent_upper,
            left,
            right,
        },
        FormulaM::Not(_) => FormulaM::F { interval: point(t), parent_upper: None, phi: Box::new(f) },
        FormulaM::Prop(_) => FormulaM::F { interval: point(t), parent_upper: None, phi: Box::new(f) },
    }
}

pub open spec fn shift_forward_at(s: Seq<FormulaM>, i: int, t: i32) -> FormulaM
    decreases s,
{
    if 0 <= i < s.len() {
        spec_shift_forward(s[i], t)
    } else {
        FormulaM::And(Seq::empty())
    }
}

pub proof fn lemma_shift_forward_junction(s: Seq<FormulaM>, t: i32)
    ensures
        spec_shift_forward(FormulaM::And(s), t) == FormulaM::And(
            Seq::new(s.len(), |i: int| spec_shift_forward(s[i], t)),
        ),
        spec_shift_forward(FormulaM::Or(s), t) == FormulaM::Or(
            Seq::new(s.len(), |i: int| spec_shift_forward(s[i], t)),
        ),
{
    let e = Seq::new(s.len(), |i: int| spec_shift_forward(s[i], t));
    let a = spec_shift_forward(FormulaM::And(s), t)->And_0;
    assert forall|i: int| 0 <= i < s.len() implies a[i] == e[i] by {
        assert(a[i] == shift_forward_at(s, i, t));
    }
    assert(a =~= e);
    let o = spec_shift_forward(FormulaM::Or(s), t)->Or_0;
    assert forall|i: int| 0 <= i < s.len() implies o[i] == e[i] by {
        assert(o[i] == shift_forward_at(s, i, t));
    }
    assert(o =~= e);
}

/// Moving forward in time commutes with forgetting identifiers.
pub proof fn lemma_strip_shift_forward(f: FormulaM, t: i32)
    ensures
        strip(spec_shift_forward(f, t)) == spec_shift_forward(strip(f), t),
    decreases f,
{
    match f {
        FormulaM::And(s) => {
            lemma_shift_forward_junction(s, t);
            let e = Seq::new(s.len(), |i: int| spec_shift_forward(s[i], t));
            lemma_strip_junction(e);
            lemma_strip_junction(s);
            let ss = Seq::new(s.len(), |i: int| strip(s[i]));
            lemma_shift_forward_junction(ss, t);
            assert forall|i: int| 0 <= i < s.len() implies strip(e[i]) == spec_shift_forward(
                ss[i],
                t,
            ) by {
                lemma_strip_shift_forward(s[i], t);
            }
            assert(Seq::new(e.len(), |i: int| strip(e[i])) =~= Seq::new(
                ss.len(),
                |i: int| spec_shift_forward(ss[i], t),
            ));
        },
        FormulaM::Or(s) => {
            lemma_shift_forward_junction(s, t);
            let e = Seq::new(s.len(), |i: int| spec_shift_forward(s[i], t));
            lemma_strip_junction(e);
            lemma_strip_junction(s);
            let ss = Seq::new(s.len(), |i: int| strip(s[i]));
            lemma_shift_forward_junction(ss, t);
            assert forall|i: int| 0 <= i < s.len() implies strip(e[i]) == spec_shift_forward(
                ss[i],
                t,
            ) by {
                lemma_strip_shift_forward(s[i], t);
            }
            assert(Seq::new(e.len(), |i: int| strip(e[i])) =~= Seq::new(
                ss.len(),
                |i: int| spec_shift_forward(ss[i], t),
            ));
        },
        FormulaM::Imply { left, right, not_left } => {
            lemma_strip_shift_forward(*left, t);
            lemma_strip_shift_forward(*right, t);
            lemma_strip_shift_forward(*not_left, t);
        },
        FormulaM::O(b) => {
            lemma_strip_shift_forward(*b, t);
        },
        _ => {},
    }
}

// ---------------------------------------------------------------------------------------
// Simplifying the operands of a junction
// ---------------------------------------------------------------------------------------
/// The operands of `x` when it is a junction of the same kind (`&&` for `conj`, else `||`),
/// else `x` alone.
pub open spec fn junction_piece(x: FormulaM, conj: bool) -> Seq<FormulaM> {
    if conj {
        match x {
            FormulaM::And(s) => s,
            _ => seq![x],
        }
    } else {
        match x {
            FormulaM::Or(s) => s,
            _ => seq![x],
        }
    }
}

/// Nested junctions of the same kind spliced into their parent.
pub open spec fn flatten_junction(c: Seq<FormulaM>, conj: bool) -> Seq<FormulaM>
    decreases c.len(),
{
    if c.len() == 0 {
        Seq::empty()
    } else {
        flatten_junction(c.drop_last(), conj) + junction_piece(c.last(), conj)
    }
}

/// The first occurrence of each element, in order.
pub open spec fn dedup(s: Seq<FormulaM>) -> Seq<FormulaM>
    decreases s.len(),
{
    if s.len() == 0 {
        Seq::empty()
    } else {
        let d = dedup(s.drop_last());
        if d.contains(s.last()) {
            d
        } else {
            d.push(s.last())
        }
    }
}

/// The elements other than the constant `b`.
pub open spec fn without_constant(s: Seq<FormulaM>, b: bool) -> Seq<FormulaM>
    decreases s.len(),
{
    if s.len() == 0 {
        Seq::empty()
    } else {
        let d = without_constant(s.drop_last(), b);
        if is_constant(s.last(), b) {
            d
        } else {
            d.push(s.last())
        }
    }
}

/// Some element is the constant `b`.
pub open spec fn has_constant(s: Seq<FormulaM>, b: bool) -> bool {
    exists|i: int| 0 <= i < s.len() && is_constant(#[trigger] s[i], b)
}

/// `x` is the negation of an element of `w`.
pub open spec fn complemented_in(x: FormulaM, w: Seq<FormulaM>) -> bool {
    x matches FormulaM::Not(y) && w.contains(*y)
}

/// Some element of `w` is the negation of another one.
pub open spec fn has_complement(w: Seq<FormulaM>) -> bool {
    exists|i: int| 0 <= i < w.len() && complemented_in(#[trigger] w[i], w)
}

/// Some element of `ds` is an element of `w`.
pub open spec fn shares_operand(ds: Seq<FormulaM>, w: Seq<FormulaM>) -> bool {
    exists|j: int| 0 <= j < ds.len() && w.contains(#[trigger] ds[j])
}

/// In a conjunction with operands `w` (for `conj`), `x` is redundant when it is a
/// disjunction with an operand among `w`, or `F[0,u]` of an element of `w`; dually in a
/// disjunction, a conjunction with an operand among `w`, or `G[0,u]` of an element of `w`.
pub open spec fn absorbed(x: FormulaM, w: Seq<FormulaM>, conj: bool) -> bool {
    if conj {
        ||| x matches FormulaM::Or(ds) && shares_operand(ds, w)
        ||| x matches FormulaM::F { interval, phi, .. } && interval.lower == 0 && w.contains(*phi)
    } else {
        ||| x matches FormulaM::And(cs) && shares_operand(cs, w)
        ||| x matches FormulaM::G { interval, phi, .. } && interval.lower == 0 && w.contains(*phi)
    }
}

/// The first `n` elements of `w` that are not absorbed by `w`.
pub open spec fn unabsorbed_prefix(w: Seq<FormulaM>, conj: bool, n: int) -> Seq<FormulaM>
    decreases n,
{
    if n <= 0 || n > w.len() {
        Seq::empty()
    } else {
        let d = unabsorbed_prefix(w, conj, n - 1);
        if absorbed(w[n - 1], w, conj) {
            d
        } else {
            d.push(w[n - 1])
        }
    }
}

/// The intervals overlap or one starts right after the other ends.
pub open spec fn touching(a: Interval, b: Interval) -> bool {
    spec_intersects(a, b) || spec_contiguous(a, b)
}

/// The group, among the first `k` of `gs`, whose first member is `G` of `phi`.
pub open spec fn find_operand_group(
    s: Seq<FormulaM>,
    gs: Seq<(int, Interval)>,
    phi: FormulaM,
    k: int,
) -> Option<int>
    decreases k,
{
    if k <= 0 || k > gs.len() {
        None
    } else {
        match find_operand_group(s, gs, phi, k - 1) {
            Some(j) => Some(j),
            None => if s[gs[k - 1].0] matches FormulaM::G { phi: p, .. } && *p == phi {
                Some(k - 1)
            } else {
                None
            },
        }
    }
}

/// Merging the `G` operators of a conjunction, after its first `n` operands: the groups
/// of `G` with one operand (index of the first member, interval so far) and the indices
/// merged away. A later `G` joins its group when its interval touches the group's one.
pub open spec fn and_merge_state(s: Seq<FormulaM>, n: int) -> (Seq<(int, Interval)>, Set<int>)
    decreases n,
{
    if n <= 0 || n > s.len() {
        (Seq::empty(), Set::empty())
    } else {
        let (gs, rm) = and_merge_state(s, n - 1);
        match s[n - 1] {
            FormulaM::G { interval, phi, .. } => match find_operand_group(
                s,
                gs,
                *phi,
                gs.len() as int,
            ) {
                Some(j) => if touching(gs[j].1, interval) {
                    (gs.update(j, (gs[j].0, spec_union(gs[j].1, interval))), rm.insert(n - 1))
                } else {
                    (gs, rm)
                },
                None => (gs.push((n - 1, interval)), rm),
            },
            _ => (gs, rm),
        }
    }
}

/// `G[a,b] φ && G[c,d] φ` becomes `G` of φ over the union when the intervals touch.
pub open spec fn spec_merge_and(s: Seq<FormulaM>) -> Seq<FormulaM> {
    let (gs, rm) = and_merge_state(s, s.len() as int);
    merged_prefix(s, gs, rm, s.len() as int)
}

/// The first index below `k` holding `G` of `phi`.
pub open spec fn first_g_with(s: Seq<FormulaM>, phi: FormulaM, k: int) -> Option<int>
    decreases k,
{
    if k <= 0 || k > s.len() {
        None
    } else {
        match first_g_with(s, phi, k - 1) {
            Some(j) => Some(j),
            None => if s[k - 1] matches FormulaM::G { phi: p, .. } && *p == phi {
                Some(k - 1)
            } else {
                None
            },
        }
    }
}

/// The operands of a disjunction dropped after its first `n`: a `G` whose interval
/// contains that of the first earlier `G` of the same operand goes; else that earlier one
/// goes if its interval contains this one's.
pub open spec fn or_removed(s: Seq<FormulaM>, n: int) -> Set<int>
    decreases n,
{
    if n <= 0 || n > s.len() {
        Set::empty()
    } else {
        let rm = or_removed(s, n - 1);
        match s[n - 1] {
            FormulaM::G { interval, phi, .. } => match first_g_with(s, *phi, n - 1) {
                Some(j) => {
                    let prev = s[j]->G_interval;
                    if spec_contains(interval, prev) {
                        rm.insert(n - 1)
                    } else if spec_contains(prev, interval) {
                        rm.insert(j)
                    } else {
                        rm
                    }
                },
                None => rm,
            },
            _ => rm,
        }
    }
}

/// Of `G[a,b] φ || G[c,d] φ` with one interval inside the other, the one with the larger
/// interval goes.
pub open spec fn spec_merge_or(s: Seq<FormulaM>) -> Seq<FormulaM> {
    kept_prefix(s, or_removed(s, s.len() as int), s.len() as int)
}

/// The simplification of a junction (`&&` for `conj`, else `||`) whose operands `c` are
/// already simplified: nested junctions of the same kind are spliced in and repeated
/// operands dropped; the annihilating constant, or an operand next to its negation, gives
/// that constant; the neutral constant and absorbed operands go; `G` operators merge; no
/// operand left gives the neutral constant, one gives itself.
pub open spec fn simplify_junction(c: Seq<FormulaM>, conj: bool) -> FormulaM {
    let u = dedup(flatten_junction(c, conj));
    if has_constant(u, !conj) {
        constant(!conj)
    } else {
        let w = without_constant(u, conj);
        if has_complement(w) {
            constant(!conj)
        } else {
            let red = unabsorbed_prefix(w, conj, w.len() as int);
            let m = if conj {
                spec_merge_and(red)
            } else {
                spec_merge_or(red)
            };
            if m.len() == 0 {
                constant(conj)
            } else if m.len() == 1 {
                m[0]
            } else if conj {
                FormulaM::And(m)
            } else {
                FormulaM::Or(m)
            }
        }
    }
}

proof fn lemma_flatten_keeps_leaf(c: Seq<FormulaM>, conj: bool, i: int)
    requires
        0 <= i < c.len(),
        !(c[i] is And),
        !(c[i] is Or),
    ensures
        flatten_junction(c, conj).contains(c[i]),
    decreases c.len(),
{
    let f = flatten_junction(c, conj);
    let p = flatten_junction(c.drop_last(), conj);
    if i == c.len() - 1 {
        assert(junction_piece(c.last(), conj) == seq![c.last()]);
        assert(f[p.len() as int] == c[i]);
    } else {
        lemma_flatten_keeps_leaf(c.drop_last(), conj, i);
        assert(c.drop_last()[i] == c[i]);
        let j = choose|j: int| 0 <= j < p.len() && p[j] == c[i];
        assert(f[j] == c[i]);
    }
}

proof fn lemma_dedup_keeps(s: Seq<FormulaM>, x: FormulaM)
    requires
        s.contains(x),
    ensures
        dedup(s).contains(x),
    decreases s.len(),
{
    let d = dedup(s.drop_last());
    if s.last() == x {
        if !d.contains(x) {
            assert(d.push(x)[d.len() as int] == x);
        }
    } else {
        let j = choose|j: int| 0 <= j < s.len() && s[j] == x;
        assert(s.drop_last()[j] == x);
        lemma_dedup_keeps(s.drop_last(), x);
        if !d.contains(s.last()) {
            let k = choose|k: int| 0 <= k < d.len() && d[k] == x;
            assert(d.push(s.last())[k] == x);
        }
    }
}

/// A conjunction with a `false` operand is `false`, and a disjunction with a `true`
/// operand is `true`.
pub proof fn lemma_junction_dominated(c: Seq<FormulaM>, conj: bool, i: int)
    requires
        0 <= i < c.len(),
        is_constant(c[i], !conj),
    ensures
        simplify_junction(c, conj) == constant(!conj),
{
    lemma_flatten_keeps_leaf(c, conj, i);
    lemma_dedup_keeps(flatten_junction(c, conj), c[i]);
    let u = dedup(flatten_junction(c, conj));
    let j = choose|j: int| 0 <= j < u.len() && u[j] == c[i];
    assert(is_constant(u[j], !conj));
}

proof fn lemma_without_constant_keeps(s: Seq<FormulaM>, b: bool, x: FormulaM)
    requires
        s.contains(x),
        !is_constant(x, b),
    ensures
        without_constant(s, b).contains(x),
    decreases s.len(),
{
    let d = without_constant(s.drop_last(), b);
    if s.last() == x {
        assert(d.push(x)[d.len() as int] == x);
    } else {
        let j = choose|j: int| 0 <= j < s.len() && s[j] == x;
        assert(s.drop_last()[j] == x);
        lemma_without_constant_keeps(s.drop_last(), b, x);
        if !is_constant(s.last(), b) {
            let k = choose|k: int| 0 <= k < d.len() && d[k] == x;
            assert(d.push(s.last())[k] == x);
        }
    }
}

/// A junction holding a formula and its negation (the formula neither the neutral constant
/// nor a junction) collapses: a conjunction to `false`, a disjunction to `true`.
pub proof fn lemma_junction_complement(c: Seq<FormulaM>, conj: bool, i: int, j: int)
    requires
        0 <= i < c.len(),
        0 <= j < c.len(),
        c[j] == FormulaM::Not(Box::new(c[i])),
        !(c[i] is And),
        !(c[i] is Or),
        !is_constant(c[i], conj),
    ensures
        simplify_junction(c, conj) == constant(!conj),
{
    let f = flatten_junction(c, conj);
    lemma_flatten_keeps_leaf(c, conj, i);
    lemma_flatten_keeps_leaf(c, conj, j);
    lemma_dedup_keeps(f, c[i]);
    lemma_dedup_keeps(f, c[j]);
    let u = dedup(f);
    if !has_constant(u, !conj) {
        lemma_without_constant_keeps(u, conj, c[i]);
        lemma_without_constant_keeps(u, conj, c[j]);
        let w = without_constant(u, conj);
        let k = choose|k: int| 0 <= k < w.len() && w[k] == c[j];
        assert(complemented_in(w[k], w));
    }
}

/// Simplifying a conjunction one of whose operands simplifies to `false` gives `false`;
/// dually for a disjunction and `true`.
pub proof fn lemma_simplify_dominated(s: Seq<FormulaM>, fuel: nat, i: int)
    requires
        fuel > 0,
        0 <= i < s.len(),
    ensures
        is_constant(spec_simplify(s[i], (fuel - 1) as nat), false) ==> spec_simplify(FormulaM::And(s), fuel) == constant(false),
        is_constant(spec_simplify(s[i], (fuel - 1) as nat), true) ==> spec_simplify(FormulaM::Or(s), fuel) == constant(true),
{
    let c = simplify_all(s, (fuel - 1) as nat);
    assert(c[i] == spec_simplify(s[i], (fuel - 1) as nat));
    if is_constant(c[i], false) {
        lemma_junction_dominated(c, true, i);
    }
    if is_constant(c[i], true) {
        lemma_junction_dominated(c, false, i);
    }
}

/// `x` is a junction of the kind `conj` names (`&&` for `conj`, else `||`).
pub open spec fn is_junction(x: FormulaM, conj: bool) -> bool {
    if conj {
        x is And
    } else {
        x is Or
    }
}

/// No element of `s` is a constant.
pub open spec fn constant_free(s: Seq<FormulaM>) -> bool {
    forall|k: int| 0 <= k < s.len() ==> !is_constant(#[trigger] s[k], true) && !is_constant(s[k], false)
}

/// `x` is neither a constant nor a junction of the kind `conj` names.
pub open spec fn plain_operand(x: FormulaM, conj: bool) -> bool {
    !is_constant(x, true) && !is_constant(x, false) && !is_junction(x, conj)
}

proof fn lemma_dedup_elems(s: Seq<FormulaM>)
    ensures
        forall|k: int| 0 <= k < dedup(s).len() ==> s.contains(#[trigger] dedup(s)[k]),
    decreases s.len(),
{
    if s.len() > 0 {
        let p = s.drop_last();
        lemma_dedup_elems(p);
        let d = dedup(p);
        assert forall|k: int| 0 <= k < dedup(s).len() implies s.contains(#[trigger] dedup(s)[k]) by {
            if k < d.len() {
                let j = choose|j: int| 0 <= j < p.len() && p[j] == d[k];
                assert(s[j] == p[j]);
            } else {
                assert(s[s.len() - 1] == s.last());
            }
        }
    }
}

proof fn lemma_without_constant_elems(s: Seq<FormulaM>, b: bool)
    ensures
        forall|k: int| 0 <= k < without_constant(s, b).len() ==> s.contains(#[trigger] without_constant(s, b)[k])
            && !is_constant(without_constant(s, b)[k], b),
    decreases s.len(),
{
    if s.len() > 0 {
        let p = s.drop_last();
        lemma_without_constant_elems(p, b);
        let d = without_constant(p, b);
        assert forall|k: int| 0 <= k < without_constant(s, b).len() implies s.contains(
            #[trigger] without_constant(s, b)[k],
        ) && !is_constant(without_constant(s, b)[k], b) by {
            if k < d.len() {
                let j = choose|j: int| 0 <= j < p.len() && p[j] == d[k];
                assert(s[j] == p[j]);
            } else {
                assert(s[s.len() - 1] == s.last());
            }
        }
    }
}

proof fn lemma_unabsorbed_elems(w: Seq<FormulaM>, conj: bool, n: int)
    ensures
        forall|k: int| 0 <= k < unabsorbed_prefix(w, conj, n).len() ==> w.contains(
            #[trigger] unabsorbed_prefix(w, conj, n)[k],
        ),
    decreases n,
{
    if 0 < n <= w.len() {
        lemma_unabsorbed_elems(w, conj, n - 1);
        let d = unabsorbed_prefix(w, conj, n - 1);
        assert forall|k: int| 0 <= k < unabsorbed_prefix(w, conj, n).len() implies w.contains(
            #[trigger] unabsorbed_prefix(w, conj, n)[k],
        ) by {
            if k >= d.len() {
                assert(unabsorbed_prefix(w, conj, n)[k] == w[n - 1]);
            }
        }
    }
}

proof fn lemma_merged_plain(s: Seq<FormulaM>, gs: Seq<(int, Interval)>, rm: Set<int>, n: int, conj: bool)
    requires
        forall|k: int| 0 <= k < s.len() ==> plain_operand(#[trigger] s[k], conj),
    ensures
        forall|k: int| 0 <= k < merged_prefix(s, gs, rm, n).len() ==> plain_operand(
            #[trigger] merged_prefix(s, gs, rm, n)[k],
            conj,
        ),
    decreases n,
{
    if 0 < n <= s.len() {
        lemma_merged_plain(s, gs, rm, n - 1, conj);
        let d = merged_prefix(s, gs, rm, n - 1);
        assert forall|k: int| 0 <= k < merged_prefix(s, gs, rm, n).len() implies plain_operand(
            #[trigger] merged_prefix(s, gs, rm, n)[k],
            conj,
        ) by {
            if k >= d.len() {
                assert(plain_operand(s[n - 1], conj));
            }
        }
    }
}

proof fn lemma_kept_plain(s: Seq<FormulaM>, rm: Set<int>, n: int, conj: bool)
    requires
        forall|k: int| 0 <= k < s.len() ==> plain_operand(#[trigger] s[k], conj),
    ensures
        forall|k: int| 0 <= k < kept_prefix(s, rm, n).len() ==> plain_operand(
            #[trigger] kept_prefix(s, rm, n)[k],
            conj,
        ),
    decreases n,
{
    if 0 < n <= s.len() {
        lemma_kept_plain(s, rm, n - 1, conj);
        let d = kept_prefix(s, rm, n - 1);
        assert forall|k: int| 0 <= k < kept_prefix(s, rm, n).len() implies plain_operand(
            #[trigger] kept_prefix(s, rm, n)[k],
            conj,
        ) by {
            if k >= d.len() {
                assert(plain_operand(s[n - 1], conj));
            }
        }
    }
}

/// Simplifying a flat junction (no operand, once nested junctions of the same kind are
/// spliced in, is itself such a junction) leaves no constant behind: the result is a
/// constant, or neither it nor any of its operands is one.
pub proof fn lemma_junction_constant_free(c: Seq<FormulaM>, conj: bool)
    requires
        forall|k: int| 0 <= k < flatten_junction(c, conj).len() ==> !is_junction(
            #[trigger] flatten_junction(c, conj)[k],
            conj,
        ),
    ensures
        is_constant(simplify_junction(c, conj), true) || is_constant(simplify_junction(c, conj), false)
            || constant_free(junction_piece(simplify_junction(c, conj), conj)),
{
    let f = flatten_junction(c, conj);
    let u = dedup(f);
    lemma_dedup_elems(f);
    if !has_constant(u, !conj) {
        let w = without_constant(u, conj);
        lemma_without_constant_elems(u, conj);
        if !has_complement(w) {
            let red = unabsorbed_prefix(w, conj, w.len() as int);
            lemma_unabsorbed_elems(w, conj, w.len() as int);
            assert forall|k: int| 0 <= k < red.len() implies plain_operand(#[trigger] red[k], conj) by {
                let x = red[k];
                let a = choose|a: int| 0 <= a < w.len() && w[a] == x;
                let b = choose|b: int| 0 <= b < u.len() && u[b] == x;
                let e = choose|e: int| 0 <= e < f.len() && f[e] == x;
                assert(!is_constant(u[b], !conj));
            }
            let m = if conj {
                spec_merge_and(red)
            } else {
                spec_merge_or(red)
            };
            if conj {
                let (gs, rm) = and_merge_state(red, red.len() as int);
                lemma_merged_plain(red, gs, rm, red.len() as int, conj);
            } else {
                lemma_kept_plain(red, or_removed(red, red.len() as int), red.len() as int, conj);
            }
            assert(forall|k: int| 0 <= k < m.len() ==> plain_operand(#[trigger] m[k], conj));
            if m.len() == 1 {
                assert(plain_operand(m[0], conj));
                assert(junction_piece(m[0], conj) =~= seq![m[0]]);
            }
        }
    }
}

// ---------------------------------------------------------------------------------------
// The simplification
// ---------------------------------------------------------------------------------------
/// The simplification of `f`, with identifiers set to 0 (`f` itself is taken with
/// identifiers 0). `fuel` bounds the depth of recursion; where it runs out the formula is
/// left as it is.
///
/// Operands are simplified first. Junctions follow `simplify_junction`. `G` and `F` of a
/// constant give that constant, of the same operator collapse into one over the summed
/// intervals, over `[0,0]` give their operand and over `[t,t]` their operand moved
/// forward by `t`. For `U`: a `true` left operand gives `F` over the interval, a `false`
/// one `F` at its lower bound, a constant right operand that constant, operands that
/// negate each other `F` of the right one; `[0,0]` and `[t,t]` as for `G`. For `R`: a
/// constant right operand gives that constant, a `true` left operand `F` at the lower
/// bound, a `false` one or operands that negate each other `G` of the right one.
pub open spec fn spec_simplify(f: FormulaM, fuel: nat) -> FormulaM
    decreases fuel, 1nat,
{
    if fuel == 0 {
        f
    } else {
        let k = (fuel - 1) as nat;
        match f {
            FormulaM::And(s) => simplify_junction(simplify_all(s, k), true),
            FormulaM::Or(s) => simplify_junction(simplify_all(s, k), false),
            FormulaM::Imply { left, right, not_left } => FormulaM::Imply {
                left: Box::new(spec_simplify(*left, k)),
                right: Box::new(spec_simplify(*right, k)),
                not_left: Box::new(spec_simplify(*not_left, k)),
            },
            FormulaM::Not(b) => FormulaM::Not(Box::new(spec_simplify(*b, k))),
            FormulaM::O(b) => FormulaM::O(Box::new(spec_simplify(*b, k))),
            FormulaM::G { interval, parent_upper, phi } => simplify_unary(
                interval,
                parent_upper,
                spec_simplify(*phi, k),
                true,
                k,
            ),
            FormulaM::F { interval, parent_upper, phi } => simplify_unary(
                interval,
                parent_upper,
                spec_simplify(*phi, k),
                false,
                k,
            ),
            FormulaM::U { interval, parent_upper, left, right } => simplify_until(
                interval,
                parent_upper,
                spec_simplify(*left, k),
                spec_simplify(*right, k),
                k,
            ),
            FormulaM::R { interval, parent_upper, left, right } => simplify_release(
                interval,
                parent_upper,
                spec_simplify(*left, k),
                spec_simplify(*right, k),
                k,
            ),
            FormulaM::Prop(_) => f,
        }
    }
}

/// Each element simplified.
pub open spec fn simplify_all(s: Seq<FormulaM>, fuel: nat) -> Seq<FormulaM>
    decreases fuel, 2nat,
{
    Seq::new(s.len(), |i: int| spec_simplify(s[i], fuel))
}

/// `G` (for `globally`) or `F` over `interval` of the simplified operand `np`.
pub open spec fn simplify_unary(
    interval: Interval,
    parent_upper: Option<i32>,
    np: FormulaM,
    globally: bool,
    fuel: nat,
) -> FormulaM
    decreases fuel, 2nat,
{
    if is_constant(np, true) {
        constant(true)
    } else if is_constant(np, false) {
        constant(false)
    } else if globally && np is G {
        spec_simplify(
            FormulaM::G {
                interval: summed(interval, np->G_interval),
                parent_upper,
                phi: np->G_phi,
            },
            fuel,
        )
    } else if !globally && np is F {
        spec_simplify(
            FormulaM::F {
                interval: summed(interval, np->F_interval),
                parent_upper,
                phi: np->F_phi,
            },
            fuel,
        )
    } else if interval.lower == 0 && interval.upper == 0 {
        np
    } else if interval.lower == interval.upper {
        spec_shift_forward(np, interval.lower)
    } else if globally {
        FormulaM::G { interval, parent_upper, phi: Box::new(np) }
    } else {
        FormulaM::F { interval, parent_upper, phi: Box::new(np) }
    }
}

/// `U` over `interval` of the simplified operands `nl` and `nr`.
pub open spec fn simplify_until(
    interval: Interval,
    parent_upper: Option<i32>,
    nl: FormulaM,
    nr: FormulaM,
    fuel: nat,
) -> FormulaM
    decreases fuel, 2nat,
{
    if is_constant(nl, true) {
        spec_simplify(FormulaM::F { interval, parent_upper, phi: Box::new(nr) }, fuel)
    } else if is_constant(nl, false) {
        spec_simplify(
            FormulaM::F { interval: point(interval.lower), parent_upper, phi: Box::new(nr) },
            fuel,
        )
    } else if is_constant(nr, true) {
        constant(true)
    } else if is_constant(nr, false) {
        constant(false)
    } else if negates(nr, nl) || negates(nl, nr) {
        spec_simplify(FormulaM::F { interval, parent_upper, phi: Box::new(nr) }, fuel)
    } else if interval.lower == 0 && interval.upper == 0 {
        nr
    } else if interval.lower == interval.upper {
        spec_shift_forward(nr, interval.lower)
    } else {
        FormulaM::U { interval, parent_upper, left: Box::new(nl), right: Box::new(nr) }
    }
}

/// `R` over `interval` of the simplified operands `nl` and `nr`.
pub open spec fn simplify_release(
    interval: Interval,
    parent_upper: Option<i32>,
    nl: FormulaM,
    nr: FormulaM,
    fuel: nat,
) -> FormulaM
    decreases fuel, 2nat,
{
    if is_constant(nr, true) {
        constant(true)
    } else if is_constant(nr, false) {
        constant(false)
    } else if is_constant(nl, true) {
        spec_simplify(
            FormulaM::F { interval: point(interval.lower), parent_upper, phi: Box::new(nr) },
            fuel,
        )
    } else if is_constant(nl, false) {
        spec_simplify(FormulaM::G { interval, parent_upper, phi: Box::new(nr) }, fuel)
    } else if negates(nl, nr) || negates(nr, nl) {
        spec_simplify(FormulaM::G { interval, parent_upper, phi: Box::new(nr) }, fuel)
    } else {
        FormulaM::R { interval, parent_upper, left: Box::new(nl), right: Box::new(nr) }
    }
}

/// A release whose left operand, once simplified, is the negation of its right one (or its
/// right one the negation of its left one) simplifies as the release with `false` on the
/// left: to `G` of the right operand over the same interval. Only a left operand that
/// simplifies to `true` is set apart, as `true` on the left is a rule of its own.
pub proof fn lemma_release_complement(
    interval: Interval,
    parent_upper: Option<i32>,
    x: FormulaM,
    y: FormulaM,
    fuel: nat,
)
    requires
        fuel > 0,
        negates(spec_simplify(x, (fuel - 1) as nat), spec_simplify(y, (fuel - 1) as nat))
            || negates(spec_simplify(y, (fuel - 1) as nat), spec_simplify(x, (fuel - 1) as nat)),
        !is_constant(spec_simplify(x, (fuel - 1) as nat), true),
    ensures
        spec_simplify(FormulaM::R { interval, parent_upper, left: Box::new(x), right: Box::new(y) }, fuel)
            == spec_simplify(
            FormulaM::R { interval, parent_upper, left: Box::new(constant(false)), right: Box::new(y) },
            fuel,
        ),
{
    let k = (fuel - 1) as nat;
    let nl = spec_simplify(x, k);
    let nr = spec_simplify(y, k);
    assert(spec_simplify(constant(false), k) == constant(false));
    assert(spec_simplify(FormulaM::R { interval, parent_upper, left: Box::new(x), right: Box::new(y) }, fuel)
        == simplify_release(interval, parent_upper, nl, nr, k));
    assert(spec_simplify(
        FormulaM::R { interval, parent_upper, left: Box::new(constant(false)), right: Box::new(y) },
        fuel,
    ) == simplify_release(interval, parent_upper, constant(false), nr, k));
}

/// Releasing a proposition under its own negation, `!p R[l,u] p`, simplifies as `G[l,u] p`
/// does.
pub proof fn lemma_release_negated_proposition(
    interval: Interval,
    parent_upper: Option<i32>,
    p: FormulaM,
    fuel: nat,
)
    requires
        fuel > 1,
        p is Prop,
        !is_constant(p, true),
        !is_constant(p, false),
    ensures
        spec_simplify(
            FormulaM::R {
                interval,
                parent_upper,
                left: Box::new(FormulaM::Not(Box::new(p))),
                right: Box::new(p),
            },
            fuel,
        ) == spec_simplify(FormulaM::G { interval, parent_upper, phi: Box::new(p) }, fuel),
{
    let k = (fuel - 1) as nat;
    let np = FormulaM::Not(Box::new(p));
    assert(spec_simplify(p, k) == p);
    assert(spec_simplify(p, (k - 1) as nat) == p);
    assert(spec_simplify(np, k) == FormulaM::Not(Box::new(spec_simplify(p, (k - 1) as nat))));
    assert(spec_simplify(np, k) == np);
    assert(negates(np, p));
    assert(spec_simplify(FormulaM::R { interval, parent_upper, left: Box::new(np), right: Box::new(p) }, fuel)
        == simplify_release(interval, parent_upper, np, p, k));
    assert(simplify_release(interval, parent_upper, np, p, k) == spec_simplify(
        FormulaM::G { interval, parent_upper, phi: Box::new(p) },
        k,
    ));
    assert(spec_simplify(FormulaM::G { interval, parent_upper, phi: Box::new(p) }, k)
        == simplify_unary(interval, parent_upper, p, true, (k - 1) as nat));
    assert(spec_simplify(FormulaM::G { interval, parent_upper, phi: Box::new(p) }, fuel)
        == simplify_unary(interval, parent_upper, p, true, k));
}

/// Until over a point interval `[t,t]`, with a right operand that simplifies to a
/// proposition and a left operand that triggers no rule of its own, is its right operand
/// read `t` instants later, as `F[t,t]` of it is; for `t != 0` that is never the right
/// operand itself.
pub proof fn lemma_until_point(t: i32, parent_upper: Option<i32>, x: FormulaM, y: FormulaM, fuel: nat)
    requires
        fuel > 0,
        spec_simplify(y, (fuel - 1) as nat) is Prop,
        !is_constant(spec_simplify(y, (fuel - 1) as nat), true),
        !is_constant(spec_simplify(y, (fuel - 1) as nat), false),
        !is_constant(spec_simplify(x, (fuel - 1) as nat), true),
        !is_constant(spec_simplify(x, (fuel - 1) as nat), false),
        !negates(spec_simplify(x, (fuel - 1) as nat), spec_simplify(y, (fuel - 1) as nat)),
        !negates(spec_simplify(y, (fuel - 1) as nat), spec_simplify(x, (fuel - 1) as nat)),
    ensures
        spec_simplify(FormulaM::U { interval: point(t), parent_upper, left: Box::new(x), right: Box::new(y) }, fuel)
            == spec_simplify(FormulaM::F { interval: point(t), parent_upper, phi: Box::new(y) }, fuel),
        t != 0 ==> spec_simplify(
            FormulaM::U { interval: point(t), parent_upper, left: Box::new(x), right: Box::new(y) },
            fuel,
        ) != spec_simplify(y, (fuel - 1) as nat),
{
    let k = (fuel - 1) as nat;
    let nl = spec_simplify(x, k);
    let nr = spec_simplify(y, k);
    assert(spec_simplify(FormulaM::U { interval: point(t), parent_upper, left: Box::new(x), right: Box::new(y) }, fuel)
        == simplify_until(point(t), parent_upper, nl, nr, k));
    assert(spec_simplify(FormulaM::F { interval: point(t), parent_upper, phi: Box::new(y) }, fuel)
        == simplify_unary(point(t), parent_upper, nr, false, k));
    if t != 0 {
        assert(simplify_until(point(t), parent_upper, nl, nr, k) == spec_shift_forward(nr, t));
        assert(spec_shift_forward(nr, t) is F);
    }
}

/// An until whose operands, once simplified, negate each other simplifies as the until with
/// `true` on the left: to `F` of the right operand over the same interval (a left operand
/// or a right operand that simplifies to a constant follows rules of its own).
pub proof fn lemma_until_complement(
    interval: Interval,
    parent_upper: Option<i32>,
    x: FormulaM,
    y: FormulaM,
    fuel: nat,
)
    requires
        fuel > 0,
        negates(spec_simplify(x, (fuel - 1) as nat), spec_simplify(y, (fuel - 1) as nat))
            || negates(spec_simplify(y, (fuel - 1) as nat), spec_simplify(x, (fuel - 1) as nat)),
        !is_constant(spec_simplify(x, (fuel - 1) as nat), true),
        !is_constant(spec_simplify(x, (fuel - 1) as nat), false),
        !is_constant(spec_simplify(y, (fuel - 1) as nat), true),
        !is_constant(spec_simplify(y, (fuel - 1) as nat), false),
    ensures
        spec_simplify(FormulaM::U { interval, parent_upper, left: Box::new(x), right: Box::new(y) }, fuel)
            == spec_simplify(
            FormulaM::U { interval, parent_upper, left: Box::new(constant(true)), right: Box::new(y) },
            fuel,
        ),
{
    let k = (fuel - 1) as nat;
    let nl = spec_simplify(x, k);
    let nr = spec_simplify(y, k);
    assert(spec_simplify(constant(true), k) == constant(true));
    assert(spec_simplify(FormulaM::U { interval, parent_upper, left: Box::new(x), right: Box::new(y) }, fuel)
        == simplify_until(interval, parent_upper, nl, nr, k));
    assert(spec_simplify(
        FormulaM::U { interval, parent_upper, left: Box::new(constant(true)), right: Box::new(y) },
        fuel,
    ) == simplify_until(interval, parent_upper, constant(true), nr, k));
}

/// Over a point interval `[t,t]`, `G` and `F` of a proposition agree: both read it `t`
/// instants later, and for `t != 0` neither is the proposition itself.
pub proof fn lemma_point_globally_finally(t: i32, parent_upper: Option<i32>, p: FormulaM, fuel: nat)
    requires
        fuel > 0,
        p is Prop,
        !is_constant(p, true),
        !is_constant(p, false),
    ensures
        spec_simplify(FormulaM::G { interval: point(t), parent_upper, phi: Box::new(p) }, fuel)
            == spec_simplify(FormulaM::F { interval: point(t), parent_upper, phi: Box::new(p) }, fuel),
        t != 0 ==> spec_simplify(FormulaM::G { interval: point(t), parent_upper, phi: Box::new(p) }, fuel)
            != p,
{
    let k = (fuel - 1) as nat;
    assert(spec_simplify(p, k) == p);
    assert(spec_simplify(FormulaM::G { interval: point(t), parent_upper, phi: Box::new(p) }, fuel)
        == simplify_unary(point(t), parent_upper, p, true, k));
    assert(spec_simplify(FormulaM::F { interval: point(t), parent_upper, phi: Box::new(p) }, fuel)
        == simplify_unary(point(t), parent_upper, p, false, k));
    if t != 0 {
        assert(spec_shift_forward(p, t) is F);
    }
}

/// With a constant operand, until and release over a proposition `p` turn into `F` or `G`
/// of `p`: `true U[l,u] p` is `F[l,u] p`; `false U[l,u] p` and `true R[l,u] p` are both
/// `p` at the lower bound, `F[l,l] p`; `false R[l,u] p` is `G[l,u] p`.
pub proof fn lemma_until_release_constant_left(
    interval: Interval,
    parent_upper: Option<i32>,
    p: FormulaM,
    fuel: nat,
)
    requires
        fuel > 1,
        p is Prop,
        !is_constant(p, true),
        !is_constant(p, false),
    ensures
        spec_simplify(
            FormulaM::U { interval, parent_upper, left: Box::new(constant(true)), right: Box::new(p) },
            fuel,
        ) == spec_simplify(FormulaM::F { interval, parent_upper, phi: Box::new(p) }, fuel),
        spec_simplify(
            FormulaM::U { interval, parent_upper, left: Box::new(constant(false)), right: Box::new(p) },
            fuel,
        ) == spec_simplify(FormulaM::F { interval: point(interval.lower), parent_upper, phi: Box::new(p) }, fuel),
        spec_simplify(
            FormulaM::R { interval, parent_upper, left: Box::new(constant(true)), right: Box::new(p) },
            fuel,
        ) == spec_simplify(FormulaM::F { interval: point(interval.lower), parent_upper, phi: Box::new(p) }, fuel),
        spec_simplify(
            FormulaM::R { interval, parent_upper, left: Box::new(constant(false)), right: Box::new(p) },
            fuel,
        ) == spec_simplify(FormulaM::G { interval, parent_upper, phi: Box::new(p) }, fuel),
{
    let k = (fuel - 1) as nat;
    let t = constant(true);
    let f = constant(false);
    assert(spec_simplify(p, k) == p);
    assert(spec_simplify(p, (k - 1) as nat) == p);
    assert(spec_simplify(t, k) == t);
    assert(spec_simplify(f, k) == f);
    assert(spec_simplify(FormulaM::U { interval, parent_upper, left: Box::new(t), right: Box::new(p) }, fuel)
        == simplify_until(interval, parent_upper, t, p, k));
    assert(spec_simplify(FormulaM::U { interval, parent_upper, left: Box::new(f), right: Box::new(p) }, fuel)
        == simplify_until(interval, parent_upper, f, p, k));
    assert(spec_simplify(FormulaM::R { interval, parent_upper, left: Box::new(t), right: Box::new(p) }, fuel)
        == simplify_release(interval, parent_upper, t, p, k));
    assert(spec_simplify(FormulaM::R { interval, parent_upper, left: Box::new(f), right: Box::new(p) }, fuel)
        == simplify_release(interval, parent_upper, f, p, k));
    let pl = point(interval.lower);
    assert(spec_simplify(FormulaM::F { interval, parent_upper, phi: Box::new(p) }, k)
        == simplify_unary(interval, parent_upper, p, false, (k - 1) as nat));
    assert(spec_simplify(FormulaM::F { interval, parent_upper, phi: Box::new(p) }, fuel)
        == simplify_unary(interval, parent_upper, p, false, k));
    assert(spec_simplify(FormulaM::F { interval: pl, parent_upper, phi: Box::new(p) }, k)
        == simplify_unary(pl, parent_upper, p, false, (k - 1) as nat));
    assert(spec_simplify(FormulaM::F { interval: pl, parent_upper, phi: Box::new(p) }, fuel)
        == simplify_unary(pl, parent_upper, p, false, k));
    assert(spec_simplify(FormulaM::G { interval, parent_upper, phi: Box::new(p) }, k)
        == simplify_unary(interval, parent_upper, p, true, (k - 1) as nat));
    assert(spec_simplify(FormulaM::G { interval, parent_upper, phi: Box::new(p) }, fuel)
        == simplify_unary(interval, parent_upper, p, true, k));
}

/// `x` is the negation of `y`.
pub open spec fn negates(x: FormulaM, y: FormulaM) -> bool {
    x matches FormulaM::Not(z) && *z == y
}

fn shifted_interval(i: Interval, t: i32) -> (r: Interval)
    ensures
        r == shifted(i, t),
{
    Interval { lower: i.lower.wrapping_add(t), upper: i.upper.wrapping_add(t) }
}

/// The formula read `t` instants later (see `spec_shift_forward`).
pub fn shift_forward(f: &Formula, t: i32) -> (r: Formula)
    ensures
        r@ == spec_shift_forward(f@, t),
    decreases f, 1nat,
{
    match f {
        Formula::And(v) => {
            let out = shift_forward_operands(f, v, t);
            proof {
                lemma_view_junction(*v);
                lemma_view_junction(out);
                lemma_shift_forward_junction(fviews(v@), t);
            }
            Formula::And(out)
        },
        Formula::Or(v) => {
            let out = shift_forward_operands(f, v, t);
            proof {
                lemma_view_junction(*v);
                lemma_view_junction(out);
                lemma_shift_forward_junction(fviews(v@), t);
            }
            Formula::Or(out)
        },
        Formula::Imply { left, right, not_left } => {
            let l = shift_forward(left, t);
            let r = shift_forward(right, t);
            let n = shift_forward(not_left, t);
            Formula::Imply { left: Box::new(l), right: Box::new(r), not_left: Box::new(n) }
        },
        Formula::O(b) => Formula::O(Box::new(shift_forward(b, t))),
        Formula::G { interval, parent_upper, phi } => Formula::G {
            interval: shifted_interval(*interval, t),
            parent_upper: *parent_upper,
            phi: Box::new(formula_clone(phi)),
        },
        Formula::F { interval, parent_upper, phi } => Formula::F {
            interval: shifted_interval(*interval, t),
            parent_upper: *parent_upper,
            phi: Box::new(formula_clone(phi)),
        },
        Formula::U { interval, parent_upper, left, right } => Formula::U {
            interval: shifted_interval(*interval, t),
            parent_upper: *parent_upper,
            left: Box::new(formula_clone(left)),
            right: Box::new(formula_clone(right)),
        },
        Formula::R { interval, parent_upper, left, right } => Formula::R {
            interval: shifted_interval(*interval, t),
            parent_upper: *parent_upper,
            left: Box::new(formula_clone(left)),
            right: Box::new(formula_clone(right)),
        },
        Formula::Not(_) => Formula::F {
            interval: Interval { lower: t, upper: t },
            parent_upper: None,
            phi: Box::new(formula_clone(f)),
        },
        Formula::Prop(_) => Formula::F {
            interval: Interval { lower: t, upper: t },
            parent_upper: None,
            phi: Box::new(formula_clone(f)),
        },
    }
}

fn shift_forward_operands(f: &Formula, v: &Vec<Formula>, t: i32) -> (r: Vec<Formula>)
    requires
        operands_of(*f, *v),
    ensures
        fviews(r@) == Seq::new(v@.len(), |i: int| spec_shift_forward(fviews(v@)[i], t)),
    decreases f, 0nat,
{
    let mut out: Vec<Formula> = Vec::new();
    let mut i: usize = 0;
    while i < v.len()
        invariant
            operands_of(*f, *v),
            i <= v.len(),
            out@.len() == i,
            forall|j: int| 0 <= j < i ==> (#[trigger] out@[j])@ == spec_shift_forward(v@[j]@, t),
        decreases v.len() - i,
    {
        proof {
            lemma_operand_decreases(*f, *v, i as int);
        }
        let c = shift_forward(&v[i], t);
        out.push(c);
        i += 1;
    }
    assert(fviews(out@) =~= Seq::new(v@.len(), |i: int| spec_shift_forward(fviews(v@)[i], t)));
    out
}

// ---------------------------------------------------------------------------------------
// Operands of a junction, up to identifiers
// ---------------------------------------------------------------------------------------
/// `true` (for `b`) or `false`, with a fresh identifier.
fn constant_formula(b: bool, ids: &mut IdGen) -> (r: Formula)
    ensures
        sview(r) == constant(b),
{
    if b {
        Formula::prop(Expr::true_expr(ids))
    } else {
        Formula::prop(Expr::false_expr(ids))
    }
}

fn is_constant_formula(x: &Formula, b: bool) -> (r: bool)
    ensures
        r == is_constant(sview(*x), b),
{
    match x {
        Formula::Prop(e) => match e.kind {
            ExprKind::True => b,
            ExprKind::False => !b,
            _ => false,
        },
        _ => false,
    }
}

/// Some element of `v` equals `x` up to identifiers.
fn structurally_in(v: &Vec<Formula>, x: &Formula) -> (r: bool)
    ensures
        r == sviews(v@).contains(sview(*x)),
{
    let mut i: usize = 0;
    while i < v.len()
        invariant
            i <= v.len(),
            forall|j: int| 0 <= j < i ==> #[trigger] sviews(v@)[j] != sview(*x),
        decreases v.len() - i,
    {
        if v[i].eq_structural(x) {
            assert(sviews(v@)[i as int] == sview(*x));
            return true;
        }
        i += 1;
    }
    false
}

proof fn lemma_sviews_push(v: Seq<Formula>, x: Formula)
    ensures
        sviews(v.push(x)) == sviews(v).push(sview(x)),
{
    assert(sviews(v.push(x)) =~= sviews(v).push(sview(x)));
}

proof fn lemma_sview_junction(v: Vec<Formula>)
    ensures
        sview(Formula::And(v)) == FormulaM::And(sviews(v@)),
        sview(Formula::Or(v)) == FormulaM::Or(sviews(v@)),
{
    lemma_view_junction(v);
    lemma_strip_junction(fviews(v@));
    assert(Seq::new(fviews(v@).len(), |i: int| strip(fviews(v@)[i])) =~= sviews(v@));
}

fn append_clones(out: &mut Vec<Formula>, v: &Vec<Formula>)
    ensures
        sviews(final(out)@) == sviews(old(out)@) + sviews(v@),
{
    let ghost start = out@;
    let mut i: usize = 0;
    while i < v.len()
        invariant
            i <= v.len(),
            sviews(out@) == sviews(start) + sviews(v@).take(i as int),
        decreases v.len() - i,
    {
        let ghost before = out@;
        out.push(formula_clone(&v[i]));
        proof {
            lemma_sviews_push(before, v@[i as int]);
            assert(sviews(v@).take(i + 1) =~= sviews(v@).take(i as int).push(sviews(v@)[i as int]));
        }
        i += 1;
    }
    assert(sviews(v@).take(v@.len() as int) =~= sviews(v@));
}

/// Nested junctions of the same kind spliced in (see `flatten_junction`).
fn flatten_operands(c: &Vec<Formula>, conj: bool) -> (r: Vec<Formula>)
    ensures
        sviews(r@) == flatten_junction(sviews(c@), conj),
{
    let mut out: Vec<Formula> = Vec::new();
    let mut i: usize = 0;
    while i < c.len()
        invariant
            i <= c.len(),
            sviews(out@) == flatten_junction(sviews(c@).take(i as int), conj),
        decreases c.len() - i,
    {
        let ghost before = out@;
        let ghost t = sviews(c@).take(i + 1);
        proof {
            assert(t.drop_last() =~= sviews(c@).take(i as int));
            assert(t.last() == sview(c@[i as int]));
        }
        let x = &c[i];
        let spliced = match x {
            Formula::And(inner) => {
                if conj {
                    proof {
                        lemma_sview_junction(*inner);
                    }
                    append_clones(&mut out, inner);
                }
                conj
            },
            Formula::Or(inner) => {
                if !conj {
                    proof {
                        lemma_sview_junction(*inner);
                    }
                    append_clones(&mut out, inner);
                }
                !conj
            },
            _ => false,
        };
        if !spliced {
            out.push(formula_clone(x));
            proof {
                lemma_sviews_push(before, *x);
                assert(junction_piece(sview(*x), conj) == seq![sview(*x)]);
                assert(sviews(before).push(sview(*x)) =~= sviews(before) + seq![sview(*x)]);
            }
        }
        i += 1;
    }
    assert(sviews(c@).take(c@.len() as int) =~= sviews(c@));
    out
}

/// The first occurrence of each operand up to identifiers (see `dedup`).
fn dedup_operands(s: &Vec<Formula>) -> (r: Vec<Formula>)
    ensures
        sviews(r@) == dedup(sviews(s@)),
{
    let mut out: Vec<Formula> = Vec::new();
    let mut i: usize = 0;
    while i < s.len()
        invariant
            i <= s.len(),
            sviews(out@) == dedup(sviews(s@).take(i as int)),
        decreases s.len() - i,
    {
        let ghost before = out@;
        let ghost t = sviews(s@).take(i + 1);
        proof {
            assert(t.drop_last() =~= sviews(s@).take(i as int));
            assert(t.last() == sview(s@[i as int]));
        }
        if !structurally_in(&out, &s[i]) {
            out.push(formula_clone(&s[i]));
            proof {
                lemma_sviews_push(before, s@[i as int]);
            }
        }
        i += 1;
    }
    assert(sviews(s@).take(s@.len() as int) =~= sviews(s@));
    out
}

fn has_constant_operand(s: &Vec<Formula>, b: bool) -> (r: bool)
    ensures
        r == has_constant(sviews(s@), b),
{
    let mut i: usize = 0;
    while i < s.len()
        invariant
            i <= s.len(),
            forall|j: int| 0 <= j < i ==> !is_constant(#[trigger] sviews(s@)[j], b),
        decreases s.len() - i,
    {
        if is_constant_formula(&s[i], b) {
            assert(is_constant(sviews(s@)[i as int], b));
            return true;
        }
        i += 1;
    }
    false
}

/// The operands other than the constant `b` (see `without_constant`).
fn without_constant_operands(s: &Vec<Formula>, b: bool) -> (r: Vec<Formula>)
    ensures
        sviews(r@) == without_constant(sviews(s@), b),
{
    let mut out: Vec<Formula> = Vec::new();
    let mut i: usize = 0;
    while i < s.len()
        invariant
            i <= s.len(),
            sviews(out@) == without_constant(sviews(s@).take(i as int), b),
        decreases s.len() - i,
    {
        let ghost before = out@;
        let ghost t = sviews(s@).take(i + 1);
        proof {
            assert(t.drop_last() =~= sviews(s@).take(i as int));
            assert(t.last() == sview(s@[i as int]));
        }
        if !is_constant_formula(&s[i], b) {
            out.push(formula_clone(&s[i]));
            proof {
                lemma_sviews_push(before, s@[i as int]);
            }
        }
        i += 1;
    }
    assert(sviews(s@).take(s@.len() as int) =~= sviews(s@));
    out
}

fn has_complement_operand(w: &Vec<Formula>) -> (r: bool)
    ensures
        r == has_complement(sviews(w@)),
{
    let mut i: usize = 0;
    while i < w.len()
        invariant
            i <= w.len(),
            forall|j: int| 0 <= j < i ==> !complemented_in(#[trigger] sviews(w@)[j], sviews(w@)),
        decreases w.len() - i,
    {
        assert(sviews(w@)[i as int] == sview(w@[i as int]));
        match &w[i] {
            Formula::Not(inner) => {
                if structurally_in(w, inner) {
                    assert(complemented_in(sviews(w@)[i as int], sviews(w@)));
                    return true;
                }
            },
            _ => {},
        }
        i += 1;
    }
    false
}

fn shares_operand_with(ds: &Vec<Formula>, w: &Vec<Formula>) -> (r: bool)
    ensures
        r == shares_operand(sviews(ds@), sviews(w@)),
{
    let mut j: usize = 0;
    while j < ds.len()
        invariant
            j <= ds.len(),
            forall|k: int| 0 <= k < j ==> !sviews(w@).contains(#[trigger] sviews(ds@)[k]),
        decreases ds.len() - j,
    {
        if structurally_in(w, &ds[j]) {
            assert(sviews(w@).contains(sviews(ds@)[j as int]));
            return true;
        }
        j += 1;
    }
    false
}

fn is_absorbed(x: &Formula, w: &Vec<Formula>, conj: bool) -> (r: bool)
    ensures
        r == absorbed(sview(*x), sviews(w@), conj),
{
    match x {
        Formula::Or(ds) => {
            proof {
                lemma_sview_junction(*ds);
            }
            conj && shares_operand_with(ds, w)
        },
        Formula::And(cs) => {
            proof {
                lemma_sview_junction(*cs);
            }
            !conj && shares_operand_with(cs, w)
        },
        Formula::F { interval, phi, .. } => conj && interval.lower == 0 && structurally_in(w, phi),
        Formula::G { interval, phi, .. } => !conj && interval.lower == 0 && structurally_in(w, phi),
        _ => false,
    }
}

/// The operands not absorbed by the others (see `absorbed`).
fn unabsorbed_operands(w: &Vec<Formula>, conj: bool) -> (r: Vec<Formula>)
    ensures
        sviews(r@) == unabsorbed_prefix(sviews(w@), conj, w@.len() as int),
{
    let mut out: Vec<Formula> = Vec::new();
    let mut i: usize = 0;
    while i < w.len()
        invariant
            i <= w.len(),
            sviews(out@) == unabsorbed_prefix(sviews(w@), conj, i as int),
        decreases w.len() - i,
    {
        let ghost before = out@;
        assert(sviews(w@)[i as int] == sview(w@[i as int]));
        if !is_absorbed(&w[i], w, conj) {
            out.push(formula_clone(&w[i]));
            proof {
                lemma_sviews_push(before, w@[i as int]);
            }
        }
        i += 1;
    }
    out
}

// ---------------------------------------------------------------------------------------
// Merging `G` operators
// ---------------------------------------------------------------------------------------
/// `x` is `G` of `phi`, up to identifiers.
fn g_with_operand(x: &Formula, phi: &Formula) -> (r: bool)
    ensures
        r == (sview(*x) matches FormulaM::G { phi: p, .. } && *p == sview(*phi)),
{
    match x {
        Formula::G { phi: p, .. } => p.eq_structural(phi),
        _ => false,
    }
}

fn touching_intervals(a: Interval, b: Interval) -> (r: bool)
    ensures
        r == touching(a, b),
{
    a.intersects(&b) || (a.upper as i64) + 1 == (b.lower as i64) || (b.upper as i64) + 1 == (
    a.lower as i64)
}

pub open spec fn index_view(o: Option<usize>) -> Option<int> {
    match o {
        Some(k) => Some(k as int),
        None => None,
    }
}

/// The operands of a conjunction with its `G` operators merged (see `spec_merge_and`).
fn merge_and_operands(input: &Vec<Formula>) -> (r: Vec<Formula>)
    ensures
        sviews(r@) == spec_merge_and(sviews(input@)),
{
    let ghost s = sviews(input@);
    let n = input.len();
    let mut gs: Vec<(usize, Interval)> = Vec::new();
    let mut removed: Vec<bool> = Vec::new();
    let mut idx: usize = 0;
    while idx < n
        invariant
            s == sviews(input@),
            n == input@.len(),
            idx <= n,
            removed@.len() == idx,
            (groups_view(gs@), flag_set(removed@)) == and_merge_state(s, idx as int),
            forall|j: int|
                0 <= j < gs@.len() ==> (#[trigger] gs@[j]).0 < idx && s[gs@[j].0 as int] is G,
        decreases n - idx,
    {
        let f = &input[idx];
        assert(s[idx as int] == sview(*f));
        let ghost gs0 = gs@;
        let ghost rm0 = removed@;
        let mut flag = false;
        match f {
            Formula::G { interval, phi, .. } => {
                let ghost key: FormulaM = sview(**phi);
                let mut found: Option<usize> = None;
                let mut j: usize = 0;
                while j < gs.len()
                    invariant
                        s == sviews(input@),
                        idx < n == input@.len(),
                        forall|k: int|
                            0 <= k < gs@.len() ==> (#[trigger] gs@[k]).0 < idx && s[gs@[k].0 as int] is G,
                        j <= gs@.len(),
                        key == sview(**phi),
                        found matches Some(k) ==> k < j,
                        index_view(found) == find_operand_group(s, groups_view(gs@), key, j as int),
                    decreases gs@.len() - j,
                {
                    if found.is_none() {
                        let rep = &input[gs[j].0];
                        assert(s[gs@[j as int].0 as int] == sview(*rep));
                        if g_with_operand(rep, phi) {
                            found = Some(j);
                        }
                    }
                    j += 1;
                }
                assert(groups_view(gs@).len() == gs@.len());
                match found {
                    Some(k) => {
                        let cur = gs[k].1;
                        if touching_intervals(cur, *interval) {
                            let first = gs[k].0;
                            gs.set(k, (first, cur.union(interval)));
                            flag = true;
                            assert(groups_view(gs@) =~= groups_view(gs0).update(
                                k as int,
                                (first as int, spec_union(cur, *interval)),
                            ));
                        }
                    },
                    None => {
                        gs.push((idx, *interval));
                        assert(groups_view(gs@) =~= groups_view(gs0).push((idx as int, *interval)));
                    },
                }
            },
            _ => {},
        }
        removed.push(flag);
        assert(flag_set(removed@) =~= (if flag {
            flag_set(rm0).insert(idx as int)
        } else {
            flag_set(rm0)
        }));
        idx += 1;
    }
    let mut out: Vec<Formula> = Vec::new();
    let mut i: usize = 0;
    while i < n
        invariant
            s == sviews(input@),
            n == input@.len(),
            removed@.len() == n,
            i <= n,
            forall|j: int| 0 <= j < gs@.len() ==> (#[trigger] gs@[j]).0 < n && s[gs@[j].0 as int] is G,
            sviews(out@) == merged_prefix(s, groups_view(gs@), flag_set(removed@), i as int),
        decreases n - i,
    {
        assert(flag_set(removed@).contains(i as int) == removed@[i as int]);
        if !removed[i] {
            let mut g: Option<usize> = None;
            let mut j: usize = 0;
            while j < gs.len()
                invariant
                    j <= gs@.len(),
                    index_view(g) == group_of_first(groups_view(gs@), i as int, j as int),
                    g matches Some(k) ==> k < j && gs@[k as int].0 == i,
                    forall|k: int| 0 <= k < gs@.len() ==> (#[trigger] gs@[k]).0 < n,
                decreases gs@.len() - j,
            {
                if gs[j].0 == i {
                    g = Some(j);
                }
                j += 1;
            }
            assert(s[i as int] == sview(input@[i as int]));
            let ghost before = out@;
            let h = match g {
                Some(k) => {
                    assert(gs@[k as int].0 == i);
                    assert(s[i as int] is G);
                    assert(input@[i as int]@ is G);
                    input[i].with_interval(gs[k].1)
                },
                None => formula_clone(&input[i]),
            };
            out.push(h);
            proof {
                lemma_sviews_push(before, h);
            }
        }
        i += 1;
    }
    out
}

/// The operands of a disjunction with its `G` operators merged (see `spec_merge_or`).
fn merge_or_operands(input: &Vec<Formula>) -> (r: Vec<Formula>)
    ensures
        sviews(r@) == spec_merge_or(sviews(input@)),
{
    let ghost s = sviews(input@);
    let n = input.len();
    let mut removed: Vec<bool> = Vec::new();
    let mut z: usize = 0;
    while z < n
        invariant
            z <= n,
            removed@.len() == z,
            forall|k: int| 0 <= k < z ==> !(#[trigger] removed@[k]),
        decreases n - z,
    {
        removed.push(false);
        z += 1;
    }
    assert(flag_set(removed@) =~= Set::empty());
    let mut idx: usize = 0;
    while idx < n
        invariant
            s == sviews(input@),
            n == input@.len(),
            idx <= n,
            removed@.len() == n,
            flag_set(removed@) == or_removed(s, idx as int),
        decreases n - idx,
    {
        let f = &input[idx];
        assert(s[idx as int] == sview(*f));
        let ghost rm0 = removed@;
        match f {
            Formula::G { interval, phi, .. } => {
                let ghost key: FormulaM = sview(**phi);
                let mut found: Option<usize> = None;
                let mut j: usize = 0;
                while j < idx
                    invariant
                        s == sviews(input@),
                        idx < n == input@.len(),
                        j <= idx,
                        key == sview(**phi),
                        found matches Some(k) ==> k < j && s[k as int] is G,
                        index_view(found) == first_g_with(s, key, j as int),
                    decreases idx - j,
                {
                    if found.is_none() {
                        assert(s[j as int] == sview(input@[j as int]));
                        if g_with_operand(&input[j], phi) {
                            found = Some(j);
                        }
                    }
                    j += 1;
                }
                match found {
                    Some(j) => {
                        assert(s[j as int] == sview(input@[j as int]));
                        let prev = match &input[j] {
                            Formula::G { interval: iv, .. } => *iv,
                            _ => *interval,
                        };
                        assert(prev == s[j as int]->G_interval);
                        if interval.contains(&prev) {
                            removed.set(idx, true);
                            assert(flag_set(removed@) =~= flag_set(rm0).insert(idx as int));
                        } else if prev.contains(interval) {
                            removed.set(j, true);
                            assert(flag_set(removed@) =~= flag_set(rm0).insert(j as int));
                        }
                    },
                    None => {},
                }
            },
            _ => {},
        }
        idx += 1;
    }
    let mut out: Vec<Formula> = Vec::new();
    let mut i: usize = 0;
    while i < n
        invariant
            s == sviews(input@),
            n == input@.len(),
            removed@.len() == n,
            i <= n,
            sviews(out@) == kept_prefix(s, flag_set(removed@), i as int),
        decreases n - i,
    {
        assert(flag_set(removed@).contains(i as int) == removed@[i as int]);
        if !removed[i] {
            let ghost before = out@;
            assert(s[i as int] == sview(input@[i as int]));
            out.push(formula_clone(&input[i]));
            proof {
                lemma_sviews_push(before, input@[i as int]);
            }
        }
        i += 1;
    }
    out
}

// ---------------------------------------------------------------------------------------
// The simplifier
// ---------------------------------------------------------------------------------------
/// The simplification of a junction (`&&` for `conj`) whose operands `c` are already
/// simplified (see `simplify_junction`).
fn simplify_operands(c: &Vec<Formula>, conj: bool, ids: &mut IdGen) -> (r: Formula)
    ensures
        sview(r) == simplify_junction(sviews(c@), conj),
{
    let flat = flatten_operands(c, conj);
    let u = dedup_operands(&flat);
    if has_constant_operand(&u, !conj) {
        return constant_formula(!conj, ids);
    }
    let w = without_constant_operands(&u, conj);
    if has_complement_operand(&w) {
        return constant_formula(!conj, ids);
    }
    let red = unabsorbed_operands(&w, conj);
    let mut m = if conj {
        merge_and_operands(&red)
    } else {
        merge_or_operands(&red)
    };
    if m.len() == 0 {
        return constant_formula(conj, ids);
    }
    if m.len() == 1 {
        let ghost m0 = m@;
        let x = m.pop().unwrap();
        assert(sviews(m0)[0] == sview(x));
        return x;
    }
    proof {
        lemma_sview_junction(m);
    }
    if conj {
        Formula::And(m)
    } else {
        Formula::Or(m)
    }
}

fn negates_formula(x: &Formula, y: &Formula) -> (r: bool)
    ensures
        r == negates(sview(*x), sview(*y)),
{
    match x {
        Formula::Not(z) => z.eq_structural(y),
        _ => false,
    }
}

fn summed_interval(a: Interval, b: Interval) -> (r: Interval)
    ensures
        r == summed(a, b),
{
    Interval { lower: a.lower.wrapping_add(b.lower), upper: a.upper.wrapping_add(b.upper) }
}

/// Each operand simplified.
fn simplify_each(v: &Vec<Formula>, fuel: u64, ids: &mut IdGen) -> (r: Vec<Formula>)
    ensures
        sviews(r@) == simplify_all(sviews(v@), fuel as nat),
    decreases fuel, 2nat,
{
    let mut out: Vec<Formula> = Vec::new();
    let mut i: usize = 0;
    while i < v.len()
        invariant
            i <= v.len(),
            out@.len() == i,
            forall|j: int|
                0 <= j < i ==> sview(#[trigger] out@[j]) == spec_simplify(sviews(v@)[j], fuel as nat),
        decreases v.len() - i,
    {
        assert(sviews(v@)[i as int] == sview(v@[i as int]));
        let c = simplify_formula(&v[i], fuel, ids);
        out.push(c);
        i += 1;
    }
    assert(sviews(out@) =~= simplify_all(sviews(v@), fuel as nat));
    out
}

/// The simplification of `f` up to identifiers (see `spec_simplify`); the constants it
/// introduces take fresh identifiers from `ids`, the other propositions keep theirs.
pub fn simplify_formula(f: &Formula, fuel: u64, ids: &mut IdGen) -> (r: Formula)
    ensures
        sview(r) == spec_simplify(sview(*f), fuel as nat),
    decreases fuel, 1nat,
{
    if fuel == 0 {
        return formula_clone(f);
    }
    let k = fuel - 1;
    match f {
        Formula::And(v) => {
            let c = simplify_each(v, k, ids);
            proof {
                lemma_sview_junction(*v);
            }
            simplify_operands(&c, true, ids)
        },
        Formula::Or(v) => {
            let c = simplify_each(v, k, ids);
            proof {
                lemma_sview_junction(*v);
            }
            simplify_operands(&c, false, ids)
        },
        Formula::Imply { left, right, not_left } => {
            let l = simplify_formula(left, k, ids);
            let r = simplify_formula(right, k, ids);
            let n = simplify_formula(not_left, k, ids);
            Formula::Imply { left: Box::new(l), right: Box::new(r), not_left: Box::new(n) }
        },
        Formula::Not(b) => Formula::Not(Box::new(simplify_formula(b, k, ids))),
        Formula::O(b) => Formula::O(Box::new(simplify_formula(b, k, ids))),
        Formula::G { interval, parent_upper, phi } => {
            let np = simplify_formula(phi, k, ids);
            simplify_unary_formula(*interval, *parent_upper, np, true, k, ids)
        },
        Formula::F { interval, parent_upper, phi } => {
            let np = simplify_formula(phi, k, ids);
            simplify_unary_formula(*interval, *parent_upper, np, false, k, ids)
        },
        Formula::U { interval, parent_upper, left, right } => {
            let nl = simplify_formula(left, k, ids);
            let nr = simplify_formula(right, k, ids);
            simplify_until_formula(*interval, *parent_upper, nl, nr, k, ids)
        },
        Formula::R { interval, parent_upper, left, right } => {
            let nl = simplify_formula(left, k, ids);
            let nr = simplify_formula(right, k, ids);
            simplify_release_formula(*interval, *parent_upper, nl, nr, k, ids)
        },
        Formula::Prop(_) => formula_clone(f),
    }
}

fn simplify_unary_formula(
    interval: Interval,
    parent_upper: Option<i32>,
    np: Formula,
    globally: bool,
    fuel: u64,
    ids: &mut IdGen,
) -> (r: Formula)
    ensures
        sview(r) == simplify_unary(interval, parent_upper, sview(np), globally, fuel as nat),
    decreases fuel, 2nat,
{
    if is_constant_formula(&np, true) {
        return constant_formula(true, ids);
    }
    if is_constant_formula(&np, false) {
        return constant_formula(false, ids);
    }
    match &np {
        Formula::G { interval: ii, phi: ip, .. } => {
            if globally {
                let g = Formula::g(summed_interval(interval, *ii), parent_upper, formula_clone(ip));
                return simplify_formula(&g, fuel, ids);
            }
        },
        Formula::F { interval: ii, phi: ip, .. } => {
            if !globally {
                let g = Formula::f(summed_interval(interval, *ii), parent_upper, formula_clone(ip));
                return simplify_formula(&g, fuel, ids);
            }
        },
        _ => {},
    }
    if interval.lower == 0 && interval.upper == 0 {
        return np;
    }
    if interval.lower == interval.upper {
        let r = shift_forward(&np, interval.lower);
        proof {
            lemma_strip_shift_forward(np@, interval.lower);
        }
        return r;
    }
    if globally {
        Formula::g(interval, parent_upper, np)
    } else {
        Formula::f(interval, parent_upper, np)
    }
}

fn simplify_until_formula(
    interval: Interval,
    parent_upper: Option<i32>,
    nl: Formula,
    nr: Formula,
    fuel: u64,
    ids: &mut IdGen,
) -> (r: Formula)
    ensures
        sview(r) == simplify_until(interval, parent_upper, sview(nl), sview(nr), fuel as nat),
    decreases fuel, 2nat,
{
    if is_constant_formula(&nl, true) {
        let g = Formula::f(interval, parent_upper, nr);
        return simplify_formula(&g, fuel, ids);
    }
    if is_constant_formula(&nl, false) {
        let g = Formula::f(Interval { lower: interval.lower, upper: interval.lower }, parent_upper, nr);
        return simplify_formula(&g, fuel, ids);
    }
    if is_constant_formula(&nr, true) {
        return constant_formula(true, ids);
    }
    if is_constant_formula(&nr, false) {
        return constant_formula(false, ids);
    }
    if negates_formula(&nr, &nl) || negates_formula(&nl, &nr) {
        let g = Formula::f(interval, parent_upper, nr);
        return simplify_formula(&g, fuel, ids);
    }
    if interval.lower == 0 && interval.upper == 0 {
        return nr;
    }
    if interval.lower == interval.upper {
        let r = shift_forward(&nr, interval.lower);
        proof {
            lemma_strip_shift_forward(nr@, interval.lower);
        }
        return r;
    }
    Formula::u(interval, parent_upper, nl, nr)
}

fn simplify_release_formula(
    interval: Interval,
    parent_upper: Option<i32>,
    nl: Formula,
    nr: Formula,
    fuel: u64,
    ids: &mut IdGen,
) -> (r: Formula)
    ensures
        sview(r) == simplify_release(interval, parent_upper, sview(nl), sview(nr), fuel as nat),
    decreases fuel, 2nat,
{
    if is_constant_formula(&nr, true) {
        return constant_formula(true, ids);
    }
    if is_constant_formula(&nr, false) {
        return constant_formula(false, ids);
    }
    if is_constant_formula(&nl, true) {
        let g = Formula::f(Interval { lower: interval.lower, upper: interval.lower }, parent_upper, nr);
        return simplify_formula(&g, fuel, ids);
    }
    if is_constant_formula(&nl, false) {
        let g = Formula::g(interval, parent_upper, nr);
        return simplify_formula(&g, fuel, ids);
    }
    if negates_formula(&nl, &nr) || negates_formula(&nr, &nl) {
        let g = Formula::g(interval, parent_upper, nr);
        return simplify_formula(&g, fuel, ids);
    }
    Formula::r(interval, parent_upper, nl, nr)
}

/// The depth of recursion up to which `FormulaSimplifier` works, far beyond the nesting
/// of any formula that fits in memory.
pub const SIMPLIFY_DEPTH: u64 = 1000000;

/// Simplifies formulas algebraically (see `spec_simplify`).
pub struct FormulaSimplifier;

impl FormulaSimplifier {
    /// The simplification of `formula` up to identifiers; constants it introduces take
    /// fresh identifiers from `ids`.
    pub fn visit(&self, formula: &Formula, ids: &mut IdGen) -> (r: Formula)
        ensures
            sview(r) == spec_simplify(sview(*formula), SIMPLIFY_DEPTH as nat),
    {
        simplify_formula(formula, SIMPLIFY_DEPTH, ids)
    }
}

/// Each operand simplified as `FormulaSimplifier` does.
pub open spec fn map_simplify(s: Seq<FormulaM>) -> Seq<FormulaM> {
    Seq::new(s.len(), |i: int| spec_simplify(s[i], SIMPLIFY_DEPTH as nat))
}

impl Node {
    /// Simplifies every operand; up to identifiers the operands become their
    /// simplifications.
    pub fn simplify(&mut self, ids: &mut IdGen)
        ensures
            sviews(final(self).operands@) == map_simplify(sviews(old(self).operands@)),
            final(self).current_time == old(self).current_time,
            final(self).implies == old(self).implies,
            final(self).id == old(self).id,
    {
        let mut res: Vec<Formula> = Vec::new();
        let mut i: usize = 0;
        while i < self.operands.len()
            invariant
                i <= self.operands@.len(),
                res@.len() == i,
                forall|j: int|
                    0 <= j < i ==> sview(#[trigger] res@[j]) == spec_simplify(
                        sviews(self.operands@)[j],
                        SIMPLIFY_DEPTH as nat,
                    ),
            decreases self.operands@.len() - i,
        {
            assert(sviews(self.operands@)[i as int] == sview(self.operands@[i as int]));
            let g = FormulaSimplifier.visit(&self.operands[i], ids);
            res.push(g);
            i += 1;
        }
        assert(sviews(res@) =~= map_simplify(sviews(self.operands@)));
        self.operands = res;
    }
}

} // verus!
