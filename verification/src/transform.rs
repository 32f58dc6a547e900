use vstd::prelude::*;

use crate::formula::{
    fview, fviews, lemma_operand_decreases, lemma_view_junction, operands_of, spec_eq_structural,
    spec_is_flat, spec_is_nnf, all_nnf_m, strip, lemma_strip_junction, Expr, Formula, FormulaM, IdGen,
};
use crate::interval::Interval;

verus! {

// ---------------------------------------------------------------------------------------
// Negation normal form
// ---------------------------------------------------------------------------------------
/// Negation normal form: negations are pushed down to the propositions.
pub open spec fn spec_nnf(f: FormulaM) -> FormulaM
    decreases f,
{
    match f {
        FormulaM::Prop(_) => f,
        FormulaM::And(s) => FormulaM::And(Seq::new(s.len(), |i: int| nnf_at(s, i))),
        FormulaM::Or(s) => FormulaM::Or(Seq::new(s.len(), |i: int| nnf_at(s, i))),
        FormulaM::Imply { left, right, not_left } => FormulaM::Imply {
            left: Box::new(spec_nnf(*left)),
            right: Box::new(spec_nnf(*right)),
            not_left: Box::new(spec_nnf(*not_left)),
        },
        FormulaM::Not(b) => spec_nnf_neg(*b),
        FormulaM::G { interval, parent_upper, phi } => FormulaM::G {
            interval,
            parent_upper,
            phi: Box::new(spec_nnf(*phi)),
        },
        FormulaM::F { interval, parent_upper, phi } => FormulaM::F {
            interval,
            parent_upper,
            phi: Box::new(spec_nnf(*phi)),
        },
        FormulaM::U { interval, parent_upper, left, right } => FormulaM::U {
            interval,
            parent_upper,
            left: Box::new(spec_nnf(*left)),
            right: Box::new(spec_nnf(*right)),
        },
        FormulaM::R { interval, parent_upper, left, right } => FormulaM::R {
            interval,
            parent_upper,
            left: Box::new(spec_nnf(*left)),
            right: Box::new(spec_nnf(*right)),
        },
        FormulaM::O(b) => FormulaM::O(Box::new(spec_nnf(*b))),
    }
}

/// The negation normal form of the negation of `f`: the dual operator over negated operands.
/// A negated implication becomes the conjunction of its normalised premise and its negated
/// conclusion; a negated release becomes an until over the same interval, and a negated
/// until a release.
pub open spec fn spec_nnf_neg(f: FormulaM) -> FormulaM
    decreases f,
{
    match f {
        FormulaM::Prop(_) => FormulaM::Not(Box::new(f)),
        FormulaM::Not(b) => spec_nnf(*b),
        FormulaM::And(s) => FormulaM::Or(Seq::new(s.len(), |i: int| nnf_neg_at(s, i))),
        FormulaM::Or(s) => FormulaM::And(Seq::new(s.len(), |i: int| nnf_neg_at(s, i))),
        FormulaM::Imply { left, right, .. } => FormulaM::And(seq![spec_nnf(*left), spec_nnf_neg(*right)]),
        FormulaM::G { interval, parent_upper, phi } => FormulaM::F {
            interval,
            parent_upper,
            phi: Box::new(spec_nnf_neg(*phi)),
        },
        FormulaM::F { interval, parent_upper, phi } => FormulaM::G {
            interval,
            parent_upper,
            phi: Box::new(spec_nnf_neg(*phi)),
        },
        FormulaM::U { interval, parent_upper, left, right } => FormulaM::R {
            interval,
            parent_upper,
            left: Box::new(spec_nnf_neg(*left)),
            right: Box::new(spec_nnf_neg(*right)),
        },
        FormulaM::R { interval, parent_upper, left, right } => FormulaM::U {
            interval,
            parent_upper,
            left: Box::new(spec_nnf_neg(*left)),
            right: Box::new(spec_nnf_neg(*right)),
        },
        FormulaM::O(b) => FormulaM::O(Box::new(spec_nnf_neg(*b))),
    }
}

pub open spec fn nnf_at(s: Seq<FormulaM>, i: int) -> FormulaM
    decreases s,
{
    if 0 <= i < s.len() {
        spec_nnf(s[i])
    } else {
        FormulaM::And(Seq::empty())
    }
}

pub open spec fn nnf_neg_at(s: Seq<FormulaM>, i: int) -> FormulaM
    decreases s,
{
    if 0 <= i < s.len() {
        spec_nnf_neg(s[i])
    } else {
        FormulaM::And(Seq::empty())
    }
}

pub open spec fn nnf_seq(s: Seq<FormulaM>) -> Seq<FormulaM> {
    Seq::new(s.len(), |i: int| spec_nnf(s[i]))
}

pub open spec fn nnf_neg_seq(s: Seq<FormulaM>) -> Seq<FormulaM> {
    Seq::new(s.len(), |i: int| spec_nnf_neg(s[i]))
}

pub proof fn lemma_nnf_junction(s: Seq<FormulaM>)
    ensures
        spec_nnf(FormulaM::And(s)) == FormulaM::And(nnf_seq(s)),
        spec_nnf(FormulaM::Or(s)) == FormulaM::Or(nnf_seq(s)),
        spec_nnf_neg(FormulaM::And(s)) == FormulaM::Or(nnf_neg_seq(s)),
        spec_nnf_neg(FormulaM::Or(s)) == FormulaM::And(nnf_neg_seq(s)),
{
    let a = spec_nnf(FormulaM::And(s))->And_0;
    assert forall|i: int| 0 <= i < s.len() implies a[i] == nnf_seq(s)[i] by {
        assert(a[i] == nnf_at(s, i));
    }
    assert(a =~= nnf_seq(s));
    let o = spec_nnf(FormulaM::Or(s))->Or_0;
    assert forall|i: int| 0 <= i < s.len() implies o[i] == nnf_seq(s)[i] by {
        assert(o[i] == nnf_at(s, i));
    }
    assert(o =~= nnf_seq(s));
    let na = spec_nnf_neg(FormulaM::And(s))->Or_0;
    assert forall|i: int| 0 <= i < s.len() implies na[i] == nnf_neg_seq(s)[i] by {
        assert(na[i] == nnf_neg_at(s, i));
    }
    assert(na =~= nnf_neg_seq(s));
    let no = spec_nnf_neg(FormulaM::Or(s))->And_0;
    assert forall|i: int| 0 <= i < s.len() implies no[i] == nnf_neg_seq(s)[i] by {
        assert(no[i] == nnf_neg_at(s, i));
    }
    assert(no =~= nnf_neg_seq(s));
}

/// The negation normal form of `f`.
pub fn nnf(f: &Formula) -> (r: Formula)
    ensures
        r@ == spec_nnf(f@),
        spec_is_nnf(r@),
    decreases f, 1nat,
{
    proof {
        lemma_nnf_is_nnf(f@);
    }
    match f {
        Formula::Prop(e) => Formula::Prop(e.clone()),
        Formula::And(v) => {
            let out = nnf_operands(f, v, false);
            proof {
                lemma_view_junction(*v);
                lemma_view_junction(out);
                lemma_nnf_junction(fviews(v@));
                assert(fviews(out@) =~= nnf_seq(fviews(v@)));
            }
            Formula::And(out)
        },
        Formula::Or(v) => {
            let out = nnf_operands(f, v, false);
            proof {
                lemma_view_junction(*v);
                lemma_view_junction(out);
                lemma_nnf_junction(fviews(v@));
                assert(fviews(out@) =~= nnf_seq(fviews(v@)));
            }
            Formula::Or(out)
        },
        Formula::Imply { left, right, not_left } => Formula::Imply {
            left: Box::new(nnf(left)),
            right: Box::new(nnf(right)),
            not_left: Box::new(nnf(not_left)),
        },
        Formula::Not(b) => nnf_neg(b),
        Formula::G { interval, parent_upper, phi } => Formula::G {
            interval: *interval,
            parent_upper: *parent_upper,
            phi: Box::new(nnf(phi)),
        },
        Formula::F { interval, parent_upper, phi } => Formula::F {
            interval: *interval,
            parent_upper: *parent_upper,
            phi: Box::new(nnf(phi)),
        },
        Formula::U { interval, parent_upper, left, right } => Formula::U {
            interval: *interval,
            parent_upper: *parent_upper,
            left: Box::new(nnf(left)),
            right: Box::new(nnf(right)),
        },
        Formula::R { interval, parent_upper, left, right } => Formula::R {
            interval: *interval,
            parent_upper: *parent_upper,
            left: Box::new(nnf(left)),
            right: Box::new(nnf(right)),
        },
        Formula::O(b) => Formula::O(Box::new(nnf(b))),
    }
}

/// The negation normal form of the negation of `f`.
pub fn nnf_neg(f: &Formula) -> (r: Formula)
    ensures
        r@ == spec_nnf_neg(f@),
        spec_is_nnf(r@),
    decreases f, 1nat,
{
    proof {
        lemma_nnf_is_nnf(f@);
    }
    match f {
        Formula::Prop(e) => {
            let p = Formula::Prop(e.clone());
            assert(p@ == FormulaM::Prop(e@));
            let r = Formula::Not(Box::new(p));
            assert(r@ == spec_nnf_neg(f@));
            r
        },
        Formula::Not(b) => {
            let r = nnf(b);
            assert(r@ == spec_nnf_neg(f@));
            r
        },
        Formula::And(v) => {
            let out = nnf_operands(f, v, true);
            proof {
                lemma_view_junction(*v);
                lemma_view_junction(out);
                lemma_nnf_junction(fviews(v@));
                assert(fviews(out@) =~= nnf_neg_seq(fviews(v@)));
            }
            Formula::Or(out)
        },
        Formula::Or(v) => {
            let out = nnf_operands(f, v, true);
            proof {
                lemma_view_junction(*v);
                lemma_view_junction(out);
                lemma_nnf_junction(fviews(v@));
                assert(fviews(out@) =~= nnf_neg_seq(fviews(v@)));
            }
            Formula::And(out)
        },
        Formula::Imply { left, right, .. } => {
            let l = nnf(left);
            let r = nnf_neg(right);
            let mut out: Vec<Formula> = Vec::new();
            out.push(l);
            out.push(r);
            proof {
                lemma_view_junction(out);
                assert(fviews(out@) =~= seq![spec_nnf(fview(**left)), spec_nnf_neg(fview(**right))]);
            }
            let res = Formula::And(out);
            assert(res@ == FormulaM::And(seq![spec_nnf(fview(**left)), spec_nnf_neg(fview(**right))]));
            assert(f@ == (FormulaM::Imply { left: Box::new(fview(**left)), right: Box::new(fview(**right)), not_left: Box::new(fview(*f->not_left)) }));
            res
        },
        Formula::G { interval, parent_upper, phi } => Formula::F {
            interval: *interval,
            parent_upper: *parent_upper,
            phi: Box::new(nnf_neg(phi)),
        },
        Formula::F { interval, parent_upper, phi } => Formula::G {
            interval: *interval,
            parent_upper: *parent_upper,
            phi: Box::new(nnf_neg(phi)),
        },
        Formula::U { interval, parent_upper, left, right } => Formula::R {
            interval: *interval,
            parent_upper: *parent_upper,
            left: Box::new(nnf_neg(left)),
            right: Box::new(nnf_neg(right)),
        },
        Formula::R { interval, parent_upper, left, right } => Formula::U {
            interval: *interval,
            parent_upper: *parent_upper,
            left: Box::new(nnf_neg(left)),
            right: Box::new(nnf_neg(right)),
        },
        Formula::O(b) => Formula::O(Box::new(nnf_neg(b))),
    }
}

fn nnf_operands(f: &Formula, v: &Vec<Formula>, neg: bool) -> (r: Vec<Formula>)
    requires
        operands_of(*f, *v),
    ensures
        fviews(r@) == (if neg {
            nnf_neg_seq(fviews(v@))
        } else {
            nnf_seq(fviews(v@))
        }),
    decreases f, 0nat,
{
    let mut out: Vec<Formula> = Vec::new();
    let mut i: usize = 0;
    while i < v.len()
        invariant
            operands_of(*f, *v),
            i <= v.len(),
            out@.len() == i,
            forall|j: int|
                0 <= j < i ==> (#[trigger] out@[j])@ == (if neg {
                    spec_nnf_neg(v@[j]@)
                } else {
                    spec_nnf(v@[j]@)
                }),
        decreases v.len() - i,
    {
        proof {
            lemma_operand_decreases(*f, *v, i as int);
        }
        let c = if neg {
            nnf_neg(&v[i])
        } else {
            nnf(&v[i])
        };
        out.push(c);
        i += 1;
    }
    if neg {
        assert(fviews(out@) =~= nnf_neg_seq(fviews(v@)));
    } else {
        assert(fviews(out@) =~= nnf_seq(fviews(v@)));
    }
    out
}

/// Normal forms do not look at the identifiers of propositions: stripping them before or
/// after makes no difference.
pub proof fn lemma_strip_nnf(f: FormulaM)
    ensures
        strip(spec_nnf(f)) == spec_nnf(strip(f)),
        strip(spec_nnf_neg(f)) == spec_nnf_neg(strip(f)),
    decreases f,
{
    match f {
        FormulaM::And(s) | FormulaM::Or(s) => {
            let t = Seq::new(s.len(), |i: int| strip(s[i]));
            assert forall|i: int| 0 <= i < s.len() implies strip(spec_nnf(s[i])) == spec_nnf(
                #[trigger] t[i],
            ) && strip(spec_nnf_neg(s[i])) == spec_nnf_neg(t[i]) by {
                lemma_strip_nnf(s[i]);
            }
            lemma_nnf_junction(s);
            lemma_nnf_junction(t);
            lemma_strip_junction(s);
            lemma_strip_junction(nnf_seq(s));
            lemma_strip_junction(nnf_neg_seq(s));
            assert(Seq::new(nnf_seq(s).len(), |i: int| strip(nnf_seq(s)[i])) =~= nnf_seq(t));
            assert(Seq::new(nnf_neg_seq(s).len(), |i: int| strip(nnf_neg_seq(s)[i])) =~= nnf_neg_seq(t));
        },
        FormulaM::Imply { left, right, not_left } => {
            lemma_strip_nnf(*left);
            lemma_strip_nnf(*right);
            lemma_strip_nnf(*not_left);
            lemma_strip_junction(seq![spec_nnf(*left), spec_nnf_neg(*right)]);
            assert(Seq::new(2, |i: int| strip(seq![spec_nnf(*left), spec_nnf_neg(*right)][i])) =~= seq![
                spec_nnf(strip(*left)),
                spec_nnf_neg(strip(*right)),
            ]);
        },
        FormulaM::Not(b) => {
            lemma_strip_nnf(*b);
        },
        FormulaM::G { phi, .. } | FormulaM::F { phi, .. } => {
            lemma_strip_nnf(*phi);
        },
        FormulaM::U { left, right, .. } | FormulaM::R { left, right, .. } => {
            lemma_strip_nnf(*left);
            lemma_strip_nnf(*right);
        },
        FormulaM::O(b) => {
            lemma_strip_nnf(*b);
        },
        FormulaM::Prop(_) => {},
    }
}

pub proof fn lemma_all_nnf(s: Seq<FormulaM>, n: int)
    requires
        0 <= n <= s.len(),
        forall|i: int| 0 <= i < n ==> spec_is_nnf(#[trigger] s[i]),
    ensures
        all_nnf_m(s, n),
    decreases n,
{
    if n > 0 {
        lemma_all_nnf(s, n - 1);
    }
}

/// The rewriting into negation normal form leaves negation on propositions only.
pub proof fn lemma_nnf_is_nnf(f: FormulaM)
    ensures
        spec_is_nnf(spec_nnf(f)),
        spec_is_nnf(spec_nnf_neg(f)),
    decreases f,
{
    match f {
        FormulaM::And(s) => {
            lemma_nnf_junction(s);
            assert forall|i: int| 0 <= i < s.len() implies spec_is_nnf(#[trigger] nnf_seq(s)[i])
                && spec_is_nnf(nnf_neg_seq(s)[i]) by {
                lemma_nnf_is_nnf(s[i]);
            }
            lemma_all_nnf(nnf_seq(s), s.len() as int);
            assert forall|i: int| 0 <= i < s.len() implies spec_is_nnf(
                #[trigger] nnf_neg_seq(s)[i],
            ) by {
                lemma_nnf_is_nnf(s[i]);
            }
            lemma_all_nnf(nnf_neg_seq(s), s.len() as int);
        },
        FormulaM::Or(s) => {
            lemma_nnf_junction(s);
            assert forall|i: int| 0 <= i < s.len() implies spec_is_nnf(#[trigger] nnf_seq(s)[i])
                && spec_is_nnf(nnf_neg_seq(s)[i]) by {
                lemma_nnf_is_nnf(s[i]);
            }
            lemma_all_nnf(nnf_seq(s), s.len() as int);
            assert forall|i: int| 0 <= i < s.len() implies spec_is_nnf(
                #[trigger] nnf_neg_seq(s)[i],
            ) by {
                lemma_nnf_is_nnf(s[i]);
            }
            lemma_all_nnf(nnf_neg_seq(s), s.len() as int);
        },
        FormulaM::Imply { left, right, not_left } => {
            lemma_nnf_is_nnf(*left);
            lemma_nnf_is_nnf(*right);
            lemma_nnf_is_nnf(*not_left);
            let t = seq![spec_nnf(*left), spec_nnf_neg(*right)];
            assert forall|i: int| 0 <= i < t.len() implies spec_is_nnf(#[trigger] t[i]) by {}
            lemma_all_nnf(t, 2);
        },
        FormulaM::Not(b) => {
            lemma_nnf_is_nnf(*b);
        },
        FormulaM::G { phi, .. } => {
            lemma_nnf_is_nnf(*phi);
        },
        FormulaM::F { phi, .. } => {
            lemma_nnf_is_nnf(*phi);
        },
        FormulaM::U { left, right, .. } => {
            lemma_nnf_is_nnf(*left);
            lemma_nnf_is_nnf(*right);
        },
        FormulaM::R { left, right, .. } => {
            lemma_nnf_is_nnf(*left);
            lemma_nnf_is_nnf(*right);
        },
        FormulaM::O(b) => {
            lemma_nnf_is_nnf(*b);
        },
        FormulaM::Prop(_) => {},
    }
}

/// Rewrites a formula into negation normal form.
pub struct NegationNormalFormTransformer;

impl NegationNormalFormTransformer {
    pub fn visit(&self, formula: &Formula) -> (r: Formula)
        ensures
            r@ == spec_nnf(formula@),
            spec_is_nnf(r@),
    {
        proof {
            lemma_nnf_is_nnf(formula@);
        }
        nnf(formula)
    }
}


// ---------------------------------------------------------------------------------------
// Flattening
// ---------------------------------------------------------------------------------------
/// The first `n` formulas of `t`, each conjunction among them replaced by its operands.
pub open spec fn splice_and(t: Seq<FormulaM>, n: int) -> Seq<FormulaM>
    decreases n,
{
    if n <= 0 || n > t.len() {
        Seq::empty()
    } else {
        splice_and(t, n - 1) + (match t[n - 1] {
            FormulaM::And(inner) => inner,
            x => seq![x],
        })
    }
}

/// The first `n` formulas of `t`, each disjunction among them replaced by its operands.
pub open spec fn splice_or(t: Seq<FormulaM>, n: int) -> Seq<FormulaM>
    decreases n,
{
    if n <= 0 || n > t.len() {
        Seq::empty()
    } else {
        splice_or(t, n - 1) + (match t[n - 1] {
            FormulaM::Or(inner) => inner,
            x => seq![x],
        })
    }
}

/// Nested conjunctions (disjunctions) directly under a conjunction (disjunction) are merged
/// into it, after flattening the operands.
pub open spec fn spec_flat(f: FormulaM) -> FormulaM
    decreases f, 0int,
{
    match f {
        FormulaM::Prop(_) => f,
        FormulaM::And(s) => FormulaM::And(splice_and(flat_each(s), s.len() as int)),
        FormulaM::Or(s) => FormulaM::Or(splice_or(flat_each(s), s.len() as int)),
        FormulaM::Imply { left, right, not_left } => FormulaM::Imply {
            left: Box::new(spec_flat(*left)),
            right: Box::new(spec_flat(*right)),
            not_left: Box::new(spec_flat(*not_left)),
        },
        FormulaM::Not(b) => FormulaM::Not(Box::new(spec_flat(*b))),
        FormulaM::G { interval, parent_upper, phi } => FormulaM::G {
            interval,
            parent_upper,
            phi: Box::new(spec_flat(*phi)),
        },
        FormulaM::F { interval, parent_upper, phi } => FormulaM::F {
            interval,
            parent_upper,
            phi: Box::new(spec_flat(*phi)),
        },
        FormulaM::U { interval, parent_upper, left, right } => FormulaM::U {
            interval,
            parent_upper,
            left: Box::new(spec_flat(*left)),
            right: Box::new(spec_flat(*right)),
        },
        FormulaM::R { interval, parent_upper, left, right } => FormulaM::R {
            interval,
            parent_upper,
            left: Box::new(spec_flat(*left)),
            right: Box::new(spec_flat(*right)),
        },
        FormulaM::O(b) => FormulaM::O(Box::new(spec_flat(*b))),
    }
}

pub open spec fn flat_each(s: Seq<FormulaM>) -> Seq<FormulaM>
    decreases s, 1int,
{
    Seq::new(s.len(), |i: int| flat_at(s, i))
}

pub open spec fn flat_at(s: Seq<FormulaM>, i: int) -> FormulaM
    decreases s, 0int,
{
    if 0 <= i < s.len() {
        spec_flat(s[i])
    } else {
        FormulaM::And(Seq::empty())
    }
}

pub open spec fn flat_seq(s: Seq<FormulaM>) -> Seq<FormulaM> {
    Seq::new(s.len(), |i: int| spec_flat(s[i]))
}

pub proof fn lemma_flat_junction(s: Seq<FormulaM>)
    ensures
        spec_flat(FormulaM::And(s)) == FormulaM::And(splice_and(flat_seq(s), s.len() as int)),
        spec_flat(FormulaM::Or(s)) == FormulaM::Or(splice_or(flat_seq(s), s.len() as int)),
{
    let t = flat_each(s);
    assert forall|i: int| 0 <= i < s.len() implies t[i] == flat_seq(s)[i] by {
        assert(t[i] == flat_at(s, i));
    }
    assert(t =~= flat_seq(s));
}

pub proof fn lemma_fviews_concat(a: Seq<Formula>, b: Seq<Formula>)
    ensures
        fviews(a + b) == fviews(a) + fviews(b),
{
    assert(fviews(a + b) =~= fviews(a) + fviews(b));
}

/// The flattened formula.
pub fn flat(f: &Formula) -> (r: Formula)
    ensures
        r@ == spec_flat(f@),
    decreases f, 1nat,
{
    match f {
        Formula::Prop(e) => Formula::Prop(e.clone()),
        Formula::And(v) => {
            let out = flat_operands(f, v, true);
            proof {
                lemma_view_junction(*v);
                lemma_view_junction(out);
                lemma_flat_junction(fviews(v@));
            }
            Formula::And(out)
        },
        Formula::Or(v) => {
            let out = flat_operands(f, v, false);
            proof {
                lemma_view_junction(*v);
                lemma_view_junction(out);
                lemma_flat_junction(fviews(v@));
            }
            Formula::Or(out)
        },
        Formula::Imply { left, right, not_left } => Formula::Imply {
            left: Box::new(flat(left)),
            right: Box::new(flat(right)),
            not_left: Box::new(flat(not_left)),
        },
        Formula::Not(b) => Formula::Not(Box::new(flat(b))),
        Formula::G { interval, parent_upper, phi } => Formula::G {
            interval: *interval,
            parent_upper: *parent_upper,
            phi: Box::new(flat(phi)),
        },
        Formula::F { interval, parent_upper, phi } => Formula::F {
            interval: *interval,
            parent_upper: *parent_upper,
            phi: Box::new(flat(phi)),
        },
        Formula::U { interval, parent_upper, left, right } => Formula::U {
            interval: *interval,
            parent_upper: *parent_upper,
            left: Box::new(flat(left)),
            right: Box::new(flat(right)),
        },
        Formula::R { interval, parent_upper, left, right } => Formula::R {
            interval: *interval,
            parent_upper: *parent_upper,
            left: Box::new(flat(left)),
            right: Box::new(flat(right)),
        },
        Formula::O(b) => Formula::O(Box::new(flat(b))),
    }
}

fn flat_operands(f: &Formula, v: &Vec<Formula>, conj: bool) -> (r: Vec<Formula>)
    requires
        operands_of(*f, *v),
    ensures
        fviews(r@) == (if conj {
            splice_and(flat_seq(fviews(v@)), v@.len() as int)
        } else {
            splice_or(flat_seq(fviews(v@)), v@.len() as int)
        }),
    decreases f, 0nat,
{
    let ghost t = flat_seq(fviews(v@));
    let mut out: Vec<Formula> = Vec::new();
    let mut i: usize = 0;
    while i < v.len()
        invariant
            operands_of(*f, *v),
            i <= v.len(),
            t == flat_seq(fviews(v@)),
            fviews(out@) == (if conj {
                splice_and(t, i as int)
            } else {
                splice_or(t, i as int)
            }),
        decreases v.len() - i,
    {
        proof {
            lemma_operand_decreases(*f, *v, i as int);
        }
        let fo = flat(&v[i]);
        assert(fo@ == t[i as int]);
        if conj {
            match fo {
                Formula::And(mut inner) => {
                    proof {
                        lemma_view_junction(inner);
                        lemma_fviews_concat(out@, inner@);
                    }
                    out.append(&mut inner);
                },
                other => {
                    proof {
                        lemma_fviews_concat(out@, seq![other]);
                        assert(fviews(seq![other]) =~= seq![other@]);
                    }
                    out.push(other);
                },
            }
        } else {
            match fo {
                Formula::Or(mut inner) => {
                    proof {
                        lemma_view_junction(inner);
                        lemma_fviews_concat(out@, inner@);
                    }
                    out.append(&mut inner);
                },
                other => {
                    proof {
                        lemma_fviews_concat(out@, seq![other]);
                        assert(fviews(seq![other]) =~= seq![other@]);
                    }
                    out.push(other);
                },
            }
        }
        i += 1;
    }
    out
}

pub proof fn lemma_splice_and_flat(t: Seq<FormulaM>, n: int)
    requires
        0 <= n <= t.len(),
        forall|j: int| 0 <= j < n ==> spec_is_flat(#[trigger] t[j]),
    ensures
        forall|k: int|
            0 <= k < splice_and(t, n).len() ==> !(#[trigger] splice_and(t, n)[k] is And),
    decreases n,
{
    if n > 0 {
        lemma_splice_and_flat(t, n - 1);
        let prev = splice_and(t, n - 1);
        assert(spec_is_flat(t[n - 1]));
        assert forall|k: int|
            0 <= k < splice_and(t, n).len() implies !(#[trigger] splice_and(t, n)[k] is And) by {
            if k >= prev.len() {
                match t[n - 1] {
                    FormulaM::And(inner) => {
                        assert(splice_and(t, n)[k] == inner[k - prev.len()]);
                    },
                    x => {
                        assert(splice_and(t, n)[k] == x);
                    },
                }
            } else {
                assert(splice_and(t, n)[k] == prev[k]);
            }
        }
    }
}

pub proof fn lemma_splice_or_flat(t: Seq<FormulaM>, n: int)
    requires
        0 <= n <= t.len(),
        forall|j: int| 0 <= j < n ==> spec_is_flat(#[trigger] t[j]),
    ensures
        forall|k: int|
            0 <= k < splice_or(t, n).len() ==> !(#[trigger] splice_or(t, n)[k] is Or),
    decreases n,
{
    if n > 0 {
        lemma_splice_or_flat(t, n - 1);
        let prev = splice_or(t, n - 1);
        assert(spec_is_flat(t[n - 1]));
        assert forall|k: int|
            0 <= k < splice_or(t, n).len() implies !(#[trigger] splice_or(t, n)[k] is Or) by {
            if k >= prev.len() {
                match t[n - 1] {
                    FormulaM::Or(inner) => {
                        assert(splice_or(t, n)[k] == inner[k - prev.len()]);
                    },
                    x => {
                        assert(splice_or(t, n)[k] == x);
                    },
                }
            } else {
                assert(splice_or(t, n)[k] == prev[k]);
            }
        }
    }
}

/// Flattening leaves no conjunction directly under a conjunction and no disjunction
/// directly under a disjunction, anywhere the flatness check looks.
pub proof fn lemma_flat_is_flat(f: FormulaM)
    ensures
        spec_is_flat(spec_flat(f)),
    decreases f,
{
    match f {
        FormulaM::And(s) => {
            lemma_flat_junction(s);
            assert forall|j: int| 0 <= j < s.len() implies spec_is_flat(
                #[trigger] flat_seq(s)[j],
            ) by {
                lemma_flat_is_flat(s[j]);
            }
            lemma_splice_and_flat(flat_seq(s), s.len() as int);
        },
        FormulaM::Or(s) => {
            lemma_flat_junction(s);
            assert forall|j: int| 0 <= j < s.len() implies spec_is_flat(
                #[trigger] flat_seq(s)[j],
            ) by {
                lemma_flat_is_flat(s[j]);
            }
            lemma_splice_or_flat(flat_seq(s), s.len() as int);
        },
        FormulaM::Imply { left, right, not_left } => {
            lemma_flat_is_flat(*left);
            lemma_flat_is_flat(*right);
            lemma_flat_is_flat(*not_left);
        },
        FormulaM::Not(b) => {
            lemma_flat_is_flat(*b);
        },
        FormulaM::G { phi, .. } => {
            lemma_flat_is_flat(*phi);
        },
        FormulaM::F { phi, .. } => {
            lemma_flat_is_flat(*phi);
        },
        FormulaM::U { left, right, .. } => {
            lemma_flat_is_flat(*left);
            lemma_flat_is_flat(*right);
        },
        FormulaM::R { left, right, .. } => {
            lemma_flat_is_flat(*left);
            lemma_flat_is_flat(*right);
        },
        FormulaM::O(b) => {
            lemma_flat_is_flat(*b);
        },
        FormulaM::Prop(_) => {},
    }
}

/// Merges nested conjunctions and disjunctions.
pub struct FlatTransformer;

impl FlatTransformer {
    pub fn visit(&self, formula: &Formula) -> (r: Formula)
        ensures
            r@ == spec_flat(formula@),
    {
        flat(formula)
    }
}


// ---------------------------------------------------------------------------------------
// Until and release in the discrete (MLTL) reading
// ---------------------------------------------------------------------------------------
/// Every `a U[l,u] b` becomes `G[0,l] a && a U[l,u] b` and every `a R[l,u] b` becomes
/// `F[0,l] a || a R[l,u] b`, throughout the formula.
pub open spec fn spec_mltl(f: FormulaM) -> FormulaM
    decreases f, 0int,
{
    match f {
        FormulaM::Prop(_) => f,
        FormulaM::And(s) => FormulaM::And(mltl_each(s)),
        FormulaM::Or(s) => FormulaM::Or(mltl_each(s)),
        FormulaM::Imply { left, right, not_left } => FormulaM::Imply {
            left: Box::new(spec_mltl(*left)),
            right: Box::new(spec_mltl(*right)),
            not_left: Box::new(spec_mltl(*not_left)),
        },
        FormulaM::Not(b) => FormulaM::Not(Box::new(spec_mltl(*b))),
        FormulaM::G { interval, parent_upper, phi } => FormulaM::G {
            interval,
            parent_upper,
            phi: Box::new(spec_mltl(*phi)),
        },
        FormulaM::F { interval, parent_upper, phi } => FormulaM::F {
            interval,
            parent_upper,
            phi: Box::new(spec_mltl(*phi)),
        },
        FormulaM::U { interval, parent_upper, left, right } => FormulaM::And(
            seq![
                FormulaM::G {
                    interval: Interval { lower: 0, upper: interval.lower },
                    parent_upper: None,
                    phi: Box::new(spec_mltl(*left)),
                },
                FormulaM::U {
                    interval,
                    parent_upper,
                    left: Box::new(spec_mltl(*left)),
                    right: Box::new(spec_mltl(*right)),
                },
            ],
        ),
        FormulaM::R { interval, parent_upper, left, right } => FormulaM::Or(
            seq![
                FormulaM::F {
                    interval: Interval { lower: 0, upper: interval.lower },
                    parent_upper: None,
                    phi: Box::new(spec_mltl(*left)),
                },
                FormulaM::R {
                    interval,
                    parent_upper,
                    left: Box::new(spec_mltl(*left)),
                    right: Box::new(spec_mltl(*right)),
                },
            ],
        ),
        FormulaM::O(b) => FormulaM::O(Box::new(spec_mltl(*b))),
    }
}

pub open spec fn mltl_each(s: Seq<FormulaM>) -> Seq<FormulaM>
    decreases s, 1int,
{
    Seq::new(s.len(), |i: int| mltl_at(s, i))
}

pub open spec fn mltl_at(s: Seq<FormulaM>, i: int) -> FormulaM
    decreases s, 0int,
{
    if 0 <= i < s.len() {
        spec_mltl(s[i])
    } else {
        FormulaM::And(Seq::empty())
    }
}

pub proof fn lemma_mltl_each(s: Seq<FormulaM>)
    ensures
        mltl_each(s) == Seq::new(s.len(), |i: int| spec_mltl(s[i])),
{
    let t = mltl_each(s);
    assert forall|i: int| 0 <= i < s.len() implies t[i] == spec_mltl(s[i]) by {
        assert(t[i] == mltl_at(s, i));
    }
    assert(t =~= Seq::new(s.len(), |i: int| spec_mltl(s[i])));
}

proof fn lemma_mltl_nnf_seq(s: Seq<FormulaM>)
    requires
        forall|i: int|
            0 <= i < s.len() ==> spec_mltl(spec_nnf(#[trigger] s[i])) == spec_nnf(spec_mltl(s[i]))
                && spec_mltl(spec_nnf_neg(s[i])) == spec_nnf_neg(spec_mltl(s[i])),
    ensures
        mltl_each(nnf_seq(s)) == nnf_seq(mltl_each(s)),
        mltl_each(nnf_neg_seq(s)) == nnf_neg_seq(mltl_each(s)),
{
    lemma_mltl_each(s);
    lemma_mltl_each(nnf_seq(s));
    lemma_mltl_each(nnf_neg_seq(s));
    assert(mltl_each(nnf_seq(s)) =~= nnf_seq(mltl_each(s)));
    assert(mltl_each(nnf_neg_seq(s)) =~= nnf_neg_seq(mltl_each(s)));
}

/// The discrete rewriting of until and release commutes with negation normal forms: the
/// rewriting of the normal form of `f` is the normal form of the rewriting of `f`, and
/// rewriting the normal form of `!f` gives the normal form of `!` applied to the rewriting
/// of `f`. Since `a U[l,u] b` becomes `G[0,l] a && a U[l,u] b`, its dual `a R[l,u] b` must
/// become `F[0,l] a || a R[l,u] b`.
pub proof fn lemma_mltl_nnf_duality(f: FormulaM)
    ensures
        spec_mltl(spec_nnf(f)) == spec_nnf(spec_mltl(f)),
        spec_mltl(spec_nnf(FormulaM::Not(Box::new(f)))) == spec_nnf(
            FormulaM::Not(Box::new(spec_mltl(f))),
        ),
    decreases f,
{
    assert(spec_nnf(FormulaM::Not(Box::new(f))) == spec_nnf_neg(f));
    assert(spec_nnf(FormulaM::Not(Box::new(spec_mltl(f)))) == spec_nnf_neg(spec_mltl(f)));
    match f {
        FormulaM::Prop(_) => {
            assert(spec_nnf(FormulaM::Not(Box::new(f))) == spec_nnf_neg(f));
            assert(spec_nnf_neg(f) == FormulaM::Not(Box::new(f)));
            assert(spec_mltl(f) == f);
            assert(spec_nnf(FormulaM::Not(Box::new(spec_mltl(f)))) == spec_nnf_neg(f));
            assert(spec_mltl(FormulaM::Not(Box::new(f))) == FormulaM::Not(Box::new(f)));
            assert(spec_mltl(spec_nnf(FormulaM::Not(Box::new(f)))) == FormulaM::Not(Box::new(f)));
            assert(spec_mltl(spec_nnf(FormulaM::Not(Box::new(f)))) == spec_nnf(
                FormulaM::Not(Box::new(spec_mltl(f))),
            ));
            assert(spec_mltl(FormulaM::Not(Box::new(f))) == FormulaM::Not(Box::new(spec_mltl(f))));
        },
        FormulaM::And(s) | FormulaM::Or(s) => {
            assert forall|i: int| 0 <= i < s.len() implies spec_mltl(spec_nnf(#[trigger] s[i]))
                == spec_nnf(spec_mltl(s[i])) && spec_mltl(spec_nnf_neg(s[i])) == spec_nnf_neg(
                spec_mltl(s[i]),
            ) by {
                lemma_mltl_nnf_duality(s[i]);
            }
            lemma_mltl_nnf_seq(s);
            lemma_nnf_junction(s);
            lemma_nnf_junction(mltl_each(s));
        },
        FormulaM::Imply { left, right, not_left } => {
            lemma_mltl_nnf_duality(*left);
            lemma_mltl_nnf_duality(*right);
            lemma_mltl_nnf_duality(*not_left);
            let t = seq![spec_nnf(*left), spec_nnf_neg(*right)];
            lemma_mltl_each(t);
            assert(mltl_each(t) =~= seq![spec_nnf(spec_mltl(*left)), spec_nnf_neg(spec_mltl(*right))]);
        },
        FormulaM::Not(b) => {
            lemma_mltl_nnf_duality(*b);
        },
        FormulaM::G { phi, .. } | FormulaM::F { phi, .. } => {
            lemma_mltl_nnf_duality(*phi);
        },
        FormulaM::U { interval, parent_upper, left, right } => {
            lemma_mltl_nnf_duality(*left);
            lemma_mltl_nnf_duality(*right);
            let g = FormulaM::G {
                interval: Interval { lower: 0, upper: interval.lower },
                parent_upper: None,
                phi: Box::new(spec_mltl(*left)),
            };
            let u = FormulaM::U {
                interval,
                parent_upper,
                left: Box::new(spec_mltl(*left)),
                right: Box::new(spec_mltl(*right)),
            };
            lemma_nnf_junction(seq![g, u]);
            assert(nnf_seq(seq![g, u]) =~= seq![spec_nnf(g), spec_nnf(u)]);
            assert(nnf_neg_seq(seq![g, u]) =~= seq![spec_nnf_neg(g), spec_nnf_neg(u)]);
        },
        FormulaM::R { interval, parent_upper, left, right } => {
            lemma_mltl_nnf_duality(*left);
            lemma_mltl_nnf_duality(*right);
            let fp = FormulaM::F {
                interval: Interval { lower: 0, upper: interval.lower },
                parent_upper: None,
                phi: Box::new(spec_mltl(*left)),
            };
            let r = FormulaM::R {
                interval,
                parent_upper,
                left: Box::new(spec_mltl(*left)),
                right: Box::new(spec_mltl(*right)),
            };
            lemma_nnf_junction(seq![fp, r]);
            assert(nnf_seq(seq![fp, r]) =~= seq![spec_nnf(fp), spec_nnf(r)]);
            assert(nnf_neg_seq(seq![fp, r]) =~= seq![spec_nnf_neg(fp), spec_nnf_neg(r)]);
        },
        FormulaM::O(b) => {
            lemma_mltl_nnf_duality(*b);
        },
    }
}

/// The formula with until and release rewritten for the discrete reading.
pub fn mltl(f: &Formula) -> (r: Formula)
    ensures
        r@ == spec_mltl(f@),
    decreases f, 1nat,
{
    match f {
        Formula::Prop(e) => Formula::Prop(e.clone()),
        Formula::And(v) => {
            let out = mltl_operands(f, v);
            proof {
                lemma_view_junction(*v);
                lemma_view_junction(out);
                lemma_mltl_each(fviews(v@));
                assert(fviews(out@) =~= mltl_each(fviews(v@)));
            }
            Formula::And(out)
        },
        Formula::Or(v) => {
            let out = mltl_operands(f, v);
            proof {
                lemma_view_junction(*v);
                lemma_view_junction(out);
                lemma_mltl_each(fviews(v@));
                assert(fviews(out@) =~= mltl_each(fviews(v@)));
            }
            Formula::Or(out)
        },
        Formula::Imply { left, right, not_left } => Formula::Imply {
            left: Box::new(mltl(left)),
            right: Box::new(mltl(right)),
            not_left: Box::new(mltl(not_left)),
        },
        Formula::Not(b) => Formula::Not(Box::new(mltl(b))),
        Formula::G { interval, parent_upper, phi } => Formula::G {
            interval: *interval,
            parent_upper: *parent_upper,
            phi: Box::new(mltl(phi)),
        },
        Formula::F { interval, parent_upper, phi } => Formula::F {
            interval: *interval,
            parent_upper: *parent_upper,
            phi: Box::new(mltl(phi)),
        },
        Formula::U { interval, parent_upper, left, right } => {
            let g_part = Formula::g(
                Interval { lower: 0, upper: interval.lower },
                None,
                mltl(left),
            );
            let u_part = Formula::u(*interval, *parent_upper, mltl(left), mltl(right));
            let mut out: Vec<Formula> = Vec::new();
            out.push(g_part);
            out.push(u_part);
            proof {
                lemma_view_junction(out);
                assert(fviews(out@) =~= seq![g_part@, u_part@]);
            }
            Formula::And(out)
        },
        Formula::R { interval, parent_upper, left, right } => {
            let f_part = Formula::f(
                Interval { lower: 0, upper: interval.lower },
                None,
                mltl(left),
            );
            let r_part = Formula::r(*interval, *parent_upper, mltl(left), mltl(right));
            let mut out: Vec<Formula> = Vec::new();
            out.push(f_part);
            out.push(r_part);
            proof {
                lemma_view_junction(out);
                assert(fviews(out@) =~= seq![f_part@, r_part@]);
            }
            Formula::Or(out)
        },
        Formula::O(b) => Formula::O(Box::new(mltl(b))),
    }
}

fn mltl_operands(f: &Formula, v: &Vec<Formula>) -> (r: Vec<Formula>)
    requires
        operands_of(*f, *v),
    ensures
        r@.len() == v@.len(),
        forall|j: int| 0 <= j < v@.len() ==> (#[trigger] r@[j])@ == spec_mltl(v@[j]@),
    decreases f, 0nat,
{
    let mut out: Vec<Formula> = Vec::new();
    let mut i: usize = 0;
    while i < v.len()
        invariant
            operands_of(*f, *v),
            i <= v.len(),
            out@.len() == i,
            forall|j: int| 0 <= j < i ==> (#[trigger] out@[j])@ == spec_mltl(v@[j]@),
        decreases v.len() - i,
    {
        proof {
            lemma_operand_decreases(*f, *v, i as int);
        }
        let c = mltl(&v[i]);
        out.push(c);
        i += 1;
    }
    out
}

// ---------------------------------------------------------------------------------------
// Copies with fresh identifiers
// ---------------------------------------------------------------------------------------
/// A copy of `f` whose propositions get fresh identifiers from `ids`.
pub fn dupe(f: &Formula, ids: &mut IdGen) -> (r: Formula)
    ensures
        spec_eq_structural(r@, f@),
    decreases f, 1nat,
{
    match f {
        Formula::Prop(e) => {
            let x = Expr::from_expr(e.kind.clone(), ids);
            Formula::Prop(x)
        },
        Formula::And(v) => {
            let out = dupe_operands(f, v, ids);
            proof {
                lemma_view_junction(*v);
                lemma_view_junction(out);
                lemma_strip_junction(fviews(v@));
                lemma_strip_junction(fviews(out@));
                assert(Seq::new(fviews(out@).len(), |i: int| strip(fviews(out@)[i])) =~= Seq::new(
                    fviews(v@).len(),
                    |i: int| strip(fviews(v@)[i]),
                ));
            }
            Formula::And(out)
        },
        Formula::Or(v) => {
            let out = dupe_operands(f, v, ids);
            proof {
                lemma_view_junction(*v);
                lemma_view_junction(out);
                lemma_strip_junction(fviews(v@));
                lemma_strip_junction(fviews(out@));
                assert(Seq::new(fviews(out@).len(), |i: int| strip(fviews(out@)[i])) =~= Seq::new(
                    fviews(v@).len(),
                    |i: int| strip(fviews(v@)[i]),
                ));
            }
            Formula::Or(out)
        },
        Formula::Imply { left, right, not_left } => {
            let l = dupe(left, ids);
            let r = dupe(right, ids);
            let n = dupe(not_left, ids);
            Formula::Imply { left: Box::new(l), right: Box::new(r), not_left: Box::new(n) }
        },
        Formula::Not(b) => Formula::Not(Box::new(dupe(b, ids))),
        Formula::G { interval, parent_upper, phi } => Formula::G {
            interval: *interval,
            parent_upper: *parent_upper,
            phi: Box::new(dupe(phi, ids)),
        },
        Formula::F { interval, parent_upper, phi } => Formula::F {
            interval: *interval,
            parent_upper: *parent_upper,
            phi: Box::new(dupe(phi, ids)),
        },
        Formula::U { interval, parent_upper, left, right } => {
            let l = dupe(left, ids);
            let r = dupe(right, ids);
            Formula::U {
                interval: *interval,
                parent_upper: *parent_upper,
                left: Box::new(l),
                right: Box::new(r),
            }
        },
        Formula::R { interval, parent_upper, left, right } => {
            let l = dupe(left, ids);
            let r = dupe(right, ids);
            Formula::R {
                interval: *interval,
                parent_upper: *parent_upper,
                left: Box::new(l),
                right: Box::new(r),
            }
        },
        Formula::O(b) => Formula::O(Box::new(dupe(b, ids))),
    }
}

fn dupe_operands(f: &Formula, v: &Vec<Formula>, ids: &mut IdGen) -> (r: Vec<Formula>)
    requires
        operands_of(*f, *v),
    ensures
        r@.len() == v@.len(),
        forall|j: int| 0 <= j < v@.len() ==> strip((#[trigger] r@[j])@) == strip(v@[j]@),
    decreases f, 0nat,
{
    let mut out: Vec<Formula> = Vec::new();
    let mut i: usize = 0;
    while i < v.len()
        invariant
            operands_of(*f, *v),
            i <= v.len(),
            out@.len() == i,
            forall|j: int| 0 <= j < i ==> strip((#[trigger] out@[j])@) == strip(v@[j]@),
        decreases v.len() - i,
    {
        proof {
            lemma_operand_decreases(*f, *v, i as int);
        }
        let c = dupe(&v[i], ids);
        out.push(c);
        i += 1;
    }
    out
}

/// Gives propositions fresh identifiers.
pub struct DupeFormula;

impl DupeFormula {
    pub fn visit(&self, formula: &Formula, ids: &mut IdGen) -> (r: Formula)
        ensures
            spec_eq_structural(r@, formula@),
    {
        dupe(formula, ids)
    }
}

impl Formula {
    /// The implication `left -> right`; its negated premise is the negation normal form of
    /// `!left` over a copy of `left` with fresh identifiers.
    pub fn imply(left: Formula, right: Formula, ids: &mut IdGen) -> (r: Formula)
        ensures
            r@ is Imply,
            *r@->Imply_left == left@,
            *r@->Imply_right == right@,
            exists|d: FormulaM|
                spec_eq_structural(d, left@) && *r@->Imply_not_left == spec_nnf_neg(d),
            strip(*r@->Imply_not_left) == spec_nnf_neg(strip(left@)),
    {
        let d = dupe(&left, ids);
        let nl = nnf_neg(&d);
        assert(spec_eq_structural(d@, left@) && nl@ == spec_nnf_neg(d@));
        proof {
            lemma_strip_nnf(d@);
        }
        Formula::Imply { left: Box::new(left), right: Box::new(right), not_left: Box::new(nl) }
    }
}

} // verus!
