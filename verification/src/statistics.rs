//! Size and shape measures of a formula: depths, horizon, node and variable counts,
//! widths of disjunctions and the number of branches a tableau may open.
use vstd::prelude::*;

use crate::formula::{
    fviews, lemma_operand_decreases, lemma_view_junction, spec_is_flat, AExpr, AExprM, ExprKind,
    ExprKindM, Formula, FormulaM,
};

verus! {

pub open spec fn imax(a: int, b: int) -> int {
    if a >= b {
        a
    } else {
        b
    }
}

pub open spec fn in_i32(x: int) -> bool {
    i32::MIN <= x <= i32::MAX
}

// ---------------------------------------------------------------------------------------
// Depths and horizon
// ---------------------------------------------------------------------------------------
/// The largest number of temporal operators (`O` counted among them) on a path from the
/// root; implications count their two operands.
pub open spec fn spec_temporal_depth(f: FormulaM) -> int
    decreases f, 1int,
{
    match f {
        FormulaM::And(s) => temporal_depth_prefix(s, s.len() as int),
        FormulaM::Or(s) => temporal_depth_prefix(s, s.len() as int),
        FormulaM::Not(b) => spec_temporal_depth(*b),
        FormulaM::O(b) => 1 + spec_temporal_depth(*b),
        FormulaM::G { phi, .. } => 1 + spec_temporal_depth(*phi),
        FormulaM::F { phi, .. } => 1 + spec_temporal_depth(*phi),
        FormulaM::U { left, right, .. } => 1 + imax(
            spec_temporal_depth(*left),
            spec_temporal_depth(*right),
        ),
        FormulaM::R { left, right, .. } => 1 + imax(
            spec_temporal_depth(*left),
            spec_temporal_depth(*right),
        ),
        FormulaM::Imply { left, right, .. } => imax(
            spec_temporal_depth(*left),
            spec_temporal_depth(*right),
        ),
        FormulaM::Prop(_) => 0,
    }
}

/// The largest temporal depth among the first `n` formulas, 0 for none.
pub open spec fn temporal_depth_prefix(s: Seq<FormulaM>, n: int) -> int
    decreases s, 0int, n,
{
    if n <= 0 || n > s.len() {
        0
    } else {
        imax(temporal_depth_prefix(s, n - 1), spec_temporal_depth(s[n - 1]))
    }
}

proof fn lemma_temporal_depth_prefix(s: Seq<FormulaM>, n: int)
    ensures
        forall|i: int|
            0 <= i < n <= s.len() ==> spec_temporal_depth(#[trigger] s[i])
                <= temporal_depth_prefix(s, n),
    decreases n,
{
    if 0 < n <= s.len() {
        lemma_temporal_depth_prefix(s, n - 1);
    }
}

/// The height of the syntax tree: a proposition has depth 0, every operator adds one;
/// implications count their two operands.
pub open spec fn spec_depth(f: FormulaM) -> int
    decreases f, 1int,
{
    match f {
        FormulaM::And(s) => 1 + depth_prefix(s, s.len() as int),
        FormulaM::Or(s) => 1 + depth_prefix(s, s.len() as int),
        FormulaM::Not(b) => 1 + spec_depth(*b),
        FormulaM::O(b) => 1 + spec_depth(*b),
        FormulaM::G { phi, .. } => 1 + spec_depth(*phi),
        FormulaM::F { phi, .. } => 1 + spec_depth(*phi),
        FormulaM::U { left, right, .. } => 1 + imax(spec_depth(*left), spec_depth(*right)),
        FormulaM::R { left, right, .. } => 1 + imax(spec_depth(*left), spec_depth(*right)),
        FormulaM::Imply { left, right, .. } => 1 + imax(spec_depth(*left), spec_depth(*right)),
        FormulaM::Prop(_) => 0,
    }
}

/// The largest depth among the first `n` formulas, 0 for none.
pub open spec fn depth_prefix(s: Seq<FormulaM>, n: int) -> int
    decreases s, 0int, n,
{
    if n <= 0 || n > s.len() {
        0
    } else {
        imax(depth_prefix(s, n - 1), spec_depth(s[n - 1]))
    }
}

proof fn lemma_depth_prefix(s: Seq<FormulaM>, n: int)
    ensures
        forall|i: int| 0 <= i < n <= s.len() ==> spec_depth(#[trigger] s[i]) <= depth_prefix(s, n),
    decreases n,
{
    if 0 < n <= s.len() {
        lemma_depth_prefix(s, n - 1);
    }
}

/// How far into the future the formula looks: a temporal operator adds the upper bound of
/// its interval to the horizon of its operands; implications count their two operands.
pub open spec fn spec_horizon(f: FormulaM) -> int
    decreases f, 1int,
{
    match f {
        FormulaM::And(s) => horizon_prefix(s, s.len() as int),
        FormulaM::Or(s) => horizon_prefix(s, s.len() as int),
        FormulaM::Not(b) => spec_horizon(*b),
        FormulaM::O(b) => spec_horizon(*b),
        FormulaM::Imply { left, right, .. } => imax(spec_horizon(*left), spec_horizon(*right)),
        FormulaM::G { interval, phi, .. } => interval.upper + spec_horizon(*phi),
        FormulaM::F { interval, phi, .. } => interval.upper + spec_horizon(*phi),
        FormulaM::U { interval, left, right, .. } => interval.upper + imax(
            spec_horizon(*left),
            spec_horizon(*right),
        ),
        FormulaM::R { interval, left, right, .. } => interval.upper + imax(
            spec_horizon(*left),
            spec_horizon(*right),
        ),
        FormulaM::Prop(_) => 0,
    }
}

/// The largest horizon among the first `n` formulas, 0 for none.
pub open spec fn horizon_prefix(s: Seq<FormulaM>, n: int) -> int
    decreases s, 0int, n,
{
    if n <= 0 || n > s.len() {
        0
    } else if n == 1 {
        spec_horizon(s[0])
    } else {
        imax(horizon_prefix(s, n - 1), spec_horizon(s[n - 1]))
    }
}

/// Every horizon computed on the way, from the leaves up, fits in an `i32`.
pub open spec fn horizon_fits(f: FormulaM) -> bool
    decreases f, 1int,
{
    match f {
        FormulaM::And(s) => horizon_fits_prefix(s, s.len() as int),
        FormulaM::Or(s) => horizon_fits_prefix(s, s.len() as int),
        FormulaM::Not(b) => horizon_fits(*b),
        FormulaM::O(b) => horizon_fits(*b),
        FormulaM::Imply { left, right, .. } => horizon_fits(*left) && horizon_fits(*right),
        FormulaM::G { phi, .. } => horizon_fits(*phi) && in_i32(spec_horizon(f)),
        FormulaM::F { phi, .. } => horizon_fits(*phi) && in_i32(spec_horizon(f)),
        FormulaM::U { left, right, .. } => horizon_fits(*left) && horizon_fits(*right) && in_i32(
            spec_horizon(f),
        ),
        FormulaM::R { left, right, .. } => horizon_fits(*left) && horizon_fits(*right) && in_i32(
            spec_horizon(f),
        ),
        FormulaM::Prop(_) => true,
    }
}

pub open spec fn horizon_fits_prefix(s: Seq<FormulaM>, n: int) -> bool
    decreases s, 0int, n,
{
    if n <= 0 || n > s.len() {
        true
    } else {
        horizon_fits_prefix(s, n - 1) && horizon_fits(s[n - 1])
    }
}

proof fn lemma_horizon_fits_prefix(s: Seq<FormulaM>, n: int)
    requires
        horizon_fits_prefix(s, n),
    ensures
        forall|i: int| 0 <= i < n <= s.len() ==> horizon_fits(#[trigger] s[i]),
    decreases n,
{
    if 0 < n <= s.len() {
        lemma_horizon_fits_prefix(s, n - 1);
    }
}

proof fn lemma_horizon_in_i32(f: FormulaM)
    requires
        horizon_fits(f),
    ensures
        in_i32(spec_horizon(f)),
    decreases f, 1int,
{
    match f {
        FormulaM::And(s) => {
            lemma_horizon_prefix_in_i32(s, s.len() as int);
        },
        FormulaM::Or(s) => {
            lemma_horizon_prefix_in_i32(s, s.len() as int);
        },
        FormulaM::Not(b) => {
            lemma_horizon_in_i32(*b);
        },
        FormulaM::O(b) => {
            lemma_horizon_in_i32(*b);
        },
        FormulaM::Imply { left, right, .. } => {
            lemma_horizon_in_i32(*left);
            lemma_horizon_in_i32(*right);
        },
        _ => {},
    }
}

proof fn lemma_horizon_prefix_in_i32(s: Seq<FormulaM>, n: int)
    requires
        horizon_fits_prefix(s, n),
    ensures
        in_i32(horizon_prefix(s, n)),
    decreases s, 0int, n,
{
    if 0 < n <= s.len() {
        lemma_horizon_in_i32(s[n - 1]);
        if n > 1 {
            lemma_horizon_prefix_in_i32(s, n - 1);
        }
    }
}

impl Formula {
    /// The temporal depth (see `spec_temporal_depth`).
    pub fn temporal_operator_depth(&self) -> (r: i32)
        requires
            spec_temporal_depth(self@) <= i32::MAX,
        ensures
            r == spec_temporal_depth(self@),
        decreases self,
    {
        match self {
            Formula::And(v) | Formula::Or(v) => {
                proof {
                    lemma_view_junction(*v);
                    lemma_temporal_depth_prefix(fviews(v@), v@.len() as int);
                }
                let mut acc: i32 = 0;
                let mut i: usize = 0;
                while i < v.len()
                    invariant
                        crate::formula::operands_of(*self, *v),
                        i <= v@.len(),
                        acc == temporal_depth_prefix(fviews(v@), i as int),
                        forall|j: int|
                            0 <= j < v@.len() ==> spec_temporal_depth(#[trigger] fviews(v@)[j])
                                <= i32::MAX,
                    decreases v@.len() - i,
                {
                    proof {
                        lemma_operand_decreases(*self, *v, i as int);
                    }
                    assert(fviews(v@)[i as int] == v@[i as int]@);
                    let c = v[i].temporal_operator_depth();
                    if c > acc {
                        acc = c;
                    }
                    i += 1;
                }
                acc
            },
            Formula::Not(b) => b.temporal_operator_depth(),
            Formula::O(b) => 1 + b.temporal_operator_depth(),
            Formula::G { phi, .. } | Formula::F { phi, .. } => 1 + phi.temporal_operator_depth(),
            Formula::U { left, right, .. } | Formula::R { left, right, .. } => {
                let l = left.temporal_operator_depth();
                let r = right.temporal_operator_depth();
                1 + if l >= r {
                    l
                } else {
                    r
                }
            },
            Formula::Imply { left, right, .. } => {
                let l = left.temporal_operator_depth();
                let r = right.temporal_operator_depth();
                if l >= r {
                    l
                } else {
                    r
                }
            },
            Formula::Prop(_) => 0,
        }
    }

    /// The height of the syntax tree (see `spec_depth`).
    pub fn depth(&self) -> (r: i32)
        requires
            spec_depth(self@) <= i32::MAX,
        ensures
            r == spec_depth(self@),
        decreases self,
    {
        match self {
            Formula::And(v) | Formula::Or(v) => {
                proof {
                    lemma_view_junction(*v);
                    lemma_depth_prefix(fviews(v@), v@.len() as int);
                }
                let mut acc: i32 = 0;
                let mut i: usize = 0;
                while i < v.len()
                    invariant
                        crate::formula::operands_of(*self, *v),
                        i <= v@.len(),
                        acc == depth_prefix(fviews(v@), i as int),
                        acc < i32::MAX,
                        forall|j: int|
                            0 <= j < v@.len() ==> spec_depth(#[trigger] fviews(v@)[j]) < i32::MAX,
                    decreases v@.len() - i,
                {
                    proof {
                        lemma_operand_decreases(*self, *v, i as int);
                    }
                    assert(fviews(v@)[i as int] == v@[i as int]@);
                    let c = v[i].depth();
                    if c > acc {
                        acc = c;
                    }
                    i += 1;
                }
                1 + acc
            },
            Formula::Not(b) | Formula::O(b) => 1 + b.depth(),
            Formula::G { phi, .. } | Formula::F { phi, .. } => 1 + phi.depth(),
            Formula::U { left, right, .. } | Formula::R { left, right, .. } | Formula::Imply {
                left,
                right,
                ..
            } => {
                let l = left.depth();
                let r = right.depth();
                1 + if l >= r {
                    l
                } else {
                    r
                }
            },
            Formula::Prop(_) => 0,
        }
    }

    /// How far into the future the formula looks (see `spec_horizon`).
    pub fn horizon(&self) -> (r: i32)
        requires
            horizon_fits(self@),
        ensures
            r == spec_horizon(self@),
        decreases self,
    {
        proof {
            lemma_horizon_in_i32(self@);
        }
        match self {
            Formula::And(v) | Formula::Or(v) => {
                proof {
                    lemma_view_junction(*v);
                    lemma_horizon_fits_prefix(fviews(v@), v@.len() as int);
                }
                let mut acc: i32 = 0;
                let mut i: usize = 0;
                while i < v.len()
                    invariant
                        crate::formula::operands_of(*self, *v),
                        i <= v@.len(),
                        acc == horizon_prefix(fviews(v@), i as int),
                        forall|j: int| 0 <= j < v@.len() ==> horizon_fits(#[trigger] fviews(v@)[j]),
                    decreases v@.len() - i,
                {
                    proof {
                        lemma_operand_decreases(*self, *v, i as int);
                    }
                    assert(fviews(v@)[i as int] == v@[i as int]@);
                    let c = v[i].horizon();
                    if i == 0 || c > acc {
                        acc = c;
                    }
                    i += 1;
                }
                acc
            },
            Formula::Not(b) | Formula::O(b) => b.horizon(),
            Formula::Imply { left, right, .. } => {
                let l = left.horizon();
                let r = right.horizon();
                if l >= r {
                    l
                } else {
                    r
                }
            },
            Formula::G { interval, phi, .. } | Formula::F { interval, phi, .. } => {
                let h = phi.horizon();
                interval.upper + h
            },
            Formula::U { interval, left, right, .. } | Formula::R { interval, left, right, .. } => {
                let l = left.horizon();
                let r = right.horizon();
                interval.upper + if l >= r {
                    l
                } else {
                    r
                }
            },
            Formula::Prop(_) => 0,
        }
    }
}

// ---------------------------------------------------------------------------------------
// Counting nodes
// ---------------------------------------------------------------------------------------
/// The number of subformulas at which `p` holds, the formula itself included; the
/// traversal goes through the operands of junctions, `!`, `O`, temporal operators and the
/// two operands of an implication.
pub open spec fn spec_count(f: Formula, p: spec_fn(Formula) -> bool) -> int
    decreases f, 1int,
{
    (if p(f) {
        1int
    } else {
        0int
    }) + match f {
        Formula::And(v) => {
            proof {
                broadcast use vstd::std_specs::vec::axiom_vec_decreases_to_view;

                assert(decreases_to!(v => v@));
            }
            count_prefix(v@, p, v@.len() as int)
        },
        Formula::Or(v) => {
            proof {
                broadcast use vstd::std_specs::vec::axiom_vec_decreases_to_view;

                assert(decreases_to!(v => v@));
            }
            count_prefix(v@, p, v@.len() as int)
        },
        Formula::Not(b) => spec_count(*b, p),
        Formula::O(b) => spec_count(*b, p),
        Formula::G { phi, .. } => spec_count(*phi, p),
        Formula::F { phi, .. } => spec_count(*phi, p),
        Formula::U { left, right, .. } => spec_count(*left, p) + spec_count(*right, p),
        Formula::R { left, right, .. } => spec_count(*left, p) + spec_count(*right, p),
        Formula::Imply { left, right, .. } => spec_count(*left, p) + spec_count(*right, p),
        Formula::Prop(_) => 0int,
    }
}

/// The count over the first `n` formulas.
pub open spec fn count_prefix(s: Seq<Formula>, p: spec_fn(Formula) -> bool, n: int) -> int
    decreases s, 0int, n,
{
    if n <= 0 || n > s.len() {
        0
    } else {
        count_prefix(s, p, n - 1) + spec_count(s[n - 1], p)
    }
}

/// The predicate that holds everywhere.
pub open spec fn every_formula() -> spec_fn(Formula) -> bool {
    |x: Formula| true
}

/// The number of subformulas (see `spec_count`).
pub open spec fn spec_nodes(f: Formula) -> int {
    spec_count(f, every_formula())
}

/// Every answer of `filter` is `p` of its argument.
pub open spec fn decides<F: Fn(&Formula) -> bool>(filter: F, p: spec_fn(Formula) -> bool) -> bool {
    forall|x: &Formula, b: bool| filter.ensures((x,), b) ==> b == p(*x)
}

proof fn lemma_count_bounds(f: Formula, p: spec_fn(Formula) -> bool)
    ensures
        0 <= spec_count(f, p) <= spec_nodes(f),
        spec_nodes(f) >= 1,
    decreases f, 1int,
{
    match f {
        Formula::And(v) => {
            broadcast use vstd::std_specs::vec::axiom_vec_decreases_to_view;

            assert(decreases_to!(v => v@));
            lemma_count_prefix_bounds(v@, p, v@.len() as int);
        },
        Formula::Or(v) => {
            broadcast use vstd::std_specs::vec::axiom_vec_decreases_to_view;

            assert(decreases_to!(v => v@));
            lemma_count_prefix_bounds(v@, p, v@.len() as int);
        },
        Formula::Not(b) => lemma_count_bounds(*b, p),
        Formula::O(b) => lemma_count_bounds(*b, p),
        Formula::G { phi, .. } => lemma_count_bounds(*phi, p),
        Formula::F { phi, .. } => lemma_count_bounds(*phi, p),
        Formula::U { left, right, .. } => {
            lemma_count_bounds(*left, p);
            lemma_count_bounds(*right, p);
        },
        Formula::R { left, right, .. } => {
            lemma_count_bounds(*left, p);
            lemma_count_bounds(*right, p);
        },
        Formula::Imply { left, right, .. } => {
            lemma_count_bounds(*left, p);
            lemma_count_bounds(*right, p);
        },
        Formula::Prop(_) => {},
    }
}

proof fn lemma_count_prefix_bounds(s: Seq<Formula>, p: spec_fn(Formula) -> bool, n: int)
    requires
        0 <= n <= s.len(),
    ensures
        0 <= count_prefix(s, p, n) <= count_prefix(s, every_formula(), n),
        forall|m: int|
            0 <= m <= n ==> #[trigger] count_prefix(s, every_formula(), m) <= count_prefix(
                s,
                every_formula(),
                n,
            ),
    decreases s, 0int, n,
{
    if 0 < n {
        lemma_count_prefix_bounds(s, p, n - 1);
        lemma_count_bounds(s[n - 1], p);
        lemma_count_bounds(s[n - 1], every_formula());
    }
}

fn count_with<F: Fn(&Formula) -> bool>(f: &Formula, filter: &F) -> (r: i32)
    requires
        forall|x: &Formula| #[trigger] (*filter).requires((x,)),
        spec_nodes(*f) <= i32::MAX,
    ensures
        0 <= r <= spec_nodes(*f),
        forall|p: spec_fn(Formula) -> bool|
            decides(*filter, p) ==> r == #[trigger] spec_count(*f, p),
    decreases f,
{
    proof {
        lemma_count_bounds(*f, every_formula());
    }
    let here = filter(f);
    let own: i32 = if here {
        1
    } else {
        0
    };
    match f {
        Formula::And(v) | Formula::Or(v) => {
            proof {
                lemma_count_prefix_bounds(v@, every_formula(), v@.len() as int);
            }
            let mut acc: i32 = 0;
            let mut i: usize = 0;
            while i < v.len()
                invariant
                    crate::formula::operands_of(*f, *v),
                    forall|x: &Formula| #[trigger] (*filter).requires((x,)),
                    i <= v@.len(),
                    0 <= acc <= count_prefix(v@, every_formula(), i as int),
                    count_prefix(v@, every_formula(), v@.len() as int) < i32::MAX,
                    forall|m: int|
                        0 <= m <= v@.len() ==> #[trigger] count_prefix(v@, every_formula(), m)
                            <= count_prefix(v@, every_formula(), v@.len() as int),
                    forall|p: spec_fn(Formula) -> bool|
                        decides(*filter, p) ==> acc == #[trigger] count_prefix(v@, p, i as int),
                decreases v@.len() - i,
            {
                proof {
                    lemma_operand_decreases(*f, *v, i as int);
                    lemma_count_bounds(v@[i as int], every_formula());
                }
                assert(count_prefix(v@, every_formula(), i + 1) == count_prefix(
                    v@,
                    every_formula(),
                    i as int,
                ) + spec_nodes(v@[i as int]));
                let c = count_with(&v[i], filter);
                acc = acc + c;
                assert forall|p: spec_fn(Formula) -> bool| decides(*filter, p) implies acc
                    == #[trigger] count_prefix(v@, p, i + 1) by {
                    assert(count_prefix(v@, p, i + 1) == count_prefix(v@, p, i as int)
                        + spec_count(v@[i as int], p));
                }
                i += 1;
            }
            assert forall|p: spec_fn(Formula) -> bool| decides(*filter, p) implies own + acc
                == #[trigger] spec_count(*f, p) by {
                assert(here == p(*f));
                assert(acc == count_prefix(v@, p, v@.len() as int));
                if *f == Formula::And(*v) {
                    assert(spec_count(*f, p) == own + count_prefix(v@, p, v@.len() as int));
                } else {
                    assert(spec_count(*f, p) == own + count_prefix(v@, p, v@.len() as int));
                }
            }
            own + acc
        },
        Formula::Not(b) | Formula::O(b) => {
            let c = count_with(b, filter);
            assert forall|p: spec_fn(Formula) -> bool| decides(*filter, p) implies own + c
                == #[trigger] spec_count(*f, p) by {
                assert(here == p(*f));
                assert(c == spec_count(**b, p));
            }
            own + c
        },
        Formula::G { phi, .. } | Formula::F { phi, .. } => {
            let c = count_with(phi, filter);
            assert forall|p: spec_fn(Formula) -> bool| decides(*filter, p) implies own + c
                == #[trigger] spec_count(*f, p) by {
                assert(here == p(*f));
                assert(c == spec_count(**phi, p));
            }
            own + c
        },
        Formula::U { left, right, .. } | Formula::R { left, right, .. } | Formula::Imply {
            left,
            right,
            ..
        } => {
            proof {
                lemma_count_bounds(**left, every_formula());
                lemma_count_bounds(**right, every_formula());
            }
            let l = count_with(left, filter);
            let r = count_with(right, filter);
            assert forall|p: spec_fn(Formula) -> bool| decides(*filter, p) implies own + l + r
                == #[trigger] spec_count(*f, p) by {
                assert(here == p(*f));
                assert(l == spec_count(**left, p));
                assert(r == spec_count(**right, p));
            }
            own + l + r
        },
        Formula::Prop(_) => {
            assert forall|p: spec_fn(Formula) -> bool| decides(*filter, p) implies own
                == #[trigger] spec_count(*f, p) by {
                assert(here == p(*f));
            }
            own
        },
    }
}

impl Formula {
    /// The number of subformulas on which `filter` answers `true` (see `spec_count`).
    pub fn count_nodes<F: Fn(&Formula) -> bool>(&self, filter: F) -> (r: i32)
        requires
            forall|x: &Formula| #[trigger] filter.requires((x,)),
            spec_nodes(*self) <= i32::MAX,
        ensures
            0 <= r <= spec_nodes(*self),
            forall|p: spec_fn(Formula) -> bool|
                decides(filter, p) ==> r == #[trigger] spec_count(*self, p),
    {
        count_with(self, &filter)
    }

    /// The number of subformulas.
    pub fn nodes(&self) -> (r: i32)
        requires
            spec_nodes(*self) <= i32::MAX,
        ensures
            r == spec_nodes(*self),
    {
        let all = |x: &Formula| -> (b: bool)
            ensures
                b,
            { true };
        let r = self.count_nodes(all);
        assert(decides(all, every_formula()));
        r
    }
}

// ---------------------------------------------------------------------------------------
// Variables and constraints
// ---------------------------------------------------------------------------------------
/// The names of the boolean atoms; implications count their two operands.
pub open spec fn spec_boolean_vars(f: FormulaM) -> Set<Seq<char>>
    decreases f, 1int,
{
    match f {
        FormulaM::And(s) => boolean_vars_prefix(s, s.len() as int),
        FormulaM::Or(s) => boolean_vars_prefix(s, s.len() as int),
        FormulaM::Not(b) => spec_boolean_vars(*b),
        FormulaM::O(b) => spec_boolean_vars(*b),
        FormulaM::G { phi, .. } => spec_boolean_vars(*phi),
        FormulaM::F { phi, .. } => spec_boolean_vars(*phi),
        FormulaM::U { left, right, .. } => spec_boolean_vars(*left).union(
            spec_boolean_vars(*right),
        ),
        FormulaM::R { left, right, .. } => spec_boolean_vars(*left).union(
            spec_boolean_vars(*right),
        ),
        FormulaM::Imply { left, right, .. } => spec_boolean_vars(*left).union(
            spec_boolean_vars(*right),
        ),
        FormulaM::Prop(e) => match e.kind {
            ExprKindM::Atom(n) => set![n],
            _ => Set::empty(),
        },
    }
}

pub open spec fn boolean_vars_prefix(s: Seq<FormulaM>, n: int) -> Set<Seq<char>>
    decreases s, 0int, n,
{
    if n <= 0 || n > s.len() {
        Set::empty()
    } else {
        boolean_vars_prefix(s, n - 1).union(spec_boolean_vars(s[n - 1]))
    }
}

/// The names of the rel variables in a term.
pub open spec fn aexpr_vars(e: AExprM) -> Set<Seq<char>>
    decreases e,
{
    match e {
        AExprM::Var(n) => set![n],
        AExprM::Num(_) => Set::empty(),
        AExprM::Abs(b) => aexpr_vars(*b),
        AExprM::BinOp { left, right, .. } => aexpr_vars(*left).union(aexpr_vars(*right)),
    }
}

/// The names of the rel variables of the relations; implications count their two
/// operands.
pub open spec fn spec_real_vars(f: FormulaM) -> Set<Seq<char>>
    decreases f, 1int,
{
    match f {
        FormulaM::And(s) => real_vars_prefix(s, s.len() as int),
        FormulaM::Or(s) => real_vars_prefix(s, s.len() as int),
        FormulaM::Not(b) => spec_real_vars(*b),
        FormulaM::O(b) => spec_real_vars(*b),
        FormulaM::G { phi, .. } => spec_real_vars(*phi),
        FormulaM::F { phi, .. } => spec_real_vars(*phi),
        FormulaM::U { left, right, .. } => spec_real_vars(*left).union(spec_real_vars(*right)),
        FormulaM::R { left, right, .. } => spec_real_vars(*left).union(spec_real_vars(*right)),
        FormulaM::Imply { left, right, .. } => spec_real_vars(*left).union(
            spec_real_vars(*right),
        ),
        FormulaM::Prop(e) => match e.kind {
            ExprKindM::Rel { left, right, .. } => aexpr_vars(left).union(aexpr_vars(right)),
            _ => Set::empty(),
        },
    }
}

pub open spec fn real_vars_prefix(s: Seq<FormulaM>, n: int) -> Set<Seq<char>>
    decreases s, 0int, n,
{
    if n <= 0 || n > s.len() {
        Set::empty()
    } else {
        real_vars_prefix(s, n - 1).union(spec_real_vars(s[n - 1]))
    }
}

/// The names held by a list of strings.
pub open spec fn name_set(v: Seq<String>) -> Set<Seq<char>> {
    Set::new(|x: Seq<char>| exists|i: int| 0 <= i < v.len() && #[trigger] v[i]@ == x)
}

/// No name occurs twice.
pub open spec fn distinct_names(v: Seq<String>) -> bool {
    forall|i: int, j: int| 0 <= i < j < v.len() ==> #[trigger] v[i]@ != #[trigger] v[j]@
}

proof fn lemma_distinct_names_len(v: Seq<String>)
    requires
        distinct_names(v),
    ensures
        name_set(v).finite(),
        name_set(v).len() == v.len(),
{
    let t = Seq::new(v.len(), |i: int| v[i]@);
    assert(t.no_duplicates()) by {
        assert forall|i: int, j: int| 0 <= i < t.len() && 0 <= j < t.len() && i != j implies t[i]
            != t[j] by {
            if i < j {
                assert(v[i]@ != v[j]@);
            } else {
                assert(v[j]@ != v[i]@);
            }
        }
    }
    t.unique_seq_to_set();
    assert(t.to_set() =~= name_set(v)) by {
        assert forall|x: Seq<char>| name_set(v).contains(x) implies t.to_set().contains(x) by {
            let i = choose|i: int| 0 <= i < v.len() && #[trigger] v[i]@ == x;
            assert(t[i] == x);
        }
        assert forall|x: Seq<char>| t.to_set().contains(x) implies name_set(v).contains(x) by {
            let i = choose|i: int| 0 <= i < t.len() && t[i] == x;
            assert(v[i]@ == x);
        }
    }
    t.lemma_cardinality_of_set();
}

fn insert_name(acc: &mut Vec<String>, name: &String)
    requires
        distinct_names(old(acc)@),
    ensures
        distinct_names(final(acc)@),
        name_set(final(acc)@) == name_set(old(acc)@).insert(name@),
{
    let mut i: usize = 0;
    while i < acc.len()
        invariant
            i <= acc@.len(),
            distinct_names(acc@),
            forall|j: int| 0 <= j < i ==> #[trigger] acc@[j]@ != name@,
        decreases acc@.len() - i,
    {
        if acc[i] == *name {
            assert(name_set(acc@) =~= name_set(acc@).insert(name@));
            return ;
        }
        i += 1;
    }
    let ghost before = acc@;
    acc.push(name.clone());
    assert(name_set(acc@) =~= name_set(before).insert(name@)) by {
        assert forall|x: Seq<char>| name_set(before).contains(x) implies name_set(acc@).contains(
            x,
        ) by {
            let k = choose|k: int| 0 <= k < before.len() && #[trigger] before[k]@ == x;
            assert(acc@[k]@ == x);
        }
        assert(acc@[before.len() as int]@ == name@);
    }
}

fn collect_aexpr_vars(e: &AExpr, acc: &mut Vec<String>)
    requires
        distinct_names(old(acc)@),
    ensures
        distinct_names(final(acc)@),
        name_set(final(acc)@) == name_set(old(acc)@).union(aexpr_vars(e@)),
    decreases e,
{
    match e {
        AExpr::Var(n) => {
            insert_name(acc, n);
            assert(name_set(acc@) =~= name_set(old(acc)@).union(aexpr_vars(e@)));
        },
        AExpr::Num(_) => {
            assert(name_set(acc@) =~= name_set(old(acc)@).union(aexpr_vars(e@)));
        },
        AExpr::Abs(b) => collect_aexpr_vars(b, acc),
        AExpr::BinOp { left, right, .. } => {
            collect_aexpr_vars(left, acc);
            collect_aexpr_vars(right, acc);
            assert(name_set(acc@) =~= name_set(old(acc)@).union(aexpr_vars(e@)));
        },
    }
}

/// Adds the names of the boolean atoms (`rel` false) or of the rel variables (`rel`
/// true) of `f`.
fn collect_vars(f: &Formula, rel: bool, acc: &mut Vec<String>)
    requires
        distinct_names(old(acc)@),
    ensures
        distinct_names(final(acc)@),
        name_set(final(acc)@) == name_set(old(acc)@).union(
            if rel {
                spec_real_vars(f@)
            } else {
                spec_boolean_vars(f@)
            },
        ),
    decreases f,
{
    let ghost start = acc@;
    match f {
        Formula::And(v) | Formula::Or(v) => {
            proof {
                lemma_view_junction(*v);
            }
            let mut i: usize = 0;
            while i < v.len()
                invariant
                    crate::formula::operands_of(*f, *v),
                    i <= v@.len(),
                    distinct_names(acc@),
                    name_set(acc@) == name_set(start).union(
                        if rel {
                            real_vars_prefix(fviews(v@), i as int)
                        } else {
                            boolean_vars_prefix(fviews(v@), i as int)
                        },
                    ),
                decreases v@.len() - i,
            {
                proof {
                    lemma_operand_decreases(*f, *v, i as int);
                }
                assert(fviews(v@)[i as int] == v@[i as int]@);
                collect_vars(&v[i], rel, acc);
                assert(name_set(acc@) =~= name_set(start).union(
                    if rel {
                        real_vars_prefix(fviews(v@), i + 1)
                    } else {
                        boolean_vars_prefix(fviews(v@), i + 1)
                    },
                ));
                i += 1;
            }
        },
        Formula::Not(b) | Formula::O(b) => collect_vars(b, rel, acc),
        Formula::G { phi, .. } | Formula::F { phi, .. } => collect_vars(phi, rel, acc),
        Formula::U { left, right, .. } | Formula::R { left, right, .. } | Formula::Imply {
            left,
            right,
            ..
        } => {
            collect_vars(left, rel, acc);
            collect_vars(right, rel, acc);
            assert(name_set(acc@) =~= name_set(start).union(
                if rel {
                    spec_real_vars(f@)
                } else {
                    spec_boolean_vars(f@)
                },
            ));
        },
        Formula::Prop(e) => {
            match &e.kind {
                ExprKind::Atom(n) => {
                    if !rel {
                        insert_name(acc, n);
                    }
                },
                ExprKind::Rel { left, right, .. } => {
                    if rel {
                        collect_aexpr_vars(left, acc);
                        collect_aexpr_vars(right, acc);
                    }
                },
                _ => {},
            }
            assert(name_set(acc@) =~= name_set(start).union(
                if rel {
                    spec_real_vars(f@)
                } else {
                    spec_boolean_vars(f@)
                },
            ));
        },
    }
}

/// The number of atoms (`rel` false) or relations (`rel` true); implications count
/// their two operands.
pub open spec fn spec_constraints(f: FormulaM, rel: bool) -> int
    decreases f, 1int,
{
    match f {
        FormulaM::And(s) => constraints_prefix(s, rel, s.len() as int),
        FormulaM::Or(s) => constraints_prefix(s, rel, s.len() as int),
        FormulaM::Not(b) => spec_constraints(*b, rel),
        FormulaM::O(b) => spec_constraints(*b, rel),
        FormulaM::G { phi, .. } => spec_constraints(*phi, rel),
        FormulaM::F { phi, .. } => spec_constraints(*phi, rel),
        FormulaM::U { left, right, .. } => spec_constraints(*left, rel) + spec_constraints(
            *right,
            rel,
        ),
        FormulaM::R { left, right, .. } => spec_constraints(*left, rel) + spec_constraints(
            *right,
            rel,
        ),
        FormulaM::Imply { left, right, .. } => spec_constraints(*left, rel) + spec_constraints(
            *right,
            rel,
        ),
        FormulaM::Prop(e) => if (rel && e.kind is Rel) || (!rel && e.kind is Atom) {
            1
        } else {
            0
        },
    }
}

pub open spec fn constraints_prefix(s: Seq<FormulaM>, rel: bool, n: int) -> int
    decreases s, 0int, n,
{
    if n <= 0 || n > s.len() {
        0
    } else {
        constraints_prefix(s, rel, n - 1) + spec_constraints(s[n - 1], rel)
    }
}

proof fn lemma_constraints_nonneg(f: FormulaM, rel: bool)
    ensures
        spec_constraints(f, rel) >= 0,
    decreases f, 1int,
{
    match f {
        FormulaM::And(s) => lemma_constraints_prefix(s, rel, s.len() as int),
        FormulaM::Or(s) => lemma_constraints_prefix(s, rel, s.len() as int),
        FormulaM::Not(b) => lemma_constraints_nonneg(*b, rel),
        FormulaM::O(b) => lemma_constraints_nonneg(*b, rel),
        FormulaM::G { phi, .. } => lemma_constraints_nonneg(*phi, rel),
        FormulaM::F { phi, .. } => lemma_constraints_nonneg(*phi, rel),
        FormulaM::U { left, right, .. } => {
            lemma_constraints_nonneg(*left, rel);
            lemma_constraints_nonneg(*right, rel);
        },
        FormulaM::R { left, right, .. } => {
            lemma_constraints_nonneg(*left, rel);
            lemma_constraints_nonneg(*right, rel);
        },
        FormulaM::Imply { left, right, .. } => {
            lemma_constraints_nonneg(*left, rel);
            lemma_constraints_nonneg(*right, rel);
        },
        FormulaM::Prop(_) => {},
    }
}

proof fn lemma_constraints_prefix(s: Seq<FormulaM>, rel: bool, n: int)
    ensures
        constraints_prefix(s, rel, n) >= 0,
        forall|m: int|
            0 <= m <= n <= s.len() ==> #[trigger] constraints_prefix(s, rel, m)
                <= constraints_prefix(s, rel, n),
    decreases s, 0int, n,
{
    if 0 < n <= s.len() {
        lemma_constraints_prefix(s, rel, n - 1);
        lemma_constraints_nonneg(s[n - 1], rel);
    }
}

fn count_constraints(f: &Formula, rel: bool) -> (r: i32)
    requires
        spec_constraints(f@, rel) <= i32::MAX,
    ensures
        r == spec_constraints(f@, rel),
    decreases f,
{
    match f {
        Formula::And(v) | Formula::Or(v) => {
            proof {
                lemma_view_junction(*v);
                lemma_constraints_prefix(fviews(v@), rel, v@.len() as int);
            }
            let mut acc: i32 = 0;
            let mut i: usize = 0;
            while i < v.len()
                invariant
                    crate::formula::operands_of(*f, *v),
                    i <= v@.len(),
                    acc == constraints_prefix(fviews(v@), rel, i as int),
                    constraints_prefix(fviews(v@), rel, v@.len() as int) <= i32::MAX,
                    forall|m: int|
                        0 <= m <= v@.len() ==> #[trigger] constraints_prefix(fviews(v@), rel, m)
                            <= constraints_prefix(fviews(v@), rel, v@.len() as int),
                decreases v@.len() - i,
            {
                proof {
                    lemma_operand_decreases(*f, *v, i as int);
                    lemma_constraints_prefix(fviews(v@), rel, i + 1);
                    lemma_constraints_prefix(fviews(v@), rel, i as int);
                    lemma_constraints_nonneg(fviews(v@)[i as int], rel);
                    assert(constraints_prefix(fviews(v@), rel, i + 1) == constraints_prefix(
                        fviews(v@),
                        rel,
                        i as int,
                    ) + spec_constraints(fviews(v@)[i as int], rel));
                }
                assert(fviews(v@)[i as int] == v@[i as int]@);
                let c = count_constraints(&v[i], rel);
                acc = acc + c;
                i += 1;
            }
            acc
        },
        Formula::Not(b) | Formula::O(b) => count_constraints(b, rel),
        Formula::G { phi, .. } | Formula::F { phi, .. } => count_constraints(phi, rel),
        Formula::U { left, right, .. } | Formula::R { left, right, .. } | Formula::Imply {
            left,
            right,
            ..
        } => {
            proof {
                lemma_constraints_nonneg(left@, rel);
                lemma_constraints_nonneg(right@, rel);
            }
            let l = count_constraints(left, rel);
            let r = count_constraints(right, rel);
            l + r
        },
        Formula::Prop(e) => match &e.kind {
            ExprKind::Atom(_) => if rel {
                0
            } else {
                1
            },
            ExprKind::Rel { .. } => if rel {
                1
            } else {
                0
            },
            _ => 0,
        },
    }
}

impl Formula {
    /// The number of distinct boolean atoms.
    pub fn boolean_variables(&self) -> (r: i32)
        requires
            spec_boolean_vars(self@).len() <= i32::MAX,
        ensures
            r == spec_boolean_vars(self@).len(),
    {
        let mut acc: Vec<String> = Vec::new();
        assert(name_set(acc@) =~= Set::empty());
        collect_vars(self, false, &mut acc);
        proof {
            lemma_distinct_names_len(acc@);
            assert(name_set(acc@) =~= spec_boolean_vars(self@));
        }
        acc.len() as i32
    }

    /// The number of distinct rel variables.
    pub fn real_variables(&self) -> (r: i32)
        requires
            spec_real_vars(self@).len() <= i32::MAX,
        ensures
            r == spec_real_vars(self@).len(),
    {
        let mut acc: Vec<String> = Vec::new();
        assert(name_set(acc@) =~= Set::empty());
        collect_vars(self, true, &mut acc);
        proof {
            lemma_distinct_names_len(acc@);
            assert(name_set(acc@) =~= spec_real_vars(self@));
        }
        acc.len() as i32
    }

    /// The number of distinct boolean atoms plus that of distinct rel variables.
    pub fn variables(&self) -> (r: i32)
        requires
            spec_boolean_vars(self@).len() + spec_real_vars(self@).len() <= i32::MAX,
        ensures
            r == spec_boolean_vars(self@).len() + spec_real_vars(self@).len(),
    {
        self.boolean_variables() + self.real_variables()
    }

    /// The number of atoms (see `spec_constraints`).
    pub fn boolean_constraints(&self) -> (r: i32)
        requires
            spec_constraints(self@, false) <= i32::MAX,
        ensures
            r == spec_constraints(self@, false),
    {
        count_constraints(self, false)
    }

    /// The number of relations (see `spec_constraints`).
    pub fn real_constraints(&self) -> (r: i32)
        requires
            spec_constraints(self@, true) <= i32::MAX,
        ensures
            r == spec_constraints(self@, true),
    {
        count_constraints(self, true)
    }

    /// The number of atoms plus that of relations.
    pub fn constraints(&self) -> (r: i32)
        requires
            spec_constraints(self@, false) + spec_constraints(self@, true) <= i32::MAX,
        ensures
            r == spec_constraints(self@, false) + spec_constraints(self@, true),
    {
        proof {
            lemma_constraints_nonneg(self@, false);
            lemma_constraints_nonneg(self@, true);
        }
        self.boolean_constraints() + self.real_constraints()
    }
}

// ---------------------------------------------------------------------------------------
// Disjunctions and branching
// ---------------------------------------------------------------------------------------
/// Every subformula visited is flat: through junctions, `!`, `O`, temporal operators and,
/// of an implication, its right operand and its left one (`branching` false) or the
/// negation of its left one (`branching` true).
pub open spec fn flat_visit(f: FormulaM, branching: bool) -> bool
    decreases f, 1int,
{
    spec_is_flat(f) && match f {
        FormulaM::And(s) => flat_visit_prefix(s, branching, s.len() as int),
        FormulaM::Or(s) => flat_visit_prefix(s, branching, s.len() as int),
        FormulaM::Not(b) => flat_visit(*b, branching),
        FormulaM::O(b) => flat_visit(*b, branching),
        FormulaM::G { phi, .. } => flat_visit(*phi, branching),
        FormulaM::F { phi, .. } => flat_visit(*phi, branching),
        FormulaM::U { left, right, .. } => flat_visit(*left, branching) && flat_visit(
            *right,
            branching,
        ),
        FormulaM::R { left, right, .. } => flat_visit(*left, branching) && flat_visit(
            *right,
            branching,
        ),
        FormulaM::Imply { left, right, not_left } => (if branching {
            flat_visit(*not_left, branching)
        } else {
            flat_visit(*left, branching)
        }) && flat_visit(*right, branching),
        FormulaM::Prop(_) => true,
    }
}

pub open spec fn flat_visit_prefix(s: Seq<FormulaM>, branching: bool, n: int) -> bool
    decreases s, 0int, n,
{
    if n <= 0 || n > s.len() {
        true
    } else {
        flat_visit_prefix(s, branching, n - 1) && flat_visit(s[n - 1], branching)
    }
}

proof fn lemma_flat_visit_prefix(s: Seq<FormulaM>, branching: bool, n: int)
    requires
        flat_visit_prefix(s, branching, n),
    ensures
        forall|i: int| 0 <= i < n <= s.len() ==> flat_visit(#[trigger] s[i], branching),
    decreases n,
{
    if 0 < n <= s.len() {
        lemma_flat_visit_prefix(s, branching, n - 1);
    }
}

/// The largest number of operands of a disjunction; implications count their two
/// operands.
pub open spec fn spec_disjunction_max_width(f: FormulaM) -> int
    decreases f, 1int,
{
    match f {
        FormulaM::Or(s) => imax(s.len() as int, disjunction_max_prefix(s, s.len() as int)),
        FormulaM::And(s) => disjunction_max_prefix(s, s.len() as int),
        FormulaM::Not(b) => spec_disjunction_max_width(*b),
        FormulaM::O(b) => spec_disjunction_max_width(*b),
        FormulaM::G { phi, .. } => spec_disjunction_max_width(*phi),
        FormulaM::F { phi, .. } => spec_disjunction_max_width(*phi),
        FormulaM::U { left, right, .. } => imax(
            spec_disjunction_max_width(*left),
            spec_disjunction_max_width(*right),
        ),
        FormulaM::R { left, right, .. } => imax(
            spec_disjunction_max_width(*left),
            spec_disjunction_max_width(*right),
        ),
        FormulaM::Imply { left, right, .. } => imax(
            spec_disjunction_max_width(*left),
            spec_disjunction_max_width(*right),
        ),
        FormulaM::Prop(_) => 0,
    }
}

pub open spec fn disjunction_max_prefix(s: Seq<FormulaM>, n: int) -> int
    decreases s, 0int, n,
{
    if n <= 0 || n > s.len() {
        0
    } else {
        imax(disjunction_max_prefix(s, n - 1), spec_disjunction_max_width(s[n - 1]))
    }
}

proof fn lemma_disjunction_max_prefix(s: Seq<FormulaM>, n: int)
    ensures
        forall|i: int|
            0 <= i < n <= s.len() ==> spec_disjunction_max_width(#[trigger] s[i])
                <= disjunction_max_prefix(s, n),
    decreases n,
{
    if 0 < n <= s.len() {
        lemma_disjunction_max_prefix(s, n - 1);
    }
}

/// The number of operands of all disjunctions together; implications count their two
/// operands.
pub open spec fn spec_disjunction_total_width(f: FormulaM) -> int
    decreases f, 1int,
{
    match f {
        FormulaM::Or(s) => s.len() + disjunction_total_prefix(s, s.len() as int),
        FormulaM::And(s) => disjunction_total_prefix(s, s.len() as int),
        FormulaM::Not(b) => spec_disjunction_total_width(*b),
        FormulaM::O(b) => spec_disjunction_total_width(*b),
        FormulaM::G { phi, .. } => spec_disjunction_total_width(*phi),
        FormulaM::F { phi, .. } => spec_disjunction_total_width(*phi),
        FormulaM::U { left, right, .. } => spec_disjunction_total_width(*left)
            + spec_disjunction_total_width(*right),
        FormulaM::R { left, right, .. } => spec_disjunction_total_width(*left)
            + spec_disjunction_total_width(*right),
        FormulaM::Imply { left, right, .. } => spec_disjunction_total_width(*left)
            + spec_disjunction_total_width(*right),
        FormulaM::Prop(_) => 0,
    }
}

pub open spec fn disjunction_total_prefix(s: Seq<FormulaM>, n: int) -> int
    decreases s, 0int, n,
{
    if n <= 0 || n > s.len() {
        0
    } else {
        disjunction_total_prefix(s, n - 1) + spec_disjunction_total_width(s[n - 1])
    }
}

proof fn lemma_disjunction_total_nonneg(f: FormulaM)
    ensures
        spec_disjunction_total_width(f) >= 0,
    decreases f, 1int,
{
    match f {
        FormulaM::And(s) => lemma_disjunction_total_prefix(s, s.len() as int),
        FormulaM::Or(s) => lemma_disjunction_total_prefix(s, s.len() as int),
        FormulaM::Not(b) => lemma_disjunction_total_nonneg(*b),
        FormulaM::O(b) => lemma_disjunction_total_nonneg(*b),
        FormulaM::G { phi, .. } => lemma_disjunction_total_nonneg(*phi),
        FormulaM::F { phi, .. } => lemma_disjunction_total_nonneg(*phi),
        FormulaM::U { left, right, .. } => {
            lemma_disjunction_total_nonneg(*left);
            lemma_disjunction_total_nonneg(*right);
        },
        FormulaM::R { left, right, .. } => {
            lemma_disjunction_total_nonneg(*left);
            lemma_disjunction_total_nonneg(*right);
        },
        FormulaM::Imply { left, right, .. } => {
            lemma_disjunction_total_nonneg(*left);
            lemma_disjunction_total_nonneg(*right);
        },
        FormulaM::Prop(_) => {},
    }
}

proof fn lemma_disjunction_total_prefix(s: Seq<FormulaM>, n: int)
    ensures
        disjunction_total_prefix(s, n) >= 0,
        forall|m: int|
            0 <= m <= n <= s.len() ==> #[trigger] disjunction_total_prefix(s, m)
                <= disjunction_total_prefix(s, n),
    decreases s, 0int, n,
{
    if 0 < n <= s.len() {
        lemma_disjunction_total_prefix(s, n - 1);
        lemma_disjunction_total_nonneg(s[n - 1]);
    }
}

/// The number of branches a tableau may open: a disjunction adds those of its operands,
/// a conjunction, `U` and `R` multiply them, an implication adds those of the negation of
/// its premise and of its conclusion; a proposition opens one.
pub open spec fn spec_branching(f: FormulaM) -> int
    decreases f, 1int,
{
    match f {
        FormulaM::Or(s) => branching_sum_prefix(s, s.len() as int),
        FormulaM::And(s) => branching_product_prefix(s, s.len() as int),
        FormulaM::Not(b) => spec_branching(*b),
        FormulaM::O(b) => spec_branching(*b),
        FormulaM::G { phi, .. } => spec_branching(*phi),
        FormulaM::F { phi, .. } => spec_branching(*phi),
        FormulaM::U { left, right, .. } => spec_branching(*left) * spec_branching(*right),
        FormulaM::R { left, right, .. } => spec_branching(*left) * spec_branching(*right),
        FormulaM::Imply { right, not_left, .. } => spec_branching(*not_left) + spec_branching(
            *right,
        ),
        FormulaM::Prop(_) => 1,
    }
}

pub open spec fn branching_sum_prefix(s: Seq<FormulaM>, n: int) -> int
    decreases s, 0int, n,
{
    if n <= 0 || n > s.len() {
        0
    } else {
        branching_sum_prefix(s, n - 1) + spec_branching(s[n - 1])
    }
}

pub open spec fn branching_product_prefix(s: Seq<FormulaM>, n: int) -> int
    decreases s, 0int, n,
{
    if n <= 0 || n > s.len() {
        1
    } else {
        branching_product_prefix(s, n - 1) * spec_branching(s[n - 1])
    }
}

/// Every sum and product computed on the way, from the leaves up and from left to right,
/// fits in an `i64`.
pub open spec fn branching_fits(f: FormulaM) -> bool
    decreases f, 1int,
{
    match f {
        FormulaM::Or(s) => branching_fits_prefix(s, s.len() as int) && branching_sum_prefix(
            s,
            s.len() as int,
        ) <= i64::MAX,
        FormulaM::And(s) => branching_fits_prefix(s, s.len() as int) && forall|m: int|
            0 <= m <= s.len() ==> #[trigger] branching_product_prefix(s, m) <= i64::MAX,
        FormulaM::Not(b) => branching_fits(*b),
        FormulaM::O(b) => branching_fits(*b),
        FormulaM::G { phi, .. } => branching_fits(*phi),
        FormulaM::F { phi, .. } => branching_fits(*phi),
        FormulaM::U { left, right, .. } => branching_fits(*left) && branching_fits(*right)
            && spec_branching(f) <= i64::MAX,
        FormulaM::R { left, right, .. } => branching_fits(*left) && branching_fits(*right)
            && spec_branching(f) <= i64::MAX,
        FormulaM::Imply { right, not_left, .. } => branching_fits(*not_left) && branching_fits(
            *right,
        ) && spec_branching(f) <= i64::MAX,
        FormulaM::Prop(_) => true,
    }
}

pub open spec fn branching_fits_prefix(s: Seq<FormulaM>, n: int) -> bool
    decreases s, 0int, n,
{
    if n <= 0 || n > s.len() {
        true
    } else {
        branching_fits_prefix(s, n - 1) && branching_fits(s[n - 1])
    }
}

proof fn lemma_branching_fits_prefix(s: Seq<FormulaM>, n: int)
    requires
        branching_fits_prefix(s, n),
    ensures
        forall|i: int| 0 <= i < n <= s.len() ==> branching_fits(#[trigger] s[i]),
    decreases n,
{
    if 0 < n <= s.len() {
        lemma_branching_fits_prefix(s, n - 1);
    }
}

proof fn lemma_branching_nonneg(f: FormulaM)
    ensures
        spec_branching(f) >= 0,
    decreases f, 1int,
{
    match f {
        FormulaM::And(s) => lemma_branching_prefix_nonneg(s, s.len() as int),
        FormulaM::Or(s) => lemma_branching_prefix_nonneg(s, s.len() as int),
        FormulaM::Not(b) => lemma_branching_nonneg(*b),
        FormulaM::O(b) => lemma_branching_nonneg(*b),
        FormulaM::G { phi, .. } => lemma_branching_nonneg(*phi),
        FormulaM::F { phi, .. } => lemma_branching_nonneg(*phi),
        FormulaM::U { left, right, .. } => {
            lemma_branching_nonneg(*left);
            lemma_branching_nonneg(*right);
            vstd::arithmetic::mul::lemma_mul_nonnegative(
                spec_branching(*left),
                spec_branching(*right),
            );
        },
        FormulaM::R { left, right, .. } => {
            lemma_branching_nonneg(*left);
            lemma_branching_nonneg(*right);
            vstd::arithmetic::mul::lemma_mul_nonnegative(
                spec_branching(*left),
                spec_branching(*right),
            );
        },
        FormulaM::Imply { right, not_left, .. } => {
            lemma_branching_nonneg(*not_left);
            lemma_branching_nonneg(*right);
        },
        FormulaM::Prop(_) => {},
    }
}

proof fn lemma_branching_prefix_nonneg(s: Seq<FormulaM>, n: int)
    ensures
        branching_sum_prefix(s, n) >= 0,
        branching_product_prefix(s, n) >= 0,
        forall|m: int|
            0 <= m <= n <= s.len() ==> #[trigger] branching_sum_prefix(s, m)
                <= branching_sum_prefix(s, n),
    decreases s, 0int, n,
{
    if 0 < n <= s.len() {
        lemma_branching_prefix_nonneg(s, n - 1);
        lemma_branching_nonneg(s[n - 1]);
        vstd::arithmetic::mul::lemma_mul_nonnegative(
            branching_product_prefix(s, n - 1),
            spec_branching(s[n - 1]),
        );
    }
}

impl Formula {
    /// The largest number of operands of a disjunction (see `spec_disjunction_max_width`).
    pub fn disjunction_max_width(&self) -> (r: i32)
        requires
            flat_visit(self@, false),
            spec_disjunction_max_width(self@) <= i32::MAX,
        ensures
            r == spec_disjunction_max_width(self@),
        decreases self,
    {
        match self {
            Formula::And(v) | Formula::Or(v) => {
                proof {
                    lemma_view_junction(*v);
                    lemma_disjunction_max_prefix(fviews(v@), v@.len() as int);
                    lemma_flat_visit_prefix(fviews(v@), false, v@.len() as int);
                }
                let mut acc: i32 = 0;
                let mut i: usize = 0;
                while i < v.len()
                    invariant
                        crate::formula::operands_of(*self, *v),
                        i <= v@.len(),
                        acc == disjunction_max_prefix(fviews(v@), i as int),
                        forall|j: int|
                            0 <= j < v@.len() ==> flat_visit(#[trigger] fviews(v@)[j], false)
                                && spec_disjunction_max_width(fviews(v@)[j]) <= i32::MAX,
                    decreases v@.len() - i,
                {
                    proof {
                        lemma_operand_decreases(*self, *v, i as int);
                    }
                    assert(fviews(v@)[i as int] == v@[i as int]@);
                    let c = v[i].disjunction_max_width();
                    if c > acc {
                        acc = c;
                    }
                    i += 1;
                }
                match self {
                    Formula::Or(_) => {
                        let n = v.len() as i32;
                        if n >= acc {
                            n
                        } else {
                            acc
                        }
                    },
                    _ => acc,
                }
            },
            Formula::Not(b) | Formula::O(b) => b.disjunction_max_width(),
            Formula::G { phi, .. } | Formula::F { phi, .. } => phi.disjunction_max_width(),
            Formula::U { left, right, .. } | Formula::R { left, right, .. } | Formula::Imply {
                left,
                right,
                ..
            } => {
                let l = left.disjunction_max_width();
                let r = right.disjunction_max_width();
                if l >= r {
                    l
                } else {
                    r
                }
            },
            Formula::Prop(_) => 0,
        }
    }

    /// The number of operands of all disjunctions together (see
    /// `spec_disjunction_total_width`).
    pub fn disjunction_total_width(&self) -> (r: i32)
        requires
            flat_visit(self@, false),
            spec_disjunction_total_width(self@) <= i32::MAX,
        ensures
            r == spec_disjunction_total_width(self@),
        decreases self,
    {
        match self {
            Formula::And(v) | Formula::Or(v) => {
                proof {
                    lemma_view_junction(*v);
                    lemma_disjunction_total_prefix(fviews(v@), v@.len() as int);
                    lemma_flat_visit_prefix(fviews(v@), false, v@.len() as int);
                }
                let mut acc: i32 = 0;
                let mut i: usize = 0;
                while i < v.len()
                    invariant
                        crate::formula::operands_of(*self, *v),
                        i <= v@.len(),
                        acc == disjunction_total_prefix(fviews(v@), i as int),
                        disjunction_total_prefix(fviews(v@), v@.len() as int) <= i32::MAX,
                        forall|m: int|
                            0 <= m <= v@.len() ==> #[trigger] disjunction_total_prefix(
                                fviews(v@),
                                m,
                            ) <= disjunction_total_prefix(fviews(v@), v@.len() as int),
                        forall|j: int|
                            0 <= j < v@.len() ==> flat_visit(#[trigger] fviews(v@)[j], false),
                    decreases v@.len() - i,
                {
                    proof {
                        lemma_operand_decreases(*self, *v, i as int);
                        lemma_disjunction_total_prefix(fviews(v@), i as int);
                        lemma_disjunction_total_nonneg(fviews(v@)[i as int]);
                        assert(disjunction_total_prefix(fviews(v@), i + 1)
                            == disjunction_total_prefix(fviews(v@), i as int)
                            + spec_disjunction_total_width(fviews(v@)[i as int]));
                    }
                    assert(fviews(v@)[i as int] == v@[i as int]@);
                    let c = v[i].disjunction_total_width();
                    acc = acc + c;
                    i += 1;
                }
                match self {
                    Formula::Or(_) => (v.len() as i32) + acc,
                    _ => acc,
                }
            },
            Formula::Not(b) | Formula::O(b) => b.disjunction_total_width(),
            Formula::G { phi, .. } | Formula::F { phi, .. } => phi.disjunction_total_width(),
            Formula::U { left, right, .. } | Formula::R { left, right, .. } | Formula::Imply {
                left,
                right,
                ..
            } => {
                proof {
                    lemma_disjunction_total_nonneg(left@);
                    lemma_disjunction_total_nonneg(right@);
                }
                let l = left.disjunction_total_width();
                let r = right.disjunction_total_width();
                l + r
            },
            Formula::Prop(_) => 0,
        }
    }

    /// The number of branches a tableau may open (see `spec_branching`).
    pub fn combinatorial_branching_count(&self) -> (r: i64)
        requires
            flat_visit(self@, true),
            branching_fits(self@),
        ensures
            r == spec_branching(self@),
        decreases self,
    {
        match self {
            Formula::Or(v) => {
                proof {
                    lemma_view_junction(*v);
                    lemma_branching_prefix_nonneg(fviews(v@), v@.len() as int);
                    lemma_flat_visit_prefix(fviews(v@), true, v@.len() as int);
                    lemma_branching_fits_prefix(fviews(v@), v@.len() as int);
                }
                let mut acc: i64 = 0;
                let mut i: usize = 0;
                while i < v.len()
                    invariant
                        crate::formula::operands_of(*self, *v),
                        i <= v@.len(),
                        acc == branching_sum_prefix(fviews(v@), i as int),
                        branching_sum_prefix(fviews(v@), v@.len() as int) <= i64::MAX,
                        forall|m: int|
                            0 <= m <= v@.len() ==> #[trigger] branching_sum_prefix(fviews(v@), m)
                                <= branching_sum_prefix(fviews(v@), v@.len() as int),
                        forall|j: int|
                            0 <= j < v@.len() ==> flat_visit(#[trigger] fviews(v@)[j], true)
                                && branching_fits(fviews(v@)[j]),
                    decreases v@.len() - i,
                {
                    proof {
                        lemma_operand_decreases(*self, *v, i as int);
                        lemma_branching_prefix_nonneg(fviews(v@), i as int);
                        lemma_branching_nonneg(fviews(v@)[i as int]);
                        assert(branching_sum_prefix(fviews(v@), i + 1) == branching_sum_prefix(
                            fviews(v@),
                            i as int,
                        ) + spec_branching(fviews(v@)[i as int]));
                    }
                    assert(fviews(v@)[i as int] == v@[i as int]@);
                    let c = v[i].combinatorial_branching_count();
                    acc = acc + c;
                    i += 1;
                }
                acc
            },
            Formula::And(v) => {
                proof {
                    lemma_view_junction(*v);
                    lemma_flat_visit_prefix(fviews(v@), true, v@.len() as int);
                    lemma_branching_fits_prefix(fviews(v@), v@.len() as int);
                }
                let mut acc: i64 = 1;
                let mut i: usize = 0;
                while i < v.len()
                    invariant
                        crate::formula::operands_of(*self, *v),
                        i <= v@.len(),
                        acc == branching_product_prefix(fviews(v@), i as int),
                        forall|m: int|
                            0 <= m <= v@.len() ==> #[trigger] branching_product_prefix(
                                fviews(v@),
                                m,
                            ) <= i64::MAX,
                        forall|j: int|
                            0 <= j < v@.len() ==> flat_visit(#[trigger] fviews(v@)[j], true)
                                && branching_fits(fviews(v@)[j]),
                    decreases v@.len() - i,
                {
                    proof {
                        lemma_operand_decreases(*self, *v, i as int);
                        lemma_branching_prefix_nonneg(fviews(v@), i as int);
                        lemma_branching_nonneg(fviews(v@)[i as int]);
                        assert(branching_product_prefix(fviews(v@), i + 1)
                            == branching_product_prefix(fviews(v@), i as int) * spec_branching(
                            fviews(v@)[i as int],
                        ));
                        assert(branching_product_prefix(fviews(v@), i + 1) <= i64::MAX);
                    }
                    assert(fviews(v@)[i as int] == v@[i as int]@);
                    let c = v[i].combinatorial_branching_count();
                    acc = acc * c;
                    i += 1;
                }
                acc
            },
            Formula::Not(b) | Formula::O(b) => b.combinatorial_branching_count(),
            Formula::G { phi, .. } | Formula::F { phi, .. } => phi.combinatorial_branching_count(),
            Formula::U { left, right, .. } | Formula::R { left, right, .. } => {
                proof {
                    lemma_branching_nonneg(left@);
                    lemma_branching_nonneg(right@);
                    vstd::arithmetic::mul::lemma_mul_nonnegative(
                        spec_branching(left@),
                        spec_branching(right@),
                    );
                }
                let l = left.combinatorial_branching_count();
                let r = right.combinatorial_branching_count();
                l * r
            },
            Formula::Imply { right, not_left, .. } => {
                proof {
                    lemma_branching_nonneg(not_left@);
                    lemma_branching_nonneg(right@);
                }
                let l = not_left.combinatorial_branching_count();
                let r = right.combinatorial_branching_count();
                l + r
            },
            Formula::Prop(_) => 1,
        }
    }
}

/// The column names of a table of formula statistics, separated by commas.
pub fn stats_header() -> (r: &'static str)
    ensures
        r@ == "depth,temporal_depth,horizon,nodes,temporal_nodes,propositional_nodes,f_nodes,g_nodes,u_nodes,r_nodes,bool_vars,real_vars,branching_factor"@,
{
    "depth,temporal_depth,horizon,nodes,temporal_nodes,propositional_nodes,f_nodes,g_nodes,u_nodes,r_nodes,bool_vars,real_vars,branching_factor"
}

} // verus!
