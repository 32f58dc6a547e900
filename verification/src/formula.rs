use vstd::prelude::*;

use crate::interval::{spec_active, Interval};

verus! {

/// Arithmetic operators of real-valued terms.
#[derive(Clone, Copy, Debug, PartialEq, Eq, Structural, Hash)]
pub enum ArithOp {
    Add,
    Sub,
}

/// Relational operators comparing two real-valued terms.
#[derive(Clone, Copy, Debug, PartialEq, Eq, Structural, Hash)]
pub enum RelOp {
    Lt,
    Le,
    Gt,
    Ge,
    Eq,
    Ne,
}

/// A rational constant `numer / denom`, kept in lowest terms with a positive denominator.
#[derive(Clone, Copy, Debug, PartialEq, Eq, Structural, Hash)]
pub struct Rational {
    numer: i64,
    denom: i64,
}

/// A real-valued term.
#[derive(Debug)]
pub enum AExpr {
    Var(String),
    Num(Rational),
    Abs(Box<AExpr>),
    BinOp { op: ArithOp, left: Box<AExpr>, right: Box<AExpr> },
}

/// The atom an `Expr` states.
#[derive(Debug)]
pub enum ExprKind {
    Atom(String),
    Rel { op: RelOp, left: AExpr, right: AExpr },
    True,
    False,
}

/// A proposition together with the identifier it was given on creation.
#[derive(Debug)]
pub struct Expr {
    pub id: usize,
    pub kind: ExprKind,
}

/// A formula of Signal Temporal Logic over discrete time.
///
/// `Imply` keeps, beside its operands, the negation normal form of its negated premise;
/// `parent_upper` records the upper bound of an enclosing temporal operator after a
/// temporal expansion; `O` marks an obligation postponed to a later instant.
#[derive(Debug)]
pub enum Formula {
    Prop(Expr),
    And(Vec<Formula>),
    Or(Vec<Formula>),
    Imply { left: Box<Formula>, right: Box<Formula>, not_left: Box<Formula> },
    Not(Box<Formula>),
    G { interval: Interval, parent_upper: Option<i32>, phi: Box<Formula> },
    F { interval: Interval, parent_upper: Option<i32>, phi: Box<Formula> },
    U { interval: Interval, parent_upper: Option<i32>, left: Box<Formula>, right: Box<Formula> },
    R { interval: Interval, parent_upper: Option<i32>, left: Box<Formula>, right: Box<Formula> },
    O(Box<Formula>),
}

// ---------------------------------------------------------------------------------------
// Mathematical model
// ---------------------------------------------------------------------------------------
pub enum AExprM {
    Var(Seq<char>),
    Num(Rational),
    Abs(Box<AExprM>),
    BinOp { op: ArithOp, left: Box<AExprM>, right: Box<AExprM> },
}

pub enum ExprKindM {
    Atom(Seq<char>),
    Rel { op: RelOp, left: AExprM, right: AExprM },
    True,
    False,
}

pub struct ExprM {
    pub id: usize,
    pub kind: ExprKindM,
}

pub enum FormulaM {
    Prop(ExprM),
    And(Seq<FormulaM>),
    Or(Seq<FormulaM>),
    Imply { left: Box<FormulaM>, right: Box<FormulaM>, not_left: Box<FormulaM> },
    Not(Box<FormulaM>),
    G { interval: Interval, parent_upper: Option<i32>, phi: Box<FormulaM> },
    F { interval: Interval, parent_upper: Option<i32>, phi: Box<FormulaM> },
    U { interval: Interval, parent_upper: Option<i32>, left: Box<FormulaM>, right: Box<FormulaM> },
    R { interval: Interval, parent_upper: Option<i32>, left: Box<FormulaM>, right: Box<FormulaM> },
    O(Box<FormulaM>),
}

pub open spec fn aexpr_view(e: AExpr) -> AExprM
    decreases e,
{
    match e {
        AExpr::Var(s) => AExprM::Var(s@),
        AExpr::Num(r) => AExprM::Num(r),
        AExpr::Abs(b) => AExprM::Abs(Box::new(aexpr_view(*b))),
        AExpr::BinOp { op, left, right } => AExprM::BinOp {
            op,
            left: Box::new(aexpr_view(*left)),
            right: Box::new(aexpr_view(*right)),
        },
    }
}

impl View for AExpr {
    type V = AExprM;

    open spec fn view(&self) -> AExprM {
        aexpr_view(*self)
    }
}

impl View for ExprKind {
    type V = ExprKindM;

    open spec fn view(&self) -> ExprKindM {
        match self {
            ExprKind::Atom(s) => ExprKindM::Atom(s@),
            ExprKind::Rel { op, left, right } => ExprKindM::Rel { op: *op, left: left@, right: right@ },
            ExprKind::True => ExprKindM::True,
            ExprKind::False => ExprKindM::False,
        }
    }
}

impl View for Expr {
    type V = ExprM;

    open spec fn view(&self) -> ExprM {
        ExprM { id: self.id, kind: self.kind@ }
    }
}

pub open spec fn fview(f: Formula) -> FormulaM
    decreases f,
{
    match f {
        Formula::Prop(e) => FormulaM::Prop(e@),
        Formula::And(v) => {
            proof {
                broadcast use vstd::std_specs::vec::axiom_vec_decreases_to_view;

                assert(decreases_to!(v => v@));
            }
            FormulaM::And(Seq::new(v@.len(), |i: int| fview_at(v@, i)))
        },
        Formula::Or(v) => {
            proof {
                broadcast use vstd::std_specs::vec::axiom_vec_decreases_to_view;

                assert(decreases_to!(v => v@));
            }
            FormulaM::Or(Seq::new(v@.len(), |i: int| fview_at(v@, i)))
        },
        Formula::Imply { left, right, not_left } => FormulaM::Imply {
            left: Box::new(fview(*left)),
            right: Box::new(fview(*right)),
            not_left: Box::new(fview(*not_left)),
        },
        Formula::Not(b) => FormulaM::Not(Box::new(fview(*b))),
        Formula::G { interval, parent_upper, phi } => FormulaM::G {
            interval,
            parent_upper,
            phi: Box::new(fview(*phi)),
        },
        Formula::F { interval, parent_upper, phi } => FormulaM::F {
            interval,
            parent_upper,
            phi: Box::new(fview(*phi)),
        },
        Formula::U { interval, parent_upper, left, right } => FormulaM::U {
            interval,
            parent_upper,
            left: Box::new(fview(*left)),
            right: Box::new(fview(*right)),
        },
        Formula::R { interval, parent_upper, left, right } => FormulaM::R {
            interval,
            parent_upper,
            left: Box::new(fview(*left)),
            right: Box::new(fview(*right)),
        },
        Formula::O(b) => FormulaM::O(Box::new(fview(*b))),
    }
}

pub open spec fn fview_at(s: Seq<Formula>, i: int) -> FormulaM
    decreases s,
{
    if 0 <= i < s.len() {
        fview(s[i])
    } else {
        FormulaM::And(Seq::empty())
    }
}

/// The models of a sequence of formulas.
pub open spec fn fviews(s: Seq<Formula>) -> Seq<FormulaM> {
    Seq::new(s.len(), |i: int| fview(s[i]))
}

impl View for Formula {
    type V = FormulaM;

    open spec fn view(&self) -> FormulaM {
        fview(*self)
    }
}

pub proof fn lemma_view_and(v: Vec<Formula>)
    ensures
        fview(Formula::And(v)) == FormulaM::And(fviews(v@)),
{
    let t = fview(Formula::And(v))->And_0;
    assert(t.len() == v@.len());
    assert forall|i: int| 0 <= i < v@.len() implies t[i] == fviews(v@)[i] by {
        assert(t[i] == fview_at(v@, i));
    }
    assert(t =~= fviews(v@));
}

pub proof fn lemma_view_or(v: Vec<Formula>)
    ensures
        fview(Formula::Or(v)) == FormulaM::Or(fviews(v@)),
{
    let t = fview(Formula::Or(v))->Or_0;
    assert(t.len() == v@.len());
    assert forall|i: int| 0 <= i < v@.len() implies t[i] == fviews(v@)[i] by {
        assert(t[i] == fview_at(v@, i));
    }
    assert(t =~= fviews(v@));
}

pub proof fn lemma_view_junction(v: Vec<Formula>)
    ensures
        fview(Formula::And(v)) == FormulaM::And(fviews(v@)),
        fview(Formula::Or(v)) == FormulaM::Or(fviews(v@)),
{
    lemma_view_and(v);
    lemma_view_or(v);
}

// ---------------------------------------------------------------------------------------
// Identifiers
// ---------------------------------------------------------------------------------------
/// A source of identifiers: each call of `fresh` hands out the next counter value.
pub struct IdGen {
    pub next: usize,
}

impl IdGen {
    pub fn new() -> (r: IdGen)
        ensures
            r.next == 0,
    {
        IdGen { next: 0 }
    }

    pub fn starting_at(next: usize) -> (r: IdGen)
        ensures
            r.next == next,
    {
        IdGen { next }
    }

    pub fn fresh(&mut self) -> (r: usize)
        ensures
            r == old(self).next,
            final(self).next == (if old(self).next == usize::MAX { 0 } else { (old(self).next + 1) as usize }),
    {
        let r = self.next;
        self.next = self.next.wrapping_add(1);
        r
    }
}


// ---------------------------------------------------------------------------------------
// Copies
// ---------------------------------------------------------------------------------------
pub fn aexpr_clone(e: &AExpr) -> (r: AExpr)
    ensures
        r@ == e@,
    decreases e,
{
    match e {
        AExpr::Var(s) => AExpr::Var(s.clone()),
        AExpr::Num(n) => AExpr::Num(*n),
        AExpr::Abs(b) => AExpr::Abs(Box::new(aexpr_clone(b))),
        AExpr::BinOp { op, left, right } => AExpr::BinOp {
            op: *op,
            left: Box::new(aexpr_clone(left)),
            right: Box::new(aexpr_clone(right)),
        },
    }
}

impl Clone for AExpr {
    fn clone(&self) -> (r: Self)
        ensures
            r@ == self@,
    {
        aexpr_clone(self)
    }
}

impl Clone for ExprKind {
    fn clone(&self) -> (r: Self)
        ensures
            r@ == self@,
    {
        match self {
            ExprKind::Atom(s) => ExprKind::Atom(s.clone()),
            ExprKind::Rel { op, left, right } => ExprKind::Rel {
                op: *op,
                left: aexpr_clone(left),
                right: aexpr_clone(right),
            },
            ExprKind::True => ExprKind::True,
            ExprKind::False => ExprKind::False,
        }
    }
}

impl Clone for Expr {
    fn clone(&self) -> (r: Self)
        ensures
            r@ == self@,
    {
        Expr { id: self.id, kind: self.kind.clone() }
    }
}

pub fn formula_clone(f: &Formula) -> (r: Formula)
    ensures
        r@ == f@,
    decreases f,
{
    match f {
        Formula::Prop(e) => Formula::Prop(e.clone()),
        Formula::And(v) => {
            let out = clone_operands_of(f, v);
            proof {
                lemma_view_junction(out);
                lemma_view_junction(*v);
                assert(fviews(out@) =~= fviews(v@));
            }
            Formula::And(out)
        },
        Formula::Or(v) => {
            let out = clone_operands_of(f, v);
            proof {
                lemma_view_junction(out);
                lemma_view_junction(*v);
                assert(fviews(out@) =~= fviews(v@));
            }
            Formula::Or(out)
        },
        Formula::Imply { left, right, not_left } => Formula::Imply {
            left: Box::new(formula_clone(left)),
            right: Box::new(formula_clone(right)),
            not_left: Box::new(formula_clone(not_left)),
        },
        Formula::Not(b) => Formula::Not(Box::new(formula_clone(b))),
        Formula::G { interval, parent_upper, phi } => Formula::G {
            interval: *interval,
            parent_upper: *parent_upper,
            phi: Box::new(formula_clone(phi)),
        },
        Formula::F { interval, parent_upper, phi } => Formula::F {
            interval: *interval,
            parent_upper: *parent_upper,
            phi: Box::new(formula_clone(phi)),
        },
        Formula::U { interval, parent_upper, left, right } => Formula::U {
            interval: *interval,
            parent_upper: *parent_upper,
            left: Box::new(formula_clone(left)),
            right: Box::new(formula_clone(right)),
        },
        Formula::R { interval, parent_upper, left, right } => Formula::R {
            interval: *interval,
            parent_upper: *parent_upper,
            left: Box::new(formula_clone(left)),
            right: Box::new(formula_clone(right)),
        },
        Formula::O(b) => Formula::O(Box::new(formula_clone(b))),
    }
}

/// `v` is the operand list of the junction `f`, so each operand is smaller than `f`.
pub open spec fn operands_of(f: Formula, v: Vec<Formula>) -> bool {
    f == Formula::And(v) || f == Formula::Or(v)
}

pub proof fn lemma_operand_decreases(f: Formula, v: Vec<Formula>, i: int)
    requires
        operands_of(f, v),
        0 <= i < v@.len(),
    ensures
        decreases_to!(f => v@[i]),
{
    broadcast use vstd::std_specs::vec::axiom_vec_index_decreases;

    assert(decreases_to!(v => v@[i]));
    if f == Formula::And(v) {
        assert(decreases_to!(f => f->And_0));
    } else {
        assert(decreases_to!(f => f->Or_0));
    }
}

fn clone_operands_of(f: &Formula, v: &Vec<Formula>) -> (r: Vec<Formula>)
    requires
        operands_of(*f, *v),
    ensures
        fviews(r@) == fviews(v@),
    decreases f, 0nat,
{
    let mut out: Vec<Formula> = Vec::new();
    let mut i: usize = 0;
    while i < v.len()
        invariant
            operands_of(*f, *v),
            i <= v.len(),
            out@.len() == i,
            forall|j: int| 0 <= j < i ==> (#[trigger] out@[j])@ == v@[j]@,
        decreases v.len() - i,
    {
        proof {
            lemma_operand_decreases(*f, *v, i as int);
        }
        let c = formula_clone(&v[i]);
        out.push(c);
        i += 1;
    }
    assert(fviews(out@) =~= fviews(v@));
    out
}

/// A copy of each formula of `v`.
pub fn clone_formulas(v: &Vec<Formula>) -> (r: Vec<Formula>)
    ensures
        fviews(r@) == fviews(v@),
{
    let mut out: Vec<Formula> = Vec::new();
    let mut i: usize = 0;
    while i < v.len()
        invariant
            i <= v.len(),
            out@.len() == i,
            forall|j: int| 0 <= j < i ==> (#[trigger] out@[j])@ == v@[j]@,
        decreases v.len() - i,
    {
        let c = formula_clone(&v[i]);
        out.push(c);
        i += 1;
    }
    assert(fviews(out@) =~= fviews(v@));
    out
}

impl Clone for Formula {
    fn clone(&self) -> (r: Self)
        ensures
            r@ == self@,
    {
        formula_clone(self)
    }
}


// ---------------------------------------------------------------------------------------
// Constructors
// ---------------------------------------------------------------------------------------
impl Expr {
    /// A proposition with the next identifier of `ids`.
    pub fn from_expr(kind: ExprKind, ids: &mut IdGen) -> (r: Expr)
        ensures
            r.id == old(ids).next,
            r.kind@ == kind@,
            final(ids).next == (if old(ids).next == usize::MAX { 0 } else { (old(ids).next + 1) as usize }),
    {
        let id = ids.fresh();
        Expr { id, kind }
    }

    /// A boolean atom.
    pub fn bool(var: String, ids: &mut IdGen) -> (r: Expr)
        ensures
            r.id == old(ids).next,
            r.kind@ == ExprKindM::Atom(var@),
            final(ids).next == (if old(ids).next == usize::MAX { 0 } else { (old(ids).next + 1) as usize }),
    {
        Expr::from_expr(ExprKind::Atom(var), ids)
    }

    /// A comparison of two real-valued terms.
    pub fn real_rel(op: RelOp, left: AExpr, right: AExpr, ids: &mut IdGen) -> (r: Expr)
        ensures
            r.id == old(ids).next,
            r.kind@ == (ExprKindM::Rel { op, left: left@, right: right@ }),
            final(ids).next == (if old(ids).next == usize::MAX { 0 } else { (old(ids).next + 1) as usize }),
    {
        Expr::from_expr(ExprKind::Rel { op, left, right }, ids)
    }

    /// The constant `true`.
    pub fn true_expr(ids: &mut IdGen) -> (r: Expr)
        ensures
            r.id == old(ids).next,
            r.kind@ == ExprKindM::True,
            final(ids).next == (if old(ids).next == usize::MAX { 0 } else { (old(ids).next + 1) as usize }),
    {
        Expr::from_expr(ExprKind::True, ids)
    }

    /// The constant `false`.
    pub fn false_expr(ids: &mut IdGen) -> (r: Expr)
        ensures
            r.id == old(ids).next,
            r.kind@ == ExprKindM::False,
            final(ids).next == (if old(ids).next == usize::MAX { 0 } else { (old(ids).next + 1) as usize }),
    {
        Expr::from_expr(ExprKind::False, ids)
    }
}

impl Formula {
    pub fn prop(expr: Expr) -> (r: Formula)
        ensures
            r@ == FormulaM::Prop(expr@),
    {
        Formula::Prop(expr)
    }

    pub fn and(operands: Vec<Formula>) -> (r: Formula)
        ensures
            r@ == FormulaM::And(fviews(operands@)),
    {
        proof {
            lemma_view_junction(operands);
        }
        Formula::And(operands)
    }

    pub fn or(operands: Vec<Formula>) -> (r: Formula)
        ensures
            r@ == FormulaM::Or(fviews(operands@)),
    {
        proof {
            lemma_view_junction(operands);
        }
        Formula::Or(operands)
    }

    pub fn not(inner: Formula) -> (r: Formula)
        ensures
            r@ == FormulaM::Not(Box::new(inner@)),
    {
        Formula::Not(Box::new(inner))
    }

    pub fn g(interval: Interval, parent_upper: Option<i32>, phi: Formula) -> (r: Formula)
        ensures
            r@ == (FormulaM::G { interval, parent_upper, phi: Box::new(phi@) }),
    {
        Formula::G { interval, parent_upper, phi: Box::new(phi) }
    }

    pub fn f(interval: Interval, parent_upper: Option<i32>, phi: Formula) -> (r: Formula)
        ensures
            r@ == (FormulaM::F { interval, parent_upper, phi: Box::new(phi@) }),
    {
        Formula::F { interval, parent_upper, phi: Box::new(phi) }
    }

    pub fn u(interval: Interval, parent_upper: Option<i32>, left: Formula, right: Formula) -> (r:
        Formula)
        ensures
            r@ == (FormulaM::U {
                interval,
                parent_upper,
                left: Box::new(left@),
                right: Box::new(right@),
            }),
    {
        Formula::U { interval, parent_upper, left: Box::new(left), right: Box::new(right) }
    }

    pub fn r(interval: Interval, parent_upper: Option<i32>, left: Formula, right: Formula) -> (r:
        Formula)
        ensures
            r@ == (FormulaM::R {
                interval,
                parent_upper,
                left: Box::new(left@),
                right: Box::new(right@),
            }),
    {
        Formula::R { interval, parent_upper, left: Box::new(left), right: Box::new(right) }
    }

    pub fn o(inner: Formula) -> (r: Formula)
        ensures
            r@ == FormulaM::O(Box::new(inner@)),
    {
        Formula::O(Box::new(inner))
    }
}

// ---------------------------------------------------------------------------------------
// Structural updates
// ---------------------------------------------------------------------------------------
/// The formula has exactly one direct operand (`!`, `O`, `G`, `F`).
pub open spec fn spec_has_single_operand(f: FormulaM) -> bool {
    f is Not || f is O || f is G || f is F
}

/// The formula has two direct operands (`U`, `R`).
pub open spec fn spec_has_operand_couple(f: FormulaM) -> bool {
    f is U || f is R
}

/// The formula is a temporal operator (`G`, `F`, `U`, `R`).
pub open spec fn spec_is_temporal(f: FormulaM) -> bool {
    f is G || f is F || f is U || f is R
}

pub open spec fn spec_with_operand(f: FormulaM, operand: FormulaM) -> FormulaM {
    match f {
        FormulaM::Not(_) => FormulaM::Not(Box::new(operand)),
        FormulaM::O(_) => FormulaM::O(Box::new(operand)),
        FormulaM::G { interval, parent_upper, .. } => FormulaM::G {
            interval,
            parent_upper,
            phi: Box::new(operand),
        },
        FormulaM::F { interval, parent_upper, .. } => FormulaM::F {
            interval,
            parent_upper,
            phi: Box::new(operand),
        },
        _ => f,
    }
}

pub open spec fn spec_with_operand_couple(f: FormulaM, left: FormulaM, right: FormulaM) -> FormulaM {
    match f {
        FormulaM::U { interval, parent_upper, .. } => FormulaM::U {
            interval,
            parent_upper,
            left: Box::new(left),
            right: Box::new(right),
        },
        FormulaM::R { interval, parent_upper, .. } => FormulaM::R {
            interval,
            parent_upper,
            left: Box::new(left),
            right: Box::new(right),
        },
        _ => f,
    }
}

pub open spec fn spec_with_interval(f: FormulaM, interval: Interval) -> FormulaM {
    match f {
        FormulaM::G { parent_upper, phi, .. } => FormulaM::G { interval, parent_upper, phi },
        FormulaM::F { parent_upper, phi, .. } => FormulaM::F { interval, parent_upper, phi },
        FormulaM::U { parent_upper, left, right, .. } => FormulaM::U {
            interval,
            parent_upper,
            left,
            right,
        },
        FormulaM::R { parent_upper, left, right, .. } => FormulaM::R {
            interval,
            parent_upper,
            left,
            right,
        },
        _ => f,
    }
}

pub open spec fn spec_with_parent_upper(f: FormulaM, parent_upper: Option<i32>) -> FormulaM {
    match f {
        FormulaM::G { interval, phi, .. } => FormulaM::G { interval, parent_upper, phi },
        FormulaM::F { interval, phi, .. } => FormulaM::F { interval, parent_upper, phi },
        FormulaM::U { interval, left, right, .. } => FormulaM::U {
            interval,
            parent_upper,
            left,
            right,
        },
        FormulaM::R { interval, left, right, .. } => FormulaM::R {
            interval,
            parent_upper,
            left,
            right,
        },
        _ => f,
    }
}

pub open spec fn spec_with_operands(f: FormulaM, operands: Seq<FormulaM>) -> FormulaM {
    match f {
        FormulaM::And(_) => FormulaM::And(operands),
        FormulaM::Or(_) => FormulaM::Or(operands),
        _ => f,
    }
}

/// The interval of a temporal operator.
pub open spec fn spec_get_interval(f: FormulaM) -> Option<Interval> {
    match f {
        FormulaM::G { interval, .. } => Some(interval),
        FormulaM::F { interval, .. } => Some(interval),
        FormulaM::U { interval, .. } => Some(interval),
        FormulaM::R { interval, .. } => Some(interval),
        _ => None,
    }
}

impl Formula {
    pub fn with_operand(&self, operand: Formula) -> (r: Formula)
        requires
            spec_has_single_operand(self@),
        ensures
            r@ == spec_with_operand(self@, operand@),
    {
        match self {
            Formula::Not(_) => Formula::Not(Box::new(operand)),
            Formula::O(_) => Formula::O(Box::new(operand)),
            Formula::G { interval, parent_upper, .. } => Formula::G {
                interval: *interval,
                parent_upper: *parent_upper,
                phi: Box::new(operand),
            },
            Formula::F { interval, parent_upper, .. } => Formula::F {
                interval: *interval,
                parent_upper: *parent_upper,
                phi: Box::new(operand),
            },
            _ => {
                assert(false);
                formula_clone(self)
            },
        }
    }

    pub fn with_operand_couple(&self, left: Formula, right: Formula) -> (r: Formula)
        requires
            spec_has_operand_couple(self@),
        ensures
            r@ == spec_with_operand_couple(self@, left@, right@),
    {
        match self {
            Formula::U { interval, parent_upper, .. } => Formula::U {
                interval: *interval,
                parent_upper: *parent_upper,
                left: Box::new(left),
                right: Box::new(right),
            },
            Formula::R { interval, parent_upper, .. } => Formula::R {
                interval: *interval,
                parent_upper: *parent_upper,
                left: Box::new(left),
                right: Box::new(right),
            },
            _ => {
                assert(false);
                formula_clone(self)
            },
        }
    }

    pub fn with_interval(&self, interval: Interval) -> (r: Formula)
        requires
            spec_is_temporal(self@),
        ensures
            r@ == spec_with_interval(self@, interval),
    {
        match self {
            Formula::G { parent_upper, phi, .. } => Formula::G {
                interval,
                parent_upper: *parent_upper,
                phi: Box::new(formula_clone(phi)),
            },
            Formula::F { parent_upper, phi, .. } => Formula::F {
                interval,
                parent_upper: *parent_upper,
                phi: Box::new(formula_clone(phi)),
            },
            Formula::U { parent_upper, left, right, .. } => Formula::U {
                interval,
                parent_upper: *parent_upper,
                left: Box::new(formula_clone(left)),
                right: Box::new(formula_clone(right)),
            },
            Formula::R { parent_upper, left, right, .. } => Formula::R {
                interval,
                parent_upper: *parent_upper,
                left: Box::new(formula_clone(left)),
                right: Box::new(formula_clone(right)),
            },
            _ => {
                assert(false);
                formula_clone(self)
            },
        }
    }

    pub fn with_parent_upper(&self, parent_upper: Option<i32>) -> (r: Formula)
        requires
            spec_is_temporal(self@),
        ensures
            r@ == spec_with_parent_upper(self@, parent_upper),
    {
        match self {
            Formula::G { interval, phi, .. } => Formula::G {
                interval: *interval,
                parent_upper,
                phi: Box::new(formula_clone(phi)),
            },
            Formula::F { interval, phi, .. } => Formula::F {
                interval: *interval,
                parent_upper,
                phi: Box::new(formula_clone(phi)),
            },
            Formula::U { interval, left, right, .. } => Formula::U {
                interval: *interval,
                parent_upper,
                left: Box::new(formula_clone(left)),
                right: Box::new(formula_clone(right)),
            },
            Formula::R { interval, left, right, .. } => Formula::R {
                interval: *interval,
                parent_upper,
                left: Box::new(formula_clone(left)),
                right: Box::new(formula_clone(right)),
            },
            _ => {
                assert(false);
                formula_clone(self)
            },
        }
    }

    pub fn with_operands(&self, operands: Vec<Formula>) -> (r: Formula)
        requires
            self@ is And || self@ is Or,
        ensures
            r@ == spec_with_operands(self@, fviews(operands@)),
    {
        proof {
            lemma_view_junction(operands);
        }
        match self {
            Formula::And(_) => Formula::And(operands),
            _ => Formula::Or(operands),
        }
    }

    pub fn with_implication(&self, left: Formula, right: Formula, not_left: Formula) -> (r: Formula)
        requires
            self@ is Imply,
        ensures
            r@ == (FormulaM::Imply {
                left: Box::new(left@),
                right: Box::new(right@),
                not_left: Box::new(not_left@),
            }),
    {
        Formula::Imply { left: Box::new(left), right: Box::new(right), not_left: Box::new(not_left) }
    }

    pub fn get_interval(&self) -> (r: Option<Interval>)
        ensures
            r == spec_get_interval(self@),
    {
        match self {
            Formula::G { interval, .. } => Some(*interval),
            Formula::F { interval, .. } => Some(*interval),
            Formula::U { interval, .. } => Some(*interval),
            Formula::R { interval, .. } => Some(*interval),
            _ => None,
        }
    }

    pub fn lower_bound(&self) -> (r: Option<i32>)
        ensures
            r == (match spec_get_interval(self@) {
                Some(i) => Some(i.lower),
                None => None,
            }),
    {
        match self.get_interval() {
            Some(i) => Some(i.lower),
            None => None,
        }
    }

    pub fn upper_bound(&self) -> (r: Option<i32>)
        ensures
            r == (match spec_get_interval(self@) {
                Some(i) => Some(i.upper),
                None => None,
            }),
    {
        match self.get_interval() {
            Some(i) => Some(i.upper),
            None => None,
        }
    }
}


// ---------------------------------------------------------------------------------------
// Queries
// ---------------------------------------------------------------------------------------
/// Some temporal operator occurs, looking through `&&`, `||`, `!` and `->` (but not `O`).
pub open spec fn spec_has_temporal(f: FormulaM) -> bool
    decreases f,
{
    match f {
        FormulaM::G { .. } | FormulaM::F { .. } | FormulaM::U { .. } | FormulaM::R { .. } => true,
        FormulaM::And(s) => any_has_temporal_m(s, s.len() as int),
        FormulaM::Or(s) => any_has_temporal_m(s, s.len() as int),
        FormulaM::Not(b) => spec_has_temporal(*b),
        FormulaM::Imply { left, right, .. } => spec_has_temporal(*left) || spec_has_temporal(
            *right,
        ),
        _ => false,
    }
}

/// Some of the first `n` formulas of `s` has a temporal operator.
pub open spec fn any_has_temporal_m(s: Seq<FormulaM>, n: int) -> bool
    decreases s, n,
{
    if n <= 0 || n > s.len() {
        false
    } else {
        any_has_temporal_m(s, n - 1) || spec_has_temporal(s[n - 1])
    }
}

/// A `G`, `U` or `R` whose repeated operand itself holds a temporal operator.
pub open spec fn spec_is_complex_temporal(f: FormulaM) -> bool {
    match f {
        FormulaM::G { phi, .. } => spec_has_temporal(*phi),
        FormulaM::U { left, .. } => spec_has_temporal(*left),
        FormulaM::R { right, .. } => spec_has_temporal(*right),
        _ => false,
    }
}

/// A temporal operator whose interval holds `t`.
pub open spec fn spec_is_active_at(f: FormulaM, t: int) -> bool {
    match spec_get_interval(f) {
        Some(i) => spec_active(i, t),
        None => false,
    }
}

/// The upper bound recorded for the enclosing operator.
pub open spec fn spec_parent_upper(f: FormulaM) -> Option<i32> {
    match f {
        FormulaM::G { parent_upper, .. } => parent_upper,
        FormulaM::F { parent_upper, .. } => parent_upper,
        FormulaM::U { parent_upper, .. } => parent_upper,
        FormulaM::R { parent_upper, .. } => parent_upper,
        _ => None,
    }
}

/// A temporal operator whose enclosing operator has not reached its upper bound at `t`.
pub open spec fn spec_is_parent_active_at(f: FormulaM, t: int) -> bool {
    match spec_parent_upper(f) {
        Some(u) => t < u,
        None => false,
    }
}

/// Negation is applied to propositions only (the operand of `O` is not inspected).
pub open spec fn spec_is_nnf(f: FormulaM) -> bool
    decreases f,
{
    match f {
        FormulaM::Not(inner) => *inner is Prop,
        FormulaM::And(s) => all_nnf_m(s, s.len() as int),
        FormulaM::Or(s) => all_nnf_m(s, s.len() as int),
        FormulaM::Imply { left, right, not_left } => spec_is_nnf(*left) && spec_is_nnf(*right)
            && spec_is_nnf(*not_left),
        FormulaM::G { phi, .. } | FormulaM::F { phi, .. } => spec_is_nnf(*phi),
        FormulaM::U { left, right, .. } | FormulaM::R { left, right, .. } => spec_is_nnf(*left)
            && spec_is_nnf(*right),
        _ => true,
    }
}

/// Each of the first `n` formulas of `s` is in negation normal form.
pub open spec fn all_nnf_m(s: Seq<FormulaM>, n: int) -> bool
    decreases s, n,
{
    if n <= 0 || n > s.len() {
        true
    } else {
        all_nnf_m(s, n - 1) && spec_is_nnf(s[n - 1])
    }
}

/// No conjunction has a conjunction as a direct operand and no disjunction a disjunction;
/// the operands of a junction are not inspected further.
pub open spec fn spec_is_flat(f: FormulaM) -> bool
    decreases f,
{
    match f {
        FormulaM::And(s) => forall|i: int| 0 <= i < s.len() ==> !(#[trigger] s[i] is And),
        FormulaM::Or(s) => forall|i: int| 0 <= i < s.len() ==> !(#[trigger] s[i] is Or),
        FormulaM::Imply { left, right, not_left } => spec_is_flat(*left) && spec_is_flat(*right)
            && spec_is_flat(*not_left),
        FormulaM::G { phi, .. } | FormulaM::F { phi, .. } => spec_is_flat(*phi),
        FormulaM::U { left, right, .. } | FormulaM::R { left, right, .. } => spec_is_flat(*left)
            && spec_is_flat(*right),
        _ => true,
    }
}

/// The larger of two optional bounds, where `None` is below every bound.
pub open spec fn max_opt(a: Option<i32>, b: Option<i32>) -> Option<i32> {
    match (a, b) {
        (None, _) => b,
        (_, None) => a,
        (Some(x), Some(y)) => Some(if x >= y { x } else { y }),
    }
}

/// The largest upper bound among the outermost temporal operators.
pub open spec fn spec_get_max_upper(f: FormulaM) -> Option<i32>
    decreases f,
{
    match f {
        FormulaM::O(b) | FormulaM::Not(b) => spec_get_max_upper(*b),
        FormulaM::And(s) | FormulaM::Or(s) => max_upper_prefix(s, s.len() as int),
        FormulaM::Imply { left, right, .. } => max_opt(
            spec_get_max_upper(*left),
            spec_get_max_upper(*right),
        ),
        FormulaM::G { interval, .. } | FormulaM::F { interval, .. } | FormulaM::U { interval, .. }
        | FormulaM::R { interval, .. } => Some(interval.upper),
        _ => None,
    }
}

/// The largest of the bounds of the first `n` formulas of `s`.
pub open spec fn max_upper_prefix(s: Seq<FormulaM>, n: int) -> Option<i32>
    decreases s, n,
{
    if n <= 0 || n > s.len() {
        None
    } else {
        max_opt(max_upper_prefix(s, n - 1), spec_get_max_upper(s[n - 1]))
    }
}

impl Formula {
    pub fn has_temporal(&self) -> (r: bool)
        ensures
            r == spec_has_temporal(self@),
        decreases self,
    {
        match self {
            Formula::G { .. } => true,
            Formula::F { .. } => true,
            Formula::U { .. } => true,
            Formula::R { .. } => true,
            Formula::And(v) => {
                proof {
                    lemma_view_junction(*v);
                }
                any_has_temporal(self, v)
            },
            Formula::Or(v) => {
                proof {
                    lemma_view_junction(*v);
                }
                any_has_temporal(self, v)
            },
            Formula::Not(inner) => inner.has_temporal(),
            Formula::Imply { left, right, .. } => left.has_temporal() || right.has_temporal(),
            _ => false,
        }
    }

    pub fn is_complex_temporal_operator(&self) -> (r: bool)
        ensures
            r == spec_is_complex_temporal(self@),
    {
        match self {
            Formula::G { phi, .. } => phi.has_temporal(),
            Formula::U { left, .. } => left.has_temporal(),
            Formula::R { right, .. } => right.has_temporal(),
            _ => false,
        }
    }

    pub fn is_active_at(&self, current_time: i32) -> (r: bool)
        ensures
            r == spec_is_active_at(self@, current_time as int),
    {
        match self.get_interval() {
            Some(i) => i.active(current_time),
            None => false,
        }
    }

    pub fn is_parent_active_at(&self, current_time: i32) -> (r: bool)
        ensures
            r == spec_is_parent_active_at(self@, current_time as int),
    {
        match self {
            Formula::G { parent_upper: Some(upper), .. }
            | Formula::F { parent_upper: Some(upper), .. }
            | Formula::U { parent_upper: Some(upper), .. }
            | Formula::R { parent_upper: Some(upper), .. } => current_time < *upper,
            _ => false,
        }
    }

    pub fn is_negation_normal_form(&self) -> (r: bool)
        ensures
            r == spec_is_nnf(self@),
        decreases self,
    {
        match self {
            Formula::Not(inner) => {
                let r = matches!(**inner, Formula::Prop(_));
                assert(r == (fview(**inner) is Prop));
                r
            },
            Formula::And(v) => {
                proof {
                    lemma_view_junction(*v);
                }
                all_nnf(self, v)
            },
            Formula::Or(v) => {
                proof {
                    lemma_view_junction(*v);
                }
                all_nnf(self, v)
            },
            Formula::Imply { left, right, not_left } => left.is_negation_normal_form()
                && right.is_negation_normal_form() && not_left.is_negation_normal_form(),
            Formula::G { phi, .. } => phi.is_negation_normal_form(),
            Formula::F { phi, .. } => phi.is_negation_normal_form(),
            Formula::U { left, right, .. } => left.is_negation_normal_form()
                && right.is_negation_normal_form(),
            Formula::R { left, right, .. } => left.is_negation_normal_form()
                && right.is_negation_normal_form(),
            _ => true,
        }
    }

    pub fn is_flat(&self) -> (r: bool)
        ensures
            r == spec_is_flat(self@),
        decreases self,
    {
        match self {
            Formula::And(v) => {
                proof {
                    lemma_view_junction(*v);
                }
                let mut i: usize = 0;
                while i < v.len()
                    invariant
                        self@ == FormulaM::And(fviews(v@)),
                        i <= v.len(),
                        forall|j: int| 0 <= j < i ==> !(fviews(v@)[j] is And),
                    decreases v.len() - i,
                {
                    if matches!(v[i], Formula::And(_)) {
                        assert(fviews(v@)[i as int] is And);

                        return false;
                    }
                    i += 1;
                }
                true
            },
            Formula::Or(v) => {
                proof {
                    lemma_view_junction(*v);
                }
                let mut i: usize = 0;
                while i < v.len()
                    invariant
                        self@ == FormulaM::Or(fviews(v@)),
                        i <= v.len(),
                        forall|j: int| 0 <= j < i ==> !(fviews(v@)[j] is Or),
                    decreases v.len() - i,
                {
                    if matches!(v[i], Formula::Or(_)) {
                        assert(fviews(v@)[i as int] is Or);
                        return false;
                    }
                    i += 1;
                }
                true
            },
            Formula::Imply { left, right, not_left } => left.is_flat() && right.is_flat()
                && not_left.is_flat(),
            Formula::G { phi, .. } | Formula::F { phi, .. } => phi.is_flat(),
            Formula::U { left, right, .. } | Formula::R { left, right, .. } => left.is_flat()
                && right.is_flat(),
            _ => true,
        }
    }

    pub fn get_max_upper(&self) -> (r: Option<i32>)
        ensures
            r == spec_get_max_upper(self@),
        decreases self,
    {
        match self {
            Formula::O(b) | Formula::Not(b) => b.get_max_upper(),
            Formula::And(v) | Formula::Or(v) => {
                proof {
                    lemma_view_junction(*v);
                }
                let mut best: Option<i32> = None;
                let mut i: usize = 0;
                while i < v.len()
                    invariant
                        operands_of(*self, *v),
                        i <= v.len(),
                        best == max_upper_prefix(fviews(v@), i as int),
                    decreases v.len() - i,
                {
                    proof {
                        lemma_operand_decreases(*self, *v, i as int);
                    }
                    let m = v[i].get_max_upper();
                    best = match (best, m) {
                        (None, _) => m,
                        (_, None) => best,
                        (Some(x), Some(y)) => Some(if x >= y { x } else { y }),
                    };
                    i += 1;
                }
                best
            },
            Formula::Imply { left, right, .. } => {
                let a = left.get_max_upper();
                let b = right.get_max_upper();
                match (a, b) {
                    (None, _) => b,
                    (_, None) => a,
                    (Some(x), Some(y)) => Some(if x >= y { x } else { y }),
                }
            },
            Formula::G { interval, .. } | Formula::F { interval, .. } | Formula::U { interval, .. }
            | Formula::R { interval, .. } => Some(interval.upper),
            _ => None,
        }
    }
}


fn any_has_temporal(f: &Formula, v: &Vec<Formula>) -> (r: bool)
    requires
        operands_of(*f, *v),
    ensures
        r == any_has_temporal_m(fviews(v@), v@.len() as int),
    decreases f, 0nat,
{
    let mut r = false;
    let mut i: usize = 0;
    while i < v.len()
        invariant
            operands_of(*f, *v),
            i <= v.len(),
            r == any_has_temporal_m(fviews(v@), i as int),
        decreases v.len() - i,
    {
        proof {
            lemma_operand_decreases(*f, *v, i as int);
        }
        let t = v[i].has_temporal();
        r = r || t;
        i += 1;
    }
    r
}

fn all_nnf(f: &Formula, v: &Vec<Formula>) -> (r: bool)
    requires
        operands_of(*f, *v),
    ensures
        r == all_nnf_m(fviews(v@), v@.len() as int),
    decreases f, 0nat,
{
    let mut r = true;
    let mut i: usize = 0;
    while i < v.len()
        invariant
            operands_of(*f, *v),
            i <= v.len(),
            r == all_nnf_m(fviews(v@), i as int),
        decreases v.len() - i,
    {
        proof {
            lemma_operand_decreases(*f, *v, i as int);
        }
        let t = v[i].is_negation_normal_form();
        r = r && t;
        i += 1;
    }
    r
}


// ---------------------------------------------------------------------------------------
// Equality
// ---------------------------------------------------------------------------------------
pub fn aexpr_eq(a: &AExpr, b: &AExpr) -> (r: bool)
    ensures
        r == (a@ == b@),
    decreases a,
{
    match (a, b) {
        (AExpr::Var(x), AExpr::Var(y)) => *x == *y,
        (AExpr::Num(x), AExpr::Num(y)) => *x == *y,
        (AExpr::Abs(x), AExpr::Abs(y)) => aexpr_eq(x, y),
        (
            AExpr::BinOp { op: o1, left: l1, right: r1 },
            AExpr::BinOp { op: o2, left: l2, right: r2 },
        ) => *o1 == *o2 && aexpr_eq(l1, l2) && aexpr_eq(r1, r2),
        _ => false,
    }
}

pub fn expr_kind_eq(a: &ExprKind, b: &ExprKind) -> (r: bool)
    ensures
        r == (a@ == b@),
{
    match (a, b) {
        (ExprKind::Atom(x), ExprKind::Atom(y)) => *x == *y,
        (
            ExprKind::Rel { op: o1, left: l1, right: r1 },
            ExprKind::Rel { op: o2, left: l2, right: r2 },
        ) => *o1 == *o2 && aexpr_eq(l1, l2) && aexpr_eq(r1, r2),
        (ExprKind::True, ExprKind::True) => true,
        (ExprKind::False, ExprKind::False) => true,
        _ => false,
    }
}

impl PartialEq for AExpr {
    fn eq(&self, other: &Self) -> (r: bool) {
        aexpr_eq(self, other)
    }
}

impl vstd::std_specs::cmp::PartialEqSpecImpl for AExpr {
    open spec fn obeys_eq_spec() -> bool {
        true
    }

    open spec fn eq_spec(&self, other: &Self) -> bool {
        self@ == other@
    }
}

impl PartialEq for ExprKind {
    fn eq(&self, other: &Self) -> (r: bool) {
        expr_kind_eq(self, other)
    }
}

impl vstd::std_specs::cmp::PartialEqSpecImpl for ExprKind {
    open spec fn obeys_eq_spec() -> bool {
        true
    }

    open spec fn eq_spec(&self, other: &Self) -> bool {
        self@ == other@
    }
}

impl PartialEq for Expr {
    fn eq(&self, other: &Self) -> (r: bool) {
        self.id == other.id && expr_kind_eq(&self.kind, &other.kind)
    }
}

impl vstd::std_specs::cmp::PartialEqSpecImpl for Expr {
    open spec fn obeys_eq_spec() -> bool {
        true
    }

    open spec fn eq_spec(&self, other: &Self) -> bool {
        self@ == other@
    }
}

pub fn formula_eq(a: &Formula, b: &Formula) -> (r: bool)
    ensures
        r == (a@ == b@),
    decreases a,
{
    match (a, b) {
        (Formula::Prop(x), Formula::Prop(y)) => x.id == y.id && expr_kind_eq(&x.kind, &y.kind),
        (Formula::And(x), Formula::And(y)) => {
            proof {
                lemma_view_junction(*x);
                lemma_view_junction(*y);
            }
            operands_eq(a, x, y)
        },
        (Formula::Or(x), Formula::Or(y)) => {
            proof {
                lemma_view_junction(*x);
                lemma_view_junction(*y);
            }
            operands_eq(a, x, y)
        },
        (
            Formula::Imply { left: l1, right: r1, not_left: n1 },
            Formula::Imply { left: l2, right: r2, not_left: n2 },
        ) => formula_eq(l1, l2) && formula_eq(r1, r2) && formula_eq(n1, n2),
        (Formula::Not(x), Formula::Not(y)) => formula_eq(x, y),
        (Formula::O(x), Formula::O(y)) => formula_eq(x, y),
        (
            Formula::G { interval: i1, parent_upper: p1, phi: f1 },
            Formula::G { interval: i2, parent_upper: p2, phi: f2 },
        ) => *i1 == *i2 && *p1 == *p2 && formula_eq(f1, f2),
        (
            Formula::F { interval: i1, parent_upper: p1, phi: f1 },
            Formula::F { interval: i2, parent_upper: p2, phi: f2 },
        ) => *i1 == *i2 && *p1 == *p2 && formula_eq(f1, f2),
        (
            Formula::U { interval: i1, parent_upper: p1, left: l1, right: r1 },
            Formula::U { interval: i2, parent_upper: p2, left: l2, right: r2 },
        ) => *i1 == *i2 && *p1 == *p2 && formula_eq(l1, l2) && formula_eq(r1, r2),
        (
            Formula::R { interval: i1, parent_upper: p1, left: l1, right: r1 },
            Formula::R { interval: i2, parent_upper: p2, left: l2, right: r2 },
        ) => *i1 == *i2 && *p1 == *p2 && formula_eq(l1, l2) && formula_eq(r1, r2),
        _ => false,
    }
}

fn operands_eq(f: &Formula, x: &Vec<Formula>, y: &Vec<Formula>) -> (r: bool)
    requires
        operands_of(*f, *x),
    ensures
        r == (fviews(x@) == fviews(y@)),
    decreases f, 0nat,
{
    if x.len() != y.len() {
        assert(fviews(x@).len() != fviews(y@).len());
        return false;
    }
    let mut i: usize = 0;
    while i < x.len()
        invariant
            operands_of(*f, *x),
            x@.len() == y@.len(),
            i <= x.len(),
            forall|j: int| 0 <= j < i ==> (#[trigger] x@[j])@ == y@[j]@,
        decreases x.len() - i,
    {
        proof {
            lemma_operand_decreases(*f, *x, i as int);
        }
        if !formula_eq(&x[i], &y[i]) {
            assert(fviews(x@)[i as int] != fviews(y@)[i as int]);
            return false;
        }
        i += 1;
    }
    assert(fviews(x@) =~= fviews(y@));
    true
}

impl PartialEq for Formula {
    fn eq(&self, other: &Self) -> (r: bool) {
        formula_eq(self, other)
    }
}

impl vstd::std_specs::cmp::PartialEqSpecImpl for Formula {
    open spec fn obeys_eq_spec() -> bool {
        true
    }

    open spec fn eq_spec(&self, other: &Self) -> bool {
        self@ == other@
    }
}

impl Eq for Formula {

}

/// The formula with every proposition identifier replaced by 0.
pub open spec fn strip(f: FormulaM) -> FormulaM
    decreases f,
{
    match f {
        FormulaM::Prop(e) => FormulaM::Prop(ExprM { id: 0, kind: e.kind }),
        FormulaM::And(s) => FormulaM::And(Seq::new(s.len(), |i: int| strip_at(s, i))),
        FormulaM::Or(s) => FormulaM::Or(Seq::new(s.len(), |i: int| strip_at(s, i))),
        FormulaM::Imply { left, right, not_left } => FormulaM::Imply {
            left: Box::new(strip(*left)),
            right: Box::new(strip(*right)),
            not_left: Box::new(strip(*not_left)),
        },
        FormulaM::Not(b) => FormulaM::Not(Box::new(strip(*b))),
        FormulaM::G { interval, parent_upper, phi } => FormulaM::G {
            interval,
            parent_upper,
            phi: Box::new(strip(*phi)),
        },
        FormulaM::F { interval, parent_upper, phi } => FormulaM::F {
            interval,
            parent_upper,
            phi: Box::new(strip(*phi)),
        },
        FormulaM::U { interval, parent_upper, left, right } => FormulaM::U {
            interval,
            parent_upper,
            left: Box::new(strip(*left)),
            right: Box::new(strip(*right)),
        },
        FormulaM::R { interval, parent_upper, left, right } => FormulaM::R {
            interval,
            parent_upper,
            left: Box::new(strip(*left)),
            right: Box::new(strip(*right)),
        },
        FormulaM::O(b) => FormulaM::O(Box::new(strip(*b))),
    }
}

pub open spec fn strip_at(s: Seq<FormulaM>, i: int) -> FormulaM
    decreases s,
{
    if 0 <= i < s.len() {
        strip(s[i])
    } else {
        FormulaM::And(Seq::empty())
    }
}

/// Two formulas are equal up to the identifiers of their propositions.
pub open spec fn spec_eq_structural(a: FormulaM, b: FormulaM) -> bool {
    strip(a) == strip(b)
}

pub proof fn lemma_strip_junction(s: Seq<FormulaM>)
    ensures
        strip(FormulaM::And(s)) == FormulaM::And(Seq::new(s.len(), |i: int| strip(s[i]))),
        strip(FormulaM::Or(s)) == FormulaM::Or(Seq::new(s.len(), |i: int| strip(s[i]))),
{
    let t = Seq::new(s.len(), |i: int| strip(s[i]));
    let a = strip(FormulaM::And(s))->And_0;
    assert forall|i: int| 0 <= i < s.len() implies a[i] == t[i] by {
        assert(a[i] == strip_at(s, i));
    }
    assert(a =~= t);
    let o = strip(FormulaM::Or(s))->Or_0;
    assert forall|i: int| 0 <= i < s.len() implies o[i] == t[i] by {
        assert(o[i] == strip_at(s, i));
    }
    assert(o =~= t);
}

impl Formula {
    /// Equality that ignores the identifiers of propositions.
    pub fn eq_structural(&self, other: &Formula) -> (r: bool)
        ensures
            r == spec_eq_structural(self@, other@),
        decreases self,
    {
        match (self, other) {
            (Formula::Prop(x), Formula::Prop(y)) => expr_kind_eq(&x.kind, &y.kind),
            (Formula::And(x), Formula::And(y)) => {
                proof {
                    lemma_view_junction(*x);
                    lemma_view_junction(*y);
                    lemma_strip_junction(fviews(x@));
                    lemma_strip_junction(fviews(y@));
                }
                operands_eq_structural(self, x, y)
            },
            (Formula::Or(x), Formula::Or(y)) => {
                proof {
                    lemma_view_junction(*x);
                    lemma_view_junction(*y);
                    lemma_strip_junction(fviews(x@));
                    lemma_strip_junction(fviews(y@));
                }
                operands_eq_structural(self, x, y)
            },
            (
                Formula::Imply { left: l1, right: r1, not_left: n1 },
                Formula::Imply { left: l2, right: r2, not_left: n2 },
            ) => l1.eq_structural(l2) && r1.eq_structural(r2) && n1.eq_structural(n2),
            (Formula::Not(x), Formula::Not(y)) => x.eq_structural(y),
            (Formula::O(x), Formula::O(y)) => x.eq_structural(y),
            (
                Formula::G { interval: i1, parent_upper: p1, phi: f1 },
                Formula::G { interval: i2, parent_upper: p2, phi: f2 },
            ) => *i1 == *i2 && *p1 == *p2 && f1.eq_structural(f2),
            (
                Formula::F { interval: i1, parent_upper: p1, phi: f1 },
                Formula::F { interval: i2, parent_upper: p2, phi: f2 },
            ) => *i1 == *i2 && *p1 == *p2 && f1.eq_structural(f2),
            (
                Formula::U { interval: i1, parent_upper: p1, left: l1, right: r1 },
                Formula::U { interval: i2, parent_upper: p2, left: l2, right: r2 },
            ) => *i1 == *i2 && *p1 == *p2 && l1.eq_structural(l2) && r1.eq_structural(r2),
            (
                Formula::R { interval: i1, parent_upper: p1, left: l1, right: r1 },
                Formula::R { interval: i2, parent_upper: p2, left: l2, right: r2 },
            ) => *i1 == *i2 && *p1 == *p2 && l1.eq_structural(l2) && r1.eq_structural(r2),
            _ => false,
        }
    }
}

fn operands_eq_structural(f: &Formula, x: &Vec<Formula>, y: &Vec<Formula>) -> (r: bool)
    requires
        operands_of(*f, *x),
    ensures
        r == (Seq::new(x@.len(), |i: int| strip(fviews(x@)[i])) == Seq::new(
            y@.len(),
            |i: int| strip(fviews(y@)[i]),
        )),
    decreases f, 0nat,
{
    let ghost sx = Seq::new(x@.len(), |i: int| strip(fviews(x@)[i]));
    let ghost sy = Seq::new(y@.len(), |i: int| strip(fviews(y@)[i]));
    if x.len() != y.len() {
        assert(sx.len() != sy.len());
        return false;
    }
    let mut i: usize = 0;
    while i < x.len()
        invariant
            operands_of(*f, *x),
            x@.len() == y@.len(),
            i <= x.len(),
            sx == Seq::new(x@.len(), |i: int| strip(fviews(x@)[i])),
            sy == Seq::new(y@.len(), |i: int| strip(fviews(y@)[i])),
            forall|j: int| 0 <= j < i ==> #[trigger] sx[j] == sy[j],
        decreases x.len() - i,
    {
        proof {
            lemma_operand_decreases(*f, *x, i as int);
        }
        if !x[i].eq_structural(&y[i]) {
            assert(sx[i as int] != sy[i as int]);
            return false;
        }
        i += 1;
    }
    assert(sx =~= sy);
    true
}


// ---------------------------------------------------------------------------------------
// Rational constants
// ---------------------------------------------------------------------------------------
/// `a` and `b` have no common divisor above 1.
pub open spec fn spec_coprime(a: int, b: int) -> bool {
    forall|k: int| k > 1 ==> !(#[trigger] (a % k) == 0 && b % k == 0)
}

/// The numerator and denominator that `num_rational::Ratio::<i64>::new` reduces
/// `numer / denom` to.
pub uninterp spec fn ratio_lowest(numer: i64, denom: i64) -> (i64, i64);

/// `num_rational::Ratio::<i64>::new` followed by `numer` and `denom`: the fraction
/// `numer / denom` in lowest terms with a positive denominator. For a positive `denom`
/// the source divides both parts by their (positive) greatest common divisor, so neither
/// part grows in size.
#[verifier::external_body]
fn ratio_new(numer: i64, denom: i64) -> (r: (i64, i64))
    requires
        denom > 0,
        numer > i64::MIN,
    ensures
        r == ratio_lowest(numer, denom),
        r.1 > 0,
        r.1 <= denom,
        numer >= 0 ==> 0 <= r.0 <= numer,
        numer < 0 ==> numer <= r.0 < 0,
        r.0 * denom == numer * r.1,
        spec_coprime(r.0 as int, r.1 as int),
{
    let q = num_rational::Ratio::new(numer, denom);
    (*q.numer(), *q.denom())
}

/// The fraction with these two parts, as they stand.
pub closed spec fn rational_of(numer: i64, denom: i64) -> Rational {
    Rational { numer, denom }
}

impl Rational {
    #[verifier::type_invariant]
    spec fn positive_denominator(self) -> bool {
        self.denom > 0
    }

    pub closed spec fn spec_numer(self) -> i64 {
        self.numer
    }

    pub closed spec fn spec_denom(self) -> i64 {
        self.denom
    }

    /// The fraction `numer / denom` in lowest terms.
    pub fn new(numer: i64, denom: i64) -> (r: Rational)
        requires
            denom > 0,
            numer > i64::MIN,
        ensures
            r.spec_denom() > 0,
            r.spec_numer() > i64::MIN,
            r.spec_numer() * denom == numer * r.spec_denom(),
            spec_coprime(r.spec_numer() as int, r.spec_denom() as int),
            r == rational_of(ratio_lowest(numer, denom).0, ratio_lowest(numer, denom).1),
    {
        let (n, d) = ratio_new(numer, denom);
        Rational { numer: n, denom: d }
    }

    /// The integer `t` as a fraction.
    pub fn from_integer(t: i64) -> (r: Rational)
        ensures
            r.spec_numer() == t,
            r.spec_denom() == 1,
            r == rational_of(t, 1),
    {
        Rational { numer: t, denom: 1 }
    }

    /// The numerator.
    pub fn numer(&self) -> (r: i64)
        ensures
            r == self.spec_numer(),
    {
        self.numer
    }

    /// The denominator, always positive.
    pub fn denom(&self) -> (r: i64)
        ensures
            r == self.spec_denom(),
            r > 0,
    {
        proof {
            use_type_invariant(self);
        }
        self.denom
    }

    /// The opposite fraction; `None` when the numerator has no opposite in `i64`.
    pub fn checked_neg(&self) -> (r: Option<Rational>)
        ensures
            r matches Some(q) ==> q.spec_numer() == -self.spec_numer() && q.spec_denom()
                == self.spec_denom(),
            r is None <==> self.spec_numer() == i64::MIN,
            r matches Some(q) ==> q == rational_of((-self.spec_numer()) as i64, self.spec_denom()),
    {
        proof {
            use_type_invariant(self);
        }
        if self.numer == i64::MIN {
            None
        } else {
            Some(Rational { numer: -self.numer, denom: self.denom })
        }
    }
}

} // verus!
