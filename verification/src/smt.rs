use vstd::prelude::*;

use z3::ast::Ast;

verus! {

// The z3 items that the real-valued part of the solver uses. Each term built here carries,
// as a ghost value, the shape in which it was built; what z3 answers on the asserted terms
// rests on z3 and is not modelled.

#[verifier::external_type_specification]
#[verifier::external_body]
pub struct ExZ3Solver(z3::Solver);

#[verifier::external_type_specification]
#[verifier::external_body]
pub struct ExZ3Real(z3::ast::Real);

#[verifier::external_type_specification]
#[verifier::external_body]
pub struct ExZ3Bool(z3::ast::Bool);

#[verifier::external_type_specification]
#[verifier::external_body]
pub struct ExZ3FuncDecl(z3::FuncDecl);

/// The shape of a z3 term: how it was built from constants, numerals and operators.
pub enum TermM {
    RealConst(Seq<char>),
    Numeral(int, int),
    Add(Box<TermM>, Box<TermM>),
    Sub(Box<TermM>, Box<TermM>),
    Ite(Box<TermM>, Box<TermM>, Box<TermM>),
    BoolConst(Seq<char>),
    Lt(Box<TermM>, Box<TermM>),
    Le(Box<TermM>, Box<TermM>),
    Gt(Box<TermM>, Box<TermM>),
    Ge(Box<TermM>, Box<TermM>),
    Eq(Box<TermM>, Box<TermM>),
    Not(Box<TermM>),
}

/// A z3 real term with the shape it was built in.
pub struct ZReal {
    pub term: z3::ast::Real,
    pub model: Ghost<TermM>,
}

/// A z3 Boolean term with the shape it was built in.
pub struct ZBool {
    pub term: z3::ast::Bool,
    pub model: Ghost<TermM>,
}

/// The assertions of a z3 solver, oldest first: each term's shape, with the shape of the
/// constant that tracks it in unsat cores, if any.
pub uninterp spec fn z3_assertions(s: z3::Solver) -> Seq<(TermM, Option<TermM>)>;

/// The backtracking points of a z3 solver that have not been popped, oldest first: the
/// number of assertions there were when each was opened.
pub uninterp spec fn z3_marks(s: z3::Solver) -> Seq<nat>;

/// `z3::Solver::new`: a solver with no assertions and no backtracking point.
#[verifier::external_body]
pub(crate) fn z3_solver_new() -> (r: z3::Solver)
    ensures
        z3_assertions(r) == Seq::<(TermM, Option<TermM>)>::empty(),
        z3_marks(r) == Seq::<nat>::empty(),
{
    z3::Solver::new()
}

/// `z3::Solver::push`: opens a backtracking point at the current assertions.
#[verifier::external_body]
pub(crate) fn z3_push(s: &mut z3::Solver)
    ensures
        z3_assertions(*final(s)) == z3_assertions(*old(s)),
        z3_marks(*final(s)) == z3_marks(*old(s)).push(z3_assertions(*old(s)).len()),
{
    s.push();
}

/// `z3::Solver::pop` with 1: drops the assertions made since the last open backtracking
/// point, which must exist (z3 reports an error otherwise), and closes that point.
#[verifier::external_body]
pub(crate) fn z3_pop(s: &mut z3::Solver)
    requires
        z3_marks(*old(s)).len() >= 1,
        z3_marks(*old(s)).last() <= z3_assertions(*old(s)).len(),
    ensures
        z3_assertions(*final(s)) == z3_assertions(*old(s)).take(z3_marks(*old(s)).last() as int),
        z3_marks(*final(s)) == z3_marks(*old(s)).drop_last(),
{
    s.pop(1);
}

/// `z3::Solver::assert`: adds `b` to the assertions, untracked.
#[verifier::external_body]
pub(crate) fn z3_assert(s: &mut z3::Solver, b: &ZBool)
    ensures
        z3_assertions(*final(s)) == z3_assertions(*old(s)).push((b.model@, None::<TermM>)),
        z3_marks(*final(s)) == z3_marks(*old(s)),
{
    s.assert(&b.term);
}

/// `z3::Solver::assert_and_track`: adds `b` to the assertions, tracked by the constant `p`
/// in unsat cores.
#[verifier::external_body]
pub(crate) fn z3_assert_and_track(s: &mut z3::Solver, b: ZBool, p: &ZBool)
    ensures
        z3_assertions(*final(s)) == z3_assertions(*old(s)).push((b.model@, Some(p.model@))),
        z3_marks(*final(s)) == z3_marks(*old(s)),
{
    s.assert_and_track(b.term, &p.term);
}

/// `z3::Solver::check`, read as `true` for `Sat` and `false` for `Unsat` and `Unknown`.
/// Which it answers rests on z3; the assertions and backtracking points stay.
#[verifier::external_body]
pub(crate) fn z3_check(s: &mut z3::Solver) -> (r: bool)
    ensures
        z3_assertions(*final(s)) == z3_assertions(*old(s)),
        z3_marks(*final(s)) == z3_marks(*old(s)),
{
    match s.check() {
        z3::SatResult::Sat => true,
        z3::SatResult::Unsat => false,
        z3::SatResult::Unknown => false,
    }
}

/// `z3::Solver::get_unsat_core`: tracking constants of the last unsatisfiable check; which
/// ones z3 picks rests on z3.
#[verifier::external_body]
pub(crate) fn z3_unsat_core(s: &z3::Solver) -> (r: Vec<z3::ast::Bool>) {
    s.get_unsat_core()
}

/// `Ast::safe_decl` on a Boolean term: its function declaration when the term is an
/// application, `None` (the crate's `IsNotApp` error) otherwise.
#[verifier::external_body]
pub(crate) fn z3_bool_decl(b: &z3::ast::Bool) -> (r: Option<z3::FuncDecl>) {
    match b.safe_decl() {
        Ok(d) => Some(d),
        Err(_) => None,
    }
}

/// `z3::FuncDecl::name`.
#[verifier::external_body]
pub(crate) fn z3_decl_name(d: &z3::FuncDecl) -> (r: String) {
    d.name()
}

/// `z3::ast::Real::new_const`: the real constant of that name. The name is turned into a C
/// string, which panics on a NUL character, so `requires` leaves such names out.
#[verifier::external_body]
pub(crate) fn z3_new_real_const(name: &str) -> (r: ZReal)
    requires
        !name@.contains('\0'),
    ensures
        r.model@ == TermM::RealConst(name@),
{
    ZReal { term: z3::ast::Real::new_const(name), model: Ghost(TermM::RealConst(name@)) }
}

/// `z3::ast::Real::from_rational_str` on the decimal forms of `numer` and `denom`: the
/// numeral `numer / denom` (a zero denominator is refused). The libz3 this crate links
/// lacks the `Z3_mk_real_int64` entry that `Real::from_rational` needs.
#[verifier::external_body]
pub(crate) fn z3_new_real_numeral(numer: i64, denom: i64) -> (r: ZReal)
    requires
        denom != 0,
    ensures
        r.model@ == TermM::Numeral(numer as int, denom as int),
{
    ZReal {
        term: z3::ast::Real::from_rational_str(&format!("{}", numer), &format!("{}", denom)).unwrap(),
        model: Ghost(TermM::Numeral(numer as int, denom as int)),
    }
}

/// `z3::ast::Bool::new_const`: the Boolean constant of that name; as for reals, a NUL
/// character in the name panics and is left out by `requires`.
#[verifier::external_body]
pub(crate) fn z3_new_bool_const(name: &str) -> (r: ZBool)
    requires
        !name@.contains('\0'),
    ensures
        r.model@ == TermM::BoolConst(name@),
{
    ZBool { term: z3::ast::Bool::new_const(name), model: Ghost(TermM::BoolConst(name@)) }
}

/// `Clone` of a z3 real term: the same term.
#[verifier::external_body]
pub(crate) fn z3_real_clone(a: &ZReal) -> (r: ZReal)
    ensures
        r == *a,
{
    ZReal { term: a.term.clone(), model: Ghost(a.model@) }
}

/// `Clone` of a z3 Boolean term: the same term.
#[verifier::external_body]
pub(crate) fn z3_bool_clone(a: &ZBool) -> (r: ZBool)
    ensures
        r == *a,
{
    ZBool { term: a.term.clone(), model: Ghost(a.model@) }
}

/// `a + b` on z3 reals.
#[verifier::external_body]
pub(crate) fn z3_real_add(a: &ZReal, b: &ZReal) -> (r: ZReal)
    ensures
        r.model@ == TermM::Add(Box::new(a.model@), Box::new(b.model@)),
{
    ZReal { term: &a.term + &b.term, model: Ghost(TermM::Add(Box::new(a.model@), Box::new(b.model@))) }
}

/// `a - b` on z3 reals.
#[verifier::external_body]
pub(crate) fn z3_real_sub(a: &ZReal, b: &ZReal) -> (r: ZReal)
    ensures
        r.model@ == TermM::Sub(Box::new(a.model@), Box::new(b.model@)),
{
    ZReal { term: &a.term - &b.term, model: Ghost(TermM::Sub(Box::new(a.model@), Box::new(b.model@))) }
}

/// `z3::ast::Real::lt`: the relation `a < b`.
#[verifier::external_body]
pub(crate) fn z3_real_lt(a: &ZReal, b: &ZReal) -> (r: ZBool)
    ensures
        r.model@ == TermM::Lt(Box::new(a.model@), Box::new(b.model@)),
{
    ZBool { term: a.term.lt(&b.term), model: Ghost(TermM::Lt(Box::new(a.model@), Box::new(b.model@))) }
}

/// `z3::ast::Real::le`: the relation `a <= b`.
#[verifier::external_body]
pub(crate) fn z3_real_le(a: &ZReal, b: &ZReal) -> (r: ZBool)
    ensures
        r.model@ == TermM::Le(Box::new(a.model@), Box::new(b.model@)),
{
    ZBool { term: a.term.le(&b.term), model: Ghost(TermM::Le(Box::new(a.model@), Box::new(b.model@))) }
}

/// `z3::ast::Real::gt`: the relation `a > b`.
#[verifier::external_body]
pub(crate) fn z3_real_gt(a: &ZReal, b: &ZReal) -> (r: ZBool)
    ensures
        r.model@ == TermM::Gt(Box::new(a.model@), Box::new(b.model@)),
{
    ZBool { term: a.term.gt(&b.term), model: Ghost(TermM::Gt(Box::new(a.model@), Box::new(b.model@))) }
}

/// `z3::ast::Real::ge`: the relation `a >= b`.
#[verifier::external_body]
pub(crate) fn z3_real_ge(a: &ZReal, b: &ZReal) -> (r: ZBool)
    ensures
        r.model@ == TermM::Ge(Box::new(a.model@), Box::new(b.model@)),
{
    ZBool { term: a.term.ge(&b.term), model: Ghost(TermM::Ge(Box::new(a.model@), Box::new(b.model@))) }
}

/// `Ast::eq` on z3 reals: the equation `a = b`.
#[verifier::external_body]
pub(crate) fn z3_real_eq(a: &ZReal, b: &ZReal) -> (r: ZBool)
    ensures
        r.model@ == TermM::Eq(Box::new(a.model@), Box::new(b.model@)),
{
    ZBool { term: a.term.eq(&b.term), model: Ghost(TermM::Eq(Box::new(a.model@), Box::new(b.model@))) }
}

/// `z3::ast::Bool::not`: the negation of `a`.
#[verifier::external_body]
pub(crate) fn z3_bool_not(a: &ZBool) -> (r: ZBool)
    ensures
        r.model@ == TermM::Not(Box::new(a.model@)),
{
    ZBool { term: a.term.not(), model: Ghost(TermM::Not(Box::new(a.model@))) }
}

/// `z3::ast::Bool::ite`: the real `t` where `c` holds, else `e`.
#[verifier::external_body]
pub(crate) fn z3_real_ite(c: &ZBool, t: &ZReal, e: &ZReal) -> (r: ZReal)
    ensures
        r.model@ == TermM::Ite(Box::new(c.model@), Box::new(t.model@), Box::new(e.model@)),
{
    ZReal {
        term: c.term.ite(&t.term, &e.term),
        model: Ghost(TermM::Ite(Box::new(c.model@), Box::new(t.model@), Box::new(e.model@))),
    }
}

} // verus!
