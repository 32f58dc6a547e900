use vstd::prelude::*;

use crate::formula::{
    fviews, lemma_operand_decreases, lemma_view_junction, operands_of, AExpr, AExprM, ArithOp,
    Expr, ExprKind, ExprKindM, ExprM, Formula, FormulaM, Rational, RelOp,
};
use crate::interval::Interval;
use crate::node::{ops, Node};

verus! {

// The textual forms of formulas, as shown in graphs, traces and results.

pub open spec fn digit_char(d: nat) -> char {
    ('0' as u32 + d) as char
}

/// The decimal digits of `n`.
pub open spec fn nat_text(n: nat) -> Seq<char>
    decreases n,
{
    if n < 10 {
        seq![digit_char(n)]
    } else {
        nat_text(n / 10).push(digit_char(n % 10))
    }
}

/// An integer in decimal, with a leading `-` when negative.
pub open spec fn int_text(n: int) -> Seq<char> {
    if n < 0 {
        seq!['-'] + nat_text((-n) as nat)
    } else {
        nat_text(n as nat)
    }
}

/// A fraction as `n` when its denominator is 1, else `n/d`.
pub open spec fn rational_text(q: Rational) -> Seq<char> {
    if q.spec_denom() == 1 {
        int_text(q.spec_numer() as int)
    } else {
        int_text(q.spec_numer() as int) + seq!['/'] + int_text(q.spec_denom() as int)
    }
}

pub open spec fn arith_text(op: ArithOp) -> Seq<char> {
    match op {
        ArithOp::Add => seq!['+'],
        ArithOp::Sub => seq!['-'],
    }
}

pub open spec fn rel_text(op: RelOp) -> Seq<char> {
    match op {
        RelOp::Lt => seq!['<'],
        RelOp::Le => seq!['<', '='],
        RelOp::Gt => seq!['>'],
        RelOp::Ge => seq!['>', '='],
        RelOp::Eq => seq!['=', '='],
        RelOp::Ne => seq!['!', '='],
    }
}

/// A real term: `x`, `n/d`, `|t|`, `(t + u)`.
pub open spec fn aexpr_text(e: AExprM) -> Seq<char>
    decreases e,
{
    match e {
        AExprM::Var(s) => s,
        AExprM::Num(q) => rational_text(q),
        AExprM::Abs(b) => seq!['|'] + aexpr_text(*b) + seq!['|'],
        AExprM::BinOp { op, left, right } => seq!['('] + aexpr_text(*left) + seq![' '] + arith_text(
            op,
        ) + seq![' '] + aexpr_text(*right) + seq![')'],
    }
}

pub open spec fn kind_text(k: ExprKindM) -> Seq<char> {
    match k {
        ExprKindM::Atom(s) => s,
        ExprKindM::Rel { op, left, right } => aexpr_text(left) + seq![' '] + rel_text(op) + seq![' ']
            + aexpr_text(right),
        ExprKindM::True => seq!['t', 'r', 'u', 'e'],
        ExprKindM::False => seq!['f', 'a', 'l', 's', 'e'],
    }
}

/// A proposition with its identifier: `a ~ 3`.
pub open spec fn expr_text(e: ExprM) -> Seq<char> {
    kind_text(e.kind) + seq![' ', '~', ' '] + nat_text(e.id as nat)
}

pub open spec fn interval_text(i: Interval) -> Seq<char> {
    seq!['['] + int_text(i.lower as int) + seq![','] + int_text(i.upper as int) + seq![']']
}

pub open spec fn paren(t: Seq<char>) -> Seq<char> {
    seq!['('] + t + seq![')']
}

/// A formula: junctions as their operands joined by ` && ` or ` || `, `(l) -> (r)`,
/// `!φ`, `G[a,b] (φ)`, `(l) U[a,b] (r)`, `O (φ)`.
pub open spec fn formula_text(f: FormulaM) -> Seq<char>
    decreases f, 1int,
{
    match f {
        FormulaM::And(s) => join_prefix(s, seq![' ', '&', '&', ' '], s.len() as int),
        FormulaM::Or(s) => join_prefix(s, seq![' ', '|', '|', ' '], s.len() as int),
        FormulaM::Not(b) => seq!['!'] + formula_text(*b),
        FormulaM::Imply { left, right, .. } => paren(formula_text(*left)) + seq![' ', '-', '>', ' ']
            + paren(formula_text(*right)),
        FormulaM::G { interval, phi, .. } => seq!['G'] + interval_text(interval) + seq![' '] + paren(
            formula_text(*phi),
        ),
        FormulaM::F { interval, phi, .. } => seq!['F'] + interval_text(interval) + seq![' '] + paren(
            formula_text(*phi),
        ),
        FormulaM::U { interval, left, right, .. } => paren(formula_text(*left)) + seq![' ', 'U']
            + interval_text(interval) + seq![' '] + paren(formula_text(*right)),
        FormulaM::R { interval, left, right, .. } => paren(formula_text(*left)) + seq![' ', 'R']
            + interval_text(interval) + seq![' '] + paren(formula_text(*right)),
        FormulaM::O(b) => seq!['O', ' '] + paren(formula_text(*b)),
        FormulaM::Prop(e) => expr_text(e),
    }
}

/// The texts of the first `n` formulas, separated by `sep`.
pub open spec fn join_prefix(s: Seq<FormulaM>, sep: Seq<char>, n: int) -> Seq<char>
    decreases s, 0int, n,
{
    if n <= 0 || n > s.len() {
        Seq::empty()
    } else if n == 1 {
        formula_text(s[0])
    } else {
        join_prefix(s, sep, n - 1) + sep + formula_text(s[n - 1])
    }
}

/// A node: its operands joined by `, `, then ` | ` and its instant.
pub open spec fn node_text(s: Seq<FormulaM>, t: int) -> Seq<char> {
    join_prefix(s, seq![',', ' '], s.len() as int) + seq![' ', '|', ' '] + int_text(t)
}

/// `String::from_iter` on characters: the string of exactly these characters.
#[verifier::external_body]
pub(crate) fn string_from_chars(v: &Vec<char>) -> (r: String)
    ensures
        r@ == v@,
{
    v.iter().collect::<String>()
}

pub(crate) fn push_all(out: &mut Vec<char>, t: &[char])
    ensures
        final(out)@ == old(out)@ + t@,
{
    let mut i: usize = 0;
    while i < t.len()
        invariant
            i <= t@.len(),
            out@ == old(out)@ + t@.subrange(0, i as int),
        decreases t@.len() - i,
    {
        out.push(t[i]);
        assert(out@ =~= old(out)@ + t@.subrange(0, i + 1));
        i += 1;
    }
    assert(t@.subrange(0, t@.len() as int) =~= t@);
}

pub(crate) fn push_string(out: &mut Vec<char>, s: &String)
    ensures
        final(out)@ == old(out)@ + s@,
{
    let st = s.as_str();
    let n = st.unicode_len();
    let mut i: usize = 0;
    while i < n
        invariant
            n == s@.len(),
            st@ == s@,
            i <= n,
            out@ == old(out)@ + s@.subrange(0, i as int),
        decreases n - i,
    {
        out.push(st.get_char(i));
        assert(out@ =~= old(out)@ + s@.subrange(0, i + 1));
        i += 1;
    }
    assert(s@.subrange(0, n as int) =~= s@);
}

fn digit(d: u64) -> (r: char)
    requires
        d < 10,
    ensures
        r == digit_char(d as nat),
{
    let r = match d {
        0 => '0',
        1 => '1',
        2 => '2',
        3 => '3',
        4 => '4',
        5 => '5',
        6 => '6',
        7 => '7',
        8 => '8',
        _ => '9',
    };
    assert(r as u32 == '0' as u32 + d);
    r
}

pub(crate) fn push_nat(out: &mut Vec<char>, n: u64)
    ensures
        final(out)@ == old(out)@ + nat_text(n as nat),
    decreases n,
{
    if n < 10 {
        out.push(digit(n));
    } else {
        push_nat(out, n / 10);
        let d = n % 10;
        out.push(digit(d));
    }
}

pub(crate) fn push_int(out: &mut Vec<char>, n: i64)
    ensures
        final(out)@ == old(out)@ + int_text(n as int),
{
    if n < 0 {
        out.push('-');
        let m: u64 = if n == i64::MIN {
            9223372036854775808u64
        } else {
            (-n) as u64
        };
        push_nat(out, m);
    } else {
        push_nat(out, n as u64);
    }
}

fn push_aexpr(out: &mut Vec<char>, e: &AExpr)
    ensures
        final(out)@ == old(out)@ + aexpr_text(e@),
    decreases e,
{
    match e {
        AExpr::Var(s) => push_string(out, s),
        AExpr::Num(q) => {
            push_int(out, q.numer() as i64);
            if q.denom() != 1 {
                out.push('/');
                push_int(out, q.denom() as i64);
            }
        },
        AExpr::Abs(b) => {
            out.push('|');
            push_aexpr(out, b);
            out.push('|');
        },
        AExpr::BinOp { op, left, right } => {
            out.push('(');
            push_aexpr(out, left);
            out.push(' ');
            match op {
                ArithOp::Add => out.push('+'),
                ArithOp::Sub => out.push('-'),
            }
            out.push(' ');
            push_aexpr(out, right);
            out.push(')');
        },
    }
}

fn push_expr(out: &mut Vec<char>, e: &Expr)
    ensures
        final(out)@ == old(out)@ + expr_text(e@),
{
    match &e.kind {
        ExprKind::Atom(s) => push_string(out, s),
        ExprKind::Rel { op, left, right } => {
            push_aexpr(out, left);
            out.push(' ');
            match op {
                RelOp::Lt => push_all(out, &['<']),
                RelOp::Le => push_all(out, &['<', '=']),
                RelOp::Gt => push_all(out, &['>']),
                RelOp::Ge => push_all(out, &['>', '=']),
                RelOp::Eq => push_all(out, &['=', '=']),
                RelOp::Ne => push_all(out, &['!', '=']),
            }
            out.push(' ');
            push_aexpr(out, right);
        },
        ExprKind::True => push_all(out, &['t', 'r', 'u', 'e']),
        ExprKind::False => push_all(out, &['f', 'a', 'l', 's', 'e']),
    }
    push_all(out, &[' ', '~', ' ']);
    push_nat(out, e.id as u64);
}

pub(crate) fn push_interval(out: &mut Vec<char>, i: &Interval)
    ensures
        final(out)@ == old(out)@ + interval_text(*i),
{
    out.push('[');
    push_int(out, i.lower as i64);
    out.push(',');
    push_int(out, i.upper as i64);
    out.push(']');
}

pub(crate) fn push_formula(out: &mut Vec<char>, f: &Formula)
    ensures
        final(out)@ == old(out)@ + formula_text(f@),
    decreases f, 1nat,
{
    match f {
        Formula::And(v) => {
            proof {
                lemma_view_junction(*v);
            }
            push_join(out, f, v, &[' ', '&', '&', ' ']);
        },
        Formula::Or(v) => {
            proof {
                lemma_view_junction(*v);
            }
            push_join(out, f, v, &[' ', '|', '|', ' ']);
        },
        Formula::Not(b) => {
            out.push('!');
            push_formula(out, b);
        },
        Formula::Imply { left, right, .. } => {
            out.push('(');
            push_formula(out, left);
            push_all(out, &[')', ' ', '-', '>', ' ', '(']);
            push_formula(out, right);
            out.push(')');
        },
        Formula::G { interval, phi, .. } | Formula::F { interval, phi, .. } => {
            out.push(if let Formula::G { .. } = f { 'G' } else { 'F' });
            push_interval(out, interval);
            push_all(out, &[' ', '(']);
            push_formula(out, phi);
            out.push(')');
        },
        Formula::U { interval, left, right, .. } | Formula::R { interval, left, right, .. } => {
            out.push('(');
            push_formula(out, left);
            push_all(out, &[')', ' ']);
            out.push(if let Formula::U { .. } = f { 'U' } else { 'R' });
            push_interval(out, interval);
            push_all(out, &[' ', '(']);
            push_formula(out, right);
            out.push(')');
        },
        Formula::O(b) => {
            push_all(out, &['O', ' ', '(']);
            push_formula(out, b);
            out.push(')');
        },
        Formula::Prop(e) => push_expr(out, e),
    }
    assert(out@ =~= old(out)@ + formula_text(f@));
}

fn push_join(out: &mut Vec<char>, f: &Formula, v: &Vec<Formula>, sep: &[char])
    requires
        operands_of(*f, *v),
    ensures
        final(out)@ == old(out)@ + join_prefix(fviews(v@), sep@, v@.len() as int),
    decreases f, 0nat,
{
    let mut i: usize = 0;
    while i < v.len()
        invariant
            operands_of(*f, *v),
            i <= v@.len(),
            out@ == old(out)@ + join_prefix(fviews(v@), sep@, i as int),
        decreases v@.len() - i,
    {
        proof {
            lemma_operand_decreases(*f, *v, i as int);
        }
        let ghost before = out@;
        if i > 0 {
            push_all(out, sep);
        }
        push_formula(out, &v[i]);
        assert(fviews(v@)[i as int] == v@[i as int]@);
        assert(out@ =~= old(out)@ + join_prefix(fviews(v@), sep@, i + 1));
        i += 1;
    }
}

/// The texts of `v`, separated by `sep`.
pub fn join_with(v: &[Formula], sep: &str) -> (r: String)
    ensures
        r@ == join_prefix(fviews(v@), sep@, v@.len() as int),
{
    let mut seps: Vec<char> = Vec::new();
    let sep_string = sep.to_owned();
    push_string(&mut seps, &sep_string);
    let mut out: Vec<char> = Vec::new();
    let mut i: usize = 0;
    while i < v.len()
        invariant
            i <= v@.len(),
            seps@ == sep@,
            out@ == join_prefix(fviews(v@), sep@, i as int),
        decreases v@.len() - i,
    {
        if i > 0 {
            push_all(&mut out, seps.as_slice());
        }
        push_formula(&mut out, &v[i]);
        assert(fviews(v@)[i as int] == v@[i as int]@);
        assert(out@ =~= join_prefix(fviews(v@), sep@, i + 1));
        i += 1;
    }
    string_from_chars(&out)
}

impl Formula {
    /// The text of the formula (see `formula_text`).
    pub fn to_text(&self) -> (r: String)
        ensures
            r@ == formula_text(self@),
    {
        let mut out: Vec<char> = Vec::new();
        push_formula(&mut out, self);
        assert(out@ =~= formula_text(self@));
        string_from_chars(&out)
    }
}

impl Node {
    /// The text of the node: its operands, then its instant.
    pub fn to_text(&self) -> (r: String)
        ensures
            r@ == node_text(ops(self), self.current_time as int),
    {
        let mut out: Vec<char> = Vec::new();
        let mut i: usize = 0;
        while i < self.operands.len()
            invariant
                i <= self.operands@.len(),
                out@ == join_prefix(ops(self), seq![',', ' '], i as int),
            decreases self.operands@.len() - i,
        {
            if i > 0 {
                push_all(&mut out, &[',', ' ']);
            }
            push_formula(&mut out, &self.operands[i]);
            assert(ops(self)[i as int] == self.operands@[i as int]@);
            assert(out@ =~= join_prefix(ops(self), seq![',', ' '], i + 1));
            i += 1;
        }
        push_all(&mut out, &[' ', '|', ' ']);
        push_int(&mut out, self.current_time as i64);
        assert(out@ =~= node_text(ops(self), self.current_time as int));
        string_from_chars(&out)
    }
}

} // verus!
