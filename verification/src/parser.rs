use vstd::prelude::*;
use vstd::string::StrSliceExecFns;

use crate::formula::{
    fviews, lemma_strip_junction, rational_of, ratio_lowest, strip, AExpr, AExprM, ArithOp, Expr,
    ExprKindM, ExprM, Formula, FormulaM, IdGen, Rational, RelOp,
};
use crate::transform::spec_nnf_neg;
use crate::interval::Interval;

verus! {

/// The input does not start with a formula; `position` is where parsing stopped.
#[derive(Debug, Clone, Copy, PartialEq, Eq, Structural)]
pub struct ParseError {
    pub position: usize,
}

pub open spec fn spec_is_space(c: char) -> bool {
    c == ' ' || c == '\t'
}

pub open spec fn spec_is_alpha(c: char) -> bool {
    ('a' <= c && c <= 'z') || ('A' <= c && c <= 'Z')
}

pub open spec fn spec_is_digit(c: char) -> bool {
    '0' <= c && c <= '9'
}

pub open spec fn spec_is_ident_char(c: char) -> bool {
    spec_is_alpha(c) || spec_is_digit(c) || c == '_'
}

fn is_space(c: char) -> (r: bool)
    ensures
        r == spec_is_space(c),
{
    c == ' ' || c == '\t'
}

fn is_alpha(c: char) -> (r: bool)
    ensures
        r == spec_is_alpha(c),
{
    ('a' <= c && c <= 'z') || ('A' <= c && c <= 'Z')
}

fn is_digit(c: char) -> (r: bool)
    ensures
        r == spec_is_digit(c),
{
    '0' <= c && c <= '9'
}

fn is_ident_char(c: char) -> (r: bool)
    ensures
        r == spec_is_ident_char(c),
{
    is_alpha(c) || is_digit(c) || c == '_'
}

/// The characters of `input`.
fn chars_of(input: &str) -> (cs: Vec<char>)
    ensures
        cs@ == input@,
{
    let n = input.unicode_len();
    let mut cs: Vec<char> = Vec::new();
    let mut i: usize = 0;
    while i < n
        invariant
            n == input@.len(),
            i <= n,
            cs@ == input@.subrange(0, i as int),
        decreases n - i,
    {
        let c = input.get_char(i);
        cs.push(c);
        i += 1;
        assert(cs@ =~= input@.subrange(0, i as int));
    }
    assert(cs@ =~= input@);
    cs
}

// ---------------------------------------------------------------------------------------
// The grammar, on characters
// ---------------------------------------------------------------------------------------
/// `cs` holds `c` at position `p`.
pub open spec fn spec_at(cs: Seq<char>, p: int, c: char) -> bool {
    0 <= p < cs.len() && cs[p] == c
}

/// The first position at or after `p` that does not hold a space or a tab.
pub open spec fn spec_ws(cs: Seq<char>, p: int) -> int
    decreases cs.len() - p,
{
    if 0 <= p < cs.len() && spec_is_space(cs[p]) {
        spec_ws(cs, p + 1)
    } else {
        p
    }
}

/// The end of the run of decimal digits that starts at `p`.
pub open spec fn spec_digit_end(cs: Seq<char>, p: int) -> int
    decreases cs.len() - p,
{
    if 0 <= p < cs.len() && spec_is_digit(cs[p]) {
        spec_digit_end(cs, p + 1)
    } else {
        p
    }
}

/// The value of the decimal digits between `p` and `q`.
pub open spec fn digits_value(cs: Seq<char>, p: int, q: int) -> int
    decreases q - p,
{
    if q <= p {
        0
    } else {
        digits_value(cs, p, q - 1) * 10 + (cs[q - 1] as int - '0' as int)
    }
}

/// A run of decimal digits and its value, unless the value exceeds `i64`.
pub open spec fn spec_digits(cs: Seq<char>, p: int) -> Option<(int, int)> {
    let q = spec_digit_end(cs, p);
    if q == p || digits_value(cs, p, q) > i64::MAX {
        None
    } else {
        Some((q, digits_value(cs, p, q)))
    }
}

pub open spec fn pow10(k: nat) -> int
    decreases k,
{
    if k == 0 {
        1
    } else {
        10 * pow10((k - 1) as nat)
    }
}

/// A number: an integer, a decimal `int.frac` or a fraction `num/den` with a positive
/// denominator, as a fraction in lowest terms; `None` when a part exceeds `i64`.
pub open spec fn spec_number(cs: Seq<char>, p: int) -> Option<(int, Rational)> {
    match spec_digits(cs, p) {
        None => None,
        Some((q, ip)) => {
            let frac_part = if spec_at(cs, q, '.') {
                spec_digits(cs, q + 1)
            } else {
                None
            };
            let den_part = if spec_at(cs, q, '/') {
                spec_digits(cs, q + 1)
            } else {
                None
            };
            match frac_part {
                Some((q2, frac)) => {
                    let denom = pow10((q2 - (q + 1)) as nat);
                    if denom > i64::MAX || ip * denom + frac > i64::MAX {
                        None
                    } else {
                        let r = ratio_lowest((ip * denom + frac) as i64, denom as i64);
                        Some((q2, rational_of(r.0, r.1)))
                    }
                },
                None => match den_part {
                    Some((q2, den)) => if den > 0 {
                        let r = ratio_lowest(ip as i64, den as i64);
                        Some((q2, rational_of(r.0, r.1)))
                    } else {
                        Some((q, rational_of(ip as i64, 1)))
                    },
                    None => Some((q, rational_of(ip as i64, 1))),
                },
            }
        },
    }
}

/// The end of the run of identifier characters that starts at `p`.
pub open spec fn spec_ident_end(cs: Seq<char>, p: int) -> int
    decreases cs.len() - p,
{
    if 0 <= p < cs.len() && spec_is_ident_char(cs[p]) {
        spec_ident_end(cs, p + 1)
    } else {
        p
    }
}

/// An identifier: a letter followed by letters, digits and underscores.
pub open spec fn spec_identifier(cs: Seq<char>, p: int) -> Option<(int, Seq<char>)> {
    if 0 <= p < cs.len() && spec_is_alpha(cs[p]) {
        let q = spec_ident_end(cs, p + 1);
        Some((q, cs.subrange(p, q)))
    } else {
        None
    }
}

/// The keyword written `upper` in capitals and `lower` in small letters, each letter in
/// either case, at `p` and not followed by an identifier character.
pub open spec fn spec_keyword(cs: Seq<char>, p: int, upper: Seq<char>, lower: Seq<char>) -> Option<int> {
    let q = p + upper.len();
    if q <= cs.len() && (forall|i: int|
        0 <= i < upper.len() ==> #[trigger] cs[p + i] == upper[i] || cs[p + i] == lower[i])
        && !(q < cs.len() && spec_is_ident_char(cs[q])) {
        Some(q)
    } else {
        None
    }
}

/// A bound of an interval: digits whose value fits in `i32`.
pub open spec fn spec_bound(cs: Seq<char>, p: int) -> Option<(int, i32)> {
    match spec_digits(cs, p) {
        Some((q, v)) => if v <= i32::MAX {
            Some((q, v as i32))
        } else {
            None
        },
        None => None,
    }
}

/// An interval `[lower, upper]`, with spaces allowed around the bounds.
pub open spec fn spec_interval(cs: Seq<char>, p: int) -> Option<(int, Interval)> {
    if !spec_at(cs, p, '[') {
        None
    } else {
        match spec_bound(cs, spec_ws(cs, p + 1)) {
            None => None,
            Some((q, lower)) => {
                let q1 = spec_ws(cs, q);
                if !spec_at(cs, q1, ',') {
                    None
                } else {
                    match spec_bound(cs, spec_ws(cs, q1 + 1)) {
                        None => None,
                        Some((q2, upper)) => {
                            let q3 = spec_ws(cs, q2);
                            if spec_at(cs, q3, ']') {
                                Some((q3 + 1, Interval { lower, upper }))
                            } else {
                                None
                            }
                        },
                    }
                }
            },
        }
    }
}

/// `+` or `-` at `p`.
pub open spec fn spec_arith_op(cs: Seq<char>, p: int) -> Option<ArithOp> {
    if spec_at(cs, p, '+') {
        Some(ArithOp::Add)
    } else if spec_at(cs, p, '-') {
        Some(ArithOp::Sub)
    } else {
        None
    }
}

/// A relational operator at `p` and the position after it; `<=` and `>=` are preferred
/// to `<` and `>`.
pub open spec fn spec_rel_op(cs: Seq<char>, p: int) -> Option<(int, RelOp)> {
    if spec_at(cs, p, '<') {
        if spec_at(cs, p + 1, '=') {
            Some((p + 2, RelOp::Le))
        } else {
            Some((p + 1, RelOp::Lt))
        }
    } else if spec_at(cs, p, '>') {
        if spec_at(cs, p + 1, '=') {
            Some((p + 2, RelOp::Ge))
        } else {
            Some((p + 1, RelOp::Gt))
        }
    } else if spec_at(cs, p, '=') && spec_at(cs, p + 1, '=') {
        Some((p + 2, RelOp::Eq))
    } else if spec_at(cs, p, '!') && spec_at(cs, p + 1, '=') {
        Some((p + 2, RelOp::Ne))
    } else {
        None
    }
}

/// The relational operator read is the one written: the characters it consumes are that
/// operator's text, as the formula's text form writes it.
pub proof fn lemma_rel_op_reads_its_text(cs: Seq<char>, p: int)
    ensures
        spec_rel_op(cs, p) matches Some((q, op)) ==> p <= q <= cs.len() && cs.subrange(p, q)
            == crate::display::rel_text(op),
{
    if let Some((q, op)) = spec_rel_op(cs, p) {
        assert(cs.subrange(p, q) =~= crate::display::rel_text(op));
    }
}

/// Each operator's text is read back as that operator, unless `<` or `>` is followed by
/// `=` (which makes it `<=` or `>=`).
pub proof fn lemma_rel_text_read_back(op: RelOp, rest: Seq<char>)
    requires
        !((op is Lt || op is Gt) && rest.len() > 0 && rest[0] == '='),
    ensures
        spec_rel_op(crate::display::rel_text(op) + rest, 0) == Some(
            (crate::display::rel_text(op).len() as int, op),
        ),
{
    let cs = crate::display::rel_text(op) + rest;
    let t = crate::display::rel_text(op);
    assert(cs[0] == t[0]);
    if t.len() == 2 {
        assert(cs[1] == t[1]);
    } else if rest.len() > 0 {
        assert(cs[1] == rest[0]);
    }
}

/// The binary connective `sym sym`, or `sym` alone, at `p`, and the position after it.
pub open spec fn spec_connective(cs: Seq<char>, p: int, sym: char) -> Option<int> {
    if spec_at(cs, p, sym) {
        if spec_at(cs, p + 1, sym) {
            Some(p + 2)
        } else {
            Some(p + 1)
        }
    } else {
        None
    }
}

/// A position and a value, the position read as a mathematical integer.
pub open spec fn at_int<T>(r: Option<(usize, T)>) -> Option<(int, T)> {
    match r {
        Some((q, x)) => Some((q as int, x)),
        None => None,
    }
}

proof fn lemma_ws(cs: Seq<char>, p: int)
    requires
        0 <= p <= cs.len(),
    ensures
        p <= spec_ws(cs, p) <= cs.len(),
    decreases cs.len() - p,
{
    if p < cs.len() && spec_is_space(cs[p]) {
        lemma_ws(cs, p + 1);
    }
}

proof fn lemma_digit_end(cs: Seq<char>, p: int)
    requires
        0 <= p <= cs.len(),
    ensures
        p <= spec_digit_end(cs, p) <= cs.len(),
        forall|i: int| p <= i < spec_digit_end(cs, p) ==> spec_is_digit(#[trigger] cs[i]),
    decreases cs.len() - p,
{
    if p < cs.len() && spec_is_digit(cs[p]) {
        lemma_digit_end(cs, p + 1);
    }
}

proof fn lemma_digits_grow(cs: Seq<char>, p: int, a: int, b: int)
    requires
        p <= a <= b <= cs.len(),
        forall|i: int| p <= i < b ==> spec_is_digit(#[trigger] cs[i]),
    ensures
        0 <= digits_value(cs, p, a) <= digits_value(cs, p, b),
    decreases b - p,
{
    if p < b {
        if a < b {
            lemma_digits_grow(cs, p, a, b - 1);
        } else {
            lemma_digits_grow(cs, p, a - 1, b - 1);
        }
    }
}

proof fn lemma_pow10_grow(a: nat, b: nat)
    requires
        a <= b,
    ensures
        1 <= pow10(a) <= pow10(b),
    decreases b,
{
    if a < b {
        lemma_pow10_grow(a, (b - 1) as nat);
    } else if b > 0 {
        lemma_pow10_grow((a - 1) as nat, (b - 1) as nat);
    }
}

proof fn lemma_ident_end(cs: Seq<char>, p: int)
    requires
        0 <= p <= cs.len(),
    ensures
        p <= spec_ident_end(cs, p) <= cs.len(),
    decreases cs.len() - p,
{
    if p < cs.len() && spec_is_ident_char(cs[p]) {
        lemma_ident_end(cs, p + 1);
    }
}

/// The first position at or after `p` that does not hold a space or a tab.
fn skip_ws(cs: &Vec<char>, p: usize) -> (q: usize)
    requires
        p <= cs@.len() < usize::MAX,
    ensures
        q == spec_ws(cs@, p as int),
        p <= q <= cs@.len(),
{
    let mut q = p;
    while q < cs.len() && is_space(cs[q])
        invariant
            p <= q <= cs@.len() < usize::MAX,
            spec_ws(cs@, p as int) == spec_ws(cs@, q as int),
        decreases cs@.len() - q,
    {
        q += 1;
    }
    q
}

/// `cs` holds character `c` at position `p`.
fn at(cs: &Vec<char>, p: usize, c: char) -> (r: bool)
    ensures
        r == spec_at(cs@, p as int, c),
{
    p < cs.len() && cs[p] == c
}

/// An identifier character follows at `p`.
fn ident_follows(cs: &Vec<char>, p: usize) -> (r: bool)
    ensures
        r == (p < cs@.len() && spec_is_ident_char(cs@[p as int])),
{
    p < cs.len() && is_ident_char(cs[p])
}

/// The keyword written `upper` in capitals and `lower` in small letters, each letter in
/// either case, not followed by an identifier character.
fn keyword_at(cs: &Vec<char>, p: usize, upper: &Vec<char>, lower: &Vec<char>) -> (r: Option<usize>)
    requires
        p <= cs@.len() < usize::MAX,
        upper@.len() == lower@.len(),
    ensures
        match r {
            Some(q) => spec_keyword(cs@, p as int, upper@, lower@) == Some(q as int),
            None => spec_keyword(cs@, p as int, upper@, lower@) is None,
        },
{
    let n = upper.len();
    if n > cs.len() - p {
        return None;
    }
    let mut i: usize = 0;
    while i < n
        invariant
            n == upper@.len(),
            n == lower@.len(),
            p + n <= cs@.len() < usize::MAX,
            i <= n,
            forall|k: int| 0 <= k < i ==> #[trigger] cs@[p + k] == upper@[k] || cs@[p + k] == lower@[k],
        decreases n - i,
    {
        let c = cs[p + i];
        if !(c == upper[i] || c == lower[i]) {
            assert(!(cs@[p + i] == upper@[i as int] || cs@[p + i] == lower@[i as int]));
            return None;
        }
        i += 1;
    }
    if ident_follows(cs, p + n) {
        return None;
    }
    Some(p + n)
}

/// A run of decimal digits read as a non-negative integer, and its length; `None` on
/// overflow or when no digit follows.
fn parse_digits(cs: &Vec<char>, p: usize) -> (r: Option<(usize, i64, usize)>)
    requires
        p <= cs@.len() < usize::MAX,
    ensures
        match r {
            Some((q, v, k)) => spec_digits(cs@, p as int) == Some((q as int, v as int)) && k == q - p,
            None => spec_digits(cs@, p as int) is None,
        },
        r matches Some((q, v, k)) ==> p < q <= cs@.len() && v >= 0,
{
    let ghost s = cs@;
    proof {
        lemma_digit_end(s, p as int);
    }
    let mut q = p;
    let mut v: i64 = 0;
    while q < cs.len() && is_digit(cs[q])
        invariant
            s == cs@,
            p <= q <= cs@.len() < usize::MAX,
            v == digits_value(s, p as int, q as int),
            spec_digit_end(s, p as int) == spec_digit_end(s, q as int),
            p <= spec_digit_end(s, p as int) <= s.len(),
            forall|i: int| p <= i < spec_digit_end(s, p as int) ==> spec_is_digit(#[trigger] s[i]),
            q <= spec_digit_end(s, p as int),
        decreases cs@.len() - q,
    {
        proof {
            lemma_digits_grow(s, p as int, q as int, q as int);
            lemma_digit_end(s, q + 1);
        }
        let d = (cs[q] as u32 - '0' as u32) as i64;
        assert(d == s[q as int] as int - '0' as int);
        assert(digits_value(s, p as int, q + 1) == v * 10 + d);
        assert(spec_digit_end(s, q as int) == spec_digit_end(s, q + 1));
        let m = v.checked_mul(10);
        match m {
            None => {
                proof {
                    lemma_digits_grow(s, p as int, q + 1, spec_digit_end(s, p as int));
                }
                return None;
            },
            Some(m) => {
                let a = m.checked_add(d);
                match a {
                    None => {
                        proof {
                            lemma_digits_grow(s, p as int, q + 1, spec_digit_end(s, p as int));
                        }
                        return None;
                    },
                    Some(a) => {
                        v = a;
                    },
                }
            },
        }
        q += 1;
    }
    proof {
        lemma_digits_grow(s, p as int, q as int, q as int);
    }
    if q == p {
        None
    } else {
        Some((q, v, q - p))
    }
}

/// Ten to the power `k`, unless it exceeds `i64`.
fn checked_pow10(k: usize) -> (r: Option<i64>)
    ensures
        match r {
            Some(d) => d == pow10(k as nat),
            None => pow10(k as nat) > i64::MAX,
        },
{
    let mut denom: i64 = 1;
    let mut i: usize = 0;
    while i < k
        invariant
            i <= k,
            denom == pow10(i as nat),
        decreases k - i,
    {
        match denom.checked_mul(10) {
            Some(d) => {
                denom = d;
            },
            None => {
                proof {
                    lemma_pow10_grow((i + 1) as nat, k as nat);
                }
                return None;
            },
        }
        i += 1;
    }
    Some(denom)
}

/// A number: an integer, a decimal `int.frac` or a fraction `num/den`.
fn parse_number(cs: &Vec<char>, p: usize) -> (r: Option<(usize, Rational)>)
    requires
        p <= cs@.len() < usize::MAX,
    ensures
        at_int(r) == spec_number(cs@, p as int),
        r matches Some((q, n)) ==> p < q <= cs@.len(),
{
    let (q, int_part, _) = match parse_digits(cs, p) {
        Some(x) => x,
        None => return None,
    };
    if at(cs, q, '.') {
        if let Some((q2, frac, k)) = parse_digits(cs, q + 1) {
            let denom = match checked_pow10(k) {
                Some(d) => d,
                None => return None,
            };
            proof {
                lemma_pow10_grow(0, k as nat);
            }
            assert(int_part * denom >= 0) by (nonlinear_arith)
                requires
                    int_part >= 0,
                    denom >= 1,
            ;
            let numer = match int_part.checked_mul(denom) {
                Some(x) => match x.checked_add(frac) {
                    Some(y) => y,
                    None => return None,
                },
                None => return None,
            };
            return Some((q2, Rational::new(numer, denom)));
        }
    }
    if at(cs, q, '/') {
        if let Some((q2, den, _)) = parse_digits(cs, q + 1) {
            if den > 0 {
                return Some((q2, Rational::new(int_part, den)));
            }
        }
    }
    Some((q, Rational::from_integer(int_part)))
}

/// An identifier: a letter followed by letters, digits and underscores.
fn parse_identifier(input: &str, cs: &Vec<char>, p: usize) -> (r: Option<(usize, String)>)
    requires
        cs@ == input@,
        p <= cs@.len() < usize::MAX,
    ensures
        match r {
            Some((q, name)) => spec_identifier(cs@, p as int) == Some((q as int, name@)),
            None => spec_identifier(cs@, p as int) is None,
        },
        r matches Some((q, name)) ==> p < q <= cs@.len(),
{
    if p >= cs.len() || !is_alpha(cs[p]) {
        return None;
    }
    let mut q = p + 1;
    while q < cs.len() && is_ident_char(cs[q])
        invariant
            p < q <= cs@.len() < usize::MAX,
            spec_ident_end(cs@, p + 1) == spec_ident_end(cs@, q as int),
        decreases cs@.len() - q,
    {
        q += 1;
    }
    let name = input.substring_char(p, q).to_owned();
    Some((q, name))
}

/// A non-negative bound of an interval.
fn parse_bound(cs: &Vec<char>, p: usize) -> (r: Option<(usize, i32)>)
    requires
        p <= cs@.len() < usize::MAX,
    ensures
        at_int(r) == spec_bound(cs@, p as int),
        r matches Some((q, v)) ==> p < q <= cs@.len() && v >= 0,
{
    match parse_digits(cs, p) {
        Some((q, v, _)) => {
            if v <= i32::MAX as i64 {
                Some((q, v as i32))
            } else {
                None
            }
        },
        None => None,
    }
}

/// An interval `[lower, upper]`, with spaces allowed around the bounds.
pub fn parse_interval_at(cs: &Vec<char>, p: usize) -> (r: Option<(usize, Interval)>)
    requires
        p <= cs@.len() < usize::MAX,
    ensures
        at_int(r) == spec_interval(cs@, p as int),
        r matches Some((q, i)) ==> p < q <= cs@.len() && i.lower >= 0 && i.upper >= 0,
{
    if !at(cs, p, '[') {
        return None;
    }
    let q = skip_ws(cs, p + 1);
    let (q, lower) = match parse_bound(cs, q) {
        Some(x) => x,
        None => return None,
    };
    let q = skip_ws(cs, q);
    if !at(cs, q, ',') {
        return None;
    }
    let q = skip_ws(cs, q + 1);
    let (q, upper) = match parse_bound(cs, q) {
        Some(x) => x,
        None => return None,
    };
    let q = skip_ws(cs, q);
    if !at(cs, q, ']') {
        return None;
    }
    Some((q + 1, Interval { lower, upper }))
}

/// An arithmetic operator.
pub fn parse_arith_op_at(cs: &Vec<char>, p: usize) -> (r: Option<ArithOp>)
    ensures
        r == spec_arith_op(cs@, p as int),
{
    if at(cs, p, '+') {
        Some(ArithOp::Add)
    } else if at(cs, p, '-') {
        Some(ArithOp::Sub)
    } else {
        None
    }
}

/// A relational operator and the position after it; two-character operators are preferred.
pub fn parse_rel_op_at(cs: &Vec<char>, p: usize) -> (r: Option<(usize, RelOp)>)
    requires
        p <= cs@.len() < usize::MAX,
    ensures
        at_int(r) == spec_rel_op(cs@, p as int),
        r matches Some((q, _)) ==> p < q <= p + 2 && q <= cs@.len(),
{
    if at(cs, p, '<') {
        if at(cs, p + 1, '=') {
            Some((p + 2, RelOp::Le))
        } else {
            Some((p + 1, RelOp::Lt))
        }
    } else if at(cs, p, '>') {
        if at(cs, p + 1, '=') {
            Some((p + 2, RelOp::Ge))
        } else {
            Some((p + 1, RelOp::Gt))
        }
    } else if at(cs, p, '=') && at(cs, p + 1, '=') {
        Some((p + 2, RelOp::Eq))
    } else if at(cs, p, '!') && at(cs, p + 1, '=') {
        Some((p + 2, RelOp::Ne))
    } else {
        None
    }
}

/// A real-valued term: a number (possibly negative), a variable, `|term|` or `(term)`.
pub open spec fn spec_aterm(cs: Seq<char>, p: int) -> Option<(int, AExprM)>
    decreases cs.len() - p, 0int,
{
    if !(0 <= p < cs.len()) {
        None
    } else if spec_is_digit(cs[p]) {
        match spec_number(cs, p) {
            Some((q, n)) => Some((q, AExprM::Num(n))),
            None => None,
        }
    } else if cs[p] == '-' && p + 1 < cs.len() && spec_is_digit(cs[p + 1]) {
        match spec_number(cs, p + 1) {
            Some((q, n)) => if n.spec_numer() == i64::MIN {
                None
            } else {
                Some((q, AExprM::Num(rational_of((-n.spec_numer()) as i64, n.spec_denom()))))
            },
            None => None,
        }
    } else if spec_is_alpha(cs[p]) {
        match spec_identifier(cs, p) {
            Some((q, name)) => Some((q, AExprM::Var(name))),
            None => None,
        }
    } else if cs[p] == '|' || cs[p] == '(' {
        let q = spec_ws(cs, p + 1);
        if !(p < q <= cs.len()) {
            None
        } else {
            match spec_aexpr(cs, q) {
                Some((q2, inner)) => {
                    let q3 = spec_ws(cs, q2);
                    if cs[p] == '|' && spec_at(cs, q3, '|') {
                        Some((q3 + 1, AExprM::Abs(Box::new(inner))))
                    } else if cs[p] == '(' && spec_at(cs, q3, ')') {
                        Some((q3 + 1, inner))
                    } else {
                        None
                    }
                },
                None => None,
            }
        }
    } else {
        None
    }
}

/// Terms joined by `+` and `-`, grouped from the left.
pub open spec fn spec_aexpr(cs: Seq<char>, p: int) -> Option<(int, AExprM)>
    decreases cs.len() - p, 1int,
{
    match spec_aterm(cs, p) {
        None => None,
        Some((q, t)) => if p < q <= cs.len() {
            spec_aexpr_rest(cs, q, t)
        } else {
            None
        },
    }
}

/// The rest of a sum after `acc`, which ends at `q`.
pub open spec fn spec_aexpr_rest(cs: Seq<char>, q: int, acc: AExprM) -> Option<(int, AExprM)>
    decreases cs.len() - q, 2int,
{
    let q1 = spec_ws(cs, q);
    match spec_arith_op(cs, q1) {
        None => Some((q, acc)),
        Some(op) => {
            let q2 = spec_ws(cs, q1 + 1);
            if !(q < q2 <= cs.len()) {
                Some((q, acc))
            } else {
                match spec_aterm(cs, q2) {
                    None => Some((q, acc)),
                    Some((q3, rhs)) => if q2 < q3 <= cs.len() {
                        spec_aexpr_rest(
                            cs,
                            q3,
                            AExprM::BinOp { op, left: Box::new(acc), right: Box::new(rhs) },
                        )
                    } else {
                        Some((q, acc))
                    },
                }
            }
        },
    }
}

/// A relation `term op term`.
pub open spec fn spec_relation(cs: Seq<char>, p: int) -> Option<(int, ExprKindM)> {
    match spec_aexpr(cs, p) {
        None => None,
        Some((q, left)) => match spec_rel_op(cs, spec_ws(cs, q)) {
            None => None,
            Some((q1, op)) => match spec_aexpr(cs, spec_ws(cs, q1)) {
                None => None,
                Some((q2, right)) => Some((q2, ExprKindM::Rel { op, left, right })),
            },
        },
    }
}

/// A relation read from text carries the operator written in it: somewhere in the text the
/// operator's own symbol stands.
pub proof fn lemma_relation_operator_written(cs: Seq<char>, p: int)
    ensures
        spec_relation(cs, p) matches Some((_, ExprKindM::Rel { op, .. })) ==> exists|a: int|
            0 <= a && a + crate::display::rel_text(op).len() <= cs.len() && #[trigger] cs.subrange(
                a,
                a + crate::display::rel_text(op).len(),
            ) == crate::display::rel_text(op),
{
    if let Some((q, left)) = spec_aexpr(cs, p) {
        let a = spec_ws(cs, q);
        lemma_rel_op_reads_its_text(cs, a);
        if let Some((q1, op)) = spec_rel_op(cs, a) {
            assert(0 <= a) by {
                if !(0 <= a) {
                    assert(!spec_at(cs, a, '<') && !spec_at(cs, a, '>') && !spec_at(cs, a, '=') && !spec_at(cs, a, '!'));
                }
            }
            assert(q1 == a + crate::display::rel_text(op).len());
            assert(cs.subrange(a, a + crate::display::rel_text(op).len()) == crate::display::rel_text(op));
        }
    }
}

/// A proposition, its identifier left at 0.
pub open spec fn atom(kind: ExprKindM) -> FormulaM {
    FormulaM::Prop(ExprM { id: 0, kind })
}

/// A relation, `TRUE`, `FALSE`, a parenthesised formula or a propositional atom.
pub open spec fn spec_primary(cs: Seq<char>, p: int) -> Option<(int, FormulaM)>
    decreases cs.len() - p, 0int,
{
    match spec_relation(cs, p) {
        Some((q, k)) => Some((q, atom(k))),
        None => match spec_keyword(cs, p, seq!['T', 'R', 'U', 'E'], seq!['t', 'r', 'u', 'e']) {
            Some(q) => Some((q, atom(ExprKindM::True))),
            None => match spec_keyword(
                cs,
                p,
                seq!['F', 'A', 'L', 'S', 'E'],
                seq!['f', 'a', 'l', 's', 'e'],
            ) {
                Some(q) => Some((q, atom(ExprKindM::False))),
                None => if spec_at(cs, p, '(') {
                    let q = spec_ws(cs, p + 1);
                    if !(p < q <= cs.len()) {
                        None
                    } else {
                        match spec_iff(cs, q) {
                            Some((q2, inner)) => if spec_at(cs, spec_ws(cs, q2), ')') {
                                Some((spec_ws(cs, q2) + 1, inner))
                            } else {
                                None
                            },
                            None => None,
                        }
                    }
                } else {
                    match spec_identifier(cs, p) {
                        Some((q, name)) => Some((q, atom(ExprKindM::Atom(name)))),
                        None => None,
                    }
                },
            },
        },
    }
}

/// `!φ`, `G[a,b] φ`, `F[a,b] φ`, `X φ` (that is `F[1,1] φ`) or a primary formula.
pub open spec fn spec_unary(cs: Seq<char>, p: int) -> Option<(int, FormulaM)>
    decreases cs.len() - p, 1int,
{
    if spec_at(cs, p, '!') && !spec_at(cs, p + 1, '=') {
        let q = spec_ws(cs, p + 1);
        if !(p < q <= cs.len()) {
            None
        } else {
            match spec_unary(cs, q) {
                Some((q2, phi)) => Some((q2, FormulaM::Not(Box::new(phi)))),
                None => None,
            }
        }
    } else if (spec_at(cs, p, 'G') || spec_at(cs, p, 'F')) && spec_interval(cs, p + 1) is Some {
        let q = spec_interval(cs, p + 1)->Some_0.0;
        let interval = spec_interval(cs, p + 1)->Some_0.1;
        let q1 = spec_ws(cs, q);
        if !(p < q1 <= cs.len()) {
            None
        } else {
            match spec_unary(cs, q1) {
                Some((q2, phi)) => Some(
                    (
                        q2,
                        if spec_at(cs, p, 'G') {
                            FormulaM::G { interval, parent_upper: None, phi: Box::new(phi) }
                        } else {
                            FormulaM::F { interval, parent_upper: None, phi: Box::new(phi) }
                        },
                    ),
                ),
                None => None,
            }
        }
    } else {
        let q = spec_ws(cs, p + 1);
        let next = if spec_at(cs, p, 'X') && p + 1 < cs.len() && !spec_is_ident_char(cs[p + 1])
            && p < q <= cs.len() {
            spec_unary(cs, q)
        } else {
            None
        };
        match next {
            Some((q2, phi)) => Some(
                (
                    q2,
                    FormulaM::F {
                        interval: Interval { lower: 1, upper: 1 },
                        parent_upper: None,
                        phi: Box::new(phi),
                    },
                ),
            ),
            None => spec_primary(cs, p),
        }
    }
}

/// Unary formulas joined by `U[a,b]` and `R[a,b]`, grouped from the left.
pub open spec fn spec_until(cs: Seq<char>, p: int) -> Option<(int, FormulaM)>
    decreases cs.len() - p, 2int,
{
    match spec_unary(cs, p) {
        None => None,
        Some((q, acc)) => if p < q <= cs.len() {
            spec_until_rest(cs, q, acc)
        } else {
            None
        },
    }
}

pub open spec fn spec_until_rest(cs: Seq<char>, q: int, acc: FormulaM) -> Option<(int, FormulaM)>
    decreases cs.len() - q, 3int,
{
    let q1 = spec_ws(cs, q);
    let is_until = spec_at(cs, q1, 'U');
    if !is_until && !spec_at(cs, q1, 'R') {
        Some((q, acc))
    } else {
        match spec_interval(cs, q1 + 1) {
            None => Some((q, acc)),
            Some((q2, interval)) => {
                let q3 = spec_ws(cs, q2);
                if !(q < q3 <= cs.len()) {
                    Some((q, acc))
                } else {
                    match spec_unary(cs, q3) {
                        None => Some((q, acc)),
                        Some((q4, rhs)) => if q3 < q4 <= cs.len() {
                            spec_until_rest(
                                cs,
                                q4,
                                if is_until {
                                    FormulaM::U {
                                        interval,
                                        parent_upper: None,
                                        left: Box::new(acc),
                                        right: Box::new(rhs),
                                    }
                                } else {
                                    FormulaM::R {
                                        interval,
                                        parent_upper: None,
                                        left: Box::new(acc),
                                        right: Box::new(rhs),
                                    }
                                },
                            )
                        } else {
                            Some((q, acc))
                        },
                    }
                }
            },
        }
    }
}

/// Conjunctions `φ && ψ` (or `φ & ψ`), grouped from the left.
pub open spec fn spec_and(cs: Seq<char>, p: int) -> Option<(int, FormulaM)>
    decreases cs.len() - p, 4int,
{
    match spec_until(cs, p) {
        None => None,
        Some((q, acc)) => if p < q <= cs.len() {
            spec_and_rest(cs, q, acc)
        } else {
            None
        },
    }
}

pub open spec fn spec_and_rest(cs: Seq<char>, q: int, acc: FormulaM) -> Option<(int, FormulaM)>
    decreases cs.len() - q, 5int,
{
    match spec_connective(cs, spec_ws(cs, q), '&') {
        None => Some((q, acc)),
        Some(q2) => {
            let q3 = spec_ws(cs, q2);
            if !(q < q3 <= cs.len()) {
                Some((q, acc))
            } else {
                match spec_until(cs, q3) {
                    None => Some((q, acc)),
                    Some((q4, rhs)) => if q3 < q4 <= cs.len() {
                        spec_and_rest(cs, q4, FormulaM::And(seq![acc, rhs]))
                    } else {
                        Some((q, acc))
                    },
                }
            }
        },
    }
}

/// Disjunctions `φ || ψ` (or `φ | ψ`), grouped from the left.
pub open spec fn spec_or(cs: Seq<char>, p: int) -> Option<(int, FormulaM)>
    decreases cs.len() - p, 6int,
{
    match spec_and(cs, p) {
        None => None,
        Some((q, acc)) => if p < q <= cs.len() {
            spec_or_rest(cs, q, acc)
        } else {
            None
        },
    }
}

pub open spec fn spec_or_rest(cs: Seq<char>, q: int, acc: FormulaM) -> Option<(int, FormulaM)>
    decreases cs.len() - q, 7int,
{
    match spec_connective(cs, spec_ws(cs, q), '|') {
        None => Some((q, acc)),
        Some(q2) => {
            let q3 = spec_ws(cs, q2);
            if !(q < q3 <= cs.len()) {
                Some((q, acc))
            } else {
                match spec_and(cs, q3) {
                    None => Some((q, acc)),
                    Some((q4, rhs)) => if q3 < q4 <= cs.len() {
                        spec_or_rest(cs, q4, FormulaM::Or(seq![acc, rhs]))
                    } else {
                        Some((q, acc))
                    },
                }
            }
        },
    }
}

/// Implications `φ -> ψ`, grouped from the right; the negated premise is the negation
/// normal form of `!φ`.
pub open spec fn spec_imply(cs: Seq<char>, p: int) -> Option<(int, FormulaM)>
    decreases cs.len() - p, 8int,
{
    match spec_or(cs, p) {
        None => None,
        Some((q, left)) => {
            let q1 = spec_ws(cs, q);
            let q2 = spec_ws(cs, q1 + 2);
            let right = if spec_at(cs, q1, '-') && spec_at(cs, q1 + 1, '>') && p < q2 <= cs.len() {
                spec_imply(cs, q2)
            } else {
                None
            };
            match right {
                Some((q3, r)) => Some(
                    (
                        q3,
                        FormulaM::Imply {
                            left: Box::new(left),
                            right: Box::new(r),
                            not_left: Box::new(spec_nnf_neg(left)),
                        },
                    ),
                ),
                None => Some((q, left)),
            }
        },
    }
}

/// Equivalences `φ <-> ψ`, grouped from the left, each read as `(φ && ψ) || (!φ && !ψ)`.
pub open spec fn spec_iff(cs: Seq<char>, p: int) -> Option<(int, FormulaM)>
    decreases cs.len() - p, 9int,
{
    match spec_imply(cs, p) {
        None => None,
        Some((q, acc)) => if p < q <= cs.len() {
            spec_iff_rest(cs, q, acc)
        } else {
            None
        },
    }
}

/// `(φ && ψ) || (!φ && !ψ)`.
pub open spec fn equivalence(a: FormulaM, b: FormulaM) -> FormulaM {
    FormulaM::Or(
        seq![
            FormulaM::And(seq![a, b]),
            FormulaM::And(seq![FormulaM::Not(Box::new(a)), FormulaM::Not(Box::new(b))]),
        ],
    )
}

pub open spec fn spec_iff_rest(cs: Seq<char>, q: int, acc: FormulaM) -> Option<(int, FormulaM)>
    decreases cs.len() - q, 10int,
{
    let q1 = spec_ws(cs, q);
    if !(spec_at(cs, q1, '<') && spec_at(cs, q1 + 1, '-') && spec_at(cs, q1 + 2, '>')) {
        Some((q, acc))
    } else {
        let q2 = spec_ws(cs, q1 + 3);
        if !(q < q2 <= cs.len()) {
            Some((q, acc))
        } else {
            match spec_imply(cs, q2) {
                None => Some((q, acc)),
                Some((q3, rhs)) => if q2 < q3 <= cs.len() {
                    spec_iff_rest(cs, q3, equivalence(acc, rhs))
                } else {
                    Some((q, acc))
                },
            }
        }
    }
}

/// A parsed term with its end position.
pub open spec fn aparsed(r: Option<(usize, AExpr)>) -> Option<(int, AExprM)> {
    match r {
        Some((q, e)) => Some((q as int, e@)),
        None => None,
    }
}

/// A parsed formula with its end position, identifiers left out.
pub open spec fn parsed(r: Option<(usize, Formula)>) -> Option<(int, FormulaM)> {
    match r {
        Some((q, f)) => Some((q as int, strip(f@))),
        None => None,
    }
}

proof fn lemma_strip_pair(v: Vec<Formula>, a: FormulaM, b: FormulaM)
    requires
        fviews(v@) == seq![a, b],
    ensures
        strip(FormulaM::And(fviews(v@))) == FormulaM::And(seq![strip(a), strip(b)]),
        strip(FormulaM::Or(fviews(v@))) == FormulaM::Or(seq![strip(a), strip(b)]),
{
    lemma_strip_junction(fviews(v@));
    assert(Seq::new(2, |i: int| strip(fviews(v@)[i])) =~= seq![strip(a), strip(b)]);
}

/// The conjunction of two formulas.
fn and_pair(a: Formula, b: Formula) -> (r: Formula)
    ensures
        strip(r@) == FormulaM::And(seq![strip(a@), strip(b@)]),
{
    let ghost x = a@;
    let ghost y = b@;
    let v = vec![a, b];
    assert(fviews(v@) =~= seq![x, y]);
    proof {
        lemma_strip_pair(v, x, y);
    }
    Formula::and(v)
}

/// The disjunction of two formulas.
fn or_pair(a: Formula, b: Formula) -> (r: Formula)
    ensures
        strip(r@) == FormulaM::Or(seq![strip(a@), strip(b@)]),
{
    let ghost x = a@;
    let ghost y = b@;
    let v = vec![a, b];
    assert(fviews(v@) =~= seq![x, y]);
    proof {
        lemma_strip_pair(v, x, y);
    }
    Formula::or(v)
}

/// `(a && b) || (!a && !b)`.
fn equivalence_of(a: Formula, b: Formula) -> (r: Formula)
    ensures
        strip(r@) == equivalence(strip(a@), strip(b@)),
{
    let both = and_pair(a.clone(), b.clone());
    let neither = and_pair(Formula::not(a), Formula::not(b));
    or_pair(both, neither)
}

/// A real-valued term: terms joined by `+` and `-`, grouped from the left.
fn parse_aexpr_at(input: &str, cs: &Vec<char>, p: usize) -> (r: Option<(usize, AExpr)>)
    requires
        cs@ == input@,
        p <= cs@.len() < usize::MAX,
    ensures
        aparsed(r) == spec_aexpr(cs@, p as int),
        r matches Some((q, _)) ==> p < q <= cs@.len(),
    decreases cs@.len() - p, 1nat,
{
    let (mut q, mut acc) = match parse_aterm_at(input, cs, p) {
        Some(x) => x,
        None => return None,
    };
    loop
        invariant
            cs@ == input@,
            p < q <= cs@.len() < usize::MAX,
            spec_aexpr(cs@, p as int) == spec_aexpr_rest(cs@, q as int, acc@),
        ensures
            p < q <= cs@.len(),
            spec_aexpr(cs@, p as int) == Some((q as int, acc@)),
        decreases cs@.len() - q,
    {
        let q1 = skip_ws(cs, q);
        let op = match parse_arith_op_at(cs, q1) {
            Some(op) => op,
            None => break,
        };
        let q2 = skip_ws(cs, q1 + 1);
        match parse_aterm_at(input, cs, q2) {
            Some((q3, rhs)) => {
                acc = AExpr::BinOp { op, left: Box::new(acc), right: Box::new(rhs) };
                q = q3;
            },
            None => break,
        }
    }
    Some((q, acc))
}

/// A number (possibly negative), a variable, `|term|` or `(term)`.
fn parse_aterm_at(input: &str, cs: &Vec<char>, p: usize) -> (r: Option<(usize, AExpr)>)
    requires
        cs@ == input@,
        p <= cs@.len() < usize::MAX,
    ensures
        aparsed(r) == spec_aterm(cs@, p as int),
        r matches Some((q, _)) ==> p < q <= cs@.len(),
    decreases cs@.len() - p, 0nat,
{
    if p >= cs.len() {
        return None;
    }
    let c = cs[p];
    if is_digit(c) {
        return match parse_number(cs, p) {
            Some((q, n)) => Some((q, AExpr::Num(n))),
            None => None,
        };
    }
    if c == '-' && p + 1 < cs.len() && is_digit(cs[p + 1]) {
        return match parse_number(cs, p + 1) {
            Some((q, n)) => {
                match n.checked_neg() {
                    Some(m) => Some((q, AExpr::Num(m))),
                    None => None,
                }
            },
            None => None,
        };
    }
    if is_alpha(c) {
        return match parse_identifier(input, cs, p) {
            Some((q, name)) => Some((q, AExpr::Var(name))),
            None => None,
        };
    }
    if c == '|' {
        let q = skip_ws(cs, p + 1);
        return match parse_aexpr_at(input, cs, q) {
            Some((q2, inner)) => {
                let q3 = skip_ws(cs, q2);
                if at(cs, q3, '|') {
                    Some((q3 + 1, AExpr::Abs(Box::new(inner))))
                } else {
                    None
                }
            },
            None => None,
        };
    }
    if c == '(' {
        let q = skip_ws(cs, p + 1);
        return match parse_aexpr_at(input, cs, q) {
            Some((q2, inner)) => {
                let q3 = skip_ws(cs, q2);
                if at(cs, q3, ')') {
                    Some((q3 + 1, inner))
                } else {
                    None
                }
            },
            None => None,
        };
    }
    None
}

/// A relation `term op term`.
fn parse_relation(input: &str, cs: &Vec<char>, p: usize, ids: &mut IdGen) -> (r: Option<(usize, Expr)>)
    requires
        cs@ == input@,
        p <= cs@.len() < usize::MAX,
    ensures
        match r {
            Some((q, e)) => spec_relation(cs@, p as int) == Some((q as int, e@.kind)),
            None => spec_relation(cs@, p as int) is None,
        },
        r matches Some((q, _)) ==> p < q <= cs@.len(),
{
    let (q, left) = match parse_aexpr_at(input, cs, p) {
        Some(x) => x,
        None => return None,
    };
    let q = skip_ws(cs, q);
    let (q, op) = match parse_rel_op_at(cs, q) {
        Some(x) => x,
        None => return None,
    };
    let q = skip_ws(cs, q);
    let (q, right) = match parse_aexpr_at(input, cs, q) {
        Some(x) => x,
        None => return None,
    };
    Some((q, Expr::real_rel(op, left, right, ids)))
}

/// A relation, `TRUE`, `FALSE`, a parenthesised formula or a propositional atom.
fn parse_primary(input: &str, cs: &Vec<char>, p: usize, ids: &mut IdGen) -> (r: Option<(usize, Formula)>)
    requires
        cs@ == input@,
        p <= cs@.len() < usize::MAX,
    ensures
        parsed(r) == spec_primary(cs@, p as int),
        r matches Some((q, _)) ==> p < q <= cs@.len(),
    decreases cs@.len() - p, 0nat,
{
    if let Some((q, e)) = parse_relation(input, cs, p, ids) {
        return Some((q, Formula::prop(e)));
    }
    let true_upper = vec!['T', 'R', 'U', 'E'];
    let true_lower = vec!['t', 'r', 'u', 'e'];
    assert(true_upper@ == seq!['T', 'R', 'U', 'E'] && true_lower@ == seq!['t', 'r', 'u', 'e']);
    if let Some(q) = keyword_at(cs, p, &true_upper, &true_lower) {
        return Some((q, Formula::prop(Expr::true_expr(ids))));
    }
    let false_upper = vec!['F', 'A', 'L', 'S', 'E'];
    let false_lower = vec!['f', 'a', 'l', 's', 'e'];
    assert(false_upper@ == seq!['F', 'A', 'L', 'S', 'E'] && false_lower@ == seq!['f', 'a', 'l', 's', 'e']);
    if let Some(q) = keyword_at(cs, p, &false_upper, &false_lower) {
        return Some((q, Formula::prop(Expr::false_expr(ids))));
    }
    if at(cs, p, '(') {
        let q = skip_ws(cs, p + 1);
        if let Some((q2, inner)) = parse_iff(input, cs, q, ids) {
            let q3 = skip_ws(cs, q2);
            if at(cs, q3, ')') {
                return Some((q3 + 1, inner));
            }
        }
        return None;
    }
    match parse_identifier(input, cs, p) {
        Some((q, name)) => Some((q, Formula::prop(Expr::bool(name, ids)))),
        None => None,
    }
}

/// `!φ`, `G[a,b] φ`, `F[a,b] φ`, `X φ` (that is `F[1,1] φ`) or a primary formula.
fn parse_unary(input: &str, cs: &Vec<char>, p: usize, ids: &mut IdGen) -> (r: Option<(usize, Formula)>)
    requires
        cs@ == input@,
        p <= cs@.len() < usize::MAX,
    ensures
        parsed(r) == spec_unary(cs@, p as int),
        r matches Some((q, _)) ==> p < q <= cs@.len(),
    decreases cs@.len() - p, 1nat,
{
    if at(cs, p, '!') && !at(cs, p + 1, '=') {
        let q = skip_ws(cs, p + 1);
        return match parse_unary(input, cs, q, ids) {
            Some((q2, phi)) => Some((q2, Formula::not(phi))),
            None => None,
        };
    }
    if at(cs, p, 'G') || at(cs, p, 'F') {
        if let Some((q, interval)) = parse_interval_at(cs, p + 1) {
            let q = skip_ws(cs, q);
            return match parse_unary(input, cs, q, ids) {
                Some((q2, phi)) => {
                    if at(cs, p, 'G') {
                        Some((q2, Formula::g(interval, None, phi)))
                    } else {
                        Some((q2, Formula::f(interval, None, phi)))
                    }
                },
                None => None,
            };
        }
    }
    if at(cs, p, 'X') && p + 1 < cs.len() && !is_ident_char(cs[p + 1]) {
        let q = skip_ws(cs, p + 1);
        if let Some((q2, phi)) = parse_unary(input, cs, q, ids) {
            return Some((q2, Formula::f(Interval { lower: 1, upper: 1 }, None, phi)));
        }
    }
    parse_primary(input, cs, p, ids)
}

/// Unary formulas joined by `U[a,b]` and `R[a,b]`, grouped from the left.
#[verifier::rlimit(40)]
fn parse_until(input: &str, cs: &Vec<char>, p: usize, ids: &mut IdGen) -> (r: Option<(usize, Formula)>)
    requires
        cs@ == input@,
        p <= cs@.len() < usize::MAX,
    ensures
        parsed(r) == spec_until(cs@, p as int),
        r matches Some((q, _)) ==> p < q <= cs@.len(),
    decreases cs@.len() - p, 2nat,
{
    let (mut q, mut acc) = match parse_unary(input, cs, p, ids) {
        Some(x) => x,
        None => return None,
    };
    loop
        invariant
            cs@ == input@,
            p < q <= cs@.len() < usize::MAX,
            spec_until(cs@, p as int) == spec_until_rest(cs@, q as int, strip(acc@)),
        ensures
            p < q <= cs@.len(),
            spec_until(cs@, p as int) == Some((q as int, strip(acc@))),
        decreases cs@.len() - q,
    {
        let q1 = skip_ws(cs, q);
        let is_until = at(cs, q1, 'U');
        if !is_until && !at(cs, q1, 'R') {
            break;
        }
        let (q2, interval) = match parse_interval_at(cs, q1 + 1) {
            Some(x) => x,
            None => break,
        };
        let q3 = skip_ws(cs, q2);
        match parse_unary(input, cs, q3, ids) {
            Some((q4, rhs)) => {
                acc = if is_until {
                    Formula::u(interval, None, acc, rhs)
                } else {
                    Formula::r(interval, None, acc, rhs)
                };
                q = q4;
            },
            None => break,
        }
    }
    Some((q, acc))
}

/// The binary connective `sym sym` or `sym` (not followed by a second `sym`) at `p`,
/// and the position after it.
fn connective_at(cs: &Vec<char>, p: usize, sym: char) -> (r: Option<usize>)
    requires
        p <= cs@.len() < usize::MAX,
    ensures
        match r {
            Some(q) => spec_connective(cs@, p as int, sym) == Some(q as int),
            None => spec_connective(cs@, p as int, sym) is None,
        },
        r matches Some(q) ==> p < q <= p + 2 && q <= cs@.len(),
{
    if at(cs, p, sym) {
        if at(cs, p + 1, sym) {
            Some(p + 2)
        } else {
            Some(p + 1)
        }
    } else {
        None
    }
}

/// Conjunctions `φ && ψ` (or `φ & ψ`), grouped from the left.
fn parse_and(input: &str, cs: &Vec<char>, p: usize, ids: &mut IdGen) -> (r: Option<(usize, Formula)>)
    requires
        cs@ == input@,
        p <= cs@.len() < usize::MAX,
    ensures
        parsed(r) == spec_and(cs@, p as int),
        r matches Some((q, _)) ==> p < q <= cs@.len(),
    decreases cs@.len() - p, 4nat,
{
    let (mut q, mut acc) = match parse_until(input, cs, p, ids) {
        Some(x) => x,
        None => return None,
    };
    loop
        invariant
            cs@ == input@,
            p < q <= cs@.len() < usize::MAX,
            spec_and(cs@, p as int) == spec_and_rest(cs@, q as int, strip(acc@)),
        ensures
            p < q <= cs@.len(),
            spec_and(cs@, p as int) == Some((q as int, strip(acc@))),
        decreases cs@.len() - q,
    {
        let q1 = skip_ws(cs, q);
        let q2 = match connective_at(cs, q1, '&') {
            Some(x) => x,
            None => break,
        };
        let q3 = skip_ws(cs, q2);
        match parse_until(input, cs, q3, ids) {
            Some((q4, rhs)) => {
                acc = and_pair(acc, rhs);
                q = q4;
            },
            None => break,
        }
    }
    Some((q, acc))
}

/// Disjunctions `φ || ψ` (or `φ | ψ`), grouped from the left.
fn parse_or(input: &str, cs: &Vec<char>, p: usize, ids: &mut IdGen) -> (r: Option<(usize, Formula)>)
    requires
        cs@ == input@,
        p <= cs@.len() < usize::MAX,
    ensures
        parsed(r) == spec_or(cs@, p as int),
        r matches Some((q, _)) ==> p < q <= cs@.len(),
    decreases cs@.len() - p, 6nat,
{
    let (mut q, mut acc) = match parse_and(input, cs, p, ids) {
        Some(x) => x,
        None => return None,
    };
    loop
        invariant
            cs@ == input@,
            p < q <= cs@.len() < usize::MAX,
            spec_or(cs@, p as int) == spec_or_rest(cs@, q as int, strip(acc@)),
        ensures
            p < q <= cs@.len(),
            spec_or(cs@, p as int) == Some((q as int, strip(acc@))),
        decreases cs@.len() - q,
    {
        let q1 = skip_ws(cs, q);
        let q2 = match connective_at(cs, q1, '|') {
            Some(x) => x,
            None => break,
        };
        let q3 = skip_ws(cs, q2);
        match parse_and(input, cs, q3, ids) {
            Some((q4, rhs)) => {
                acc = or_pair(acc, rhs);
                q = q4;
            },
            None => break,
        }
    }
    Some((q, acc))
}

/// Implications `φ -> ψ`, grouped from the right.
fn parse_imply(input: &str, cs: &Vec<char>, p: usize, ids: &mut IdGen) -> (r: Option<(usize, Formula)>)
    requires
        cs@ == input@,
        p <= cs@.len() < usize::MAX,
    ensures
        parsed(r) == spec_imply(cs@, p as int),
        r matches Some((q, _)) ==> p < q <= cs@.len(),
    decreases cs@.len() - p, 8nat,
{
    let (q, left) = match parse_or(input, cs, p, ids) {
        Some(x) => x,
        None => return None,
    };
    let q1 = skip_ws(cs, q);
    if at(cs, q1, '-') && at(cs, q1 + 1, '>') {
        let q2 = skip_ws(cs, q1 + 2);
        if let Some((q3, right)) = parse_imply(input, cs, q2, ids) {
            return Some((q3, Formula::imply(left, right, ids)));
        }
    }
    Some((q, left))
}

/// Equivalences `φ <-> ψ`, grouped from the left; `φ <-> ψ` stands for
/// `(φ && ψ) || (!φ && !ψ)`.
fn parse_iff(input: &str, cs: &Vec<char>, p: usize, ids: &mut IdGen) -> (r: Option<(usize, Formula)>)
    requires
        cs@ == input@,
        p <= cs@.len() < usize::MAX,
    ensures
        parsed(r) == spec_iff(cs@, p as int),
        r matches Some((q, _)) ==> p < q <= cs@.len(),
    decreases cs@.len() - p, 9nat,
{
    let (mut q, mut acc) = match parse_imply(input, cs, p, ids) {
        Some(x) => x,
        None => return None,
    };
    loop
        invariant
            cs@ == input@,
            p < q <= cs@.len() < usize::MAX,
            spec_iff(cs@, p as int) == spec_iff_rest(cs@, q as int, strip(acc@)),
        ensures
            p < q <= cs@.len(),
            spec_iff(cs@, p as int) == Some((q as int, strip(acc@))),
        decreases cs@.len() - q,
    {
        let q1 = skip_ws(cs, q);
        if !(at(cs, q1, '<') && at(cs, q1 + 1, '-') && at(cs, q1 + 2, '>')) {
            break;
        }
        let q2 = skip_ws(cs, q1 + 3);
        match parse_imply(input, cs, q2, ids) {
            Some((q3, rhs)) => {
                acc = equivalence_of(acc, rhs);
                q = q3;
            },
            None => break,
        }
    }
    Some((q, acc))
}

/// A formula at the start of `cs`, after leading blanks: where it ends, and the formula
/// with the identifiers of its propositions left at 0.
pub open spec fn spec_parse_formula(cs: Seq<char>) -> Option<(int, FormulaM)> {
    spec_iff(cs, spec_ws(cs, 0))
}

/// Parses a formula at the start of `input` (after leading blanks) and returns the
/// unread rest of the input with it. Propositions get identifiers from `ids`.
pub fn parse_formula<'a>(input: &'a str, ids: &mut IdGen) -> (r: Result<(&'a str, Formula), ParseError>)
    requires
        input@.len() < usize::MAX,
    ensures
        match r {
            Ok((rest, f)) => {
                &&& spec_parse_formula(input@) == Some((input@.len() - rest@.len(), strip(f@)))
                &&& rest@ == input@.subrange(input@.len() - rest@.len(), input@.len() as int)
            },
            Err(e) => spec_parse_formula(input@) is None && e.position == spec_ws(input@, 0),
        },
        r matches Ok((rest, _)) ==> rest@.len() < input@.len(),
{
    let cs = chars_of(input);
    let p = skip_ws(&cs, 0);
    let parsed_iff = parse_iff(input, &cs, p, ids);
    assert(parsed(parsed_iff) == spec_parse_formula(input@));
    match parsed_iff {
        Some((q, f)) => {
            let rest = input.substring_char(q, cs.len());
            assert(input@.len() - rest@.len() == q);
            Ok((rest, f))
        },
        None => Err(ParseError { position: p }),
    }
}

} // verus!
