use vstd::prelude::*;

use crate::display::{int_text, join_prefix, push_all, push_formula, push_int, string_from_chars};
use crate::formula::{clone_formulas, formula_eq, fviews, Formula, FormulaM};
use crate::node::{ops, Node};

verus! {

/// What a trace records of a node: its propositions and negations.
pub open spec fn is_trace_literal(f: FormulaM) -> bool {
    f is Prop || f is Not
}

/// The propositions and negations among the first `n` formulas of `s`, each once, in the
/// order of their first appearance.
pub open spec fn trace_literals(s: Seq<FormulaM>, n: int) -> Seq<FormulaM>
    decreases n,
{
    if n <= 0 || n > s.len() {
        Seq::empty()
    } else {
        let k = trace_literals(s, n - 1);
        if is_trace_literal(s[n - 1]) && !k.contains(s[n - 1]) {
            k.push(s[n - 1])
        } else {
            k
        }
    }
}

/// The steps of a trace: recorded formulas and the instant they hold from.
pub open spec fn steps_view(v: Seq<(Vec<Formula>, i32)>) -> Seq<(Seq<FormulaM>, int)> {
    Seq::new(v.len(), |i: int| (fviews(v[i].0@), v[i].1 as int))
}

/// `x`, or 0 when it is negative.
pub open spec fn max0(x: int) -> int {
    if x < 0 {
        0
    } else {
        x
    }
}

/// What the trace holds at instant `time`: the formulas of the last step that starts at or
/// before it, searching the first `n` steps from the end; nothing when there is none.
pub open spec fn spec_eval(v: Seq<(Seq<FormulaM>, int)>, time: int, n: int) -> Seq<FormulaM>
    decreases n,
{
    if n <= 0 || n > v.len() {
        Seq::empty()
    } else if v[n - 1].1 <= time {
        v[n - 1].0
    } else {
        spec_eval(v, time, n - 1)
    }
}

/// Step `k` covers slot `t`: from its own start up to the start of step `k + 1`, below
/// `size`.
pub open spec fn window_covers(v: Seq<(Seq<FormulaM>, int)>, size: int, k: int, t: int) -> bool {
    let hi = if max0(v[k + 1].1) < size {
        max0(v[k + 1].1)
    } else {
        size
    };
    max0(v[k].1) <= t < hi
}

/// Slot `t` once the first `n` steps are laid out over their windows, a later step
/// overwriting an earlier one.
pub open spec fn slot_before_last(v: Seq<(Seq<FormulaM>, int)>, size: int, t: int, n: int) -> Seq<FormulaM>
    decreases n,
{
    if n <= 0 {
        Seq::empty()
    } else if window_covers(v, size, n - 1, t) {
        v[n - 1].0
    } else {
        slot_before_last(v, size, t, n - 1)
    }
}

/// Slot `t` of the full trace: the last step from its start on, the windows of the others
/// before it.
pub open spec fn spec_full_trace_at(v: Seq<(Seq<FormulaM>, int)>, t: int) -> Seq<FormulaM> {
    if max0(v.last().1) <= t {
        v.last().0
    } else {
        slot_before_last(v, v.last().1 + 1, t, v.len() - 1)
    }
}

proof fn lemma_windows_match_eval(v: Seq<(Seq<FormulaM>, int)>, size: int, t: int, m: int)
    requires
        0 <= m < v.len(),
        forall|i: int, j: int| 0 <= i < j < v.len() ==> 0 <= #[trigger] v[i].1 < #[trigger] v[j].1,
        v.last().1 < size,
        0 <= t < v[m].1,
    ensures
        slot_before_last(v, size, t, m) == spec_eval(v, t, m),
    decreases m,
{
    if m > 0 {
        assert(v[m].1 <= v.last().1) by {
            if m < v.len() - 1 {
                assert(v[m].1 < v[v.len() - 1].1);
            }
        }
        if !(v[m - 1].1 <= t) {
            lemma_windows_match_eval(v, size, t, m - 1);
        }
    }
}

/// For steps that start at increasing, non-negative instants, each slot of the full trace
/// holds what the trace gives at that instant.
pub proof fn lemma_full_trace_is_eval(v: Seq<(Seq<FormulaM>, int)>, t: int)
    requires
        v.len() > 0,
        forall|i: int, j: int| 0 <= i < j < v.len() ==> 0 <= #[trigger] v[i].1 < #[trigger] v[j].1,
        0 <= t <= v.last().1,
    ensures
        spec_full_trace_at(v, t) == spec_eval(v, t, v.len() as int),
{
    let n = v.len() as int;
    if n == 1 {
        assert(v[0].1 >= 0) by {
            assert(v.last() == v[0]);
        }
    } else {
        assert(v[0].1 < v[n - 1].1);
    }
    if t < max0(v.last().1) {
        lemma_windows_match_eval(v, v.last().1 + 1, t, n - 1);
    }
}

/// The text of the steps, one line each: `Time t: ` and the formulas joined by `, `.
pub open spec fn trace_text(v: Seq<(Seq<FormulaM>, int)>, n: int) -> Seq<char>
    decreases n,
{
    if n <= 0 || n > v.len() {
        Seq::empty()
    } else {
        trace_text(v, n - 1) + seq!['T', 'i', 'm', 'e', ' '] + int_text(v[n - 1].1) + seq![':', ' ']
            + join_prefix(v[n - 1].0, seq![',', ' '], v[n - 1].0.len() as int) + seq!['\n']
    }
}

/// `f` occurs in `v`.
fn contains_formula(v: &Vec<Formula>, f: &Formula) -> (r: bool)
    ensures
        r == fviews(v@).contains(f@),
{
    let mut i: usize = 0;
    while i < v.len()
        invariant
            i <= v@.len(),
            forall|j: int| 0 <= j < i ==> fviews(v@)[j] != f@,
        decreases v@.len() - i,
    {
        if formula_eq(&v[i], f) {
            assert(fviews(v@)[i as int] == f@);
            return true;
        }
        i += 1;
    }
    false
}

/// The nodes met along a branch, the latest added first.
pub struct TraceBuilder {
    nodes: Vec<(Vec<Formula>, i32)>,
}

/// The steps of a branch, in the order they were laid down.
pub struct Trace {
    nodes: Vec<(Vec<Formula>, i32)>,
}

impl TraceBuilder {
    pub closed spec fn steps(&self) -> Seq<(Seq<FormulaM>, int)> {
        steps_view(self.nodes@)
    }

    pub fn new() -> (r: TraceBuilder)
        ensures
            r.steps() == Seq::<(Seq<FormulaM>, int)>::empty(),
    {
        let r = TraceBuilder { nodes: Vec::new() };
        assert(r.steps() =~= Seq::<(Seq<FormulaM>, int)>::empty());
        r
    }

    /// Records the propositions and negations of `node` (each once) at its instant, in
    /// front of the steps recorded so far.
    pub fn add_node(&mut self, node: &Node)
        ensures
            final(self).steps() == seq![
                (trace_literals(ops(node), ops(node).len() as int), node.current_time as int),
            ] + old(self).steps(),
    {
        let mut formulas: Vec<Formula> = Vec::new();
        let mut i: usize = 0;
        while i < node.operands.len()
            invariant
                i <= node.operands@.len(),
                fviews(formulas@) == trace_literals(ops(node), i as int),
            decreases node.operands@.len() - i,
        {
            let f = &node.operands[i];
            assert(ops(node)[i as int] == f@);
            let literal = match f {
                Formula::Prop(_) | Formula::Not(_) => true,
                _ => false,
            };
            if literal && !contains_formula(&formulas, f) {
                let g = f.clone();
                let ghost before = formulas@;
                formulas.push(g);
                assert(fviews(formulas@) =~= fviews(before).push(f@));
            }
            i += 1;
        }
        let ghost old_nodes = self.nodes@;
        self.nodes.insert(0, (formulas, node.current_time));
        assert(self.steps() =~= seq![
            (trace_literals(ops(node), ops(node).len() as int), node.current_time as int),
        ] + steps_view(old_nodes));
    }

    /// Forgets every step.
    pub fn reset(&mut self)
        ensures
            final(self).steps() == Seq::<(Seq<FormulaM>, int)>::empty(),
    {
        self.nodes.clear();
        assert(self.steps() =~= Seq::<(Seq<FormulaM>, int)>::empty());
    }

    /// The trace of the steps recorded, in the same order.
    pub fn freeze(self) -> (r: Trace)
        ensures
            r.steps() == self.steps(),
    {
        Trace { nodes: self.nodes }
    }
}

impl Default for TraceBuilder {
    fn default() -> (r: TraceBuilder)
        ensures
            r.steps() == Seq::<(Seq<FormulaM>, int)>::empty(),
    {
        TraceBuilder::new()
    }
}

impl Trace {
    pub closed spec fn steps(&self) -> Seq<(Seq<FormulaM>, int)> {
        steps_view(self.nodes@)
    }

    /// The instant of the last step.
    pub fn length(&self) -> (r: i32)
        requires
            self.steps().len() > 0,
        ensures
            r == self.steps().last().1,
    {
        self.nodes[self.nodes.len() - 1].1
    }

    /// The formulas that hold at `time`: those of the last step starting at or before it.
    pub fn eval(&self, time: i32) -> (r: Vec<Formula>)
        requires
            time >= 0,
        ensures
            fviews(r@) == spec_eval(self.steps(), time as int, self.steps().len() as int),
    {
        let ghost v = self.steps();
        let mut i: usize = self.nodes.len();
        while i > 0
            invariant
                v == self.steps(),
                i <= v.len(),
                spec_eval(v, time as int, v.len() as int) == spec_eval(v, time as int, i as int),
            decreases i,
        {
            if self.nodes[i - 1].1 <= time {
                return clone_formulas(&self.nodes[i - 1].0);
            }
            i -= 1;
        }
        let r: Vec<Formula> = Vec::new();
        assert(fviews(r@) =~= Seq::<FormulaM>::empty());
        r
    }

    /// The formulas of every instant from 0 to the instant of the last step: each step
    /// fills the instants up to the start of the next, and the last step fills the rest.
    pub fn full_trace(&self) -> (r: Vec<Vec<Formula>>)
        requires
            self.steps().len() > 0 ==> self.steps().last().1 >= 0,
        ensures
            self.steps().len() == 0 ==> r@.len() == 0,
            self.steps().len() > 0 ==> r@.len() == self.steps().last().1 + 1 && forall|t: int|
                0 <= t < r@.len() ==> fviews(#[trigger] r@[t]@) == spec_full_trace_at(self.steps(), t),
    {
        let ghost v = self.steps();
        if self.nodes.len() == 0 {
            return Vec::new();
        }
        let n = self.nodes.len();
        let last_time = self.length();
        let size: usize = last_time as usize + 1;
        let mut result: Vec<Vec<Formula>> = Vec::new();
        while result.len() < size
            invariant
                result@.len() <= size,
                forall|t: int| 0 <= t < result@.len() ==> #[trigger] result@[t]@.len() == 0,
            decreases size - result@.len(),
        {
            result.push(Vec::new());
        }
        let mut k: usize = 0;
        while k + 1 < n
            invariant
                v == self.steps(),
                n == v.len(),
                n > 0,
                size == v.last().1 + 1,
                k + 1 <= n,
                result@.len() == size,
                forall|t: int| 0 <= t < size ==> fviews(#[trigger] result@[t]@) == slot_before_last(v, size as int, t, k as int),
            decreases n - k,
        {
            let t_start: usize = if self.nodes[k].1 < 0 {
                0
            } else {
                self.nodes[k].1 as usize
            };
            let t_next: usize = if self.nodes[k + 1].1 < 0 {
                0
            } else {
                self.nodes[k + 1].1 as usize
            };
            let end_exclusive = if t_next < size {
                t_next
            } else {
                size
            };
            let mut s = t_start;
            while s < end_exclusive
                invariant
                    v == self.steps(),
                    n == v.len(),
                    k + 1 < n,
                    result@.len() == size,
                    t_start == max0(v[k as int].1),
                    end_exclusive == (if max0(v[k + 1].1) < size { max0(v[k + 1].1) } else { size as int }),
                    t_start <= s,
                    s <= end_exclusive || s == t_start,
                    forall|t: int|
                        0 <= t < size ==> fviews(#[trigger] result@[t]@) == (if t_start <= t < s {
                            v[k as int].0
                        } else {
                            slot_before_last(v, size as int, t, k as int)
                        }),
                decreases end_exclusive - s,
            {
                let copy = clone_formulas(&self.nodes[k].0);
                assert(fviews(copy@) == v[k as int].0);
                let ghost before = result@;
                result.set(s, copy);
                assert forall|t: int| 0 <= t < size && t != s implies #[trigger] result@[t] == before[t] by {}
                s += 1;
            }
            assert forall|t: int| 0 <= t < size implies fviews(#[trigger] result@[t]@) == slot_before_last(v, size as int, t, k + 1) by {
                assert(window_covers(v, size as int, k as int, t) == (t_start <= t < end_exclusive));
            }
            k += 1;
        }
        let start: usize = if last_time < 0 {
            0
        } else {
            last_time as usize
        };
        let mut s = start;
        while s < size
            invariant
                v == self.steps(),
                n == v.len(),
                n > 0,
                k + 1 == n,
                size == v.last().1 + 1,
                start == max0(v.last().1),
                result@.len() == size,
                start <= s <= size,
                forall|t: int|
                    0 <= t < size ==> fviews(#[trigger] result@[t]@) == (if start <= t < s {
                        v.last().0
                    } else {
                        slot_before_last(v, size as int, t, k as int)
                    }),
            decreases size - s,
        {
            let copy = clone_formulas(&self.nodes[n - 1].0);
            assert(fviews(copy@) == v.last().0);
            let ghost before = result@;
            result.set(s, copy);
            assert forall|t: int| 0 <= t < size && t != s implies #[trigger] result@[t] == before[t] by {}
            s += 1;
        }
        result
    }

    /// The text of the trace: one line `Time t: φ, ψ` per step.
    pub fn to_text(&self) -> (r: String)
        ensures
            r@ == trace_text(self.steps(), self.steps().len() as int),
    {
        let ghost v = self.steps();
        let mut out: Vec<char> = Vec::new();
        let mut i: usize = 0;
        while i < self.nodes.len()
            invariant
                v == self.steps(),
                i <= v.len(),
                out@ == trace_text(v, i as int),
            decreases v.len() - i,
        {
            let (formulas, time) = &self.nodes[i];
            push_all(&mut out, &['T', 'i', 'm', 'e', ' ']);
            push_int(&mut out, *time as i64);
            push_all(&mut out, &[':', ' ']);
            let ghost before = out@;
            let mut j: usize = 0;
            while j < formulas.len()
                invariant
                    j <= formulas@.len(),
                    out@ == before + join_prefix(fviews(formulas@), seq![',', ' '], j as int),
                decreases formulas@.len() - j,
            {
                if j > 0 {
                    push_all(&mut out, &[',', ' ']);
                }
                push_formula(&mut out, &formulas[j]);
                assert(fviews(formulas@)[j as int] == formulas@[j as int]@);
                assert(out@ =~= before + join_prefix(fviews(formulas@), seq![',', ' '], j + 1));
                j += 1;
            }
            out.push('\n');
            assert(v[i as int].0 == fviews(formulas@));
            assert(out@ =~= trace_text(v, i + 1));
            i += 1;
        }
        string_from_chars(&out)
    }
}

} // verus!
