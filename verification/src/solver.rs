use vstd::prelude::*;

use crate::formula::{
    aexpr_clone, aexpr_eq, AExpr, AExprM, ArithOp, Expr, ExprKind, ExprKindM, ExprM, Formula,
    FormulaM, RelOp, strip,
};
use crate::display::{nat_text, push_nat, string_from_chars};
use crate::node::{ops, spec_flatten, Node};
use crate::smt::{
    z3_assert, z3_assert_and_track, z3_bool_clone, z3_bool_decl, z3_bool_not,
    z3_check, z3_decl_name, z3_new_bool_const, z3_new_real_const, z3_new_real_numeral, z3_pop,
    z3_push, z3_real_add, z3_real_clone, z3_real_eq, z3_real_ge, z3_real_gt,
    z3_real_ite, z3_real_le, z3_real_lt, z3_real_sub, z3_assertions, z3_marks,
    z3_solver_new, z3_unsat_core, TermM, ZBool, ZReal,
};

verus! {

// ---------------------------------------------------------------------------------------
// Propositional atoms
// ---------------------------------------------------------------------------------------
/// Some atom is asserted both positively and negatively.
pub open spec fn spec_conflict(pos: Map<Seq<char>, usize>, neg: Map<Seq<char>, usize>) -> bool {
    exists|k: Seq<char>| #[trigger] pos.contains_key(k) && neg.contains_key(k)
}

/// The model of one backtracking frame: the atoms asserted since it was opened.
pub open spec fn frame_view(f: Seq<(bool, String)>) -> Seq<(bool, Seq<char>)> {
    Seq::new(f.len(), |i: int| (f[i].0, f[i].1@))
}

/// The atoms of the given polarity in a frame.
pub open spec fn frame_keys(f: Seq<(bool, Seq<char>)>, negated: bool) -> Set<Seq<char>> {
    Set::new(|k: Seq<char>| exists|i: int| 0 <= i < f.len() && f[i].0 == negated && f[i].1 == k)
}

proof fn lemma_frame_keys_push(f: Seq<(bool, Seq<char>)>, e: (bool, Seq<char>), neg: bool)
    ensures
        frame_keys(f.push(e), neg) == (if e.0 == neg {
            frame_keys(f, neg).insert(e.1)
        } else {
            frame_keys(f, neg)
        }),
{
    let g = f.push(e);
    let t = if e.0 == neg {
        frame_keys(f, neg).insert(e.1)
    } else {
        frame_keys(f, neg)
    };
    assert forall|k: Seq<char>| frame_keys(g, neg).contains(k) implies t.contains(k) by {
        let j = choose|j: int| 0 <= j < g.len() && g[j].0 == neg && g[j].1 == k;
        if j < f.len() {
            assert(f[j] == g[j]);
        }
    }
    assert forall|k: Seq<char>| t.contains(k) implies frame_keys(g, neg).contains(k) by {
        if e.0 == neg && k == e.1 {
            assert(g[f.len() as int] == e);
        } else {
            let j = choose|j: int| 0 <= j < f.len() && f[j].0 == neg && f[j].1 == k;
            assert(g[j] == f[j]);
        }
    }
    assert(frame_keys(g, neg) =~= t);
}

/// A table from atom names to proposition identifiers, kept in insertion order.
pub struct AtomTable {
    keys: Vec<String>,
    ids: Vec<usize>,
}

/// The index of `k` among `keys`.
pub open spec fn key_index(keys: Seq<String>, k: Seq<char>) -> int {
    choose|i: int| 0 <= i < keys.len() && #[trigger] keys[i]@ == k
}

pub open spec fn has_key(keys: Seq<String>, k: Seq<char>) -> bool {
    exists|i: int| 0 <= i < keys.len() && #[trigger] keys[i]@ == k
}

pub open spec fn distinct_keys(keys: Seq<String>) -> bool {
    forall|i: int, j: int| 0 <= i < keys.len() && 0 <= j < keys.len() && i != j ==> #[trigger] keys[i]@
        != #[trigger] keys[j]@
}

pub open spec fn table_map(keys: Seq<String>, ids: Seq<usize>) -> Map<Seq<char>, usize> {
    Map::new(|k: Seq<char>| has_key(keys, k), |k: Seq<char>| ids[key_index(keys, k)])
}

proof fn lemma_key_index(keys: Seq<String>, i: int)
    requires
        distinct_keys(keys),
        0 <= i < keys.len(),
    ensures
        has_key(keys, keys[i]@),
        key_index(keys, keys[i]@) == i,
{
    assert(has_key(keys, keys[i]@));
    let j = key_index(keys, keys[i]@);
    if j != i {
        assert(keys[j]@ != keys[i]@);
    }
}

impl View for AtomTable {
    type V = Map<Seq<char>, usize>;

    closed spec fn view(&self) -> Map<Seq<char>, usize> {
        table_map(self.keys@, self.ids@)
    }
}

impl AtomTable {
    pub closed spec fn wf(&self) -> bool {
        self.keys@.len() == self.ids@.len() && distinct_keys(self.keys@)
    }

    /// The number of atoms, which index the table through `key_at`.
    pub closed spec fn len(&self) -> nat {
        self.keys@.len()
    }

    /// The atom at position `i`.
    pub closed spec fn key_at(&self, i: int) -> Seq<char> {
        self.keys@[i]@
    }

    /// Positions list the table's atoms, each once.
    pub proof fn lemma_positions(&self)
        requires
            self.wf(),
        ensures
            forall|i: int| 0 <= i < self.len() ==> self@.contains_key(#[trigger] self.key_at(i)),
            forall|k: Seq<char>|
                self@.contains_key(k) ==> exists|i: int|
                    0 <= i < self.len() && #[trigger] self.key_at(i) == k,
    {
        assert forall|i: int| 0 <= i < self.len() implies self@.contains_key(
            #[trigger] self.key_at(i),
        ) by {
            lemma_key_index(self.keys@, i);
        }
        assert forall|k: Seq<char>| self@.contains_key(k) implies exists|i: int|
            0 <= i < self.len() && #[trigger] self.key_at(i) == k by {
            let i = key_index(self.keys@, k);
            assert(self.key_at(i) == k);
        }
    }

    pub fn new() -> (r: AtomTable)
        ensures
            r.wf(),
            r@ == Map::<Seq<char>, usize>::empty(),
            r.len() == 0,
    {
        let r = AtomTable { keys: Vec::new(), ids: Vec::new() };
        assert(r@ =~= Map::<Seq<char>, usize>::empty());
        r
    }

    fn find(&self, k: &String) -> (r: Option<usize>)
        requires
            self.wf(),
        ensures
            r matches Some(i) ==> i < self.keys@.len() && self.keys@[i as int]@ == k@,
            r is None ==> !has_key(self.keys@, k@),
    {
        let mut i: usize = 0;
        while i < self.keys.len()
            invariant
                i <= self.keys@.len(),
                forall|j: int| 0 <= j < i ==> #[trigger] self.keys@[j]@ != k@,
            decreases self.keys@.len() - i,
        {
            if self.keys[i] == *k {
                return Some(i);
            }
            i += 1;
        }
        None
    }

    /// The identifier stored for `k`.
    pub fn get(&self, k: &String) -> (r: Option<usize>)
        requires
            self.wf(),
        ensures
            r matches Some(v) ==> self@.contains_key(k@) && v == self@[k@],
            r is None ==> !self@.contains_key(k@),
    {
        match self.find(k) {
            Some(i) => {
                proof {
                    lemma_key_index(self.keys@, i as int);
                }
                Some(self.ids[i])
            },
            None => None,
        }
    }

    /// The atom at position `i`.
    pub fn key(&self, i: usize) -> (r: &String)
        requires
            self.wf(),
            i < self.len(),
        ensures
            r@ == self.key_at(i as int),
    {
        &self.keys[i]
    }

    pub fn size(&self) -> (r: usize)
        requires
            self.wf(),
        ensures
            r == self.len(),
    {
        self.keys.len()
    }

    /// Stores `id` for `k`, replacing an earlier one.
    pub fn insert(&mut self, k: &String, id: usize)
        requires
            old(self).wf(),
        ensures
            final(self).wf(),
            final(self)@ == old(self)@.insert(k@, id),
    {
        match self.find(k) {
            Some(i) => {
                self.ids.set(i, id);
                proof {
                    lemma_key_index(self.keys@, i as int);
                    assert forall|q: Seq<char>| has_key(self.keys@, q) && q != k@ implies key_index(
                        self.keys@,
                        q,
                    ) != i by {}
                }
                assert(self@ =~= old(self)@.insert(k@, id));
            },
            None => {
                let ghost keys0 = self.keys@;
                self.keys.push(k.clone());
                self.ids.push(id);
                let ghost n = keys0.len() as int;
                assert forall|a: int, b: int|
                    0 <= a < self.keys@.len() && 0 <= b < self.keys@.len() && a != b implies #[trigger] self.keys@[a]@
                    != #[trigger] self.keys@[b]@ by {
                    if a < n && b < n {
                        assert(self.keys@[a] == keys0[a] && self.keys@[b] == keys0[b]);
                    } else if a == n {
                        assert(self.keys@[b] == keys0[b]);
                    } else {
                        assert(self.keys@[a] == keys0[a]);
                    }
                }
                proof {
                    lemma_key_index(self.keys@, n);
                    assert forall|q: Seq<char>| #[trigger] has_key(self.keys@, q) && q != k@ implies has_key(
                        keys0,
                        q,
                    ) && key_index(self.keys@, q) == key_index(keys0, q) by {
                        let j = key_index(self.keys@, q);
                        assert(j != n);
                        assert(keys0[j]@ == q);
                        lemma_key_index(keys0, j);
                    }
                    assert forall|q: Seq<char>| #[trigger] has_key(keys0, q) implies has_key(
                        self.keys@,
                        q,
                    ) by {
                        let j = key_index(keys0, q);
                        assert(self.keys@[j] == keys0[j]);
                    }
                }
                assert(self@ =~= old(self)@.insert(k@, id));
            },
        }
    }

    /// Drops `k`, if present.
    pub fn remove(&mut self, k: &String)
        requires
            old(self).wf(),
        ensures
            final(self).wf(),
            final(self)@ == old(self)@.remove(k@),
    {
        match self.find(k) {
            Some(i) => {
                let ghost keys0 = self.keys@;
                let ghost ids0 = self.ids@;
                self.keys.remove(i);
                self.ids.remove(i);
                let ghost idx = |a: int| if a < i { a } else { a + 1 };
                assert forall|a: int| 0 <= a < self.keys@.len() implies #[trigger] self.keys@[a]
                    == keys0[idx(a)] && self.ids@[a] == ids0[idx(a)] by {}
                assert forall|a: int, b: int|
                    0 <= a < self.keys@.len() && 0 <= b < self.keys@.len() && a != b implies #[trigger] self.keys@[a]@
                    != #[trigger] self.keys@[b]@ by {
                    assert(self.keys@[a] == keys0[idx(a)]);
                    assert(self.keys@[b] == keys0[idx(b)]);
                }
                proof {
                    lemma_key_index(keys0, i as int);
                    assert forall|q: Seq<char>| #[trigger] has_key(keys0, q) && q != k@ implies has_key(
                        self.keys@,
                        q,
                    ) && ids0[key_index(keys0, q)] == self.ids@[key_index(self.keys@, q)] by {
                        let j = key_index(keys0, q);
                        assert(j != i);
                        let a = if j < i { j } else { j - 1 };
                        assert(self.keys@[a] == keys0[j]);
                        lemma_key_index(self.keys@, a);
                    }
                    assert forall|q: Seq<char>| #[trigger] has_key(self.keys@, q) implies has_key(
                        keys0,
                        q,
                    ) && q != k@ by {
                        let a = key_index(self.keys@, q);
                        assert(self.keys@[a] == keys0[idx(a)]);
                        assert(idx(a) != i);
                    }
                }
                assert(self@ =~= old(self)@.remove(k@));
            },
            None => {
                assert(self@ =~= old(self)@.remove(k@));
            },
        }
    }
}

/// The propositional part of a node's check: atoms asserted positively and negatively,
/// each with the identifier of the proposition that asserted it last.
/// Closing a frame gives back the assertions held before it was opened, when every atom
/// asserted in it was new: `after` holds what `before` held and the frame's atoms of one
/// polarity, and `pop` removes exactly the frame's atoms.
pub proof fn lemma_pop_restores(
    before: Map<Seq<char>, usize>,
    after: Map<Seq<char>, usize>,
    frame: Seq<(bool, Seq<char>)>,
    negated: bool,
)
    requires
        after.dom() == before.dom().union(frame_keys(frame, negated)),
        forall|k: Seq<char>| #[trigger] before.contains_key(k) ==> after[k] == before[k],
        before.dom().disjoint(frame_keys(frame, negated)),
    ensures
        after.remove_keys(frame_keys(frame, negated)) == before,
{
    let r = after.remove_keys(frame_keys(frame, negated));
    assert forall|k: Seq<char>| #[trigger] r.contains_key(k) <==> before.contains_key(k) by {
        if before.contains_key(k) {
            assert(!frame_keys(frame, negated).contains(k));
        }
    }
    assert(r =~= before);
}

/// A name z3 can take: it holds no NUL character.
pub open spec fn name_ok(n: Seq<char>) -> bool {
    !n.contains('\0')
}

/// Every variable of the term has a name z3 can take.
pub open spec fn aexpr_names_ok(e: AExprM) -> bool
    decreases e,
{
    match e {
        AExprM::Var(n) => name_ok(n),
        AExprM::Num(_) => true,
        AExprM::Abs(b) => aexpr_names_ok(*b),
        AExprM::BinOp { left, right, .. } => aexpr_names_ok(*left) && aexpr_names_ok(*right),
    }
}

pub open spec fn rel_names_ok(c: RelConstraintM) -> bool {
    aexpr_names_ok(c.left) && aexpr_names_ok(c.right)
}

/// Every relation among the literals has variables with names z3 can take.
pub open spec fn literal_names_ok(u: Seq<(bool, ExprM)>) -> bool {
    forall|i: int|
        0 <= i < u.len() ==> (#[trigger] u[i].1.kind matches ExprKindM::Rel { left, right, .. }
            ==> aexpr_names_ok(left) && aexpr_names_ok(right))
}

/// `s` holds no NUL character.
fn string_name_ok(s: &String) -> (r: bool)
    ensures
        r == name_ok(s@),
{
    let st = s.as_str();
    let n = st.unicode_len();
    let mut i: usize = 0;
    while i < n
        invariant
            n == s@.len(),
            st@ == s@,
            i <= n,
            forall|j: int| 0 <= j < i ==> s@[j] != '\0',
        decreases n - i,
    {
        if st.get_char(i) == '\0' {
            assert(s@[i as int] == '\0');
            return false;
        }
        i += 1;
    }
    true
}

fn aexpr_names_ok_exec(e: &AExpr) -> (r: bool)
    ensures
        r == aexpr_names_ok(e@),
    decreases e,
{
    match e {
        AExpr::Var(n) => string_name_ok(n),
        AExpr::Num(_) => true,
        AExpr::Abs(b) => aexpr_names_ok_exec(b),
        AExpr::BinOp { left, right, .. } => aexpr_names_ok_exec(left) && aexpr_names_ok_exec(right),
    }
}

/// Every relation asserted by an operand of `node` has variables with names z3 can take.
pub fn literal_names_are_ok(node: &Node) -> (r: bool)
    ensures
        r == literal_names_ok(literals(ops(node), ops(node).len() as int)),
{
    let ghost s = ops(node);
    let mut i: usize = 0;
    while i < node.operands.len()
        invariant
            s == ops(node),
            i <= s.len(),
            literal_names_ok(literals(s, i as int)),
        decreases s.len() - i,
    {
        let ghost u = literals(s, i as int);
        let f = &node.operands[i];
        assert(s[i as int] == f@);
        let ghost u1 = literals(s, i + 1);
        let ok = match get_assertion(f) {
            Some(a) => {
                assert(u1 == u.push((a.negated, a.expr@)));
                match &a.expr.kind {
                    ExprKind::Rel { left, right, .. } => {
                        let good = aexpr_names_ok_exec(left) && aexpr_names_ok_exec(right);
                        assert(u1[u.len() as int].1.kind == (ExprKindM::Rel { op: u1[u.len() as int].1.kind->op, left: left@, right: right@ }));
                        if !good {
                            assert(!literal_names_ok(u1));
                        }
                        good
                    },
                    _ => true,
                }
            },
            None => {
                assert(u1 =~= u);
                true
            },
        };
        if !ok {
            proof {
                lemma_literals_prefix(s, i + 1, s.len() as int);
            }
            assert(literals(s, s.len() as int)[u.len() as int] == u1[u.len() as int]);
            return false;
        }
        assert forall|k: int| 0 <= k < u1.len() implies (#[trigger] u1[k].1.kind matches ExprKindM::Rel { left, right, .. }
            ==> aexpr_names_ok(left) && aexpr_names_ok(right)) by {
            if k < u.len() {
                assert(u1[k] == u[k]);
            }
        }
        i += 1;
    }
    true
}

/// The name of the constant that tracks proposition `id`: `p_` and its decimal digits.
fn track_label(id: usize) -> (r: String)
    ensures
        r@ == seq!['p', '_'] + nat_text(id as nat),
        name_ok(r@),
{
    let mut out: Vec<char> = vec!['p', '_'];
    push_nat(&mut out, id as u64);
    let r = string_from_chars(&out);
    proof {
        crate::graph::lemma_nat_text_digits(id as nat);
        let t = r@;
        assert forall|i: int| 0 <= i < t.len() implies t[i] != '\0' by {
            if i >= 2 {
                assert(t[i] == nat_text(id as nat)[i - 2]);
                assert(48 <= (nat_text(id as nat)[i - 2]) as u32);
            }
        }
    }
    r
}

/// `b` is `a` after `add_constraint(op.0, &op.1, op.2)`, as that call's contract states it.
pub open spec fn add_step(a: BooleanSolver, b: BooleanSolver, op: (bool, Seq<char>, usize)) -> bool {
    &&& (op.0 ==> b.neg() == a.neg().insert(op.1, op.2) && b.pos() == a.pos())
    &&& (!op.0 ==> b.pos() == a.pos().insert(op.1, op.2) && b.neg() == a.neg())
    &&& b.frames() == (if a.frames().len() > 0 {
        a.frames().update(a.frames().len() - 1, a.frames().last().push((op.0, op.1)))
    } else {
        a.frames()
    })
}

/// `states` runs through the additions `ops` in order: each state is the one before it
/// after one addition.
pub open spec fn add_trace(states: Seq<BooleanSolver>, ops: Seq<(bool, Seq<char>, usize)>) -> bool {
    &&& states.len() == ops.len() + 1
    &&& forall|i: int| 0 <= i < ops.len() ==> add_step(states[i], #[trigger] states[i + 1], ops[i])
}

/// The atoms and polarities of a sequence of additions.
pub open spec fn op_atoms(ops: Seq<(bool, Seq<char>, usize)>) -> Seq<(bool, Seq<char>)> {
    Seq::new(ops.len(), |i: int| (ops[i].0, ops[i].1))
}

proof fn lemma_add_trace(states: Seq<BooleanSolver>, ops: Seq<(bool, Seq<char>, usize)>, n: int)
    requires
        add_trace(states, ops),
        states[0].frames().len() > 0,
        0 <= n <= ops.len(),
    ensures
        states[n].frames() == states[0].frames().drop_last().push(
            states[0].frames().last() + op_atoms(ops.take(n)),
        ),
        states[n].pos().dom() == states[0].pos().dom().union(frame_keys(op_atoms(ops.take(n)), false)),
        states[n].neg().dom() == states[0].neg().dom().union(frame_keys(op_atoms(ops.take(n)), true)),
    decreases n,
{
    let a = states[0];
    if n == 0 {
        assert(op_atoms(ops.take(0)) =~= Seq::<(bool, Seq<char>)>::empty());
        assert(a.frames().last() + op_atoms(ops.take(0)) =~= a.frames().last());
        assert(a.frames().drop_last().push(a.frames().last()) =~= a.frames());
        assert(frame_keys(op_atoms(ops.take(0)), false) =~= Set::empty());
        assert(frame_keys(op_atoms(ops.take(0)), true) =~= Set::empty());
        assert(a.pos().dom() =~= a.pos().dom().union(Set::empty()));
        assert(a.neg().dom() =~= a.neg().dom().union(Set::empty()));
    } else {
        lemma_add_trace(states, ops, n - 1);
        let m = states[n - 1];
        let b = states[n];
        let i = n - 1;
        assert(add_step(states[i], states[i + 1], ops[i]));
        assert(states[i + 1] == b);
        let op = ops[n - 1];
        assert(op_atoms(ops.take(n)) =~= op_atoms(ops.take(n - 1)).push((op.0, op.1)));
        lemma_frame_keys_push(op_atoms(ops.take(n - 1)), (op.0, op.1), false);
        lemma_frame_keys_push(op_atoms(ops.take(n - 1)), (op.0, op.1), true);
        assert(m.frames().len() == a.frames().len());
        assert(a.frames().last() + op_atoms(ops.take(n)) =~= (a.frames().last() + op_atoms(ops.take(n - 1))).push((op.0, op.1)));
        assert(b.frames() =~= a.frames().drop_last().push(a.frames().last() + op_atoms(ops.take(n))));
        assert(b.pos().dom() =~= a.pos().dom().union(frame_keys(op_atoms(ops.take(n)), false)));
        assert(b.neg().dom() =~= a.neg().dom().union(frame_keys(op_atoms(ops.take(n)), true)));
    }
}

/// The law of `push`, `add_constraint` and `pop`: from `before`, `push` gives `states[0]`;
/// the additions `ops`, each of an atom not yet asserted with its polarity, run through
/// `states`; `pop` on the last of them gives `closed`. Then `closed` asserts the atoms `before` asserted, has its frames, and
/// `check` answers on it what it answered on `before`.
pub proof fn lemma_push_add_pop(
    before: BooleanSolver,
    states: Seq<BooleanSolver>,
    closed: BooleanSolver,
    ops: Seq<(bool, Seq<char>, usize)>,
)
    requires
        add_trace(states, ops),
        states[0].frames() == before.frames().push(Seq::empty()),
        states[0].pos() == before.pos(),
        states[0].neg() == before.neg(),
        forall|i: int|
            0 <= i < ops.len() ==> (if (#[trigger] ops[i]).0 {
                !before.neg().contains_key(ops[i].1)
            } else {
                !before.pos().contains_key(ops[i].1)
            }),
        closed.frames() == states.last().frames().drop_last(),
        closed.pos() == states.last().pos().remove_keys(frame_keys(states.last().frames().last(), false)),
        closed.neg() == states.last().neg().remove_keys(frame_keys(states.last().frames().last(), true)),
    ensures
        closed.frames() == before.frames(),
        closed.pos().dom() == before.pos().dom(),
        closed.neg().dom() == before.neg().dom(),
        spec_conflict(closed.pos(), closed.neg()) == spec_conflict(before.pos(), before.neg()),
{
    let pushed = states[0];
    let filled = states.last();
    lemma_add_trace(states, ops, ops.len() as int);
    assert(ops.take(ops.len() as int) =~= ops);
    let frame = op_atoms(ops);
    assert(pushed.frames().last() + frame =~= frame);
    assert(pushed.frames().drop_last() =~= before.frames());
    assert(filled.frames() == before.frames().push(frame));
    assert(filled.frames().drop_last() =~= before.frames());
    assert forall|k: Seq<char>| frame_keys(frame, false).contains(k) implies !before.pos().dom().contains(k) by {
        let i = choose|i: int| 0 <= i < frame.len() && frame[i].0 == false && frame[i].1 == k;
        assert(ops[i].0 == false);
    }
    assert forall|k: Seq<char>| frame_keys(frame, true).contains(k) implies !before.neg().dom().contains(k) by {
        let i = choose|i: int| 0 <= i < frame.len() && frame[i].0 == true && frame[i].1 == k;
        assert(ops[i].0 == true);
    }
    lemma_push_pop_round_trip(before, filled, closed, frame);
}

/// The round trip from `push` to `pop`: from `before`, a frame is opened and atoms that
/// were not asserted yet are asserted in it (`filled`); closing the frame (`closed`) gives
/// back the atoms asserted before, and the consistency answer they had.
pub proof fn lemma_push_pop_round_trip(
    before: BooleanSolver,
    filled: BooleanSolver,
    closed: BooleanSolver,
    frame: Seq<(bool, Seq<char>)>,
)
    requires
        filled.frames() == before.frames().push(frame),
        filled.pos().dom() == before.pos().dom().union(frame_keys(frame, false)),
        filled.neg().dom() == before.neg().dom().union(frame_keys(frame, true)),
        before.pos().dom().disjoint(frame_keys(frame, false)),
        before.neg().dom().disjoint(frame_keys(frame, true)),
        closed.pos() == filled.pos().remove_keys(frame_keys(filled.frames().last(), false)),
        closed.neg() == filled.neg().remove_keys(frame_keys(filled.frames().last(), true)),
    ensures
        closed.pos().dom() == before.pos().dom(),
        closed.neg().dom() == before.neg().dom(),
        spec_conflict(closed.pos(), closed.neg()) == spec_conflict(before.pos(), before.neg()),
{
    assert(filled.frames().last() == frame);
    assert(closed.pos().dom() =~= before.pos().dom());
    assert(closed.neg().dom() =~= before.neg().dom());
    if spec_conflict(closed.pos(), closed.neg()) {
        let k = choose|k: Seq<char>| #[trigger] closed.pos().contains_key(k) && closed.neg().contains_key(k);
        assert(before.pos().contains_key(k));
    }
    if spec_conflict(before.pos(), before.neg()) {
        let k = choose|k: Seq<char>| #[trigger] before.pos().contains_key(k) && before.neg().contains_key(k);
        assert(closed.pos().dom().contains(k));
    }
}

pub struct BooleanSolver {
    pos_props: AtomTable,
    neg_props: AtomTable,
    constraint_stack: Vec<Vec<(bool, String)>>,
    result_cache: Option<bool>,
    unsat_core_extraction: bool,
    unsat_core: Option<Vec<usize>>,
}

impl BooleanSolver {
    /// Atoms asserted positively, with the identifier of their proposition.
    pub closed spec fn pos(&self) -> Map<Seq<char>, usize> {
        self.pos_props@
    }

    /// Atoms asserted negatively, with the identifier of their proposition.
    pub closed spec fn neg(&self) -> Map<Seq<char>, usize> {
        self.neg_props@
    }

    /// The open backtracking frames, oldest first.
    pub closed spec fn frames(&self) -> Seq<Seq<(bool, Seq<char>)>> {
        Seq::new(self.constraint_stack@.len(), |i: int| frame_view(self.constraint_stack@[i]@))
    }

    /// The answer of the last check, while no change can have altered it.
    pub closed spec fn cache(&self) -> Option<bool> {
        self.result_cache
    }

    pub closed spec fn extraction(&self) -> bool {
        self.unsat_core_extraction
    }

    /// The identifiers of the last conflicting pair found.
    pub closed spec fn conflict_ids(&self) -> Option<Seq<usize>> {
        match self.unsat_core {
            Some(v) => Some(v@),
            None => None,
        }
    }

    pub closed spec fn wf(&self) -> bool {
        &&& self.pos_props.wf()
        &&& self.neg_props.wf()
        &&& (self.result_cache matches Some(b) ==> b == !spec_conflict(
            self.pos_props@,
            self.neg_props@,
        ))
        &&& (!self.unsat_core_extraction ==> self.unsat_core is None)
    }

    pub fn new(unsat_core_extraction: bool) -> (r: BooleanSolver)
        ensures
            r.wf(),
            r.pos() == Map::<Seq<char>, usize>::empty(),
            r.neg() == Map::<Seq<char>, usize>::empty(),
            r.frames() == Seq::<Seq<(bool, Seq<char>)>>::empty(),
            r.cache() == Some(true),
            r.extraction() == unsat_core_extraction,
            r.conflict_ids() is None,
    {
        let r = BooleanSolver {
            pos_props: AtomTable::new(),
            neg_props: AtomTable::new(),
            constraint_stack: Vec::new(),
            result_cache: Some(true),
            unsat_core_extraction,
            unsat_core: None,
        };
        assert(r.frames() =~= Seq::<Seq<(bool, Seq<char>)>>::empty());
        r
    }

    /// Opens a backtracking frame.
    pub fn push(&mut self)
        requires
            old(self).wf(),
        ensures
            final(self).wf(),
            final(self).frames() == old(self).frames().push(Seq::empty()),
            final(self).pos() == old(self).pos(),
            final(self).neg() == old(self).neg(),
            final(self).cache() == old(self).cache(),
            final(self).extraction() == old(self).extraction(),
            final(self).conflict_ids() == old(self).conflict_ids(),
    {
        let ghost n = self.constraint_stack@.len();
        self.constraint_stack.push(Vec::new());
        assert(frame_view(self.constraint_stack@[n as int]@) =~= Seq::empty());
        assert(self.frames() =~= old(self).frames().push(Seq::empty()));
    }

    /// Asserts atom `prop`, negated or not, for proposition `id`; an atom asserted with
    /// the other polarity makes the set inconsistent.
    pub fn add_constraint(&mut self, negated: bool, prop: &String, id: usize)
        requires
            old(self).wf(),
        ensures
            final(self).wf(),
            negated ==> final(self).neg() == old(self).neg().insert(prop@, id) && final(self).pos() == old(self).pos(),
            !negated ==> final(self).pos() == old(self).pos().insert(prop@, id) && final(self).neg() == old(self).neg(),
            final(self).frames() == (if old(self).frames().len() > 0 {
                old(self).frames().update(
                    old(self).frames().len() - 1,
                    old(self).frames().last().push((negated, prop@)),
                )
            } else {
                old(self).frames()
            }),
            ({
                let other = if negated { old(self).pos() } else { old(self).neg() };
                &&& final(self).cache() == (if other.contains_key(prop@) {
                    Some(false)
                } else {
                    old(self).cache()
                })
                &&& final(self).conflict_ids() == (if other.contains_key(prop@)
                    && old(self).extraction() {
                    Some(seq![other[prop@], id])
                } else {
                    old(self).conflict_ids()
                })
            }),
            final(self).extraction() == old(self).extraction(),
    {
        let ghost pos0 = self.pos_props@;
        let ghost neg0 = self.neg_props@;
        if negated {
            self.neg_props.insert(prop, id);
            match self.pos_props.get(prop) {
                Some(stored) => {
                    let s = stored;
                    assert(self.pos_props@.contains_key(prop@) && self.neg_props@.contains_key(
                        prop@,
                    ));
                    self.result_cache = Some(false);
                    if self.unsat_core_extraction {
                        self.unsat_core = Some(vec![s, id]);
                    }
                },
                None => {
                    assert(self.result_cache matches Some(true) ==> !spec_conflict(
                        self.pos_props@,
                        self.neg_props@,
                    )) by {
                        if self.result_cache matches Some(true) {
                            assert forall|k: Seq<char>|
                                !(#[trigger] self.pos_props@.contains_key(k)
                                    && self.neg_props@.contains_key(k)) by {
                                if k != prop@ {
                                    assert(!(pos0.contains_key(k) && neg0.contains_key(k)));
                                }
                            }
                        }
                    }
                    assert(self.result_cache matches Some(false) ==> spec_conflict(
                        self.pos_props@,
                        self.neg_props@,
                    )) by {
                        if self.result_cache matches Some(false) {
                            let k = choose|k: Seq<char>|
                                #[trigger] pos0.contains_key(k) && neg0.contains_key(k);
                            assert(self.pos_props@.contains_key(k)
                                && self.neg_props@.contains_key(k));
                        }
                    }
                },
            }
        } else {
            self.pos_props.insert(prop, id);
            match self.neg_props.get(prop) {
                Some(stored) => {
                    let s = stored;
                    assert(self.pos_props@.contains_key(prop@) && self.neg_props@.contains_key(
                        prop@,
                    ));
                    self.result_cache = Some(false);
                    if self.unsat_core_extraction {
                        self.unsat_core = Some(vec![s, id]);
                    }
                },
                None => {
                    assert(self.result_cache matches Some(true) ==> !spec_conflict(
                        self.pos_props@,
                        self.neg_props@,
                    )) by {
                        if self.result_cache matches Some(true) {
                            assert forall|k: Seq<char>|
                                !(#[trigger] self.pos_props@.contains_key(k)
                                    && self.neg_props@.contains_key(k)) by {
                                if k != prop@ {
                                    assert(!(pos0.contains_key(k) && neg0.contains_key(k)));
                                }
                            }
                        }
                    }
                    assert(self.result_cache matches Some(false) ==> spec_conflict(
                        self.pos_props@,
                        self.neg_props@,
                    )) by {
                        if self.result_cache matches Some(false) {
                            let k = choose|k: Seq<char>|
                                #[trigger] pos0.contains_key(k) && neg0.contains_key(k);
                            assert(self.pos_props@.contains_key(k)
                                && self.neg_props@.contains_key(k));
                        }
                    }
                },
            }
        }
        let n = self.constraint_stack.len();
        if n > 0 {
            let ghost stack0 = self.constraint_stack@;
            let mut last = self.constraint_stack.pop().unwrap();
            last.push((negated, prop.clone()));
            self.constraint_stack.push(last);
            assert(frame_view(self.constraint_stack@[n - 1]@) =~= frame_view(
                stack0[n - 1]@,
            ).push((negated, prop@)));
            assert(self.frames() =~= old(self).frames().update(
                n - 1,
                old(self).frames().last().push((negated, prop@)),
            ));
        }
    }

    /// Retracts atom `prop` of the given polarity, whatever proposition asserted it.
    pub fn remove_constraint(&mut self, negated: bool, prop: &String)
        requires
            old(self).wf(),
        ensures
            final(self).wf(),
            negated ==> final(self).neg() == old(self).neg().remove(prop@) && final(self).pos()
                == old(self).pos(),
            !negated ==> final(self).pos() == old(self).pos().remove(prop@) && final(self).neg() == old(self).neg(),
            final(self).cache() == (if old(self).cache() == Some(false) {
                None
            } else {
                old(self).cache()
            }),
            final(self).frames() == old(self).frames(),
            final(self).extraction() == old(self).extraction(),
            final(self).conflict_ids() == old(self).conflict_ids(),
    {
        let ghost pos0 = self.pos_props@;
        let ghost neg0 = self.neg_props@;
        if negated {
            self.neg_props.remove(prop);
        } else {
            self.pos_props.remove(prop);
        }
        if let Some(false) = self.result_cache {
            self.result_cache = None;
        }
        assert(self.result_cache matches Some(true) ==> !spec_conflict(
            self.pos_props@,
            self.neg_props@,
        )) by {
            if self.result_cache matches Some(true) {
                assert forall|k: Seq<char>|
                    !(#[trigger] self.pos_props@.contains_key(k) && self.neg_props@.contains_key(
                        k,
                    )) by {
                    assert(!(pos0.contains_key(k) && neg0.contains_key(k)));
                }
            }
        }
    }

    /// Closes the newest backtracking frame, retracting the atoms asserted since it was
    /// opened; without an open frame nothing changes.
    pub fn pop(&mut self)
        requires
            old(self).wf(),
        ensures
            final(self).wf(),
            old(self).frames().len() == 0 ==> final(self).frames() == old(self).frames()
                && final(self).pos() == old(self).pos() && final(self).neg() == old(self).neg()
                && final(self).cache() == old(self).cache(),
            old(self).frames().len() > 0 ==> {
                let last = old(self).frames().last();
                &&& final(self).frames() == old(self).frames().drop_last()
                &&& final(self).pos() == old(self).pos().remove_keys(frame_keys(last, false))
                &&& final(self).neg() == old(self).neg().remove_keys(frame_keys(last, true))
                &&& final(self).cache() == (if last.len() > 0 && old(self).cache() == Some(
                    false,
                ) {
                    None
                } else {
                    old(self).cache()
                })
            },
            final(self).extraction() == old(self).extraction(),
            final(self).conflict_ids() == old(self).conflict_ids(),
    {
        if self.constraint_stack.len() == 0 {
            return;
        }
        let ghost frames0 = self.frames();
        let last = self.constraint_stack.pop().unwrap();
        let ghost lv = frame_view(last@);
        assert(lv == frames0.last());
        assert(self.frames() =~= frames0.drop_last());
        let ghost pos0 = self.pos_props@;
        let ghost neg0 = self.neg_props@;
        let ghost cache0 = self.result_cache;
        let mut i: usize = 0;
        while i < last.len()
            invariant
                self.wf(),
                i <= last@.len(),
                lv == frame_view(last@),
                self.frames() == frames0.drop_last(),
                self.pos_props@ == pos0.remove_keys(frame_keys(lv.take(i as int), false)),
                self.neg_props@ == neg0.remove_keys(frame_keys(lv.take(i as int), true)),
                self.result_cache == (if i > 0 && cache0 == Some(false) {
                    None
                } else {
                    cache0
                }),
                self.extraction() == old(self).extraction(),
                self.conflict_ids() == old(self).conflict_ids(),
            decreases last@.len() - i,
        {
            let (negated, prop) = &last[i];
            let ghost before_pos = self.pos_props@;
            let ghost before_neg = self.neg_props@;
            self.remove_constraint(*negated, prop);
            assert(lv[i as int] == (*negated, prop@));
            assert(lv.take(i + 1) =~= lv.take(i as int).push(lv[i as int]));
            proof {
                lemma_frame_keys_push(lv.take(i as int), lv[i as int], true);
                lemma_frame_keys_push(lv.take(i as int), lv[i as int], false);
            }
            if *negated {
                assert(self.neg_props@ =~= neg0.remove_keys(frame_keys(lv.take(i + 1), true)));
                assert(self.pos_props@ =~= pos0.remove_keys(frame_keys(lv.take(i + 1), false)));
            } else {
                assert(self.pos_props@ =~= pos0.remove_keys(frame_keys(lv.take(i + 1), false)));
                assert(self.neg_props@ =~= neg0.remove_keys(frame_keys(lv.take(i + 1), true)));
            }
            i += 1;
        }
        assert(lv.take(last@.len() as int) =~= lv);
    }

    /// Whether no atom is asserted with both polarities. With extraction enabled, a
    /// recomputed inconsistency records one conflicting pair as the core.
    pub fn check(&mut self) -> (r: bool)
        requires
            old(self).wf(),
        ensures
            final(self).wf(),
            r == !spec_conflict(old(self).pos(), old(self).neg()),
            final(self).cache() == Some(r),
            final(self).pos() == old(self).pos(),
            final(self).neg() == old(self).neg(),
            final(self).frames() == old(self).frames(),
            final(self).extraction() == old(self).extraction(),
            (old(self).cache() is None && old(self).extraction() && !r) ==> exists|k: Seq<char>|
                #[trigger] old(self).pos().contains_key(k) && old(self).neg().contains_key(k)
                    && final(self).conflict_ids() == Some(seq![old(self).pos()[k], old(self).neg()[k]]),
            !(old(self).cache() is None && old(self).extraction() && !r) ==> final(self).conflict_ids()
                == old(self).conflict_ids(),
    {
        if let Some(res) = self.result_cache {
            return res;
        }
        proof {
            self.pos_props.lemma_positions();
        }
        let n = self.pos_props.size();
        let mut i: usize = 0;
        let mut found: Option<usize> = None;
        while i < n
            invariant
                self.wf(),
                self == old(self),
                n == self.pos_props.len(),
                i <= n,
                found matches Some(j) ==> j < n && self.neg_props@.contains_key(
                    self.pos_props.key_at(j as int),
                ),
                found is None ==> forall|j: int|
                    0 <= j < i ==> !self.neg_props@.contains_key(
                        #[trigger] self.pos_props.key_at(j),
                    ),
            ensures
                found is None ==> i == n,
            decreases n - i,
        {
            if self.neg_props.get(self.pos_props.key(i)).is_some() {
                found = Some(i);
                break;
            }
            i += 1;
        }
        match found {
            Some(j) => {
                let k = self.pos_props.key(j);
                assert(self.pos_props@.contains_key(k@));
                if self.unsat_core_extraction {
                    let p = self.pos_props.get(k).unwrap();
                    let q = self.neg_props.get(k).unwrap();
                    self.unsat_core = Some(vec![p, q]);
                    assert(self.conflict_ids() =~= Some(seq![old(self).pos()[k@], old(self).neg()[k@]]));
                }
                self.result_cache = Some(false);
                false
            },
            None => {
                assert(!spec_conflict(self.pos_props@, self.neg_props@)) by {
                    assert forall|k: Seq<char>|
                        !(#[trigger] self.pos_props@.contains_key(k)
                            && self.neg_props@.contains_key(k)) by {
                        self.pos_props.lemma_positions();
                        if self.pos_props@.contains_key(k) {
                            let j = choose|j: int|
                                0 <= j < self.pos_props.len() && #[trigger] self.pos_props.key_at(j)
                                    == k;
                            assert(!self.neg_props@.contains_key(self.pos_props.key_at(j)));
                        }
                    }
                }
                self.result_cache = Some(true);
                true
            },
        }
    }

    /// The identifiers of the last conflicting pair found, if any.
    pub fn unsat_core(&self) -> (r: Option<Vec<usize>>)
        ensures
            r matches Some(v) ==> self.conflict_ids() == Some(v@),
            r is None <==> self.conflict_ids() is None,
    {
        match &self.unsat_core {
            Some(v) => Some(v.clone()),
            None => None,
        }
    }
}

// ---------------------------------------------------------------------------------------
// Names of tracking constants
// ---------------------------------------------------------------------------------------
pub open spec fn spec_all_digits(s: Seq<char>) -> bool {
    forall|i: int| 0 <= i < s.len() ==> '0' <= #[trigger] s[i] <= '9'
}

/// The number written by decimal digits `s`.
pub open spec fn spec_digits_value(s: Seq<char>) -> nat
    decreases s.len(),
{
    if s.len() == 0 {
        0
    } else {
        spec_digits_value(s.drop_last()) * 10 + (s.last() as nat - '0' as nat) as nat
    }
}

/// What `str::parse::<usize>` reads: an optional `+`, then decimal digits whose value fits.
pub open spec fn spec_parse_usize(s: Seq<char>) -> Option<usize> {
    let d = if s.len() > 0 && s[0] == '+' {
        s.drop_first()
    } else {
        s
    };
    if d.len() > 0 && spec_all_digits(d) && spec_digits_value(d) <= usize::MAX {
        Some(spec_digits_value(d) as usize)
    } else {
        None
    }
}

/// The proposition identifier that a tracking constant's name `p_<id>` carries.
pub open spec fn spec_track_id(name: Seq<char>) -> Option<usize> {
    if name.len() >= 2 && name[0] == 'p' && name[1] == '_' {
        spec_parse_usize(name.subrange(2, name.len() as int))
    } else {
        None
    }
}

proof fn lemma_digits_value_prefix(s: Seq<char>, j: int)
    requires
        0 <= j <= s.len(),
        spec_all_digits(s),
    ensures
        spec_digits_value(s.take(j)) <= spec_digits_value(s),
    decreases s.len(),
{
    if j < s.len() {
        assert(s.drop_last().take(j) =~= s.take(j));
        lemma_digits_value_prefix(s.drop_last(), j);
        assert(spec_digits_value(s.drop_last()) <= spec_digits_value(s)) by (nonlinear_arith)
            requires
                spec_digits_value(s) == spec_digits_value(s.drop_last()) * 10 + (s.last() as nat
                    - '0' as nat) as nat,
        ;
    } else {
        assert(s.take(j) =~= s);
    }
}

/// Reads the identifier out of the name of a tracking constant.
pub fn parse_track_id(name: &String) -> (r: Option<usize>)
    ensures
        r == spec_track_id(name@),
{
    let cs = name.as_str();
    let n = cs.unicode_len();
    if n < 2 || cs.get_char(0) != 'p' || cs.get_char(1) != '_' {
        return None;
    }
    let ghost body = name@.subrange(2, n as int);
    let mut start: usize = 2;
    if n > 2 && cs.get_char(2) == '+' {
        start = 3;
    }
    let ghost d = name@.subrange(start as int, n as int);
    assert(d == (if body.len() > 0 && body[0] == '+' {
        body.drop_first()
    } else {
        body
    }));
    if start == n {
        return None;
    }
    let mut acc: usize = 0;
    let mut i: usize = start;
    while i < n
        invariant
            n == name@.len(),
            cs@ == name@,
            name@[0] == 'p' && name@[1] == '_',
            body == name@.subrange(2, n as int),
            d == (if body.len() > 0 && body[0] == '+' {
                body.drop_first()
            } else {
                body
            }),
            2 <= start < n,
            start <= i <= n,
            d == name@.subrange(start as int, n as int),
            spec_all_digits(d.take(i - start)),
            acc == spec_digits_value(d.take(i - start)),
        decreases n - i,
    {
        let c = cs.get_char(i);
        if !('0' <= c && c <= '9') {
            assert(d[i - start] == c);
            assert(!spec_all_digits(d));
            return None;
        }
        let digit = (c as u32 - '0' as u32) as usize;
        assert(d.take(i + 1 - start).drop_last() =~= d.take(i - start));
        let ghost next = spec_digits_value(d.take(i + 1 - start));
        match acc.checked_mul(10) {
            Some(m) => match m.checked_add(digit) {
                Some(v) => {
                    acc = v;
                },
                None => {
                    proof {
                        if spec_all_digits(d) {
                            lemma_digits_value_prefix(d, i + 1 - start);
                        }
                    }
                    return None;
                },
            },
            None => {
                proof {
                    if spec_all_digits(d) {
                        lemma_digits_value_prefix(d, i + 1 - start);
                    }
                }
                return None;
            },
        }
        i += 1;
        assert(spec_all_digits(d.take(i - start)));
    }
    assert(d.take(n - start) =~= d);
    Some(acc)
}

// ---------------------------------------------------------------------------------------
// Real-valued relations
// ---------------------------------------------------------------------------------------
/// A relation between two real terms, possibly negated, as handed to z3.
pub struct RelConstraint {
    pub negated: bool,
    pub op: RelOp,
    pub left: AExpr,
    pub right: AExpr,
}

pub struct RelConstraintM {
    pub negated: bool,
    pub op: RelOp,
    pub left: AExprM,
    pub right: AExprM,
}

impl View for RelConstraint {
    type V = RelConstraintM;

    open spec fn view(&self) -> RelConstraintM {
        RelConstraintM { negated: self.negated, op: self.op, left: self.left@, right: self.right@ }
    }
}

fn rel_constraint_eq(a: &RelConstraint, b: &RelConstraint) -> (r: bool)
    ensures
        r == (a@ == b@),
{
    a.negated == b.negated && a.op == b.op && aexpr_eq(&a.left, &b.left) && aexpr_eq(
        &a.right,
        &b.right,
    )
}

fn rel_constraint_clone(a: &RelConstraint) -> (r: RelConstraint)
    ensures
        r@ == a@,
{
    RelConstraint {
        negated: a.negated,
        op: a.op,
        left: aexpr_clone(&a.left),
        right: aexpr_clone(&a.right),
    }
}

/// The models of a sequence of relations.
pub open spec fn rel_views(s: Seq<RelConstraint>) -> Seq<RelConstraintM> {
    Seq::new(s.len(), |i: int| s[i]@)
}

/// The shape of the z3 term built for a real-valued term; `|t|` is built as
/// `if t >= 0 then t else 0 - t`.
pub open spec fn real_term(e: AExprM) -> TermM
    decreases e,
{
    match e {
        AExprM::Var(n) => TermM::RealConst(n),
        AExprM::Num(q) => TermM::Numeral(q.spec_numer() as int, q.spec_denom() as int),
        AExprM::Abs(b) => {
            let t = real_term(*b);
            let z = TermM::Numeral(0, 1);
            TermM::Ite(
                Box::new(TermM::Ge(Box::new(t), Box::new(z))),
                Box::new(t),
                Box::new(TermM::Sub(Box::new(z), Box::new(t))),
            )
        },
        AExprM::BinOp { op, left, right } => match op {
            ArithOp::Add => TermM::Add(Box::new(real_term(*left)), Box::new(real_term(*right))),
            ArithOp::Sub => TermM::Sub(Box::new(real_term(*left)), Box::new(real_term(*right))),
        },
    }
}

/// The shape of the z3 term built for a relation; `!=` is built as the negated equation.
pub open spec fn rel_term(c: RelConstraintM) -> TermM {
    let l = Box::new(real_term(c.left));
    let r = Box::new(real_term(c.right));
    let b = match c.op {
        RelOp::Lt => TermM::Lt(l, r),
        RelOp::Le => TermM::Le(l, r),
        RelOp::Gt => TermM::Gt(l, r),
        RelOp::Ge => TermM::Ge(l, r),
        RelOp::Eq => TermM::Eq(l, r),
        RelOp::Ne => TermM::Not(Box::new(TermM::Eq(l, r))),
    };
    if c.negated {
        TermM::Not(Box::new(b))
    } else {
        b
    }
}

/// The name of the constant that tracks the relation of proposition `id` in unsat cores.
pub open spec fn track_name(id: usize) -> Seq<char> {
    seq!['p', '_'] + nat_text(id as nat)
}

/// What an assertion of relation `c` for proposition `id` hands to z3: its term, with the
/// constant `p_<id>` that follows it into unsat cores when `with_label`.
pub open spec fn handed_entry(c: RelConstraintM, id: usize, with_label: bool) -> (TermM, Option<TermM>) {
    (rel_term(c), if with_label {
        Some(TermM::BoolConst(track_name(id)))
    } else {
        None
    })
}

/// The identifiers named by the tracking constants among `names`, in order.
pub open spec fn spec_core_ids(names: Seq<Seq<char>>) -> Seq<usize>
    decreases names.len(),
{
    if names.len() == 0 {
        Seq::empty()
    } else {
        let rest = spec_core_ids(names.drop_last());
        match spec_track_id(names.last()) {
            Some(id) => rest.push(id),
            None => rest,
        }
    }
}

/// The models of a sequence of strings.
pub open spec fn string_views(s: Seq<String>) -> Seq<Seq<char>> {
    Seq::new(s.len(), |i: int| s[i]@)
}

/// The identifiers named by the tracking constants among `names`, in order.
pub fn core_ids(names: &Vec<String>) -> (r: Vec<usize>)
    ensures
        r@ == spec_core_ids(string_views(names@)),
{
    let mut ids: Vec<usize> = Vec::new();
    let mut i: usize = 0;
    while i < names.len()
        invariant
            i <= names@.len(),
            ids@ == spec_core_ids(string_views(names@).take(i as int)),
        decreases names@.len() - i,
    {
        let ghost t = string_views(names@).take(i + 1);
        assert(t.drop_last() =~= string_views(names@).take(i as int));
        assert(t.last() == names@[i as int]@);
        if let Some(id) = parse_track_id(&names[i]) {
            ids.push(id);
        }
        i += 1;
    }
    assert(string_views(names@).take(names@.len() as int) =~= string_views(names@));
    ids
}

/// Where frame `i` of `n` ends among `len` relations: where the next one starts, or at the
/// end for the newest.
pub open spec fn frame_end(marks: Seq<nat>, i: int, len: nat) -> nat {
    if i + 1 < marks.len() {
        marks[i + 1]
    } else {
        len
    }
}

proof fn lemma_split_set(s: Seq<RelConstraintM>, m: int)
    requires
        0 <= m <= s.len(),
        s.no_duplicates(),
    ensures
        s.take(m).to_set() == s.to_set().difference(s.subrange(m, s.len() as int).to_set()),
        s.take(m).no_duplicates(),
{
    let a = s.take(m);
    let b = s.subrange(m, s.len() as int);
    assert forall|x: RelConstraintM| a.to_set().contains(x) <==> s.to_set().difference(b.to_set()).contains(x) by {
        if a.contains(x) {
            let i = choose|i: int| 0 <= i < a.len() && a[i] == x;
            assert(s[i] == x);
            if b.contains(x) {
                let j = choose|j: int| 0 <= j < b.len() && b[j] == x;
                assert(s[m + j] == x);
            }
        }
        if s.contains(x) && !b.contains(x) {
            let i = choose|i: int| 0 <= i < s.len() && s[i] == x;
            if i >= m {
                assert(b[i - m] == x);
            } else {
                assert(a[i] == x);
            }
        }
    }
    assert(a.to_set() =~= s.to_set().difference(b.to_set()));
}

/// The real-valued part of a node's check, handed to z3 with one backtracking point per
/// open frame. Real constants are declared once per name; the z3 term of each relation is
/// kept for reuse.
pub struct RealSolver {
    z3_solver: z3::Solver,
    var_names: Vec<String>,
    var_consts: Vec<ZReal>,
    ast_keys: Vec<RelConstraint>,
    ast_terms: Vec<ZBool>,
    current_constraints: Vec<RelConstraint>,
    constraint_stack: Vec<Vec<RelConstraint>>,
    result_cache: Option<bool>,
    unsat_core_extraction: bool,
    unsat_core: Option<Vec<usize>>,
}

impl RealSolver {
    /// The relations asserted and not yet retracted.
    pub closed spec fn constraints(&self) -> Set<RelConstraintM> {
        self.asserted().to_set()
    }

    /// The relations asserted and not yet retracted, in the order they were asserted.
    pub closed spec fn asserted(&self) -> Seq<RelConstraintM> {
        rel_views(self.current_constraints@)
    }

    /// What has been handed to z3 and not retracted: each term's shape, with its tracking
    /// constant when unsat cores are extracted.
    pub closed spec fn handed(&self) -> Seq<(TermM, Option<TermM>)> {
        z3_assertions(self.z3_solver)
    }

    /// The relations asserted in each open frame, oldest first.
    pub closed spec fn frames(&self) -> Seq<Seq<RelConstraintM>> {
        Seq::new(self.constraint_stack@.len(), |i: int| rel_views(self.constraint_stack@[i]@))
    }

    pub closed spec fn cache(&self) -> Option<bool> {
        self.result_cache
    }

    pub closed spec fn extraction(&self) -> bool {
        self.unsat_core_extraction
    }

    pub closed spec fn conflict_ids(&self) -> Option<Seq<usize>> {
        match self.unsat_core {
            Some(v) => Some(v@),
            None => None,
        }
    }

    /// The declared real constants, by name.
    pub closed spec fn declared(&self) -> Seq<Seq<char>> {
        Seq::new(self.var_names@.len(), |i: int| self.var_names@[i]@)
    }

    pub closed spec fn wf(&self) -> bool {
        let marks = z3_marks(self.z3_solver);
        let cur = rel_views(self.current_constraints@);
        let handed = z3_assertions(self.z3_solver);
        &&& marks.len() == self.constraint_stack@.len()
        &&& forall|i: int, j: int| 0 <= i <= j < marks.len() ==> #[trigger] marks[i] <= #[trigger] marks[j]
        &&& forall|i: int|
            0 <= i < marks.len() ==> #[trigger] marks[i] <= frame_end(marks, i, cur.len())
                && frame_end(marks, i, cur.len()) <= cur.len()
                && rel_views(self.constraint_stack@[i]@) == cur.subrange(
                marks[i] as int,
                frame_end(marks, i, cur.len()) as int,
            )
        &&& handed.len() == cur.len()
        &&& forall|i: int| 0 <= i < handed.len() ==> (#[trigger] handed[i]).0 == rel_term(cur[i])
        &&& self.var_names@.len() == self.var_consts@.len()
        &&& forall|i: int|
            0 <= i < self.var_consts@.len() ==> (#[trigger] self.var_consts@[i]).model@
                == TermM::RealConst(self.var_names@[i]@)
        &&& self.ast_keys@.len() == self.ast_terms@.len()
        &&& forall|i: int|
            0 <= i < self.ast_terms@.len() ==> (#[trigger] self.ast_terms@[i]).model@ == rel_term(
                self.ast_keys@[i]@,
            )
        &&& cur.no_duplicates()
        &&& (cur.len() == 0 ==> self.result_cache != Some(false))
        &&& (!self.unsat_core_extraction ==> self.unsat_core is None)
    }

    /// What is handed to z3 is the term of each asserted relation, in order.
    pub proof fn lemma_handed_terms(&self)
        requires
            self.wf(),
        ensures
            self.handed().len() == self.asserted().len(),
            forall|i: int| 0 <= i < self.handed().len() ==> (#[trigger] self.handed()[i]).0 == rel_term(
                self.asserted()[i],
            ),
            self.constraints() == self.asserted().to_set(),
    {
    }

    pub fn new(unsat_core_extraction: bool) -> (r: RealSolver)
        ensures
            r.wf(),
            r.constraints() == Set::<RelConstraintM>::empty(),
            r.handed() == Seq::<(TermM, Option<TermM>)>::empty(),
            r.frames() == Seq::<Seq<RelConstraintM>>::empty(),
            r.cache() == Some(true),
            r.extraction() == unsat_core_extraction,
            r.conflict_ids() is None,
            r.declared() == Seq::<Seq<char>>::empty(),
    {
        let r = RealSolver {
            z3_solver: z3_solver_new(),
            var_names: Vec::new(),
            var_consts: Vec::new(),
            ast_keys: Vec::new(),
            ast_terms: Vec::new(),
            current_constraints: Vec::new(),
            constraint_stack: Vec::new(),
            result_cache: Some(true),
            unsat_core_extraction,
            unsat_core: None,
        };
        assert(r.frames() =~= Seq::<Seq<RelConstraintM>>::empty());
        assert(r.constraints() =~= Set::<RelConstraintM>::empty());
        assert(r.declared() =~= Seq::<Seq<char>>::empty());
        r
    }

    /// A solver with nothing asserted that keeps the declared constants and the built
    /// terms of this one.
    pub fn fresh_with_caches(&self) -> (r: RealSolver)
        requires
            self.wf(),
        ensures
            r.wf(),
            r.constraints() == Set::<RelConstraintM>::empty(),
            r.handed() == Seq::<(TermM, Option<TermM>)>::empty(),
            r.frames() == Seq::<Seq<RelConstraintM>>::empty(),
            r.cache() == Some(true),
            r.extraction() == self.extraction(),
            r.conflict_ids() is None,
            r.declared() == self.declared(),
    {
        let mut r = RealSolver {
            z3_solver: z3_solver_new(),
            var_names: Vec::new(),
            var_consts: Vec::new(),
            ast_keys: Vec::new(),
            ast_terms: Vec::new(),
            current_constraints: Vec::new(),
            constraint_stack: Vec::new(),
            result_cache: Some(true),
            unsat_core_extraction: self.unsat_core_extraction,
            unsat_core: None,
        };
        assert(r.frames() =~= Seq::<Seq<RelConstraintM>>::empty());
        assert(r.constraints() =~= Set::<RelConstraintM>::empty());
        let mut i: usize = 0;
        while i < self.var_names.len()
            invariant
                self.wf(),
                r.wf(),
                i <= self.var_names@.len(),
                r.var_names@.len() == i,
                forall|j: int| 0 <= j < i ==> #[trigger] r.var_names@[j]@ == self.var_names@[j]@,
                r.constraints() == Set::<RelConstraintM>::empty(),
                r.handed() == Seq::<(TermM, Option<TermM>)>::empty(),
                r.frames() == Seq::<Seq<RelConstraintM>>::empty(),
                r.cache() == Some(true),
                r.extraction() == self.extraction(),
                r.conflict_ids() is None,
                r.ast_keys@.len() == 0,
            decreases self.var_names@.len() - i,
        {
            r.var_names.push(self.var_names[i].clone());
            r.var_consts.push(z3_real_clone(&self.var_consts[i]));
            i += 1;
        }
        let mut j: usize = 0;
        while j < self.ast_keys.len()
            invariant
                self.wf(),
                r.wf(),
                j <= self.ast_keys@.len(),
                r.ast_keys@.len() == j,
                forall|k: int| 0 <= k < j ==> (#[trigger] r.ast_keys@[k])@ == self.ast_keys@[k]@,
                r.var_names@.len() == self.var_names@.len(),
                forall|k: int|
                    0 <= k < self.var_names@.len() ==> #[trigger] r.var_names@[k]@
                        == self.var_names@[k]@,
                r.constraints() == Set::<RelConstraintM>::empty(),
                r.handed() == Seq::<(TermM, Option<TermM>)>::empty(),
                r.frames() == Seq::<Seq<RelConstraintM>>::empty(),
                r.cache() == Some(true),
                r.extraction() == self.extraction(),
                r.conflict_ids() is None,
            decreases self.ast_keys@.len() - j,
        {
            r.ast_keys.push(rel_constraint_clone(&self.ast_keys[j]));
            r.ast_terms.push(z3_bool_clone(&self.ast_terms[j]));
            j += 1;
        }
        assert(r.declared() =~= self.declared());
        r
    }

    /// Opens a backtracking frame, in z3 too.
    pub fn push(&mut self)
        requires
            old(self).wf(),
        ensures
            final(self).wf(),
            final(self).frames() == old(self).frames().push(Seq::empty()),
            final(self).constraints() == old(self).constraints(),
            final(self).asserted() == old(self).asserted(),
            final(self).handed() == old(self).handed(),
            final(self).cache() == old(self).cache(),
            final(self).extraction() == old(self).extraction(),
            final(self).conflict_ids() == old(self).conflict_ids(),
            final(self).declared() == old(self).declared(),
    {
        let ghost n = self.constraint_stack@.len();
        let ghost marks0 = z3_marks(self.z3_solver);
        let ghost cur = rel_views(self.current_constraints@);
        self.constraint_stack.push(Vec::new());
        z3_push(&mut self.z3_solver);
        assert(rel_views(self.constraint_stack@[n as int]@) =~= Seq::empty());
        assert(self.frames() =~= old(self).frames().push(Seq::empty()));
        let ghost marks = z3_marks(self.z3_solver);
        assert forall|i: int| 0 <= i < marks.len() implies #[trigger] marks[i] <= frame_end(
            marks,
            i,
            cur.len(),
        ) && frame_end(marks, i, cur.len()) <= cur.len() && rel_views(self.constraint_stack@[i]@)
            == cur.subrange(marks[i] as int, frame_end(marks, i, cur.len()) as int) by {
            if i < n {
                assert(marks[i] == marks0[i]);
                assert(self.constraint_stack@[i] == old(self).constraint_stack@[i]);
                if i + 1 < n {
                    assert(frame_end(marks, i, cur.len()) == frame_end(marks0, i, cur.len()));
                } else {
                    assert(frame_end(marks0, i, cur.len()) == cur.len());
                }
            } else {
                assert(cur.subrange(cur.len() as int, cur.len() as int) =~= Seq::<RelConstraintM>::empty());
            }
        }
    }

    /// Closes the newest frame: its relations are retracted and z3 backtracks.
    #[verifier::loop_isolation(false)]
    pub fn pop(&mut self)
        requires
            old(self).wf(),
            old(self).frames().len() > 0,
        ensures
            final(self).wf(),
            final(self).frames() == old(self).frames().drop_last(),
            final(self).constraints() == old(self).constraints().difference(
                old(self).frames().last().to_set(),
            ),
            final(self).asserted() == old(self).asserted().take(
                old(self).asserted().len() - old(self).frames().last().len(),
            ),
            final(self).handed() == old(self).handed().take(
                old(self).handed().len() - old(self).frames().last().len(),
            ),
            final(self).cache() == (if old(self).cache() == Some(false) {
                None
            } else {
                old(self).cache()
            }),
            final(self).extraction() == old(self).extraction(),
            final(self).conflict_ids() == old(self).conflict_ids(),
            final(self).declared() == old(self).declared(),
    {
        let ghost frames0 = self.frames();
        let ghost cur0 = rel_views(self.current_constraints@);
        let ghost marks0 = z3_marks(self.z3_solver);
        let ghost n = marks0.len();
        let ghost handed0 = z3_assertions(self.z3_solver);
        assert(marks0[n - 1] <= frame_end(marks0, n - 1, cur0.len()));
        let last = self.constraint_stack.pop().unwrap();
        assert(rel_views(last@) == frames0.last());
        assert(frame_end(marks0, n - 1, cur0.len()) == cur0.len());
        assert(rel_views(last@).len() == cur0.len() - marks0[n - 1]);
        z3_pop(&mut self.z3_solver);
        assert(self.frames() =~= frames0.drop_last());
        let ghost marks1 = z3_marks(self.z3_solver);
        let ghost handed1 = z3_assertions(self.z3_solver);
        assert(marks1 == marks0.drop_last());
        assert(handed1 == handed0.take(marks0[n - 1] as int));
        let mark = self.current_constraints.len() - last.len();
        assert(mark == marks0[n - 1]);
        while self.current_constraints.len() > mark
            invariant
                mark <= self.current_constraints@.len() <= cur0.len(),
                rel_views(self.current_constraints@) == cur0.take(self.current_constraints@.len() as int),
                z3_marks(self.z3_solver) == marks1,
                z3_assertions(self.z3_solver) == handed1,
                self.constraint_stack@ == old(self).constraint_stack@.drop_last(),
                self.result_cache == old(self).result_cache,
                self.unsat_core == old(self).unsat_core,
                self.unsat_core_extraction == old(self).unsat_core_extraction,
                self.var_names == old(self).var_names,
                self.var_consts == old(self).var_consts,
                self.ast_keys == old(self).ast_keys,
                self.ast_terms == old(self).ast_terms,
            decreases self.current_constraints@.len(),
        {
            self.current_constraints.pop();
            assert(rel_views(self.current_constraints@) =~= cur0.take(self.current_constraints@.len() as int));
        }
        proof {
            lemma_split_set(cur0, mark as int);
            assert(cur0.subrange(mark as int, cur0.len() as int) == rel_views(last@));
            let cur = rel_views(self.current_constraints@);
            let marks = z3_marks(self.z3_solver);
            assert(cur == cur0.take(mark as int));
            assert forall|i: int| 0 <= i < marks.len() implies #[trigger] marks[i] <= frame_end(
                marks,
                i,
                cur.len(),
            ) && frame_end(marks, i, cur.len()) <= cur.len() && rel_views(
                self.constraint_stack@[i]@,
            ) == cur.subrange(marks[i] as int, frame_end(marks, i, cur.len()) as int) by {
                assert(marks[i] == marks0[i]);
                assert(self.constraint_stack@[i] == old(self).constraint_stack@[i]);
                assert(marks0[i] <= frame_end(marks0, i, cur0.len()));
    if i + 1 < marks.len() {
                    assert(frame_end(marks, i, cur.len()) == frame_end(marks0, i, cur0.len()));
                    assert(marks0[i + 1] <= marks0[n - 1]);
                } else {
                    assert(frame_end(marks0, i, cur0.len()) == marks0[n - 1]);
                }
                assert(cur.subrange(marks[i] as int, frame_end(marks, i, cur.len()) as int) =~= cur0.subrange(
                    marks0[i] as int,
                    frame_end(marks0, i, cur0.len()) as int,
                ));
            }
            assert forall|i: int, j: int| 0 <= i <= j < marks.len() implies #[trigger] marks[i]
                <= #[trigger] marks[j] by {
                assert(marks[i] == marks0[i] && marks[j] == marks0[j]);
            }
            let handed = z3_assertions(self.z3_solver);
            assert(handed == handed0.take(mark as int));
            assert forall|i: int| 0 <= i < handed.len() implies (#[trigger] handed[i]).0 == rel_term(
                cur[i],
            ) by {
                assert(handed[i] == handed0[i]);
                assert(cur[i] == cur0[i]);
            }
        }
        if let Some(false) = self.result_cache {
            self.result_cache = None;
        }
    }
}

impl RealSolver {
    /// The constant declared for `name`, declared now when it is new.
    fn real_var(&mut self, name: &String) -> (r: ZReal)
        requires
            old(self).wf(),
            !name@.contains('\0'),
        ensures
            final(self).wf(),
            r.model@ == TermM::RealConst(name@),
            final(self).current_constraints == old(self).current_constraints,
            final(self).z3_solver == old(self).z3_solver,
            final(self).constraint_stack == old(self).constraint_stack,
            final(self).result_cache == old(self).result_cache,
            final(self).unsat_core == old(self).unsat_core,
            final(self).unsat_core_extraction == old(self).unsat_core_extraction,
    {
        let mut i: usize = 0;
        while i < self.var_names.len()
            invariant
                self.wf(),
                i <= self.var_names@.len(),
            decreases self.var_names@.len() - i,
        {
            if self.var_names[i] == *name {
                assert(self.var_consts@[i as int].model@ == TermM::RealConst(self.var_names@[i as int]@));
                return z3_real_clone(&self.var_consts[i]);
            }
            i += 1;
        }
        let v = z3_new_real_const(name.as_str());
        self.var_names.push(name.clone());
        self.var_consts.push(z3_real_clone(&v));
        v
    }

    /// The z3 term of a real-valued term; `|t|` becomes `if t >= 0 then t else 0 - t`.
    fn aexpr_to_z3(&mut self, e: &AExpr) -> (r: ZReal)
        requires
            old(self).wf(),
            aexpr_names_ok(e@),
        ensures
            final(self).wf(),
            r.model@ == real_term(e@),
            final(self).current_constraints == old(self).current_constraints,
            final(self).z3_solver == old(self).z3_solver,
            final(self).constraint_stack == old(self).constraint_stack,
            final(self).result_cache == old(self).result_cache,
            final(self).unsat_core == old(self).unsat_core,
            final(self).unsat_core_extraction == old(self).unsat_core_extraction,
        decreases e,
    {
        match e {
            AExpr::Var(name) => self.real_var(name),
            AExpr::Num(q) => z3_new_real_numeral(q.numer(), q.denom()),
            AExpr::Abs(inner) => {
                let x = self.aexpr_to_z3(inner);
                let zero = z3_new_real_numeral(0, 1);
                let cond = z3_real_ge(&x, &zero);
                let neg_x = z3_real_sub(&zero, &x);
                z3_real_ite(&cond, &x, &neg_x)
            },
            AExpr::BinOp { op, left, right } => {
                let l = self.aexpr_to_z3(left);
                let r = self.aexpr_to_z3(right);
                match op {
                    ArithOp::Add => z3_real_add(&l, &r),
                    ArithOp::Sub => z3_real_sub(&l, &r),
                }
            },
        }
    }

    /// The z3 term of a relation.
    fn rel_to_z3(&mut self, c: &RelConstraint) -> (r: ZBool)
        requires
            old(self).wf(),
            rel_names_ok(c@),
        ensures
            final(self).wf(),
            r.model@ == rel_term(c@),
            final(self).current_constraints == old(self).current_constraints,
            final(self).z3_solver == old(self).z3_solver,
            final(self).constraint_stack == old(self).constraint_stack,
            final(self).result_cache == old(self).result_cache,
            final(self).unsat_core == old(self).unsat_core,
            final(self).unsat_core_extraction == old(self).unsat_core_extraction,
    {
        let l = self.aexpr_to_z3(&c.left);
        let r = self.aexpr_to_z3(&c.right);
        let b = match c.op {
            RelOp::Lt => z3_real_lt(&l, &r),
            RelOp::Le => z3_real_le(&l, &r),
            RelOp::Gt => z3_real_gt(&l, &r),
            RelOp::Ge => z3_real_ge(&l, &r),
            RelOp::Eq => z3_real_eq(&l, &r),
            RelOp::Ne => {
                let e = z3_real_eq(&l, &r);
                z3_bool_not(&e)
            },
        };
        if c.negated {
            z3_bool_not(&b)
        } else {
            b
        }
    }

    /// The term of `c`, built once and then reused.
    fn cached_term(&mut self, c: &RelConstraint) -> (r: ZBool)
        requires
            old(self).wf(),
            rel_names_ok(c@),
        ensures
            final(self).wf(),
            r.model@ == rel_term(c@),
            final(self).current_constraints == old(self).current_constraints,
            final(self).z3_solver == old(self).z3_solver,
            final(self).constraint_stack == old(self).constraint_stack,
            final(self).result_cache == old(self).result_cache,
            final(self).unsat_core == old(self).unsat_core,
            final(self).unsat_core_extraction == old(self).unsat_core_extraction,
    {
        match RealSolver::position_of(&self.ast_keys, c) {
            Some(i) => {
                assert(self.ast_terms@[i as int].model@ == rel_term(self.ast_keys@[i as int]@));
                z3_bool_clone(&self.ast_terms[i])
            },
            None => {
                let b = self.rel_to_z3(c);
                self.ast_keys.push(rel_constraint_clone(c));
                self.ast_terms.push(z3_bool_clone(&b));
                b
            },
        }
    }

    fn position_of(v: &Vec<RelConstraint>, c: &RelConstraint) -> (r: Option<usize>)
        ensures
            r matches Some(i) ==> i < v@.len() && v@[i as int]@ == c@,
            r is None ==> !rel_views(v@).contains(c@),
    {
        let mut i: usize = 0;
        while i < v.len()
            invariant
                i <= v@.len(),
                forall|j: int| 0 <= j < i ==> v@[j]@ != c@,
            decreases v@.len() - i,
        {
            if rel_constraint_eq(&v[i], c) {
                return Some(i);
            }
            i += 1;
        }
        assert forall|j: int| 0 <= j < v@.len() implies rel_views(v@)[j] != c@ by {
            assert(rel_views(v@)[j] == v@[j]@);
        }
        None
    }

    /// Asserts relation `c` for proposition `id` unless it is asserted already; with
    /// extraction enabled, it is tracked by the constant named `p_<id>`.
    pub fn add_constraint(&mut self, c: RelConstraint, id: usize)
        requires
            old(self).wf(),
            rel_names_ok(c@),
        ensures
            final(self).wf(),
            final(self).constraints() == old(self).constraints().insert(c@),
            final(self).asserted() == (if old(self).constraints().contains(c@) {
                old(self).asserted()
            } else {
                old(self).asserted().push(c@)
            }),
            final(self).handed() == (if old(self).constraints().contains(c@) {
                old(self).handed()
            } else {
                old(self).handed().push(handed_entry(c@, id, old(self).extraction()))
            }),
            final(self).frames() == (if !old(self).constraints().contains(c@) && old(
                self,
            ).frames().len() > 0 {
                old(self).frames().update(
                    old(self).frames().len() - 1,
                    old(self).frames().last().push(c@),
                )
            } else {
                old(self).frames()
            }),
            final(self).cache() == (if old(self).constraints().contains(c@) {
                old(self).cache()
            } else {
                None
            }),
            final(self).extraction() == old(self).extraction(),
            final(self).conflict_ids() == old(self).conflict_ids(),
    {
        if let Some(i) = RealSolver::position_of(&self.current_constraints, &c) {
            assert(rel_views(self.current_constraints@)[i as int] == c@);
            assert(self.constraints().insert(c@) =~= self.constraints());
            return;
        }
        let ghost cur0 = rel_views(self.current_constraints@);
        let ghost marks = z3_marks(self.z3_solver);
        let ghost handed0 = z3_assertions(self.z3_solver);
        let ast = self.cached_term(&c);
        assert(!cur0.contains(c@));
        self.current_constraints.push(rel_constraint_clone(&c));
        let ghost cur = rel_views(self.current_constraints@);
        assert(cur =~= cur0.push(c@));
        proof {
            Seq::<RelConstraintM>::lemma_to_set_insert_commutes(cur0, c@);
            assert(cur0 + seq![c@] =~= cur0.push(c@));
            assert forall|a: int, b: int|
                0 <= a < cur0.len() + 1 && 0 <= b < cur0.len() + 1 && a != b implies cur0.push(c@)[a]
                != cur0.push(c@)[b] by {
                if a == cur0.len() {
                    assert(cur0[b] != c@);
                } else if b == cur0.len() {
                    assert(cur0[a] != c@);
                }
            }
        }
        if !self.unsat_core_extraction {
            z3_assert(&mut self.z3_solver, &ast);
        } else {
            let label = track_label(id);
            let p = z3_new_bool_const(label.as_str());
            z3_assert_and_track(&mut self.z3_solver, ast, &p);
        }
        self.result_cache = None;
        let n = self.constraint_stack.len();
        let ghost stack0 = self.constraint_stack@;
        if n > 0 {
            let mut last = self.constraint_stack.pop().unwrap();
            last.push(c);
            self.constraint_stack.push(last);
            assert(rel_views(self.constraint_stack@[n - 1]@) =~= rel_views(stack0[n - 1]@).push(
                c@,
            ));
            assert(self.frames() =~= old(self).frames().update(
                n - 1,
                old(self).frames().last().push(c@),
            ));
        }
        proof {
            let handed = z3_assertions(self.z3_solver);
            assert(handed == handed0.push(handed_entry(c@, id, self.unsat_core_extraction)));
            assert forall|i: int| 0 <= i < handed.len() implies (#[trigger] handed[i]).0 == rel_term(
                cur[i],
            ) by {
                if i < handed0.len() {
                    assert(handed[i] == handed0[i]);
                    assert(cur[i] == cur0[i]);
                }
            }
            assert forall|i: int| 0 <= i < marks.len() implies #[trigger] marks[i] <= frame_end(
                marks,
                i,
                cur.len(),
            ) && frame_end(marks, i, cur.len()) <= cur.len() && rel_views(
                self.constraint_stack@[i]@,
            ) == cur.subrange(marks[i] as int, frame_end(marks, i, cur.len()) as int) by {
                assert(marks[i] <= frame_end(marks, i, cur0.len()));
                if i + 1 < marks.len() {
                    assert(self.constraint_stack@[i] == stack0[i]);
                    assert(cur.subrange(marks[i] as int, frame_end(marks, i, cur.len()) as int) =~= cur0.subrange(
                        marks[i] as int,
                        frame_end(marks, i, cur0.len()) as int,
                    ));
                } else {
                    assert(cur.subrange(marks[i] as int, cur.len() as int) =~= cur0.subrange(
                        marks[i] as int,
                        cur0.len() as int,
                    ).push(c@));
                }
            }
        }
    }

    /// z3's answer on the asserted relations, or the cached one while nothing changed;
    /// with no relation asserted, satisfiable without asking z3. With extraction enabled,
    /// an unsatisfiable answer from z3 records the identifiers named by the tracking
    /// constants of z3's unsat core, as `core_ids` reads them.
    pub fn check(&mut self) -> (r: bool)
        requires
            old(self).wf(),
        ensures
            final(self).wf(),
            old(self).cache() is None && old(self).constraints() == Set::<RelConstraintM>::empty() ==> r,
            old(self).cache() matches Some(b) ==> r == b && final(self).conflict_ids() == old(
                self,
            ).conflict_ids(),
            final(self).cache() == Some(r),
            old(self).constraints() == Set::<RelConstraintM>::empty() ==> r,
            final(self).constraints() == old(self).constraints(),
            final(self).asserted() == old(self).asserted(),
            final(self).handed() == old(self).handed(),
            final(self).frames() == old(self).frames(),
            final(self).extraction() == old(self).extraction(),
            !old(self).extraction() ==> final(self).conflict_ids() is None,
            r ==> final(self).conflict_ids() == old(self).conflict_ids(),
            old(self).cache() is None && !r && old(self).extraction() ==> exists|names: Seq<Seq<char>>|
                final(self).conflict_ids() == Some(#[trigger] spec_core_ids(names)),
    {
        proof {
            if rel_views(self.current_constraints@).len() > 0 {
                assert(self.constraints().contains(rel_views(self.current_constraints@)[0]));
            }
        }
        if let Some(res) = self.result_cache {
            return res;
        }
        if self.current_constraints.len() == 0 {
            self.result_cache = Some(true);
            return true;
        }
        proof {
            assert(rel_views(self.current_constraints@).len() > 0);
            assert(self.constraints().contains(rel_views(self.current_constraints@)[0]));
        }
        let sat = z3_check(&mut self.z3_solver);
        if self.unsat_core_extraction && !sat {
            let core = z3_unsat_core(&self.z3_solver);
            let mut names: Vec<String> = Vec::new();
            let mut i: usize = 0;
            while i < core.len()
                invariant
                    i <= core@.len(),
                decreases core@.len() - i,
            {
                if let Some(decl) = z3_bool_decl(&core[i]) {
                    names.push(z3_decl_name(&decl));
                }
                i += 1;
            }
            let ids = core_ids(&names);
            self.unsat_core = Some(ids);
        }
        self.result_cache = Some(sat);
        sat
    }

    /// The identifiers of the last unsat core, if any.
    pub fn unsat_core(&self) -> (r: Option<Vec<usize>>)
        ensures
            r matches Some(v) ==> self.conflict_ids() == Some(v@),
            r is None <==> self.conflict_ids() is None,
    {
        match &self.unsat_core {
            Some(v) => Some(v.clone()),
            None => None,
        }
    }
}

// ---------------------------------------------------------------------------------------
// The solver of a tableau node
// ---------------------------------------------------------------------------------------
/// A proposition asserted by a node, under an even (`negated == false`) or odd number of
/// negations; `id` is the identifier of the proposition.
#[derive(Debug)]
pub struct Assertion {
    pub id: usize,
    pub expr: Expr,
    pub negated: bool,
}

/// The proposition under the negations of `f`, with the parity of their number.
pub open spec fn spec_assertion(f: FormulaM) -> Option<(bool, ExprM)>
    decreases f,
{
    match f {
        FormulaM::Prop(e) => Some((false, e)),
        FormulaM::Not(b) => match spec_assertion(*b) {
            Some((n, e)) => Some((!n, e)),
            None => None,
        },
        _ => None,
    }
}

/// The proposition asserted by `f`, if `f` is one under negations.
pub fn get_assertion(f: &Formula) -> (r: Option<Assertion>)
    ensures
        match r {
            Some(a) => spec_assertion(f@) == Some((a.negated, a.expr@)) && a.id == a.expr.id,
            None => spec_assertion(f@) is None,
        },
    decreases f,
{
    match f {
        Formula::Prop(e) => Some(Assertion { id: e.id, expr: e.clone(), negated: false }),
        Formula::Not(inner) => match get_assertion(inner) {
            Some(a) => Some(Assertion { id: a.id, expr: a.expr, negated: !a.negated }),
            None => None,
        },
        _ => None,
    }
}

/// The literals of the first `n` operands, in order.
pub open spec fn literals(s: Seq<FormulaM>, n: int) -> Seq<(bool, ExprM)>
    decreases n,
{
    if n <= 0 || n > s.len() {
        Seq::empty()
    } else {
        literals(s, n - 1) + match spec_assertion(s[n - 1]) {
            Some(x) => seq![x],
            None => Seq::empty(),
        }
    }
}

/// The atoms of the given polarity, after the first `n` literals of `u` were asserted.
pub open spec fn atoms_after(m: Map<Seq<char>, usize>, u: Seq<(bool, ExprM)>, negated: bool, n: int) -> Map<
    Seq<char>,
    usize,
>
    decreases n,
{
    if n <= 0 || n > u.len() {
        m
    } else {
        let prev = atoms_after(m, u, negated, n - 1);
        match u[n - 1].1.kind {
            ExprKindM::Atom(a) => if u[n - 1].0 == negated {
                prev.insert(a, u[n - 1].1.id)
            } else {
                prev
            },
            _ => prev,
        }
    }
}

/// Asserting literals into a map keeps every atom that asserting them into the empty map
/// gives.
pub proof fn lemma_atoms_after_keys(m: Map<Seq<char>, usize>, u: Seq<(bool, ExprM)>, negated: bool, n: int)
    ensures
        forall|k: Seq<char>|
            #[trigger] atoms_after(Map::empty(), u, negated, n).contains_key(k) ==> atoms_after(
                m,
                u,
                negated,
                n,
            ).contains_key(k),
    decreases n,
{
    if 0 < n <= u.len() {
        lemma_atoms_after_keys(m, u, negated, n - 1);
        let e = atoms_after(Map::empty(), u, negated, n);
        let f = atoms_after(m, u, negated, n);
        let pe = atoms_after(Map::empty(), u, negated, n - 1);
        let pf = atoms_after(m, u, negated, n - 1);
        assert forall|k: Seq<char>| #[trigger] e.contains_key(k) implies f.contains_key(k) by {
            match u[n - 1].1.kind {
                ExprKindM::Atom(a) => {
                    if u[n - 1].0 == negated && k != a {
                        assert(pe.contains_key(k));
                    } else if u[n - 1].0 != negated {
                        assert(pe.contains_key(k));
                    }
                },
                _ => {
                    assert(pe.contains_key(k));
                },
            }
        }
    }
}

/// An atom asserted both ways among the literals alone is asserted both ways whatever was
/// asserted before.
pub proof fn lemma_conflict_persists(p: Map<Seq<char>, usize>, q: Map<Seq<char>, usize>, u: Seq<(bool, ExprM)>)
    requires
        spec_conflict(
            atoms_after(Map::empty(), u, false, u.len() as int),
            atoms_after(Map::empty(), u, true, u.len() as int),
        ),
    ensures
        spec_conflict(atoms_after(p, u, false, u.len() as int), atoms_after(q, u, true, u.len() as int)),
{
    lemma_atoms_after_keys(p, u, false, u.len() as int);
    lemma_atoms_after_keys(q, u, true, u.len() as int);
    let k = choose|k: Seq<char>|
        #[trigger] atoms_after(Map::empty(), u, false, u.len() as int).contains_key(k) && atoms_after(
            Map::empty(),
            u,
            true,
            u.len() as int,
        ).contains_key(k);
    assert(atoms_after(p, u, false, u.len() as int).contains_key(k));
}

/// The relations among the first `n` literals of `u`.
pub open spec fn relations(u: Seq<(bool, ExprM)>, n: int) -> Set<RelConstraintM>
    decreases n,
{
    if n <= 0 || n > u.len() {
        Set::empty()
    } else {
        let prev = relations(u, n - 1);
        match u[n - 1].1.kind {
            ExprKindM::Rel { op, left, right } => prev.insert(
                RelConstraintM { negated: u[n - 1].0, op, left, right },
            ),
            _ => prev,
        }
    }
}

/// Some literal is a relation.
pub open spec fn has_relation(u: Seq<(bool, ExprM)>) -> bool {
    exists|i: int| 0 <= i < u.len() && #[trigger] u[i].1.kind is Rel
}

/// Some operand is `FALSE` or `!TRUE`.
pub open spec fn spec_has_false(s: Seq<FormulaM>) -> bool {
    exists|i: int| 0 <= i < s.len() && is_false_operand(#[trigger] s[i])
}

/// `FALSE` or `!TRUE`.
pub open spec fn is_false_operand(f: FormulaM) -> bool {
    match f {
        FormulaM::Prop(e) => e.kind is False,
        FormulaM::Not(b) => match *b {
            FormulaM::Prop(e) => e.kind is True,
            _ => false,
        },
        _ => false,
    }
}

/// Checks the propositions of tableau nodes: atoms by a table of polarities, relations by
/// z3. Frames opened by `push` are closed by `pop`, retracting what was asserted since.
pub struct TableauSolver {
    unsat_core_extraction: bool,
    mltl: bool,
    boolean_solver: BooleanSolver,
    real_solver: RealSolver,
}

/// From `a` to `b` the solver recorded what it took in its newest frame only: the older
/// frames are as they were, and every atom or relation `b` holds, `a` held already or `b`'s
/// newest frame records.
pub open spec fn recorded_in_last(a: TableauSolver, b: TableauSolver) -> bool {
    let fa = a.atom_part().frames();
    let fb = b.atom_part().frames();
    let ra = a.rel_part().frames();
    let rb = b.rel_part().frames();
    &&& fa.len() > 0
    &&& fb.len() == fa.len()
    &&& fb.drop_last() == fa.drop_last()
    &&& rb.len() == ra.len()
    &&& rb.drop_last() == ra.drop_last()
    &&& forall|k: Seq<char>|
        #[trigger] b.atom_part().pos().contains_key(k) ==> a.atom_part().pos().contains_key(k)
            || frame_keys(fb.last(), false).contains(k)
    &&& forall|k: Seq<char>|
        #[trigger] b.atom_part().neg().contains_key(k) ==> a.atom_part().neg().contains_key(k)
            || frame_keys(fb.last(), true).contains(k)
    &&& forall|c: RelConstraintM|
        #[trigger] b.rel_part().constraints().contains(c) ==> a.rel_part().constraints().contains(c)
            || rb.last().contains(c)
}

proof fn lemma_recorded_trans(a: TableauSolver, b: TableauSolver, c: TableauSolver)
    requires
        recorded_in_last(a, b),
        recorded_in_last(b, c),
        forall|k: Seq<char>|
            #[trigger] frame_keys(b.atom_part().frames().last(), false).contains(k) ==> frame_keys(
                c.atom_part().frames().last(),
                false,
            ).contains(k),
        forall|k: Seq<char>|
            #[trigger] frame_keys(b.atom_part().frames().last(), true).contains(k) ==> frame_keys(
                c.atom_part().frames().last(),
                true,
            ).contains(k),
        forall|x: RelConstraintM|
            #[trigger] b.rel_part().frames().last().contains(x) ==> c.rel_part().frames().last().contains(x),
    ensures
        recorded_in_last(a, c),
{
}

impl TableauSolver {
    pub closed spec fn atom_part(&self) -> BooleanSolver {
        self.boolean_solver
    }

    pub closed spec fn rel_part(&self) -> RealSolver {
        self.real_solver
    }

    pub closed spec fn extraction(&self) -> bool {
        self.unsat_core_extraction
    }

    /// Relations are refused under the MLTL semantics.
    pub closed spec fn mltl(&self) -> bool {
        self.mltl
    }

    /// Whether relations are refused.
    pub fn mltl_mode(&self) -> (r: bool)
        ensures
            r == self.mltl(),
    {
        self.mltl
    }

    /// The number of open frames.
    pub closed spec fn depth(&self) -> nat {
        self.boolean_solver.frames().len()
    }

    pub closed spec fn wf(&self) -> bool {
        &&& self.boolean_solver.wf()
        &&& self.real_solver.wf()
        &&& self.boolean_solver.frames().len() == self.real_solver.frames().len()
        &&& self.boolean_solver.extraction() == self.unsat_core_extraction
        &&& self.real_solver.extraction() == self.unsat_core_extraction
    }

    pub fn new(unsat_core_extraction: bool, mltl: bool) -> (r: TableauSolver)
        ensures
            r.wf(),
            r.depth() == 0,
            r.extraction() == unsat_core_extraction,
            r.mltl() == mltl,
            r.atom_part().pos() == Map::<Seq<char>, usize>::empty(),
            r.atom_part().neg() == Map::<Seq<char>, usize>::empty(),
            r.atom_part().cache() == Some(true),
            r.rel_part().constraints() == Set::<RelConstraintM>::empty(),
            r.rel_part().cache() == Some(true),
    {
        TableauSolver {
            unsat_core_extraction,
            mltl,
            boolean_solver: BooleanSolver::new(unsat_core_extraction),
            real_solver: RealSolver::new(unsat_core_extraction),
        }
    }

    /// A solver with nothing asserted and the same settings, which reuses the z3 constants
    /// and terms built by this one.
    pub fn empty_solver(&self) -> (r: TableauSolver)
        requires
            self.wf(),
        ensures
            r.wf(),
            r.depth() == 0,
            r.extraction() == self.extraction(),
            r.mltl() == self.mltl(),
            r.atom_part().pos() == Map::<Seq<char>, usize>::empty(),
            r.atom_part().neg() == Map::<Seq<char>, usize>::empty(),
            r.atom_part().cache() == Some(true),
            r.rel_part().constraints() == Set::<RelConstraintM>::empty(),
            r.rel_part().cache() == Some(true),
            r.rel_part().declared() == self.rel_part().declared(),
    {
        TableauSolver {
            unsat_core_extraction: self.unsat_core_extraction,
            mltl: self.mltl,
            boolean_solver: BooleanSolver::new(self.unsat_core_extraction),
            real_solver: self.real_solver.fresh_with_caches(),
        }
    }

    /// Opens a frame.
    pub fn push(&mut self)
        requires
            old(self).wf(),
        ensures
            final(self).wf(),
            final(self).depth() == old(self).depth() + 1,
            final(self).extraction() == old(self).extraction(),
            final(self).mltl() == old(self).mltl(),
            final(self).atom_part().pos() == old(self).atom_part().pos(),
            final(self).atom_part().neg() == old(self).atom_part().neg(),
            final(self).rel_part().constraints() == old(self).rel_part().constraints(),
            final(self).rel_part().cache() == old(self).rel_part().cache(),
            final(self).atom_part().frames() == old(self).atom_part().frames().push(Seq::empty()),
            final(self).rel_part().frames() == old(self).rel_part().frames().push(Seq::empty()),
    {
        self.boolean_solver.push();
        self.real_solver.push();
    }

    /// Closes the newest frame, retracting what was asserted since it was opened.
    pub fn pop(&mut self)
        requires
            old(self).wf(),
            old(self).depth() > 0,
        ensures
            final(self).wf(),
            final(self).depth() == old(self).depth() - 1,
            final(self).extraction() == old(self).extraction(),
            final(self).mltl() == old(self).mltl(),
            final(self).atom_part().pos() == old(self).atom_part().pos().remove_keys(
                frame_keys(old(self).atom_part().frames().last(), false),
            ),
            final(self).atom_part().neg() == old(self).atom_part().neg().remove_keys(
                frame_keys(old(self).atom_part().frames().last(), true),
            ),
            final(self).rel_part().constraints() == old(self).rel_part().constraints().difference(
                old(self).rel_part().frames().last().to_set(),
            ),
            final(self).atom_part().frames() == old(self).atom_part().frames().drop_last(),
            final(self).rel_part().frames() == old(self).rel_part().frames().drop_last(),
    {
        self.boolean_solver.pop();
        self.real_solver.pop();
    }

    /// Whether the propositions of `node` are consistent with everything asserted in the
    /// open frames: `false` at once for an operand `FALSE` or `!TRUE`; otherwise its
    /// literals are asserted, and the answer is that no atom holds both ways and that z3
    /// finds the relations satisfiable.
    pub fn check(&mut self, node: &Node) -> (r: bool)
        requires
            old(self).wf(),
            old(self).mltl() && !spec_has_false(ops(node)) ==> !has_relation(
                literals(ops(node), ops(node).len() as int),
            ),
            !spec_has_false(ops(node)) ==> literal_names_ok(literals(ops(node), ops(node).len() as int)),
        ensures
            final(self).wf(),
            final(self).depth() == old(self).depth(),
            final(self).extraction() == old(self).extraction(),
            final(self).mltl() == old(self).mltl(),
            spec_has_false(ops(node)) ==> !r && *final(self) == *old(self),
            !spec_has_false(ops(node)) ==> {
                let u = literals(ops(node), ops(node).len() as int);
                &&& final(self).atom_part().pos() == atoms_after(
                    old(self).atom_part().pos(),
                    u,
                    false,
                    u.len() as int,
                )
                &&& final(self).atom_part().neg() == atoms_after(
                    old(self).atom_part().neg(),
                    u,
                    true,
                    u.len() as int,
                )
                &&& final(self).rel_part().constraints() == old(self).rel_part().constraints().union(
                    relations(u, u.len() as int),
                )
                &&& r == (!spec_conflict(final(self).atom_part().pos(), final(self).atom_part().neg())
                    && final(self).rel_part().cache() == Some(true))
                &&& (!has_relation(u) && old(self).rel_part().cache() == Some(true)
                    ==> final(self).rel_part().cache() == Some(true))
                &&& (final(self).rel_part().constraints() == Set::<RelConstraintM>::empty() ==> r
                    == !spec_conflict(final(self).atom_part().pos(), final(self).atom_part().neg()))
            },
            old(self).depth() > 0 ==> recorded_in_last(*old(self), *final(self)),
    {
        let mut i: usize = 0;
        while i < node.operands.len()
            invariant
                i <= node.operands@.len(),
                *self == *old(self),
                self.wf(),
                forall|j: int| 0 <= j < i ==> !is_false_operand(#[trigger] ops(node)[j]),
            decreases node.operands@.len() - i,
        {
            let f = &node.operands[i];
            assert(ops(node)[i as int] == f@);
            let is_false = match f {
                Formula::Prop(e) => match e.kind {
                    ExprKind::False => true,
                    _ => false,
                },
                Formula::Not(inner) => {
                    assert(f@ == FormulaM::Not(Box::new(inner@)));
                    match &**inner {
                        Formula::Prop(e) => {
                            assert(inner@ == FormulaM::Prop(e@));
                            match e.kind {
                                ExprKind::True => true,
                                _ => false,
                            }
                        },
                        _ => false,
                    }
                },
                _ => false,
            };
            assert(is_false == is_false_operand(ops(node)[i as int]));
            if is_false {
                return false;
            }
            i += 1;
        }
        self.add_constraints(node);
        let bool_ok = self.boolean_solver.check();
        let real_ok = self.real_solver.check();
        bool_ok && real_ok
    }

    fn add_constraints(&mut self, node: &Node)
        requires
            old(self).wf(),
            old(self).mltl() ==> !has_relation(literals(ops(node), ops(node).len() as int)),
            literal_names_ok(literals(ops(node), ops(node).len() as int)),
        ensures
            final(self).wf(),
            final(self).depth() == old(self).depth(),
            final(self).extraction() == old(self).extraction(),
            final(self).mltl() == old(self).mltl(),
            ({
                let u = literals(ops(node), ops(node).len() as int);
                &&& final(self).atom_part().pos() == atoms_after(
                    old(self).atom_part().pos(),
                    u,
                    false,
                    u.len() as int,
                )
                &&& final(self).atom_part().neg() == atoms_after(
                    old(self).atom_part().neg(),
                    u,
                    true,
                    u.len() as int,
                )
                &&& final(self).rel_part().constraints() == old(self).rel_part().constraints().union(
                    relations(u, u.len() as int),
                )
                &&& (!has_relation(u) ==> final(self).rel_part() == old(self).rel_part())
            }),
            old(self).depth() > 0 ==> recorded_in_last(*old(self), *final(self)),
    {
        let ghost s = ops(node);
        let ghost all = literals(s, s.len() as int);
        let ghost real0 = self.real_solver;
        let ghost pos0 = self.boolean_solver.pos();
        let ghost neg0 = self.boolean_solver.neg();
        let ghost rel0 = self.real_solver.constraints();
        let mut i: usize = 0;
        while i < node.operands.len()
            invariant
                self.wf(),
                s == ops(node),
                all == literals(s, s.len() as int),
                i <= s.len(),
                self.depth() == old(self).depth(),
                self.extraction() == old(self).extraction(),
                self.mltl() == old(self).mltl(),
                self.mltl() ==> !has_relation(all),
                literal_names_ok(all),
                !has_relation(literals(s, i as int)) ==> self.real_solver == real0,
                old(self).depth() > 0 ==> recorded_in_last(*old(self), *self),
                ({
                    let u = literals(s, i as int);
                    &&& self.atom_part().pos() == atoms_after(pos0, u, false, u.len() as int)
                    &&& self.atom_part().neg() == atoms_after(neg0, u, true, u.len() as int)
                    &&& self.rel_part().constraints() == rel0.union(relations(u, u.len() as int))
                }),
            decreases s.len() - i,
        {
            let ghost u = literals(s, i as int);
            proof {
                lemma_literals_prefix(s, i as int + 1, s.len() as int);
                lemma_literals_prefix(s, i as int, i + 1);
                if has_relation(u) {
                    let k = choose|k: int| 0 <= k < u.len() && #[trigger] u[k].1.kind is Rel;
                    assert(literals(s, i + 1)[k] == u[k]);
                    assert(literals(s, i + 1)[k].1.kind is Rel);
                }
            }
            match get_assertion(&node.operands[i]) {
                Some(a) => {
                    let ghost u1 = literals(s, i + 1);
                    assert(u1 == u.push((a.negated, a.expr@)));
                    assert(u1.len() == u.len() + 1);
                    let id = a.id;
                    let negated = a.negated;
                    match a.expr.kind {
                        ExprKind::Atom(var) => {
                            let ghost prev = *self;
                            self.boolean_solver.add_constraint(negated, &var, id);
                            proof {
                                if old(self).depth() > 0 {
                                    let fp = prev.atom_part().frames().last();
                                    lemma_frame_keys_push(fp, (negated, var@), false);
                                    lemma_frame_keys_push(fp, (negated, var@), true);
                                    assert(self.atom_part().frames().last() == fp.push((negated, var@)));
                                    assert(self.atom_part().frames().drop_last() =~= prev.atom_part().frames().drop_last());
                                    assert(self.rel_part() == prev.rel_part());
                                    assert(recorded_in_last(prev, *self));
                                    lemma_recorded_trans(*old(self), prev, *self);
                                }
                            }
                            assert(atoms_after(pos0, u1, false, u.len() as int) == atoms_after(pos0, u, false, u.len() as int)) by {
                                lemma_atoms_after_prefix(pos0, u, u1, false, u.len() as int);
                            }
                            assert(atoms_after(neg0, u1, true, u.len() as int) == atoms_after(neg0, u, true, u.len() as int)) by {
                                lemma_atoms_after_prefix(neg0, u, u1, true, u.len() as int);
                            }
                            assert(relations(u1, u.len() as int) == relations(u, u.len() as int)) by {
                                lemma_relations_prefix(u, u1, u.len() as int);
                            }
                        },
                        ExprKind::Rel { op, left, right } => {
                            proof {
                                if self.mltl() {
                                    assert(all[u.len() as int] == u1[u.len() as int]);
                                    assert(all[u.len() as int].1.kind is Rel);
                                }
                            }
                            assert(!self.mltl());
                            assert(all[u.len() as int] == u1[u.len() as int]);
                            assert(u1[u.len() as int].1.kind is Rel);
                            let rc = RelConstraint { negated, op, left, right };
                            let ghost cm = rc@;
                            let ghost prev = *self;
                            self.real_solver.add_constraint(rc, id);
                            proof {
                                if old(self).depth() > 0 {
                                    let rp = prev.rel_part().frames();
                                    assert(self.rel_part().frames().drop_last() =~= rp.drop_last());
                                    if !prev.rel_part().constraints().contains(cm) {
                                        assert(self.rel_part().frames().last() == rp.last().push(cm));
                                        assert(self.rel_part().frames().last()[rp.last().len() as int] == cm);
                                        assert forall|x: RelConstraintM| #[trigger] rp.last().contains(x)
                                            implies self.rel_part().frames().last().contains(x) by {
                                            let j = choose|j: int| 0 <= j < rp.last().len() && rp.last()[j] == x;
                                            assert(self.rel_part().frames().last()[j] == x);
                                        }
                                    }
                                    assert(self.atom_part() == prev.atom_part());
                                    assert(recorded_in_last(prev, *self));
                                    lemma_recorded_trans(*old(self), prev, *self);
                                }
                            }
                            assert(atoms_after(pos0, u1, false, u.len() as int) == atoms_after(pos0, u, false, u.len() as int)) by {
                                lemma_atoms_after_prefix(pos0, u, u1, false, u.len() as int);
                            }
                            assert(atoms_after(neg0, u1, true, u.len() as int) == atoms_after(neg0, u, true, u.len() as int)) by {
                                lemma_atoms_after_prefix(neg0, u, u1, true, u.len() as int);
                            }
                            assert(relations(u1, u.len() as int) == relations(u, u.len() as int)) by {
                                lemma_relations_prefix(u, u1, u.len() as int);
                            }
                            assert(self.rel_part().constraints() =~= rel0.union(relations(u1, u1.len() as int)));
                        },
                        _ => {
                            assert(atoms_after(pos0, u1, false, u.len() as int) == atoms_after(pos0, u, false, u.len() as int)) by {
                                lemma_atoms_after_prefix(pos0, u, u1, false, u.len() as int);
                            }
                            assert(atoms_after(neg0, u1, true, u.len() as int) == atoms_after(neg0, u, true, u.len() as int)) by {
                                lemma_atoms_after_prefix(neg0, u, u1, true, u.len() as int);
                            }
                            assert(relations(u1, u.len() as int) == relations(u, u.len() as int)) by {
                                lemma_relations_prefix(u, u1, u.len() as int);
                            }
                        },
                    }
                },
                None => {
                    assert(literals(s, i + 1) =~= u);
                },
            }
            i += 1;
        }
    }

    /// The identifiers of the propositions in the last conflict found: the propositional
    /// one if there is one, else z3's.
    pub fn extract_unsat_core(&self) -> (r: Option<Vec<usize>>)
        requires
            self.wf(),
        ensures
            self.atom_part().conflict_ids() is Some ==> (r matches Some(v) && self.atom_part().conflict_ids() == Some(v@)),
            self.atom_part().conflict_ids() is None ==> (r matches Some(v) ==> self.rel_part().conflict_ids() == Some(v@)) && (r is None <==> self.rel_part().conflict_ids() is None),
    {
        match self.boolean_solver.unsat_core() {
            Some(v) => Some(v),
            None => self.real_solver.unsat_core(),
        }
    }
}

/// `f` is, up to the identifiers of its propositions, the formula at the start of `cs`.
pub open spec fn parsed_as(cs: Seq<char>, f: FormulaM) -> bool {
    crate::parser::spec_parse_formula(cs) matches Some((_, g)) && strip(f) == g
}

/// The literals a fresh solver is given for the one-operand node of `f`, flattened.
pub open spec fn flat_literals(f: FormulaM) -> Seq<(bool, ExprM)> {
    let s = spec_flatten(seq![f]);
    literals(s, s.len() as int)
}

/// What a fresh solver answers `b` for the flattened node of `f`: false when an operand is
/// `FALSE` or `!TRUE`; without relations, whether no atom is asserted both ways (the answer
/// on relations is z3's).
pub open spec fn fresh_check_answer(f: FormulaM, b: bool) -> bool {
    let s = spec_flatten(seq![f]);
    let u = flat_literals(f);
    &&& spec_has_false(s) ==> !b
    &&& !spec_has_false(s) && !has_relation(u) ==> b == !spec_conflict(
        atoms_after(Map::empty(), u, false, u.len() as int),
        atoms_after(Map::empty(), u, true, u.len() as int),
    )
}

/// Parses `input` into a node of one operand, flattens it and checks it with a fresh
/// solver; `None` when `input` does not start with a formula, or when a relation of the
/// node names a variable with a NUL character (which z3 cannot take).
pub fn make_solver_test(input: &str) -> (r: Option<bool>)
    requires
        input@.len() < usize::MAX,
    ensures
        crate::parser::spec_parse_formula(input@) is None ==> r is None,
        r matches Some(b) ==> exists|f: FormulaM| #[trigger] parsed_as(input@, f) && fresh_check_answer(f, b),
        r is None && crate::parser::spec_parse_formula(input@) is Some ==> exists|f: FormulaM|
            #[trigger] parsed_as(input@, f) && !literal_names_ok(flat_literals(f)),
{
    let mut ids = crate::formula::IdGen::new();
    match crate::parser::parse_formula(input, &mut ids) {
        Ok((_, formula)) => {
            let ghost fv = formula@;
            assert(parsed_as(input@, fv));
            let mut node_ids = crate::formula::IdGen::new();
            let v = vec![formula];
            let mut node = Node::from_operands(v, &mut node_ids);
            assert(ops(&node) =~= seq![fv]);
            node.flatten();
            assert(ops(&node) == spec_flatten(seq![fv]));
            if !literal_names_are_ok(&node) {
                return None;
            }
            let mut solver = TableauSolver::new(false, false);
            let b = solver.check(&node);
            assert(fresh_check_answer(fv, b));
            Some(b)
        },
        Err(_) => None,
    }
}

proof fn lemma_literals_prefix(s: Seq<FormulaM>, i: int, n: int)
    requires
        0 <= i <= n <= s.len(),
    ensures
        literals(s, i).len() <= literals(s, n).len(),
        forall|j: int| 0 <= j < literals(s, i).len() ==> #[trigger] literals(s, n)[j] == literals(s, i)[j],
    decreases n - i,
{
    if i < n {
        lemma_literals_prefix(s, i, n - 1);
    }
}

proof fn lemma_atoms_after_prefix(
    m: Map<Seq<char>, usize>,
    u: Seq<(bool, ExprM)>,
    v: Seq<(bool, ExprM)>,
    negated: bool,
    n: int,
)
    requires
        0 <= n <= u.len(),
        n <= v.len(),
        forall|j: int| 0 <= j < n ==> u[j] == v[j],
    ensures
        atoms_after(m, v, negated, n) == atoms_after(m, u, negated, n),
    decreases n,
{
    if n > 0 {
        lemma_atoms_after_prefix(m, u, v, negated, n - 1);
    }
}

proof fn lemma_relations_prefix(u: Seq<(bool, ExprM)>, v: Seq<(bool, ExprM)>, n: int)
    requires
        0 <= n <= u.len(),
        n <= v.len(),
        forall|j: int| 0 <= j < n ==> u[j] == v[j],
    ensures
        relations(v, n) == relations(u, n),
    decreases n,
{
    if n > 0 {
        lemma_relations_prefix(u, v, n - 1);
    }
}

proof fn lemma_remove_unique<A>(s: Seq<A>, j: int)
    requires
        0 <= j < s.len(),
        s.no_duplicates(),
    ensures
        s.remove(j).to_set() == s.to_set().remove(s[j]),
        s.remove(j).no_duplicates(),
{
    let t = s.remove(j);
    assert forall|a: A| t.to_set().contains(a) <==> s.to_set().remove(s[j]).contains(a) by {
        if t.contains(a) {
            let k = choose|k: int| 0 <= k < t.len() && t[k] == a;
            let ok = if k < j { k } else { k + 1 };
            assert(s[ok] == a);
            assert(ok != j);
        }
        if s.contains(a) && a != s[j] {
            let ok = choose|ok: int| 0 <= ok < s.len() && s[ok] == a;
            assert(ok != j);
            let k = if ok < j { ok } else { ok - 1 };
            assert(t[k] == a);
        }
    }
    assert(t.to_set() =~= s.to_set().remove(s[j]));
    assert forall|a: int, b: int| 0 <= a < t.len() && 0 <= b < t.len() && a != b implies t[a]
        != t[b] by {
        let oa = if a < j { a } else { a + 1 };
        let ob = if b < j { b } else { b + 1 };
        assert(t[a] == s[oa] && t[b] == s[ob]);
    }
}

} // verus!
