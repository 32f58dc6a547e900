use vstd::prelude::*;

use crate::formula::{
    clone_formulas, fviews, lemma_operand_decreases, lemma_view_junction, operands_of, Formula,
    FormulaM,
};
use crate::node::{ops, Node};

verus! {

/// The identifiers of the propositions of a formula, in the order of a left-to-right walk
/// (the premise, conclusion and negated premise of an implication in this order).
pub open spec fn prop_ids(f: FormulaM) -> Seq<usize>
    decreases f,
{
    match f {
        FormulaM::Prop(e) => seq![e.id],
        FormulaM::And(s) => prop_ids_prefix(s, s.len() as int),
        FormulaM::Or(s) => prop_ids_prefix(s, s.len() as int),
        FormulaM::Imply { left, right, not_left } => prop_ids(*left) + prop_ids(*right) + prop_ids(
            *not_left,
        ),
        FormulaM::Not(b) => prop_ids(*b),
        FormulaM::O(b) => prop_ids(*b),
        FormulaM::G { phi, .. } => prop_ids(*phi),
        FormulaM::F { phi, .. } => prop_ids(*phi),
        FormulaM::U { left, right, .. } => prop_ids(*left) + prop_ids(*right),
        FormulaM::R { left, right, .. } => prop_ids(*left) + prop_ids(*right),
    }
}

pub open spec fn prop_ids_prefix(s: Seq<FormulaM>, n: int) -> Seq<usize>
    decreases s, n,
{
    if n <= 0 || n > s.len() {
        Seq::empty()
    } else {
        prop_ids_prefix(s, n - 1) + prop_ids(s[n - 1])
    }
}

/// The entries recorded for the first `n` operands: each proposition with its operand.
pub open spec fn root_entries(s: Seq<FormulaM>, n: int) -> Seq<(usize, usize)>
    decreases n,
{
    if n <= 0 || n > s.len() {
        Seq::empty()
    } else {
        root_entries(s, n - 1) + Seq::new(prop_ids(s[n - 1]).len(), |k: int| (prop_ids(s[n - 1])[k], (n - 1) as usize))
    }
}

/// The operand recorded last for proposition `id` among the first `n` entries.
pub open spec fn lookup(entries: Seq<(usize, usize)>, id: usize, n: int) -> Option<usize>
    decreases n,
{
    if n <= 0 || n > entries.len() {
        None
    } else if entries[n - 1].0 == id {
        Some(entries[n - 1].1)
    } else {
        lookup(entries, id, n - 1)
    }
}

/// Operand `idx` is where some proposition of the core was last recorded.
pub open spec fn in_core(entries: Seq<(usize, usize)>, core: Seq<usize>, idx: int) -> bool {
    exists|c: int| 0 <= c < core.len() && lookup(entries, #[trigger] core[c], entries.len() as int) == Some(idx as usize)
}

/// The operands among the first `n` that are in the core.
pub open spec fn core_prefix(s: Seq<FormulaM>, entries: Seq<(usize, usize)>, core: Seq<usize>, n: int) -> Seq<FormulaM>
    decreases n,
{
    if n <= 0 || n > s.len() {
        Seq::empty()
    } else if in_core(entries, core, n - 1) {
        core_prefix(s, entries, core, n - 1).push(s[n - 1])
    } else {
        core_prefix(s, entries, core, n - 1)
    }
}

/// The core is drawn from the root: it holds at most as many formulas as the root has
/// operands, each of them an operand of the root; with no identifier gathered it is empty.
pub proof fn lemma_core_within_root(s: Seq<FormulaM>, entries: Seq<(usize, usize)>, core: Seq<usize>, n: int)
    requires
        0 <= n <= s.len(),
    ensures
        core_prefix(s, entries, core, n).len() <= n,
        forall|i: int|
            0 <= i < core_prefix(s, entries, core, n).len() ==> s.take(n).contains(
                #[trigger] core_prefix(s, entries, core, n)[i],
            ),
        core.len() == 0 ==> core_prefix(s, entries, core, n).len() == 0,
    decreases n,
{
    if n > 0 {
        lemma_core_within_root(s, entries, core, n - 1);
        let p = core_prefix(s, entries, core, n - 1);
        let q = core_prefix(s, entries, core, n);
        assert forall|i: int| 0 <= i < q.len() implies s.take(n).contains(#[trigger] q[i]) by {
            if i < p.len() {
                assert(q[i] == p[i]);
                assert(s.take(n - 1).contains(p[i]));
                let j = choose|j: int| 0 <= j < n - 1 && #[trigger] s.take(n - 1)[j] == p[i];
                assert(s.take(n)[j] == q[i]);
            } else {
                assert(q[i] == s[n - 1]);
                assert(s.take(n)[n - 1] == q[i]);
            }
        }
    }
}

/// Maps the propositions of the root node back to the root operand they come from, and
/// gathers the propositions that took part in a contradiction.
pub struct UnsatCore {
    entry_ids: Vec<usize>,
    entry_owners: Vec<usize>,
    node: Option<Node>,
    unsat_core: Vec<usize>,
    single_id: Option<usize>,
}

fn collect_prop_ids(f: &Formula, out: &mut Vec<usize>)
    ensures
        final(out)@ == old(out)@ + prop_ids(f@),
    decreases f, 1nat,
{
    match f {
        Formula::Prop(e) => {
            out.push(e.id);
        },
        Formula::And(v) | Formula::Or(v) => {
            proof {
                lemma_view_junction(*v);
            }
            collect_operands(f, v, out);
        },
        Formula::Imply { left, right, not_left } => {
            collect_prop_ids(left, out);
            collect_prop_ids(right, out);
            collect_prop_ids(not_left, out);
            assert(out@ =~= old(out)@ + prop_ids(f@));
        },
        Formula::Not(b) | Formula::O(b) => collect_prop_ids(b, out),
        Formula::G { phi, .. } | Formula::F { phi, .. } => collect_prop_ids(phi, out),
        Formula::U { left, right, .. } | Formula::R { left, right, .. } => {
            collect_prop_ids(left, out);
            collect_prop_ids(right, out);
            assert(out@ =~= old(out)@ + prop_ids(f@));
        },
    }
}

fn collect_operands(f: &Formula, v: &Vec<Formula>, out: &mut Vec<usize>)
    requires
        operands_of(*f, *v),
    ensures
        final(out)@ == old(out)@ + prop_ids_prefix(fviews(v@), v@.len() as int),
    decreases f, 0nat,
{
    let mut i: usize = 0;
    while i < v.len()
        invariant
            operands_of(*f, *v),
            i <= v@.len(),
            out@ == old(out)@ + prop_ids_prefix(fviews(v@), i as int),
        decreases v@.len() - i,
    {
        proof {
            lemma_operand_decreases(*f, *v, i as int);
        }
        collect_prop_ids(&v[i], out);
        assert(fviews(v@)[i as int] == v@[i as int]@);
        assert(out@ =~= old(out)@ + prop_ids_prefix(fviews(v@), i + 1));
        i += 1;
    }
}

impl UnsatCore {
    /// The recorded (proposition, operand) pairs, oldest first.
    pub closed spec fn entries(&self) -> Seq<(usize, usize)> {
        Seq::new(self.entry_ids@.len(), |k: int| (self.entry_ids@[k], self.entry_owners@[k]))
    }

    /// The operands of the root node, once it is known.
    pub closed spec fn root(&self) -> Option<Seq<FormulaM>> {
        match self.node {
            Some(n) => Some(ops(&n)),
            None => None,
        }
    }

    /// The identifiers gathered so far, in the order they came.
    pub closed spec fn core_ids(&self) -> Seq<usize> {
        self.unsat_core@
    }

    pub closed spec fn single(&self) -> Option<usize> {
        self.single_id
    }

    pub closed spec fn wf(&self) -> bool {
        self.entry_ids@.len() == self.entry_owners@.len()
    }

    pub fn new() -> (r: UnsatCore)
        ensures
            r.wf(),
            r.entries() == Seq::<(usize, usize)>::empty(),
            r.root() is None,
            r.core_ids() == Seq::<usize>::empty(),
            r.single() is None,
    {
        let r = UnsatCore {
            entry_ids: Vec::new(),
            entry_owners: Vec::new(),
            node: None,
            unsat_core: Vec::new(),
            single_id: None,
        };
        assert(r.entries() =~= Seq::<(usize, usize)>::empty());
        r
    }

    /// Records, for every proposition of the root node, the operand it belongs to.
    pub fn initialize_root_node(&mut self, node: &Node)
        requires
            old(self).wf(),
        ensures
            final(self).wf(),
            final(self).entries() == old(self).entries() + root_entries(ops(node), ops(node).len() as int),
            final(self).root() == Some(ops(node)),
            final(self).core_ids() == old(self).core_ids(),
            final(self).single() == old(self).single(),
    {
        let ghost e0 = self.entries();
        let mut idx: usize = 0;
        while idx < node.operands.len()
            invariant
                self.wf(),
                idx <= node.operands@.len(),
                self.entries() == e0 + root_entries(ops(node), idx as int),
                self.core_ids() == old(self).core_ids(),
                self.single_id == old(self).single_id,
            decreases node.operands@.len() - idx,
        {
            let mut ids: Vec<usize> = Vec::new();
            collect_prop_ids(&node.operands[idx], &mut ids);
            assert(ops(node)[idx as int] == node.operands@[idx as int]@);
            let ghost before = self.entries();
            let mut k: usize = 0;
            while k < ids.len()
                invariant
                    self.wf(),
                    k <= ids@.len(),
                    self.entries() == before + Seq::new(k as nat, |j: int| (ids@[j], idx)),
                    self.core_ids() == old(self).core_ids(),
                    self.single_id == old(self).single_id,
                decreases ids@.len() - k,
            {
                let ghost e1 = self.entries();
                self.entry_ids.push(ids[k]);
                self.entry_owners.push(idx);
                assert(self.entries() =~= e1.push((ids@[k as int], idx)));
                assert(self.entries() =~= before + Seq::new((k + 1) as nat, |j: int| (ids@[j], idx)));
                k += 1;
            }
            assert(Seq::new(ids@.len(), |j: int| (ids@[j], idx)) =~= Seq::new(prop_ids(ops(node)[idx as int]).len(), |j: int| (prop_ids(ops(node)[idx as int])[j], idx)));
            assert(self.entries() =~= e0 + root_entries(ops(node), idx + 1));
            idx += 1;
        }
        self.node = Some(Node {
            operands: clone_formulas(&node.operands),
            current_time: node.current_time,
            implies: None,
            id: node.id,
        });
    }

    /// The number of recorded (proposition, operand) pairs.
    pub fn entry_count(&self) -> (r: usize)
        requires
            self.wf(),
        ensures
            r == self.entries().len(),
    {
        self.entry_ids.len()
    }

    /// The operand where proposition `id` was last recorded.
    pub fn owner_of(&self, id: usize) -> (r: Option<usize>)
        requires
            self.wf(),
        ensures
            r == lookup(self.entries(), id, self.entries().len() as int),
    {
        let mut k = self.entry_ids.len();
        while k > 0
            invariant
                self.wf(),
                k <= self.entry_ids@.len(),
                lookup(self.entries(), id, self.entries().len() as int) == lookup(
                    self.entries(),
                    id,
                    k as int,
                ),
            decreases k,
        {
            if self.entry_ids[k - 1] == id {
                return Some(self.entry_owners[k - 1]);
            }
            k -= 1;
        }
        None
    }

    /// The root node is known.
    pub fn has_root(&self) -> (r: bool)
        ensures
            r == self.root() is Some,
    {
        self.node.is_some()
    }

    /// The number of operands of the root node, once it is known.
    pub fn root_len(&self) -> (r: Option<usize>)
        ensures
            match r {
                Some(n) => self.root() matches Some(s) && n == s.len(),
                None => self.root() is None,
            },
    {
        match &self.node {
            Some(n) => Some(n.operands.len()),
            None => None,
        }
    }

    /// The one operand reported on its own, when set.
    pub fn single_id(&self) -> (r: Option<usize>)
        ensures
            r == self.single(),
    {
        self.single_id
    }

    /// The number of identifiers gathered so far.
    pub fn core_len(&self) -> (r: usize)
        ensures
            r == self.core_ids().len(),
    {
        self.unsat_core.len()
    }

    /// Adds the identifiers of a contradiction to the core.
    pub fn add_to_unsat_core(&mut self, core: Vec<usize>)
        ensures
            final(self).core_ids() == old(self).core_ids() + core@,
            final(self).entries() == old(self).entries(),
            final(self).root() == old(self).root(),
            final(self).single() == old(self).single(),
            final(self).wf() == old(self).wf(),
    {
        let mut core = core;
        self.unsat_core.append(&mut core);
    }

    /// Makes the core the single root operand `id`.
    pub fn set_single_unsat_core(&mut self, id: usize)
        ensures
            final(self).single() == Some(id),
            final(self).core_ids() == old(self).core_ids(),
            final(self).entries() == old(self).entries(),
            final(self).root() == old(self).root(),
            final(self).wf() == old(self).wf(),
    {
        self.single_id = Some(id);
    }

    /// The root operands in the core: the single one when set, else those where a
    /// proposition of the core was last recorded, in their order.
    pub fn get_unsat_core(&self) -> (r: Vec<Formula>)
        requires
            self.wf(),
            self.root() is Some,
            self.single() matches Some(id) ==> id < self.root().unwrap().len(),
        ensures
            self.single() matches Some(id) ==> fviews(r@) == seq![self.root().unwrap()[id as int]],
            self.single() is None ==> fviews(r@) == core_prefix(
                self.root().unwrap(),
                self.entries(),
                self.core_ids(),
                self.root().unwrap().len() as int,
            ),
    {
        let node = match &self.node {
            Some(n) => n,
            None => {
                assert(false);
                return Vec::new();
            },
        };
        let ghost s = ops(node);
        if let Some(id) = self.single_id {
            let f = node.operands[id].clone();
            assert(s[id as int] == node.operands@[id as int]@);
            let r = vec![f];
            assert(fviews(r@) =~= seq![s[id as int]]);
            return r;
        }
        let ghost entries = self.entries();
        let mut result: Vec<Formula> = Vec::new();
        let mut idx: usize = 0;
        while idx < node.operands.len()
            invariant
                self.wf(),
                s == ops(node),
                entries == self.entries(),
                idx <= s.len(),
                fviews(result@) == core_prefix(s, entries, self.core_ids(), idx as int),
            decreases s.len() - idx,
        {
            let mut hit = false;
            let mut c: usize = 0;
            while c < self.unsat_core.len()
                invariant
                    self.wf(),
                    entries == self.entries(),
                    c <= self.core_ids().len(),
                    hit <==> exists|k: int| 0 <= k < c && lookup(entries, #[trigger] self.core_ids()[k], entries.len() as int) == Some(idx),
                decreases self.core_ids().len() - c,
            {
                let found = self.lookup_owner(self.unsat_core[c]);
                if found == Some(idx) {
                    hit = true;
                }
                c += 1;
            }
            assert(hit == in_core(entries, self.core_ids(), idx as int));
            if hit {
                let ghost before = result@;
                let f = node.operands[idx].clone();
                result.push(f);
                assert(s[idx as int] == node.operands@[idx as int]@);
                assert(fviews(result@) =~= fviews(before).push(s[idx as int]));
            }
            idx += 1;
        }
        result
    }

    fn lookup_owner(&self, id: usize) -> (r: Option<usize>)
        requires
            self.wf(),
        ensures
            r == lookup(self.entries(), id, self.entries().len() as int),
    {
        let n = self.entry_ids.len();
        let mut k: usize = n;
        while k > 0
            invariant
                self.wf(),
                k <= n == self.entries().len(),
                lookup(self.entries(), id, n as int) == lookup(self.entries(), id, k as int),
            decreases k,
        {
            if self.entry_ids[k - 1] == id {
                return Some(self.entry_owners[k - 1]);
            }
            k -= 1;
        }
        None
    }
}

} // verus!
