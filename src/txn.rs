//! The transaction coordinator: stages updates to base relations, and on
//! commit re-derives the facts about the objects they touch and reports the
//! signed delta.

use vstd::prelude::*;
use crate::fact::{Fact, Rel, rel_of, is_input_rel, oid_of, same_key};
use crate::locality::{about, lemma_batch_local, lemma_derive_local, lemma_derived_outside_unchanged};
use crate::store::{
    Update,
    commit_batch,
    upsert_before,
    lemma_present_after_source,
    is_delta,
    weight,
    commit_batch_vec,
    delta,
};
use crate::rules::{Rule, derive_all, derived, program, prog, derive_facts, rule_output, rel_facts, select_rel};

verus! {

broadcast use vstd::seq_lib::group_seq_properties;

/// Why an operation of the store or of the engine did not take effect.
#[derive(Clone, Copy, Debug, PartialEq, Eq, Structural)]
pub enum EngineError {
    /// A transaction was already open.
    TransactionConflict,
    /// The operation needs an open transaction and none was open.
    NoTransaction,
    /// A fact does not belong to a relation that the operation accepts.
    MalformedFact,
    /// The engine was stopped.
    EngineStopped,
}

/// The store as a whole: base facts and the facts the rules derive from them.
pub open spec fn all_facts(base: Set<Fact>) -> Set<Fact> {
    base.union(derived(base))
}

/// Every derived fact belongs to a derived relation.
pub proof fn lemma_derived_not_input(db: Set<Fact>)
    ensures
        forall|f: Fact| #[trigger] derived(db).contains(f) ==> !is_input_rel(rel_of(f)),
{
    let p = program();
    let first_two = p.drop_last();
    let first_one = first_two.drop_last();
    let no_rules = first_one.drop_last();
    assert(no_rules.len() == 0);
    assert(p.last() == p[2]);
    assert(first_two.last() == p[1]);
    assert(first_one.last() == p[0]);
    assert(derive_all(no_rules, db) == Set::<Fact>::empty());
    assert(derive_all(first_one, db) == derive_all(no_rules, db).union(rule_output(p[0], db)));
    assert(derive_all(first_two, db) == derive_all(first_one, db).union(rule_output(p[1], db)));
    assert(derive_all(p, db) == derive_all(first_two, db).union(rule_output(p[2], db)));
}

/// The mathematical state of a coordinator.
pub struct TxnView {
    pub base: Set<Fact>,
    pub staged: Seq<Update>,
    pub open: bool,
}

/// Holds the base relations and the derived relations computed from them,
/// and the updates staged by the open transaction, if any.
pub struct Coordinator {
    base: Vec<Fact>,
    derived: Vec<Fact>,
    rules: Vec<Rule>,
    staged: Vec<Update>,
    open: bool,
}

impl View for Coordinator {
    type V = TxnView;

    closed spec fn view(&self) -> TxnView {
        TxnView { base: self.base@.to_set(), staged: self.staged@, open: self.open }
    }
}

/// Whether every fact of `s` belongs to a base relation.
pub open spec fn only_inputs(s: Set<Fact>) -> bool {
    forall|f: Fact| #[trigger] s.contains(f) ==> is_input_rel(rel_of(f))
}

/// Whether every update of `ops` carries a fact of a base relation.
pub open spec fn ops_on_inputs(ops: Seq<Update>) -> bool {
    forall|i: int| 0 <= i < ops.len() ==> is_input_rel(rel_of(#[trigger] ops[i].fact_of()))
}

/// Whether no update of `ops` plainly inserts a stabilized fluent: those
/// are only ever upserted, so that an object has at most one.
pub open spec fn no_fluent_inserts(ops: Seq<Update>) -> bool {
    forall|i: int| 0 <= i < ops.len() ==> !((#[trigger] ops[i]) is Insert && ops[i].fact_of() is InFluent)
}

/// At most one stabilized fluent per object.
pub open spec fn fluents_unique(s: Set<Fact>) -> bool {
    forall|f: Fact, g: Fact|
        #![trigger s.contains(f), s.contains(g)]
        s.contains(f) && s.contains(g) && f is InFluent && same_key(f, g) ==> f == g
}

/// Whether a transaction accepts the updates `ops`: each is on a base
/// relation, and none plainly inserts a stabilized fluent.
pub open spec fn ops_allowed(ops: Seq<Update>) -> bool {
    ops_on_inputs(ops) && no_fluent_inserts(ops)
}

/// Updates on base relations leave only base facts.
pub proof fn lemma_batch_keeps_inputs(s: Set<Fact>, ops: Seq<Update>)
    requires
        only_inputs(s),
        ops_on_inputs(ops),
    ensures
        only_inputs(commit_batch(s, ops)),
{
    assert forall|f: Fact| #[trigger] commit_batch(s, ops).contains(f) implies is_input_rel(rel_of(f)) by {
        lemma_present_after_source(s.contains(f), ops, f);
        if !s.contains(f) {
            let i = choose|i: int| 0 <= i < ops.len() && (#[trigger] ops[i]).fact_of() == f;
        }
    }
}

/// A batch without plain inserts of stabilized fluents keeps them unique:
/// of the upserts of one object's fluent, one wins and displaces the rest.
pub proof fn lemma_commit_keeps_fluents_unique(s: Set<Fact>, ops: Seq<Update>)
    requires
        fluents_unique(s),
        no_fluent_inserts(ops),
    ensures
        fluents_unique(commit_batch(s, ops)),
{
    let s2 = commit_batch(s, ops);
    assert forall|f: Fact, g: Fact|
        s2.contains(f) && s2.contains(g) && f is InFluent && same_key(f, g) implies f == g by {
        if f != g {
            assert(same_key(g, f));
            assert(upsert_before(f, g) || upsert_before(g, f));
            lemma_present_after_source(s.contains(f), ops, f);
            lemma_present_after_source(s.contains(g), ops, g);
            if ops.contains(Update::Insert(f)) {
                let i = choose|i: int| 0 <= i < ops.len() && ops[i] == Update::Insert(f);
                assert(!(ops[i] is Insert && ops[i].fact_of() is InFluent));
            }
            if ops.contains(Update::Insert(g)) {
                let i = choose|i: int| 0 <= i < ops.len() && ops[i] == Update::Insert(g);
                assert(!(ops[i] is Insert && ops[i].fact_of() is InFluent));
            }
        }
    }
}

/// Copies the facts of `v`.
fn copy_facts(v: &Vec<Fact>) -> (r: Vec<Fact>)
    ensures
        r@ == v@,
{
    let mut r: Vec<Fact> = Vec::new();
    let mut i: usize = 0;
    while i < v.len()
        invariant
            i <= v.len(),
            r@ == v@.subrange(0, i as int),
        decreases v.len() - i,
    {
        r.push(v[i]);
        assert(r@ =~= v@.subrange(0, i + 1));
        i += 1;
    }
    r
}

/// The facts of `a` followed by those of `b`.
fn concat_facts(a: &Vec<Fact>, b: &Vec<Fact>) -> (r: Vec<Fact>)
    requires
        a@.no_duplicates(),
        b@.no_duplicates(),
        forall|f: Fact| a@.contains(f) ==> !b@.contains(f),
    ensures
        r@.no_duplicates(),
        r@.to_set() == a@.to_set().union(b@.to_set()),
{
    let mut r = copy_facts(a);
    let mut i: usize = 0;
    while i < b.len()
        invariant
            i <= b.len(),
            b@.no_duplicates(),
            forall|f: Fact| a@.contains(f) ==> !b@.contains(f),
            r@ == a@ + b@.subrange(0, i as int),
            r@.no_duplicates(),
        decreases b.len() - i,
    {
        let f = b[i];
        proof {
            if r@.contains(f) {
                let k = choose|k: int| 0 <= k < r@.len() && r@[k] == f;
                if k >= a@.len() {
                    assert(b@[k - a@.len()] == b@[i as int]);
                } else {
                    assert(a@.contains(f));
                }
            }
        }
        r.push(f);
        assert(r@ =~= a@ + b@.subrange(0, i + 1));
        i += 1;
    }
    assert(b@.subrange(0, b.len() as int) =~= b@);
    assert(r@.to_set() =~= a@.to_set().union(b@.to_set()));
    r
}

/// A delta between two stores is one between any two with the same weights.
pub proof fn lemma_delta_same_weights(
    d: Seq<(Fact, i64)>,
    a: Set<Fact>,
    b: Set<Fact>,
    c: Set<Fact>,
    e: Set<Fact>,
)
    requires
        is_delta(d, a, b),
        forall|f: Fact| #[trigger] weight(c, e, f) == weight(a, b, f),
    ensures
        is_delta(d, c, e),
{
    assert forall|f: Fact, w: i64| #[trigger] d.contains((f, w)) <==> w != 0 && w as int == weight(c, e, f) by {
        assert(weight(c, e, f) == weight(a, b, f));
    }
}

/// The objects that the updates of `ops` are about.
fn touched_keys(ops: &Vec<Update>) -> (r: Vec<i64>)
    ensures
        forall|i: int| 0 <= i < ops@.len() ==> r@.contains(oid_of(#[trigger] ops@[i].fact_of())),
{
    let mut r: Vec<i64> = Vec::new();
    let mut i: usize = 0;
    while i < ops.len()
        invariant
            i <= ops.len(),
            forall|j: int| 0 <= j < i ==> r@.contains(oid_of(#[trigger] ops@[j].fact_of())),
        decreases ops.len() - i,
    {
        let ghost before = r@;
        r.push(ops[i].fact().oid());
        assert forall|j: int| 0 <= j < i + 1 implies r@.contains(oid_of(#[trigger] ops@[j].fact_of())) by {
            if j < i {
                let k = choose|k: int| 0 <= k < before.len() && before[k] == oid_of(ops@[j].fact_of());
                assert(r@[k] == before[k]);
            } else {
                assert(r@[r@.len() - 1] == oid_of(ops@[j].fact_of()));
            }
        }
        i += 1;
    }
    r
}

/// Whether `keys` holds `k`.
fn has_key(keys: &Vec<i64>, k: i64) -> (r: bool)
    ensures
        r == keys@.contains(k),
{
    let mut i: usize = 0;
    while i < keys.len()
        invariant
            i <= keys.len(),
            forall|j: int| 0 <= j < i ==> keys@[j] != k,
        decreases keys.len() - i,
    {
        if keys[i] == k {
            return true;
        }
        i += 1;
    }
    false
}

/// The facts of `v` about the objects in `keys` where `inside` holds, and
/// about the other objects where it does not.
fn facts_about(v: &Vec<Fact>, keys: &Vec<i64>, inside: bool) -> (r: Vec<Fact>)
    requires
        v@.no_duplicates(),
    ensures
        r@.no_duplicates(),
        forall|f: Fact| #[trigger] r@.contains(f) <==> v@.contains(f) && keys@.contains(oid_of(f)) == inside,
{
    let mut r: Vec<Fact> = Vec::new();
    let mut i: usize = 0;
    while i < v.len()
        invariant
            i <= v.len(),
            v@.no_duplicates(),
            r@.no_duplicates(),
            forall|f: Fact|
                #[trigger] r@.contains(f) <==> v@.subrange(0, i as int).contains(f) && keys@.contains(
                    oid_of(f),
                ) == inside,
        decreases v.len() - i,
    {
        let f = v[i];
        assert(v@.subrange(0, i + 1) =~= v@.subrange(0, i as int).push(f));
        if has_key(keys, f.oid()) == inside {
            proof {
                if r@.contains(f) {
                    let k = choose|k: int| 0 <= k < i && v@.subrange(0, i as int)[k] == f;
                    assert(v@[k] == v@[i as int]);
                }
            }
            r.push(f);
        }
        i += 1;
    }
    assert(v@.subrange(0, v.len() as int) =~= v@);
    r
}

impl Coordinator {
    pub closed spec fn wf(&self) -> bool {
        &&& self.base@.no_duplicates()
        &&& self.derived@.no_duplicates()
        &&& self.rules@.map_values(|x: Rule| x@) == program()
        &&& self.derived@.to_set() == derived(self.base@.to_set())
        &&& only_inputs(self.base@.to_set())
        &&& ops_on_inputs(self.staged@)
        &&& no_fluent_inserts(self.staged@)
        &&& fluents_unique(self.base@.to_set())
    }

    /// A valid store holds at most one stabilized fluent per object, and
    /// only facts of base relations among its base facts.
    pub proof fn lemma_fluents_unique(&self)
        requires
            self.wf(),
        ensures
            fluents_unique(self@.base),
            only_inputs(self@.base),
    {
    }

    /// An idle store with no facts.
    pub fn new() -> (r: Coordinator)
        ensures
            r.wf(),
            r@.base == Set::<Fact>::empty(),
            r@.staged == Seq::<Update>::empty(),
            !r@.open,
    {
        let base: Vec<Fact> = Vec::new();
        let rules = prog();
        let derived = derive_facts(&rules, &base);
        let r = Coordinator { base, derived, rules, staged: Vec::new(), open: false };
        assert(r.base@.to_set() =~= Set::<Fact>::empty());
        r
    }

    /// Whether a transaction is open.
    pub fn is_open(&self) -> (r: bool)
        ensures
            r == self@.open,
    {
        self.open
    }

    /// Opens a transaction.
    pub fn transaction_start(&mut self) -> (r: Result<(), EngineError>)
        requires
            old(self).wf(),
        ensures
            final(self).wf(),
            old(self)@.open ==> r == Err::<(), EngineError>(EngineError::TransactionConflict)
                && final(self)@ == old(self)@,
            !old(self)@.open ==> r is Ok && final(self)@ == (TxnView {
                base: old(self)@.base,
                staged: Seq::empty(),
                open: true,
            }),
    {
        if self.open {
            return Err(EngineError::TransactionConflict);
        }
        self.staged = Vec::new();
        self.open = true;
        proof {
            assert(self@.staged =~= Seq::<Update>::empty());
        }
        Ok(())
    }

    /// Stages a batch of updates in the open transaction.
    pub fn apply_updates(&mut self, ops: &Vec<Update>) -> (r: Result<(), EngineError>)
        requires
            old(self).wf(),
        ensures
            final(self).wf(),
            !old(self)@.open ==> r == Err::<(), EngineError>(EngineError::NoTransaction),
            old(self)@.open && !ops_allowed(ops@) ==> r == Err::<(), EngineError>(
                EngineError::MalformedFact,
            ),
            r is Err ==> final(self)@ == old(self)@,
            old(self)@.open && ops_allowed(ops@) ==> r is Ok && final(self)@ == (TxnView {
                base: old(self)@.base,
                staged: old(self)@.staged + ops@,
                open: true,
            }),
    {
        if !self.open {
            return Err(EngineError::NoTransaction);
        }
        let mut i: usize = 0;
        while i < ops.len()
            invariant
                i <= ops.len(),
                self.wf(),
                self.open,
                self@ == old(self)@,
                forall|k: int| 0 <= k < i ==> is_input_rel(rel_of(#[trigger] ops@[k].fact_of())),
                forall|k: int| 0 <= k < i ==> !((#[trigger] ops@[k]) is Insert && ops@[k].fact_of() is InFluent),
            decreases ops.len() - i,
        {
            let f = ops[i].fact();
            if !f.rel().is_input() {
                return Err(EngineError::MalformedFact);
            }
            match (ops[i], f) {
                (Update::Insert(_), Fact::InFluent { .. }) => {
                    return Err(EngineError::MalformedFact);
                },
                _ => {},
            }
            i += 1;
        }
        let ghost s0 = self.staged@;
        let mut j: usize = 0;
        while j < ops.len()
            invariant
                j <= ops.len(),
                self.staged@ == s0 + ops@.subrange(0, j as int),
                self.base == old(self).base,
                self.derived == old(self).derived,
                self.rules == old(self).rules,
                self.open,
            decreases ops.len() - j,
        {
            self.staged.push(ops[j]);
            assert(self.staged@ =~= s0 + ops@.subrange(0, j + 1));
            j += 1;
        }
        assert(ops@.subrange(0, ops.len() as int) =~= ops@);
        assert forall|k: int| 0 <= k < self.staged@.len() implies is_input_rel(rel_of(#[trigger] self.staged@[k].fact_of()))
            && !(self.staged@[k] is Insert && self.staged@[k].fact_of() is InFluent) by {
            if k >= s0.len() {
                assert(self.staged@[k] == ops@[k - s0.len()]);
            } else {
                assert(self.staged@[k] == s0[k]);
            }
        }
        Ok(())
    }

    /// Every fact of the store, base and derived.
    fn all_facts_vec(&self) -> (r: Vec<Fact>)
        requires
            self.wf(),
        ensures
            r@.no_duplicates(),
            r@.to_set() == all_facts(self@.base),
    {
        proof {
            lemma_derived_not_input(self.base@.to_set());
            assert forall|f: Fact| self.base@.contains(f) implies !self.derived@.contains(f) by {
                assert(self.base@.to_set().contains(f));
                if self.derived@.contains(f) {
                    assert(self.derived@.to_set().contains(f));
                }
            }
        }
        concat_facts(&self.base, &self.derived)
    }

    /// Commits the open transaction: applies the staged updates, whatever
    /// their order, re-derives the facts about the objects those updates
    /// touch (the others cannot change), and returns the signed delta of the
    /// whole store, computed over the touched objects.
    pub fn transaction_commit_dump_changes(&mut self) -> (r: Result<Vec<(Fact, i64)>, EngineError>)
        requires
            old(self).wf(),
        ensures
            final(self).wf(),
            !old(self)@.open ==> r == Err::<Vec<(Fact, i64)>, EngineError>(EngineError::NoTransaction),
            r is Err ==> final(self)@ == old(self)@,
            old(self)@.open ==> r is Ok && final(self)@ == (TxnView {
                base: commit_batch(old(self)@.base, old(self)@.staged),
                staged: Seq::empty(),
                open: false,
            }),
            r matches Ok(d) ==> is_delta(
                d@,
                all_facts(old(self)@.base),
                all_facts(final(self)@.base),
            ),
    {
        if !self.open {
            return Err(EngineError::NoTransaction);
        }
        let keys = touched_keys(&self.staged);
        let ghost ks = keys@.to_set();
        let ghost s0 = self.base@.to_set();
        let ghost staged = self.staged@;
        let base = commit_batch_vec(&self.base, &self.staged);
        let ghost s1 = base@.to_set();
        // Re-derive the facts about the touched objects only.
        let part = facts_about(&base, &keys, true);
        let all_part = derive_facts(&self.rules, &part);
        let fresh = facts_about(&all_part, &keys, true);
        let kept = facts_about(&self.derived, &keys, false);
        proof {
            lemma_batch_keeps_inputs(s0, staged);
            lemma_commit_keeps_fluents_unique(s0, staged);
            lemma_batch_local(s0, staged, ks);
            lemma_derive_local(program(), s1, ks);
            lemma_derived_not_input(s0);
            lemma_derived_not_input(part@.to_set());
            assert(about(s1, ks) =~= part@.to_set());
        }
        let new_derived = concat_facts(&kept, &fresh);
        proof {
            assert forall|f: Fact| new_derived@.to_set().contains(f) <==> #[trigger] derived(s1).contains(f) by {
                assert(new_derived@.to_set().contains(f) <==> kept@.contains(f) || fresh@.contains(f));
                if ks.contains(oid_of(f)) {
                    assert(about(derived(s1), ks).contains(f) <==> derived(s1).contains(f));
                    assert(fresh@.contains(f) <==> all_part@.to_set().contains(f) && ks.contains(oid_of(f)));
                } else {
                    lemma_derived_outside_unchanged(s0, staged, ks, f);
                    assert(self.derived@.contains(f) <==> self.derived@.to_set().contains(f));
                }
            }
            assert(new_derived@.to_set() =~= derived(s1));
        }
        // The delta, over the touched part of the store.
        let old_base_part = facts_about(&self.base, &keys, true);
        let old_derived_part = facts_about(&self.derived, &keys, true);
        proof {
            assert forall|f: Fact| old_base_part@.contains(f) implies !old_derived_part@.contains(f) by {
                assert(s0.contains(f));
                if old_derived_part@.contains(f) {
                    assert(self.derived@.to_set().contains(f));
                }
            }
            assert(all_part@.to_set() == derived(part@.to_set()));
            assert forall|f: Fact| part@.contains(f) implies !fresh@.contains(f) by {
                assert(s1.contains(f));
                assert(is_input_rel(rel_of(f)));
                if fresh@.contains(f) {
                    assert(all_part@.to_set().contains(f));
                    assert(derived(part@.to_set()).contains(f));
                }
            }
        }
        let old_part = concat_facts(&old_base_part, &old_derived_part);
        let new_part = concat_facts(&part, &fresh);
        let d = delta(&old_part, &new_part);
        proof {
            let a0 = all_facts(s0);
            let a1 = all_facts(s1);
            assert forall|f: Fact| #[trigger] weight(a0, a1, f) == weight(old_part@.to_set(), new_part@.to_set(), f) by {
                assert(self.derived@.contains(f) <==> derived(s0).contains(f));
                assert(new_derived@.contains(f) <==> derived(s1).contains(f));
                if !ks.contains(oid_of(f)) {
                    lemma_derived_outside_unchanged(s0, staged, ks, f);
                    assert(!old_part@.to_set().contains(f));
                    assert(!new_part@.to_set().contains(f));
                }
            }
            lemma_delta_same_weights(d@, old_part@.to_set(), new_part@.to_set(), a0, a1);
        }
        self.base = base;
        self.derived = new_derived;
        self.staged = Vec::new();
        self.open = false;
        proof {
            assert(self@.staged =~= Seq::<Update>::empty());
        }
        Ok(d)
    }

    /// Commits the open transaction, as `transaction_commit_dump_changes`
    /// does, without reporting the delta.
    pub fn transaction_commit(&mut self) -> (r: Result<(), EngineError>)
        requires
            old(self).wf(),
        ensures
            final(self).wf(),
            !old(self)@.open ==> r == Err::<(), EngineError>(EngineError::NoTransaction),
            r is Err ==> final(self)@ == old(self)@,
            old(self)@.open ==> r is Ok && final(self)@ == (TxnView {
                base: commit_batch(old(self)@.base, old(self)@.staged),
                staged: Seq::empty(),
                open: false,
            }),
    {
        match self.transaction_commit_dump_changes() {
            Ok(_) => Ok(()),
            Err(e) => Err(e),
        }
    }

    /// Discards the open transaction and its staged updates.
    pub fn transaction_rollback(&mut self) -> (r: Result<(), EngineError>)
        requires
            old(self).wf(),
        ensures
            final(self).wf(),
            !old(self)@.open ==> r == Err::<(), EngineError>(EngineError::NoTransaction)
                && final(self)@ == old(self)@,
            old(self)@.open ==> r is Ok && final(self)@ == (TxnView {
                base: old(self)@.base,
                staged: Seq::empty(),
                open: false,
            }),
    {
        if !self.open {
            return Err(EngineError::NoTransaction);
        }
        self.staged = Vec::new();
        self.open = false;
        proof {
            assert(self@.staged =~= Seq::<Update>::empty());
        }
        Ok(())
    }

    /// The current extension of relation `rel`, base or derived.
    pub fn snapshot(&self, rel: Rel) -> (r: Vec<Fact>)
        requires
            self.wf(),
        ensures
            r@.no_duplicates(),
            r@.to_set() == rel_facts(all_facts(self@.base), rel),
    {
        let all = self.all_facts_vec();
        select_rel(&all, rel)
    }
}

} // verus!
