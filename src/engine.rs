//! The engine of the scene: adds entities, and dispatches user actions in
//! two phases (apply the action, then stabilize the fluents it derived).

use vstd::prelude::*;
use crate::fact::{Fact, Rel, rel_of, is_input_rel, same_key};
use crate::store::{
    Update,
    commit_batch,
    count_inserts,
    count_deletes,
    upsert_before,
    lemma_inserted_if_counted,
    lemma_deleted_if_counted,
    is_delta,
    weight,
};
use crate::rules::{rel_facts, derived};
use crate::txn::{
    Coordinator,
    EngineError,
    TxnView,
    all_facts,
    only_inputs,
    lemma_derived_not_input,
    ops_allowed,
    fluents_unique,
};

verus! {

broadcast use vstd::seq_lib::group_seq_properties;

/// One change of the rendered output: `op` is +1 where `val` became true,
/// -1 where it stopped being true.
#[derive(Clone, Copy, Debug, PartialEq, Eq, Structural)]
pub struct StateChange {
    pub val: Fact,
    pub op: i64,
}

/// The changes as (fact, weight) pairs.
pub open spec fn change_pairs(cs: Seq<StateChange>) -> Seq<(Fact, i64)> {
    cs.map_values(|c: StateChange| (c.val, c.op))
}

/// The rendered windows of a store with base facts `base`.
pub open spec fn outputs(base: Set<Fact>) -> Set<Fact> {
    rel_facts(all_facts(base), Rel::Output)
}

/// Facts that `add` accepts: entities and their attributes.
pub open spec fn is_entity(f: Fact) -> bool {
    f is Object || f is Attribute
}

/// The updates by which `add` writes a batch: each fact replaces any fact
/// with the same key.
pub open spec fn upserts(fs: Seq<Fact>) -> Seq<Update> {
    fs.map_values(|f: Fact| Update::InsertOrUpdate(f))
}

/// The stabilizing updates for the pending fluents that a delta adds, in
/// the delta's order.
pub open spec fn fluent_ops(d: Seq<(Fact, i64)>) -> Seq<Update>
    decreases d.len(),
{
    if d.len() == 0 {
        Seq::empty()
    } else {
        let pre = fluent_ops(d.drop_last());
        match d.last() {
            (Fact::OutFluent { oid, x, y }, 1) => pre.push(
                Update::InsertOrUpdate(Fact::InFluent { oid, x, y }),
            ),
            _ => pre,
        }
    }
}

/// The second phase of a dispatch: stabilize the pending fluents of the
/// first phase's delta, then remove the action.
pub open spec fn stabilize_ops(d: Seq<(Fact, i64)>, action: Fact) -> Seq<Update> {
    fluent_ops(d).push(Update::DeleteValue(action))
}

/// What a command does to a fact of the store.
#[derive(Clone, Copy, Debug, PartialEq, Eq, Structural)]
pub enum Cmd {
    /// Add the fact, replacing any fact with the same key.
    Add,
    /// Remove the fact.
    Remove,
}

/// The updates that carry out command `cmd_type` on `new_object`.
pub fn new_object_to_cmd(new_object: Fact, cmd_type: Cmd) -> (r: Vec<Update>)
    ensures
        r@ == seq![
            match cmd_type {
                Cmd::Add => Update::InsertOrUpdate(new_object),
                Cmd::Remove => Update::DeleteValue(new_object),
            },
        ],
{
    let cmd = match cmd_type {
        Cmd::Add => Update::InsertOrUpdate(new_object),
        Cmd::Remove => Update::DeleteValue(new_object),
    };
    let r = vec![cmd];
    assert(r@ =~= seq![cmd]);
    r
}

/// The pending fluent that a stabilized fluent comes from: same object,
/// same position.
pub open spec fn pending_of(g: Fact) -> Fact {
    match g {
        Fact::InFluent { oid, x, y } => Fact::OutFluent { oid, x, y },
        _ => g,
    }
}

/// The pending fluents that applying `action` to the base facts `s0` derives
/// anew.
pub open spec fn pending(s0: Set<Fact>, action: Fact) -> Set<Fact> {
    Set::new(
        |p: Fact|
            p is OutFluent && derived(s0.insert(action)).contains(p) && !derived(s0).contains(p),
    )
}

/// Whether stabilizing after `action` upserts the fluent `g`.
pub open spec fn stabilizes(s0: Set<Fact>, action: Fact, g: Fact) -> bool {
    g is InFluent && pending(s0, action).contains(pending_of(g))
}

/// The base facts after a dispatch of `action` on the base facts `s0`: for
/// each object with pending fluents the least of them is stabilized and
/// replaces the object's old fluent, and the action is gone.
pub open spec fn dispatched(s0: Set<Fact>, action: Fact) -> Set<Fact> {
    Set::new(
        |f: Fact|
            if stabilizes(s0, action, f) && !(exists|g: Fact|
                #[trigger] stabilizes(s0, action, g) && same_key(g, f) && upsert_before(g, f)) {
                true
            } else if exists|g: Fact| #[trigger] stabilizes(s0, action, g) && same_key(g, f) && g != f {
                false
            } else if f == action {
                false
            } else {
                s0.insert(action).contains(f)
            },
    )
}

/// The stabilizing updates of a delta upsert exactly the fluents of the
/// pending fluents it adds.
pub proof fn lemma_fluent_ops_upserts(d: Seq<(Fact, i64)>, g: Fact)
    ensures
        fluent_ops(d).contains(Update::InsertOrUpdate(g)) <==> g is InFluent && d.contains(
            (pending_of(g), 1i64),
        ),
    decreases d.len(),
{
    if d.len() > 0 {
        let pre = d.drop_last();
        lemma_fluent_ops_upserts(pre, g);
        assert(d =~= pre.push(d.last()));
        if d.contains((pending_of(g), 1i64)) && !pre.contains((pending_of(g), 1i64)) {
            assert(d.last() == (pending_of(g), 1i64));
        }
        if pre.contains((pending_of(g), 1i64)) {
            let i = choose|i: int| 0 <= i < pre.len() && pre[i] == (pending_of(g), 1i64);
            assert(d[i] == pre[i]);
        }
    }
}

/// The second phase of a dispatch commits to `dispatched`, whatever the
/// order of the first phase's delta.
proof fn lemma_stabilized_store(s0: Set<Fact>, action: Fact, d: Seq<(Fact, i64)>, ops: Seq<Update>)
    requires
        only_inputs(s0),
        action is Action,
        is_delta(d, all_facts(s0), all_facts(s0.insert(action))),
        ops == stabilize_ops(d, action),
    ensures
        commit_batch(s0.insert(action), ops) == dispatched(s0, action),
{
    let s1 = s0.insert(action);
    lemma_fluent_ops_shape(d);
    lemma_derived_not_input(s0);
    lemma_derived_not_input(s1);
    assert(ops.drop_last() == fluent_ops(d));
    assert(ops.last() == Update::DeleteValue(action));
    assert forall|g: Fact| #[trigger] ops.contains(Update::InsertOrUpdate(g)) <==> stabilizes(s0, action, g) by {
        lemma_fluent_ops_upserts(d, g);
        assert(ops =~= fluent_ops(d).push(Update::DeleteValue(action)));
        if g is InFluent {
            let p = pending_of(g);
            assert(d.contains((p, 1i64)) <==> weight(all_facts(s0), all_facts(s1), p) == 1);
            assert(!s0.contains(p));
            assert(!s1.contains(p));
        }
    }
    assert forall|f: Fact| #[trigger] commit_batch(s1, ops).contains(f) <==> dispatched(s0, action).contains(f) by {
        lemma_inserted_if_counted(ops, f);
        lemma_deleted_if_counted(ops, f);
        if ops.contains(Update::Insert(f)) {
            let i = choose|i: int| 0 <= i < ops.len() && ops[i] == Update::Insert(f);
            assert(ops[i] == fluent_ops(d)[i]);
        }
        if ops.contains(Update::DeleteValue(f)) && f != action {
            let i = choose|i: int| 0 <= i < ops.len() && ops[i] == Update::DeleteValue(f);
            assert(ops[i] == fluent_ops(d)[i]);
        }
        if f == action {
            assert(count_deletes(ops, f) > 0) by {
                assert(ops.len() > 0);
            }
            assert(!stabilizes(s0, action, f));
        }
        if exists|g: Fact| #[trigger] ops.contains(Update::InsertOrUpdate(g)) && same_key(g, f) && upsert_before(g, f) {
            let g = choose|g: Fact| #[trigger] ops.contains(Update::InsertOrUpdate(g)) && same_key(g, f) && upsert_before(g, f);
            assert(stabilizes(s0, action, g));
        }
        if exists|g: Fact| #[trigger] stabilizes(s0, action, g) && same_key(g, f) && upsert_before(g, f) {
            let g = choose|g: Fact| #[trigger] stabilizes(s0, action, g) && same_key(g, f) && upsert_before(g, f);
            assert(ops.contains(Update::InsertOrUpdate(g)));
        }
        if exists|g: Fact| #[trigger] ops.contains(Update::InsertOrUpdate(g)) && same_key(g, f) && g != f {
            let g = choose|g: Fact| #[trigger] ops.contains(Update::InsertOrUpdate(g)) && same_key(g, f) && g != f;
            assert(stabilizes(s0, action, g));
        }
        if exists|g: Fact| #[trigger] stabilizes(s0, action, g) && same_key(g, f) && g != f {
            let g = choose|g: Fact| #[trigger] stabilizes(s0, action, g) && same_key(g, f) && g != f;
            assert(ops.contains(Update::InsertOrUpdate(g)));
        }
        assert(ops.contains(Update::InsertOrUpdate(f)) == stabilizes(s0, action, f));
    }
    assert(commit_batch(s1, ops) =~= dispatched(s0, action));
}

/// The mathematical state of the engine.
pub struct FlamingoView {
    pub txn: TxnView,
    pub stopped: bool,
}

/// The engine: a store with the scene's rule table, until it is stopped.
pub struct Flamingo {
    store: Coordinator,
    stopped: bool,
}

impl View for Flamingo {
    type V = FlamingoView;

    closed spec fn view(&self) -> FlamingoView {
        FlamingoView { txn: self.store@, stopped: self.stopped }
    }
}

/// The stabilizing updates for the pending fluents that `d` adds.
fn fluent_updates(d: &Vec<(Fact, i64)>) -> (r: Vec<Update>)
    ensures
        r@ == fluent_ops(d@),
{
    let mut r: Vec<Update> = Vec::new();
    let mut i: usize = 0;
    while i < d.len()
        invariant
            i <= d.len(),
            r@ == fluent_ops(d@.subrange(0, i as int)),
        decreases d.len() - i,
    {
        let ghost pre = d@.subrange(0, i as int);
        assert(d@.subrange(0, i + 1).drop_last() =~= pre);
        let (f, w) = d[i];
        match f {
            Fact::OutFluent { oid, x, y } => {
                if w == 1 {
                    r.push(Update::InsertOrUpdate(Fact::InFluent { oid, x, y }));
                }
            },
            _ => {},
        }
        i += 1;
    }
    assert(d@.subrange(0, d.len() as int) =~= d@);
    r
}

/// The stabilizing updates are on base relations and give no object a
/// second stabilized fluent.
pub proof fn lemma_fluent_ops_shape(d: Seq<(Fact, i64)>)
    ensures
        forall|i: int|
            0 <= i < fluent_ops(d).len() ==> (#[trigger] fluent_ops(d)[i]) is InsertOrUpdate
                && fluent_ops(d)[i].fact_of() is InFluent,
    decreases d.len(),
{
    if d.len() > 0 {
        lemma_fluent_ops_shape(d.drop_last());
    }
}

/// The entries of `d` that concern the rendered output.
fn output_changes(d: &Vec<(Fact, i64)>, Ghost(a): Ghost<Set<Fact>>, Ghost(b): Ghost<Set<Fact>>) -> (r: Vec<StateChange>)
    requires
        is_delta(d@, a, b),
    ensures
        is_delta(change_pairs(r@), rel_facts(a, Rel::Output), rel_facts(b, Rel::Output)),
{
    let mut r: Vec<StateChange> = Vec::new();
    let mut i: usize = 0;
    while i < d.len()
        invariant
            i <= d.len(),
            is_delta(d@, a, b),
            change_pairs(r@).no_duplicates(),
            forall|f: Fact, w: i64|
                #[trigger] change_pairs(r@).contains((f, w)) <==> d@.subrange(0, i as int).contains(
                    (f, w),
                ) && rel_of(f) == Rel::Output,
        decreases d.len() - i,
    {
        let (f, w) = d[i];
        let ghost before = change_pairs(r@);
        assert(d@.subrange(0, i + 1) =~= d@.subrange(0, i as int).push((f, w)));
        if f.rel() == Rel::Output {
            r.push(StateChange { val: f, op: w });
            assert(change_pairs(r@) =~= before.push((f, w)));
            proof {
                if before.contains((f, w)) {
                    let k = choose|k: int| 0 <= k < i && d@.subrange(0, i as int)[k] == (f, w);
                    assert(d@[k] == d@[i as int]);
                }
            }
        } else {
            assert(change_pairs(r@) =~= before);
        }
        i += 1;
    }
    assert(d@.subrange(0, d.len() as int) =~= d@);
    proof {
        let ra = rel_facts(a, Rel::Output);
        let rb = rel_facts(b, Rel::Output);
        assert forall|f: Fact, w: i64| #[trigger] change_pairs(r@).contains((f, w)) <==> w != 0 && w as int == weight(ra, rb, f) by {
            assert(d@.contains((f, w)) <==> w != 0 && w as int == weight(a, b, f));
        }
    }
    r
}

impl Flamingo {
    pub closed spec fn wf(&self) -> bool {
        self.store.wf()
    }

    /// A running engine with an empty store.
    pub fn new() -> (r: Flamingo)
        ensures
            r.wf(),
            r@.txn.base == Set::<Fact>::empty(),
            r@.txn.staged == Seq::<Update>::empty(),
            !r@.txn.open,
            !r@.stopped,
    {
        Flamingo { store: Coordinator::new(), stopped: false }
    }

    /// Adds a batch of entities and attributes in one transaction; each
    /// fact replaces any fact with the same key.
    pub fn add(&mut self, facts: &Vec<Fact>) -> (r: Result<(), EngineError>)
        requires
            old(self).wf(),
        ensures
            final(self).wf(),
            old(self)@.stopped ==> r == Err::<(), EngineError>(EngineError::EngineStopped),
            !old(self)@.stopped && old(self)@.txn.open ==> r == Err::<(), EngineError>(
                EngineError::TransactionConflict,
            ),
            !old(self)@.stopped && !old(self)@.txn.open && !(forall|i: int|
                0 <= i < facts@.len() ==> is_entity(#[trigger] facts@[i])) ==> r == Err::<
                (),
                EngineError,
            >(EngineError::MalformedFact),
            r is Err ==> final(self)@ == old(self)@,
            r is Ok ==> final(self)@ == (FlamingoView {
                txn: TxnView {
                    base: commit_batch(old(self)@.txn.base, upserts(facts@)),
                    staged: Seq::empty(),
                    open: false,
                },
                stopped: false,
            }),
            !old(self)@.stopped && !old(self)@.txn.open && (forall|i: int|
                0 <= i < facts@.len() ==> is_entity(#[trigger] facts@[i])) ==> r is Ok,
    {
        if self.stopped {
            return Err(EngineError::EngineStopped);
        }
        if self.store.is_open() {
            return Err(EngineError::TransactionConflict);
        }
        let mut cmds: Vec<Update> = Vec::new();
        let mut i: usize = 0;
        while i < facts.len()
            invariant
                i <= facts.len(),
                self.wf(),
                self@ == old(self)@,
                !self@.stopped,
                !self@.txn.open,
                cmds@ == upserts(facts@.subrange(0, i as int)),
                forall|k: int| 0 <= k < i ==> is_entity(#[trigger] facts@[k]),
            decreases facts.len() - i,
        {
            let f = facts[i];
            match f {
                Fact::Object { .. } | Fact::Attribute { .. } => {},
                _ => {
                    return Err(EngineError::MalformedFact);
                },
            }
            cmds.push(Update::InsertOrUpdate(f));
            assert(cmds@ =~= upserts(facts@.subrange(0, i + 1)));
            i += 1;
        }
        assert(facts@.subrange(0, facts.len() as int) =~= facts@);
        assert(ops_allowed(cmds@)) by {
            assert forall|k: int| 0 <= k < cmds@.len() implies is_input_rel(rel_of(#[trigger] cmds@[k].fact_of()))
                && !(cmds@[k] is Insert && cmds@[k].fact_of() is InFluent) by {
                assert(is_entity(facts@[k]));
            }
        }
        match self.store.transaction_start() {
            Ok(_) => {},
            Err(e) => {
                return Err(e);
            },
        }
        match self.store.apply_updates(&cmds) {
            Ok(_) => {},
            Err(e) => {
                return Err(e);
            },
        }
        match self.store.transaction_commit() {
            Ok(_) => {},
            Err(e) => {
                return Err(e);
            },
        }
        proof {
            assert(Seq::<Update>::empty() + cmds@ =~= cmds@);
        }
        Ok(())
    }

    /// Dispatches a user action in two transactions. The first inserts the
    /// action; the pending fluents it derives are read from that delta. The
    /// second upserts a stabilized fluent for each of them (of several for
    /// one object, the least stays) and deletes the action. Returns the
    /// changes of the rendered output in the second.
    pub fn dispatch(&mut self, action: Fact) -> (r: Result<Vec<StateChange>, EngineError>)
        requires
            old(self).wf(),
        ensures
            final(self).wf(),
            old(self)@.stopped ==> r == Err::<Vec<StateChange>, EngineError>(
                EngineError::EngineStopped,
            ),
            !old(self)@.stopped && old(self)@.txn.open ==> r == Err::<Vec<StateChange>, EngineError>(
                EngineError::TransactionConflict,
            ),
            !old(self)@.stopped && !old(self)@.txn.open && !(action is Action) ==> r == Err::<
                Vec<StateChange>,
                EngineError,
            >(EngineError::MalformedFact),
            !old(self)@.stopped && !old(self)@.txn.open && action is Action ==> r is Ok,
            r is Err ==> final(self)@ == old(self)@,
            r is Ok ==> !final(self)@.stopped && !final(self)@.txn.open && final(self)@.txn.staged
                == Seq::<Update>::empty(),
            r is Ok ==> final(self)@.txn.base == dispatched(old(self)@.txn.base, action),
            r matches Ok(changes) ==> is_delta(
                change_pairs(changes@),
                outputs(old(self)@.txn.base.insert(action)),
                outputs(final(self)@.txn.base),
            ),
            r is Ok ==> !final(self)@.txn.base.contains(action),
            r is Ok ==> fluents_unique(final(self)@.txn.base),
    {
        if self.stopped {
            return Err(EngineError::EngineStopped);
        }
        if self.store.is_open() {
            return Err(EngineError::TransactionConflict);
        }
        match action {
            Fact::Action { .. } => {},
            _ => {
                return Err(EngineError::MalformedFact);
            },
        }
        let ghost s0 = self@.txn.base;
        proof {
            self.store.lemma_fluents_unique();
        }
        // Phase one: apply the action.
        let action_cmds = new_object_to_cmd(action, Cmd::Add);
        proof {
            let one = action_cmds@;
            reveal_with_fuel(count_inserts, 2);
            reveal_with_fuel(count_deletes, 2);
            assert(ops_allowed(one)) by {
                assert(one[0].fact_of() == action);
            }
            assert(Seq::<Update>::empty() + one =~= one);
            assert(one.drop_last() =~= Seq::<Update>::empty());
            assert(one.last() == Update::InsertOrUpdate(action));
            assert forall|f: Fact| #[trigger] commit_batch(s0, one).contains(f) <==> s0.insert(action).contains(f) by {
                assert(count_inserts(one, f) == 0);
                assert(count_deletes(one, f) == 0);
                if one.contains(Update::InsertOrUpdate(f)) {
                    let i = choose|i: int| 0 <= i < one.len() && one[i] == Update::InsertOrUpdate(f);
                    assert(f == action);
                }
                if exists|g: Fact| #[trigger] one.contains(Update::InsertOrUpdate(g)) && same_key(g, f) {
                    let g = choose|g: Fact| #[trigger] one.contains(Update::InsertOrUpdate(g)) && same_key(g, f);
                    let i = choose|i: int| 0 <= i < one.len() && one[i] == Update::InsertOrUpdate(g);
                    assert(g == action);
                }
            }
            assert(commit_batch(s0, one) =~= s0.insert(action));
        }
        match self.store.transaction_start() {
            Ok(_) => {},
            Err(e) => {
                return Err(e);
            },
        }
        match self.store.apply_updates(&action_cmds) {
            Ok(_) => {},
            Err(e) => {
                return Err(e);
            },
        }
        let action_delta = match self.store.transaction_commit_dump_changes() {
            Ok(d) => d,
            Err(e) => {
                return Err(e);
            },
        };
        let ghost s1 = self@.txn.base;
        assert(s1 == s0.insert(action));
        // Phase two: stabilize the pending fluents and remove the action.
        let mut all_cmds = fluent_updates(&action_delta);
        let delete_action_cmds = new_object_to_cmd(action, Cmd::Remove);
        all_cmds.push(delete_action_cmds[0]);
        proof {
            let ops = all_cmds@;
            lemma_fluent_ops_shape(action_delta@);
            assert(ops == stabilize_ops(action_delta@, action));
            assert(ops.drop_last() == fluent_ops(action_delta@));
            assert forall|k: int| 0 <= k < ops.len() implies is_input_rel(rel_of(#[trigger] ops[k].fact_of()))
                && !(ops[k] is Insert && ops[k].fact_of() is InFluent) by {
                if k < ops.len() - 1 {
                    assert(ops[k] == fluent_ops(action_delta@)[k]);
                }
            }
            assert(ops_allowed(ops));
            assert(Seq::<Update>::empty() + ops =~= ops);
        }
        match self.store.transaction_start() {
            Ok(_) => {},
            Err(e) => {
                return Err(e);
            },
        }
        match self.store.apply_updates(&all_cmds) {
            Ok(_) => {},
            Err(e) => {
                return Err(e);
            },
        }
        let influent_delta = match self.store.transaction_commit_dump_changes() {
            Ok(d) => d,
            Err(e) => {
                return Err(e);
            },
        };
        proof {
            let ops = all_cmds@;
            let s2 = self@.txn.base;
            assert(s2 == commit_batch(s1, ops));
            lemma_fluent_ops_shape(action_delta@);
            assert(ops.last() == Update::DeleteValue(action));
            assert(count_deletes(ops, action) >= 1);
            lemma_inserted_if_counted(ops, action);
            if ops.contains(Update::Insert(action)) {
                let i = choose|i: int| 0 <= i < ops.len() && ops[i] == Update::Insert(action);
                if i < ops.len() - 1 {
                    assert(ops[i] == fluent_ops(action_delta@)[i]);
                }
            }
            if ops.contains(Update::InsertOrUpdate(action)) {
                let i = choose|i: int| 0 <= i < ops.len() && ops[i] == Update::InsertOrUpdate(action);
                assert(ops[i] == fluent_ops(action_delta@)[i]);
            }
            assert(!s2.contains(action));
            self.store.lemma_fluents_unique();
            lemma_stabilized_store(s0, action, action_delta@, ops);
        }
        let changes = output_changes(&influent_delta, Ghost(all_facts(s1)), Ghost(all_facts(self@.txn.base)));
        Ok(changes)
    }

    /// A valid engine holds at most one stabilized fluent per object: each
    /// operation keeps it so, dispatching the same action again included.
    pub proof fn lemma_fluents_unique(&self)
        requires
            self.wf(),
        ensures
            fluents_unique(self@.txn.base),
    {
        self.store.lemma_fluents_unique();
    }

    /// Stops the engine; every later call fails.
    pub fn stop(&mut self)
        requires
            old(self).wf(),
        ensures
            final(self).wf(),
            final(self)@ == (FlamingoView { txn: old(self)@.txn, stopped: true }),
    {
        self.stopped = true;
    }

    /// Whether the engine was stopped.
    pub fn is_stopped(&self) -> (r: bool)
        ensures
            r == self@.stopped,
    {
        self.stopped
    }

    /// Opens a transaction on the store.
    pub fn transaction_start(&mut self) -> (r: Result<(), EngineError>)
        requires
            old(self).wf(),
        ensures
            final(self).wf(),
            old(self)@.stopped ==> r == Err::<(), EngineError>(EngineError::EngineStopped),
            !old(self)@.stopped && old(self)@.txn.open ==> r == Err::<(), EngineError>(
                EngineError::TransactionConflict,
            ),
            r is Err ==> final(self)@ == old(self)@,
            !old(self)@.stopped && !old(self)@.txn.open ==> r is Ok && final(self)@ == (FlamingoView {
                txn: TxnView { base: old(self)@.txn.base, staged: Seq::empty(), open: true },
                stopped: false,
            }),
    {
        if self.stopped {
            return Err(EngineError::EngineStopped);
        }
        self.store.transaction_start()
    }

    /// Stages updates in the open transaction.
    pub fn apply_updates(&mut self, ops: &Vec<Update>) -> (r: Result<(), EngineError>)
        requires
            old(self).wf(),
        ensures
            final(self).wf(),
            old(self)@.stopped ==> r == Err::<(), EngineError>(EngineError::EngineStopped),
            !old(self)@.stopped && !old(self)@.txn.open ==> r == Err::<(), EngineError>(
                EngineError::NoTransaction,
            ),
            !old(self)@.stopped && old(self)@.txn.open && !ops_allowed(ops@) ==> r == Err::<
                (),
                EngineError,
            >(EngineError::MalformedFact),
            r is Err ==> final(self)@ == old(self)@,
            !old(self)@.stopped && old(self)@.txn.open && ops_allowed(ops@) ==> r is Ok
                && final(self)@ == (FlamingoView {
                txn: TxnView {
                    base: old(self)@.txn.base,
                    staged: old(self)@.txn.staged + ops@,
                    open: true,
                },
                stopped: false,
            }),
    {
        if self.stopped {
            return Err(EngineError::EngineStopped);
        }
        self.store.apply_updates(ops)
    }

    /// Commits the open transaction and returns the signed delta of the
    /// whole store.
    pub fn transaction_commit_dump_changes(&mut self) -> (r: Result<Vec<(Fact, i64)>, EngineError>)
        requires
            old(self).wf(),
        ensures
            final(self).wf(),
            old(self)@.stopped ==> r == Err::<Vec<(Fact, i64)>, EngineError>(
                EngineError::EngineStopped,
            ),
            !old(self)@.stopped && !old(self)@.txn.open ==> r == Err::<
                Vec<(Fact, i64)>,
                EngineError,
            >(EngineError::NoTransaction),
            r is Err ==> final(self)@ == old(self)@,
            !old(self)@.stopped && old(self)@.txn.open ==> r is Ok && final(self)@ == (FlamingoView {
                txn: TxnView {
                    base: commit_batch(old(self)@.txn.base, old(self)@.txn.staged),
                    staged: Seq::empty(),
                    open: false,
                },
                stopped: false,
            }),
            r matches Ok(d) ==> is_delta(
                d@,
                all_facts(old(self)@.txn.base),
                all_facts(final(self)@.txn.base),
            ),
    {
        if self.stopped {
            return Err(EngineError::EngineStopped);
        }
        self.store.transaction_commit_dump_changes()
    }

    /// Discards the open transaction.
    pub fn transaction_rollback(&mut self) -> (r: Result<(), EngineError>)
        requires
            old(self).wf(),
        ensures
            final(self).wf(),
            old(self)@.stopped ==> r == Err::<(), EngineError>(EngineError::EngineStopped),
            !old(self)@.stopped && !old(self)@.txn.open ==> r == Err::<(), EngineError>(
                EngineError::NoTransaction,
            ),
            r is Err ==> final(self)@ == old(self)@,
            !old(self)@.stopped && old(self)@.txn.open ==> r is Ok && final(self)@ == (FlamingoView {
                txn: TxnView { base: old(self)@.txn.base, staged: Seq::empty(), open: false },
                stopped: false,
            }),
    {
        if self.stopped {
            return Err(EngineError::EngineStopped);
        }
        self.store.transaction_rollback()
    }

    /// The current extension of relation `rel`, base or derived.
    pub fn snapshot(&self, rel: Rel) -> (r: Result<Vec<Fact>, EngineError>)
        requires
            self.wf(),
        ensures
            self@.stopped ==> r == Err::<Vec<Fact>, EngineError>(EngineError::EngineStopped),
            !self@.stopped ==> r is Ok,
            r matches Ok(v) ==> v@.no_duplicates() && v@.to_set() == rel_facts(
                all_facts(self@.txn.base),
                rel,
            ),
    {
        if self.stopped {
            return Err(EngineError::EngineStopped);
        }
        Ok(self.store.snapshot(rel))
    }
}

} // verus!
