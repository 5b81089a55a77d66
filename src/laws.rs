//! Properties that relate several operations of the store and the engine.

use vstd::prelude::*;
use crate::fact::{Fact, rel_of, is_input_rel, same_key};
use crate::store::{Update, commit_batch, count_inserts, count_deletes, upsert_before, is_delta, weight};
use crate::txn::{all_facts, lemma_derived_not_input};

verus! {

/// In a delta, a fact that appeared has weight +1, a fact that vanished has
/// weight -1, and a fact whose presence did not change does not occur.
pub proof fn law_delta_signs(d: Seq<(Fact, i64)>, old: Set<Fact>, new: Set<Fact>)
    requires
        is_delta(d, old, new),
    ensures
        forall|f: Fact|
            !old.contains(f) && new.contains(f) ==> #[trigger] d.contains((f, 1i64)) && !d.contains(
                (f, -1i64),
            ),
        forall|f: Fact|
            old.contains(f) && !new.contains(f) ==> #[trigger] d.contains((f, -1i64)) && !d.contains(
                (f, 1i64),
            ),
        forall|f: Fact, w: i64| old.contains(f) == new.contains(f) ==> !#[trigger] d.contains((f, w)),
{
    assert forall|f: Fact| !old.contains(f) && new.contains(f) implies #[trigger] d.contains((f, 1i64)) && !d.contains((f, -1i64)) by {
        assert(weight(old, new, f) == 1);
    }
    assert forall|f: Fact| old.contains(f) && !new.contains(f) implies #[trigger] d.contains((f, -1i64)) && !d.contains((f, 1i64)) by {
        assert(weight(old, new, f) == -1);
    }
}

/// A base fact that was absent before a transaction, that the transaction
/// does not upsert, and that it deletes at least as often as it inserts, is
/// absent after it and has no entry in the delta: inserting and then
/// deleting it nets to nothing.
pub proof fn law_inserted_then_deleted(s: Set<Fact>, ops: Seq<Update>, f: Fact, d: Seq<(Fact, i64)>)
    requires
        !s.contains(f),
        is_input_rel(rel_of(f)),
        !ops.contains(Update::InsertOrUpdate(f)),
        count_inserts(ops, f) <= count_deletes(ops, f),
        is_delta(d, all_facts(s), all_facts(commit_batch(s, ops))),
    ensures
        !commit_batch(s, ops).contains(f),
        forall|w: i64| !#[trigger] d.contains((f, w)),
{
    let s1 = commit_batch(s, ops);
    lemma_derived_not_input(s);
    lemma_derived_not_input(s1);
    assert(!all_facts(s).contains(f));
    assert(!all_facts(s1).contains(f));
    assert(weight(all_facts(s), all_facts(s1), f) == 0);
}

/// Inserting a fact and deleting it in one batch leaves a store without it
/// as it was, in either order.
pub proof fn law_insert_delete_cancel(s: Set<Fact>, f: Fact)
    requires
        !s.contains(f),
    ensures
        commit_batch(s, seq![Update::Insert(f), Update::DeleteValue(f)]) == s,
        commit_batch(s, seq![Update::DeleteValue(f), Update::Insert(f)]) == s,
{
    reveal_with_fuel(count_inserts, 3);
    reveal_with_fuel(count_deletes, 3);
    let a = seq![Update::Insert(f), Update::DeleteValue(f)];
    let b = seq![Update::DeleteValue(f), Update::Insert(f)];
    assert(a.drop_last() =~= seq![Update::Insert(f)]);
    assert(b.drop_last() =~= seq![Update::DeleteValue(f)]);
    assert(seq![Update::Insert(f)].drop_last() =~= Seq::<Update>::empty());
    assert(seq![Update::DeleteValue(f)].drop_last() =~= Seq::<Update>::empty());
    assert forall|g: Fact| #[trigger] commit_batch(s, a).contains(g) <==> s.contains(g) by {
        assert(!a.contains(Update::InsertOrUpdate(g)));
        assert(forall|h: Fact| !#[trigger] a.contains(Update::InsertOrUpdate(h)));
        assert(count_inserts(a, g) == count_deletes(a, g));
    }
    assert forall|g: Fact| #[trigger] commit_batch(s, b).contains(g) <==> s.contains(g) by {
        assert(forall|h: Fact| !#[trigger] b.contains(Update::InsertOrUpdate(h)));
        assert(count_inserts(b, g) == count_deletes(b, g));
    }
    assert(commit_batch(s, a) =~= s);
    assert(commit_batch(s, b) =~= s);
}

/// Two deltas between the same stores hold the same entries. So `dispatch`,
/// whose final store and output delta are fixed by the store's facts and the
/// action, returns the same changes from equal stores, however the batches
/// that built them were ordered.
pub proof fn law_delta_unique(d1: Seq<(Fact, i64)>, d2: Seq<(Fact, i64)>, a: Set<Fact>, b: Set<Fact>)
    requires
        is_delta(d1, a, b),
        is_delta(d2, a, b),
    ensures
        d1.to_set() == d2.to_set(),
{
    assert forall|e: (Fact, i64)| d1.contains(e) <==> d2.contains(e) by {
        assert(d1.contains((e.0, e.1)) <==> d2.contains((e.0, e.1)));
    }
    assert(d1.to_set() =~= d2.to_set());
}

/// Counts over two batches add up.
proof fn lemma_counts_concat(a: Seq<Update>, b: Seq<Update>, f: Fact)
    ensures
        count_inserts(a + b, f) == count_inserts(a, f) + count_inserts(b, f),
        count_deletes(a + b, f) == count_deletes(a, f) + count_deletes(b, f),
    decreases b.len(),
{
    if b.len() > 0 {
        lemma_counts_concat(a, b.drop_last(), f);
        assert((a + b).drop_last() =~= a + b.drop_last());
        assert((a + b).last() == b.last());
    } else {
        assert(a + b =~= a);
    }
}

/// Swapping two neighbouring updates anywhere in a batch changes neither the
/// store it commits to nor, up to order, its delta. Since such swaps reach
/// every order, a batch commits the same whatever the order of its updates.
pub proof fn law_batch_order_independent(
    s: Set<Fact>,
    pre: Seq<Update>,
    u: Update,
    v: Update,
    post: Seq<Update>,
    d1: Seq<(Fact, i64)>,
    d2: Seq<(Fact, i64)>,
)
    requires
        is_delta(d1, all_facts(s), all_facts(commit_batch(s, pre + seq![u, v] + post))),
        is_delta(d2, all_facts(s), all_facts(commit_batch(s, pre + seq![v, u] + post))),
    ensures
        commit_batch(s, pre + seq![u, v] + post) == commit_batch(s, pre + seq![v, u] + post),
        d1.to_set() == d2.to_set(),
{
    reveal_with_fuel(count_inserts, 3);
    reveal_with_fuel(count_deletes, 3);
    let uv = seq![u, v];
    let vu = seq![v, u];
    let a = pre + uv + post;
    let b = pre + vu + post;
    assert forall|x: Update| a.contains(x) <==> b.contains(x) by {
        if a.contains(x) {
            let i = choose|i: int| 0 <= i < a.len() && a[i] == x;
            if i < pre.len() {
                assert(b[i] == x);
            } else if i == pre.len() {
                assert(b[i + 1] == x);
            } else if i == pre.len() + 1 {
                assert(b[i - 1] == x);
            } else {
                assert(b[i] == x);
            }
        }
        if b.contains(x) {
            let i = choose|i: int| 0 <= i < b.len() && b[i] == x;
            if i < pre.len() {
                assert(a[i] == x);
            } else if i == pre.len() {
                assert(a[i + 1] == x);
            } else if i == pre.len() + 1 {
                assert(a[i - 1] == x);
            } else {
                assert(a[i] == x);
            }
        }
    }
    assert forall|f: Fact| #[trigger] commit_batch(s, a).contains(f) <==> commit_batch(s, b).contains(f) by {
        lemma_counts_concat(pre + uv, post, f);
        lemma_counts_concat(pre + vu, post, f);
        lemma_counts_concat(pre, uv, f);
        lemma_counts_concat(pre, vu, f);
        assert(uv.drop_last() =~= seq![u]);
        assert(vu.drop_last() =~= seq![v]);
        assert(seq![u].drop_last() =~= Seq::<Update>::empty());
        assert(seq![v].drop_last() =~= Seq::<Update>::empty());
        assert(count_inserts(uv, f) == count_inserts(vu, f));
        assert(count_deletes(uv, f) == count_deletes(vu, f));
        assert(a.contains(Update::InsertOrUpdate(f)) == b.contains(Update::InsertOrUpdate(f)));
        assert((exists|g: Fact| #[trigger] a.contains(Update::InsertOrUpdate(g)) && same_key(g, f) && upsert_before(g, f))
            == (exists|g: Fact| #[trigger] b.contains(Update::InsertOrUpdate(g)) && same_key(g, f) && upsert_before(g, f)));
        assert((exists|g: Fact| #[trigger] a.contains(Update::InsertOrUpdate(g)) && same_key(g, f) && g != f)
            == (exists|g: Fact| #[trigger] b.contains(Update::InsertOrUpdate(g)) && same_key(g, f) && g != f));
    }
    assert(commit_batch(s, a) =~= commit_batch(s, b));
    assert(d1.to_set() =~= d2.to_set()) by {
        assert forall|e: (Fact, i64)| d1.contains(e) <==> d2.contains(e) by {
            assert(d1.contains((e.0, e.1)) <==> d2.contains((e.0, e.1)));
        }
    }
}

} // verus!
