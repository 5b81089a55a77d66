//! Locality of the rules: every stage keeps to one object, so the facts
//! derived about a set of objects depend only on the base facts about them.
//! A commit re-derives only the objects its updates touch.

use vstd::prelude::*;
use crate::fact::{Fact, oid_of, rel_of, same_key};
use crate::store::{Update, commit_batch, upsert_displaces, lemma_counts_untouched};
use crate::rules::{
    Stage,
    RuleView,
    join_spec,
    map_spec,
    joined_with,
    matched,
    stage_spec,
    eval_stages,
    rel_facts,
    rule_output,
    derive_all,
    derived,
    program,
};

verus! {

/// The facts of `s` about the objects in `ks`.
pub open spec fn about(s: Set<Fact>, ks: Set<i64>) -> Set<Fact> {
    s.filter(|f: Fact| ks.contains(oid_of(f)))
}

/// Joins and maps keep to one object.
pub proof fn lemma_stage_fns_keep_oid()
    ensures
        forall|j, a: Fact, b: Fact|
            (#[trigger] join_spec(j, a, b)) is Some ==> oid_of(join_spec(j, a, b).unwrap()) == oid_of(a)
                && oid_of(b) == oid_of(a),
        forall|m, a: Fact|
            (#[trigger] map_spec(m, a)) is Some ==> oid_of(map_spec(m, a).unwrap()) == oid_of(a),
{
}

/// One stage, restricted to some objects, sees only the rows and facts about them.
pub proof fn lemma_stage_local(st: Stage, xs: Set<Fact>, db: Set<Fact>, ks: Set<i64>)
    ensures
        about(stage_spec(st, xs, db), ks) == about(stage_spec(st, about(xs, ks), about(db, ks)), ks),
{
    lemma_stage_fns_keep_oid();
    let l = about(stage_spec(st, xs, db), ks);
    let r = about(stage_spec(st, about(xs, ks), about(db, ks)), ks);
    match st {
        Stage::Join { with, via } => {
            assert forall|f: Fact| l.contains(f) <==> r.contains(f) by {
                if l.contains(f) {
                    let a = choose|a: Fact| xs.contains(a) && #[trigger] joined_with(a, db, with, via, f);
                    let b = choose|b: Fact| db.contains(b) && rel_of(b) == with && #[trigger] join_spec(via, a, b) == Some(f);
                    assert(about(db, ks).contains(b));
                    assert(joined_with(a, about(db, ks), with, via, f));
                    assert(about(xs, ks).contains(a));
                }
                if r.contains(f) {
                    let a = choose|a: Fact| about(xs, ks).contains(a) && #[trigger] joined_with(a, about(db, ks), with, via, f);
                    let b = choose|b: Fact| about(db, ks).contains(b) && rel_of(b) == with && #[trigger] join_spec(via, a, b) == Some(f);
                    assert(joined_with(a, db, with, via, f));
                }
            }
        },
        Stage::AntiJoin { with, via } => {
            assert forall|f: Fact| l.contains(f) <==> r.contains(f) by {
                if ks.contains(oid_of(f)) && matched(f, db, with, via) {
                    let b = choose|b: Fact| db.contains(b) && rel_of(b) == with && (#[trigger] join_spec(via, f, b)).is_some();
                    let g = join_spec(via, f, b).unwrap();
                    assert(join_spec(via, f, b) == Some(g));
                    assert(about(db, ks).contains(b));
                }
                if matched(f, about(db, ks), with, via) {
                    let b = choose|b: Fact| about(db, ks).contains(b) && rel_of(b) == with && (#[trigger] join_spec(via, f, b)).is_some();
                    assert(db.contains(b));
                }
            }
        },
        Stage::MapRows { func: via } => {
            assert forall|f: Fact| l.contains(f) <==> r.contains(f) by {
                if l.contains(f) {
                    let a = choose|a: Fact| xs.contains(a) && #[trigger] map_spec(via, a) == Some(f);
                    assert(about(xs, ks).contains(a));
                }
            }
        },
    }
    assert(l =~= r);
}

/// A pipeline, restricted to some objects, sees only the rows and facts about them.
pub proof fn lemma_stages_local(stages: Seq<Stage>, xs: Set<Fact>, db: Set<Fact>, ks: Set<i64>)
    ensures
        about(eval_stages(stages, xs, db), ks) == about(
            eval_stages(stages, about(xs, ks), about(db, ks)),
            ks,
        ),
    decreases stages.len(),
{
    if stages.len() > 0 {
        let rest = stages.drop_first();
        let dk = about(db, ks);
        let s1 = stage_spec(stages[0], xs, db);
        let s2 = stage_spec(stages[0], about(xs, ks), dk);
        lemma_stage_local(stages[0], xs, db, ks);
        lemma_stages_local(rest, s1, db, ks);
        lemma_stages_local(rest, s2, dk, ks);
        assert(about(dk, ks) =~= dk);
        assert(about(s1, ks) == about(s2, ks));
    }
}

/// The facts derived about some objects depend only on the base facts about them.
pub proof fn lemma_derive_local(rules: Seq<RuleView>, db: Set<Fact>, ks: Set<i64>)
    ensures
        about(derive_all(rules, db), ks) == about(derive_all(rules, about(db, ks)), ks),
    decreases rules.len(),
{
    if rules.len() > 0 {
        let rule = rules.last();
        let dk = about(db, ks);
        lemma_derive_local(rules.drop_last(), db, ks);
        lemma_stages_local(rule.stages, rel_facts(db, rule.source), db, ks);
        lemma_stages_local(rule.stages, rel_facts(dk, rule.source), dk, ks);
        assert(about(rel_facts(db, rule.source), ks) =~= about(rel_facts(dk, rule.source), ks));
        assert(about(dk, ks) =~= dk);
        let e1 = eval_stages(rule.stages, rel_facts(db, rule.source), db);
        let e2 = eval_stages(rule.stages, rel_facts(dk, rule.source), dk);
        assert(about(e1, ks) == about(e2, ks));
        assert forall|f: Fact| about(rule_output(rule, db), ks).contains(f) <==> about(rule_output(rule, dk), ks).contains(f) by {
            assert(about(e1, ks).contains(f) <==> about(e2, ks).contains(f));
        }
        assert(about(rule_output(rule, db), ks) =~= about(rule_output(rule, dk), ks));
        let older_db = derive_all(rules.drop_last(), db);
        let older_dk = derive_all(rules.drop_last(), dk);
        assert(derive_all(rules, db) == older_db.union(rule_output(rule, db)));
        assert(derive_all(rules, dk) == older_dk.union(rule_output(rule, dk)));
        assert forall|f: Fact| about(derive_all(rules, db), ks).contains(f) <==> about(derive_all(rules, dk), ks).contains(f) by {
            assert(about(older_db, ks).contains(f) <==> about(older_dk, ks).contains(f));
            assert(about(rule_output(rule, db), ks).contains(f) <==> about(rule_output(rule, dk), ks).contains(f));
        }
        assert(about(derive_all(rules, db), ks) =~= about(derive_all(rules, dk), ks));
    }
}

/// A batch of updates changes only facts about the objects its facts are about.
pub proof fn lemma_batch_local(s: Set<Fact>, ops: Seq<Update>, ks: Set<i64>)
    requires
        forall|i: int| 0 <= i < ops.len() ==> ks.contains(oid_of(#[trigger] ops[i].fact_of())),
    ensures
        forall|f: Fact|
            !ks.contains(oid_of(f)) ==> (#[trigger] commit_batch(s, ops).contains(f) <==> s.contains(f)),
{
    assert forall|f: Fact| !ks.contains(oid_of(f)) implies (#[trigger] commit_batch(s, ops).contains(f) <==> s.contains(f)) by {
        assert forall|i: int| 0 <= i < ops.len() implies (#[trigger] ops[i]).fact_of() != f by {
            assert(ks.contains(oid_of(ops[i].fact_of())));
        }
        lemma_counts_untouched(ops, f);
        if ops.contains(Update::InsertOrUpdate(f)) {
            let i = choose|i: int| 0 <= i < ops.len() && ops[i] == Update::InsertOrUpdate(f);
            assert(ops[i].fact_of() == f);
        }
        if upsert_displaces(ops, f) {
            let g = choose|g: Fact| #[trigger] ops.contains(Update::InsertOrUpdate(g)) && same_key(g, f) && g != f;
            let i = choose|i: int| 0 <= i < ops.len() && ops[i] == Update::InsertOrUpdate(g);
            assert(ks.contains(oid_of(ops[i].fact_of())));
            assert(oid_of(g) == oid_of(f));
        }
    }
}

/// The derived facts about objects that a batch does not touch stay as they were.
pub proof fn lemma_derived_outside_unchanged(s: Set<Fact>, ops: Seq<Update>, ks: Set<i64>, f: Fact)
    requires
        forall|i: int| 0 <= i < ops.len() ==> ks.contains(oid_of(#[trigger] ops[i].fact_of())),
        !ks.contains(oid_of(f)),
    ensures
        derived(commit_batch(s, ops)).contains(f) <==> derived(s).contains(f),
{
    let s2 = commit_batch(s, ops);
    let one = set![oid_of(f)];
    lemma_batch_local(s, ops, ks);
    lemma_derive_local(program(), s, one);
    lemma_derive_local(program(), s2, one);
    assert(about(s, one) =~= about(s2, one));
    assert(about(derived(s), one).contains(f) <==> derived(s).contains(f));
    assert(about(derived(s2), one).contains(f) <==> derived(s2).contains(f));
}

} // verus!
