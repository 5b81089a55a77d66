use flamingo::engine::{new_object_to_cmd, Cmd, Flamingo, StateChange};
use flamingo::fact::{AttrName, Axis, Color, Fact, Rel, Sort};
use flamingo::store::Update;
use flamingo::txn::EngineError;

fn window(oid: i64) -> Vec<Fact> {
    vec![
        Fact::Object { oid, sort: Sort::Window },
        Fact::Attribute { oid, name: AttrName::Width, value: 100 },
        Fact::Attribute { oid, name: AttrName::Height, value: 100 },
    ]
}

fn move_x(target: i64, distance: i64) -> Fact {
    Fact::Action { target, distance, direction: Axis::X }
}

fn out(oid: i64, x: i64, y: i64, color: Color) -> Fact {
    Fact::Output { oid, x, y, width: 100, height: 100, color }
}

fn has(cs: &[StateChange], val: Fact, op: i64) -> bool {
    cs.iter().any(|c| c.val == val && c.op == op)
}

fn sorted(mut v: Vec<Fact>) -> Vec<Fact> {
    v.sort_by_key(|f| format!("{:?}", f));
    v
}

#[test]
fn dispatch_moves_window_once_then_again() {
    let mut e = Flamingo::new();
    e.add(&window(1)).unwrap();
    let first = e.dispatch(move_x(1, 50)).unwrap();
    assert_eq!(first.len(), 1);
    assert!(has(&first, out(1, 50, 0, Color::Blue), 1));

    let second = e.dispatch(move_x(1, 50)).unwrap();
    assert_eq!(second.len(), 2);
    assert!(has(&second, out(1, 50, 0, Color::Blue), -1));
    assert!(has(&second, out(1, 100, 0, Color::Blue), 1));

    let fluents = e.snapshot(Rel::InFluent).unwrap();
    assert_eq!(fluents, vec![Fact::InFluent { oid: 1, x: 100, y: 0 }]);
}

#[test]
fn dispatch_turns_window_red_past_the_screen_edge() {
    let mut e = Flamingo::new();
    e.add(&window(1)).unwrap();
    let first = e.dispatch(move_x(1, 900)).unwrap();
    assert_eq!(first, vec![StateChange { val: out(1, 900, 0, Color::Red), op: 1 }]);
    let mut e2 = Flamingo::new();
    e2.add(&window(1)).unwrap();
    let blue = e2.dispatch(move_x(1, 899)).unwrap();
    assert_eq!(blue, vec![StateChange { val: out(1, 899, 0, Color::Blue), op: 1 }]);
}

#[test]
fn dispatch_along_y_moves_y() {
    let mut e = Flamingo::new();
    e.add(&window(3)).unwrap();
    let r = e.dispatch(Fact::Action { target: 3, distance: -20, direction: Axis::Y }).unwrap();
    assert_eq!(r, vec![StateChange { val: out(3, 0, -20, Color::Blue), op: 1 }]);
}

#[test]
fn dispatch_leaves_no_action_behind() {
    let mut e = Flamingo::new();
    e.add(&window(1)).unwrap();
    e.dispatch(move_x(1, 10)).unwrap();
    assert!(e.snapshot(Rel::Action).unwrap().is_empty());
    assert!(e.snapshot(Rel::OutFluent).unwrap().is_empty());
    // An action on an unknown object changes nothing and is removed too.
    let r = e.dispatch(move_x(7, 10)).unwrap();
    assert!(r.is_empty());
    assert!(e.snapshot(Rel::Action).unwrap().is_empty());
}

#[test]
fn dispatch_on_non_window_derives_nothing() {
    let mut e = Flamingo::new();
    e.add(&vec![Fact::Object { oid: 4, sort: Sort::Shape }]).unwrap();
    let r = e.dispatch(move_x(4, 10)).unwrap();
    assert!(r.is_empty());
    assert!(e.snapshot(Rel::InFluent).unwrap().is_empty());
}

#[test]
fn add_during_open_transaction_conflicts() {
    let mut e = Flamingo::new();
    e.add(&window(1)).unwrap();
    let before = e.snapshot(Rel::Object).unwrap();
    e.transaction_start().unwrap();
    assert_eq!(e.add(&window(2)), Err(EngineError::TransactionConflict));
    assert_eq!(e.dispatch(move_x(1, 5)), Err(EngineError::TransactionConflict));
    assert_eq!(e.transaction_start(), Err(EngineError::TransactionConflict));
    e.transaction_rollback().unwrap();
    assert_eq!(e.snapshot(Rel::Object).unwrap(), before);
}

#[test]
fn malformed_facts_are_rejected() {
    let mut e = Flamingo::new();
    assert_eq!(e.add(&vec![move_x(1, 1)]), Err(EngineError::MalformedFact));
    assert_eq!(
        e.dispatch(Fact::Object { oid: 1, sort: Sort::Window }),
        Err(EngineError::MalformedFact)
    );
    e.transaction_start().unwrap();
    let derived = vec![Update::Insert(Fact::OutFluent { oid: 1, x: 0, y: 0 })];
    assert_eq!(e.apply_updates(&derived), Err(EngineError::MalformedFact));
    e.transaction_rollback().unwrap();
    assert!(e.snapshot(Rel::Object).unwrap().is_empty());
}

#[test]
fn stopped_engine_refuses_calls() {
    let mut e = Flamingo::new();
    e.add(&window(1)).unwrap();
    e.stop();
    assert!(e.is_stopped());
    assert_eq!(e.add(&window(2)), Err(EngineError::EngineStopped));
    assert_eq!(e.dispatch(move_x(1, 1)), Err(EngineError::EngineStopped));
    assert_eq!(e.transaction_start(), Err(EngineError::EngineStopped));
    assert_eq!(e.snapshot(Rel::Object), Err(EngineError::EngineStopped));
}

#[test]
fn commit_without_transaction_changes_nothing() {
    let mut e = Flamingo::new();
    e.add(&window(1)).unwrap();
    let before = e.snapshot(Rel::Attribute).unwrap();
    assert_eq!(e.transaction_commit_dump_changes(), Err(EngineError::NoTransaction));
    assert_eq!(e.apply_updates(&vec![]), Err(EngineError::NoTransaction));
    assert_eq!(e.transaction_rollback(), Err(EngineError::NoTransaction));
    assert_eq!(e.snapshot(Rel::Attribute).unwrap(), before);
}

#[test]
fn rollback_discards_staged_updates() {
    let mut e = Flamingo::new();
    e.transaction_start().unwrap();
    e.apply_updates(&vec![Update::Insert(Fact::Object { oid: 9, sort: Sort::Window })]).unwrap();
    e.transaction_rollback().unwrap();
    assert!(e.snapshot(Rel::Object).unwrap().is_empty());
}

#[test]
fn delta_signs_follow_presence() {
    let mut e = Flamingo::new();
    let a = Fact::Object { oid: 2, sort: Sort::Window };
    let b = Fact::Attribute { oid: 2, name: AttrName::Width, value: 5 };
    e.transaction_start().unwrap();
    e.apply_updates(&vec![Update::Insert(a), Update::Insert(b)]).unwrap();
    let d = e.transaction_commit_dump_changes().unwrap();
    assert_eq!(d.len(), 2);
    assert!(d.contains(&(a, 1)) && d.contains(&(b, 1)));

    e.transaction_start().unwrap();
    e.apply_updates(&vec![Update::DeleteValue(b)]).unwrap();
    let d = e.transaction_commit_dump_changes().unwrap();
    assert_eq!(d, vec![(b, -1)]);

    // Inserted then deleted in one transaction: no entry.
    let c = Fact::Attribute { oid: 2, name: AttrName::Height, value: 6 };
    e.transaction_start().unwrap();
    e.apply_updates(&vec![Update::Insert(c), Update::DeleteValue(c)]).unwrap();
    let d = e.transaction_commit_dump_changes().unwrap();
    assert!(d.is_empty());

    // Deleting an absent fact is no error and no change.
    e.transaction_start().unwrap();
    e.apply_updates(&vec![Update::DeleteValue(c)]).unwrap();
    assert!(e.transaction_commit_dump_changes().unwrap().is_empty());
}

#[test]
fn insert_order_does_not_matter() {
    let a = Fact::Object { oid: 5, sort: Sort::Window };
    let b = Fact::Attribute { oid: 5, name: AttrName::Width, value: 1 };
    let run = |ops: Vec<Update>| {
        let mut e = Flamingo::new();
        e.transaction_start().unwrap();
        e.apply_updates(&ops).unwrap();
        let mut d = e.transaction_commit_dump_changes().unwrap();
        d.sort_by_key(|p| format!("{:?}", p));
        let objs = sorted(e.snapshot(Rel::Object).unwrap());
        let attrs = sorted(e.snapshot(Rel::Attribute).unwrap());
        (d, objs, attrs)
    };
    let ab = run(vec![Update::Insert(a), Update::Insert(b)]);
    let ba = run(vec![Update::Insert(b), Update::Insert(a)]);
    assert_eq!(ab, ba);
}

#[test]
fn add_upserts_objects_by_oid() {
    let mut e = Flamingo::new();
    e.add(&vec![Fact::Object { oid: 1, sort: Sort::Shape }]).unwrap();
    e.add(&vec![Fact::Object { oid: 1, sort: Sort::Window }]).unwrap();
    assert_eq!(e.snapshot(Rel::Object).unwrap(), vec![Fact::Object { oid: 1, sort: Sort::Window }]);
}

#[test]
fn fluents_stay_unique_under_upsert() {
    let mut e = Flamingo::new();
    e.add(&window(1)).unwrap();
    for _ in 0..3 {
        e.dispatch(move_x(1, 10)).unwrap();
    }
    assert_eq!(e.snapshot(Rel::InFluent).unwrap(), vec![Fact::InFluent { oid: 1, x: 30, y: 0 }]);
    assert_eq!(e.snapshot(Rel::Output).unwrap(), vec![out(1, 30, 0, Color::Blue)]);
}

#[test]
fn object_commands_become_updates() {
    let f = Fact::Object { oid: 3, sort: Sort::Window };
    assert_eq!(new_object_to_cmd(f, Cmd::Add), vec![Update::InsertOrUpdate(f)]);
    assert_eq!(new_object_to_cmd(f, Cmd::Remove), vec![Update::DeleteValue(f)]);
}

#[test]
fn dispatch_leaves_other_windows_alone() {
    let mut e = Flamingo::new();
    e.add(&window(1)).unwrap();
    e.add(&window(2)).unwrap();
    e.dispatch(move_x(2, 7)).unwrap();
    let r = e.dispatch(move_x(1, 3)).unwrap();
    assert_eq!(r, vec![StateChange { val: out(1, 3, 0, Color::Blue), op: 1 }]);
    let outs = sorted(e.snapshot(Rel::Output).unwrap());
    assert_eq!(outs, sorted(vec![out(1, 3, 0, Color::Blue), out(2, 7, 0, Color::Blue)]));
}

#[test]
fn attribute_change_rerenders_window() {
    let mut e = Flamingo::new();
    e.add(&window(1)).unwrap();
    e.dispatch(move_x(1, 850)).unwrap();
    e.transaction_start().unwrap();
    e.apply_updates(&vec![
        Update::DeleteValue(Fact::Attribute { oid: 1, name: AttrName::Width, value: 100 }),
        Update::Insert(Fact::Attribute { oid: 1, name: AttrName::Width, value: 200 }),
    ])
    .unwrap();
    let d = e.transaction_commit_dump_changes().unwrap();
    let wide = Fact::Output { oid: 1, x: 850, y: 0, width: 200, height: 100, color: Color::Red };
    assert!(d.contains(&(out(1, 850, 0, Color::Blue), -1)));
    assert!(d.contains(&(wide, 1)));
    assert_eq!(d.len(), 4);
}

#[test]
fn add_batch_order_does_not_matter() {
    let w = Fact::Object { oid: 1, sort: Sort::Window };
    let s = Fact::Object { oid: 1, sort: Sort::Shape };
    let mut e1 = Flamingo::new();
    let mut e2 = Flamingo::new();
    e1.add(&vec![w, s]).unwrap();
    e2.add(&vec![s, w]).unwrap();
    assert_eq!(e1.snapshot(Rel::Object).unwrap(), vec![w]);
    assert_eq!(e2.snapshot(Rel::Object).unwrap(), vec![w]);
}

#[test]
fn delete_then_insert_cancels_too() {
    let mut e = Flamingo::new();
    let c = Fact::Attribute { oid: 2, name: AttrName::Height, value: 6 };
    e.transaction_start().unwrap();
    e.apply_updates(&vec![Update::DeleteValue(c), Update::Insert(c)]).unwrap();
    assert!(e.transaction_commit_dump_changes().unwrap().is_empty());
    assert!(e.snapshot(Rel::Attribute).unwrap().is_empty());
    // Two inserts and one delete net to one insert.
    e.transaction_start().unwrap();
    e.apply_updates(&vec![Update::Insert(c), Update::DeleteValue(c), Update::Insert(c)]).unwrap();
    assert_eq!(e.transaction_commit_dump_changes().unwrap(), vec![(c, 1)]);
}

#[test]
fn upserts_of_one_fluent_keep_the_least() {
    let mut e = Flamingo::new();
    let hi = Fact::InFluent { oid: 1, x: 9, y: 0 };
    let lo = Fact::InFluent { oid: 1, x: 2, y: 5 };
    e.transaction_start().unwrap();
    e.apply_updates(&vec![Update::InsertOrUpdate(hi), Update::InsertOrUpdate(lo)]).unwrap();
    e.transaction_commit_dump_changes().unwrap();
    assert_eq!(e.snapshot(Rel::InFluent).unwrap(), vec![lo]);
}

#[test]
fn plain_fluent_insert_is_rejected() {
    let mut e = Flamingo::new();
    e.transaction_start().unwrap();
    let f = Fact::InFluent { oid: 1, x: 0, y: 0 };
    assert_eq!(e.apply_updates(&vec![Update::Insert(f)]), Err(EngineError::MalformedFact));
    e.transaction_rollback().unwrap();
    assert!(e.snapshot(Rel::InFluent).unwrap().is_empty());
}
