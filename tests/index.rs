use flamingo::arrangement::Arrangement;
use flamingo::fact::{AttrName, Fact, Rel, Sort};
use flamingo::rules::JoinFn;
use flamingo::store::Update;
use flamingo::txn::{Coordinator, EngineError};

#[test]
fn arrangement_indexes_by_key_and_skips_other_shapes() {
    let db = vec![
        Fact::Object { oid: 1, sort: Sort::Window },
        Fact::Object { oid: 2, sort: Sort::Shape },
        Fact::Attribute { oid: 1, name: AttrName::Width, value: 3 },
        Fact::Object { oid: 3, sort: Sort::Window },
    ];
    let arr = Arrangement::build(&db, Rel::Object, JoinFn::ActionOnWindow);
    assert_eq!(arr.lookup(1), vec![Fact::Object { oid: 1, sort: Sort::Window }]);
    assert!(arr.lookup(2).is_empty());
    assert_eq!(arr.lookup(3), vec![Fact::Object { oid: 3, sort: Sort::Window }]);
    let widths = Arrangement::build(&db, Rel::Attribute, JoinFn::FluentWidth);
    assert_eq!(widths.lookup(1), vec![Fact::Attribute { oid: 1, name: AttrName::Width, value: 3 }]);
}

#[test]
fn arrangement_follows_deltas() {
    let mut arr = Arrangement::build(&vec![], Rel::InFluent, JoinFn::ActionAtFluent);
    let f = Fact::InFluent { oid: 4, x: 1, y: 2 };
    arr.apply_delta(f, 1);
    arr.apply_delta(f, 1);
    assert_eq!(arr.lookup(4), vec![f]);
    arr.apply_delta(Fact::Object { oid: 4, sort: Sort::Window }, 1);
    assert_eq!(arr.lookup(4), vec![f]);
    arr.apply_delta(f, -1);
    assert!(arr.lookup(4).is_empty());
}

#[test]
fn coordinator_commits_staged_batches() {
    let mut c = Coordinator::new();
    assert!(!c.is_open());
    assert_eq!(c.transaction_commit(), Err(EngineError::NoTransaction));
    c.transaction_start().unwrap();
    assert!(c.is_open());
    let a = Fact::Object { oid: 1, sort: Sort::Window };
    c.apply_updates(&vec![Update::Insert(a)]).unwrap();
    c.apply_updates(&vec![Update::InsertOrUpdate(Fact::InFluent { oid: 1, x: 0, y: 0 })]).unwrap();
    c.transaction_commit().unwrap();
    assert!(!c.is_open());
    assert_eq!(c.snapshot(Rel::Object), vec![a]);
    assert_eq!(c.snapshot(Rel::InFluent), vec![Fact::InFluent { oid: 1, x: 0, y: 0 }]);
    c.transaction_start().unwrap();
    c.apply_updates(&vec![Update::InsertOrUpdate(Fact::InFluent { oid: 1, x: 5, y: 5 })]).unwrap();
    let d = c.transaction_commit_dump_changes().unwrap();
    assert_eq!(d.len(), 2);
    assert!(d.contains(&(Fact::InFluent { oid: 1, x: 0, y: 0 }, -1)));
    assert!(d.contains(&(Fact::InFluent { oid: 1, x: 5, y: 5 }, 1)));
}
