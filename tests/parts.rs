use flamingo::convert::{DDlogConverter, UpdCmd, UpdKind};
use flamingo::fact::{AttrName, Axis, Color, Fact, Rel, Sort};
use flamingo::rules::{color, move_by, prog, derive_facts, JoinFn, MapFn, Stage};
use flamingo::store::{apply_update_vec, apply_weight, clear_rel, contains_fact, delta, insert_fact, Update};
use flamingo::txn::EngineError;

#[test]
fn move_wraps_around() {
    assert_eq!(move_by(i64::MAX, 0, 1, Axis::X), (i64::MIN, 0));
    assert_eq!(move_by(3, 4, 5, Axis::Y), (3, 9));
}

#[test]
fn color_boundary() {
    assert_eq!(color(900, 0, 100, 100), Color::Red);
    assert_eq!(color(899, 899, 100, 100), Color::Blue);
    assert_eq!(color(0, 900, 100, 100), Color::Red);
}

#[test]
fn join_functions_match_on_key_and_shape() {
    let act = Fact::Action { target: 1, distance: 5, direction: Axis::X };
    let win = Fact::Object { oid: 1, sort: Sort::Window };
    let other = Fact::Object { oid: 2, sort: Sort::Window };
    assert_eq!(JoinFn::ActionOnWindow.apply(&act, &win), Some(act));
    assert_eq!(JoinFn::ActionOnWindow.apply(&act, &other), None);
    assert_eq!(JoinFn::ActionOnWindow.apply(&win, &act), None);
    let fl = Fact::InFluent { oid: 1, x: 10, y: 20 };
    assert_eq!(
        JoinFn::ActionAtFluent.apply(&act, &fl),
        Some(Fact::OutFluent { oid: 1, x: 15, y: 20 })
    );
    assert_eq!(
        MapFn::ActionFromOrigin.apply(&act),
        Some(Fact::OutFluent { oid: 1, x: 5, y: 0 })
    );
    let w = Fact::Attribute { oid: 1, name: AttrName::Width, value: 3 };
    let h = Fact::Attribute { oid: 1, name: AttrName::Height, value: 4 };
    let row = JoinFn::FluentWidth.apply(&fl, &w).unwrap();
    assert_eq!(JoinFn::FluentWidth.apply(&fl, &h), None);
    assert_eq!(
        JoinFn::RowHeight.apply(&row, &h),
        Some(Fact::Output { oid: 1, x: 10, y: 20, width: 3, height: 4, color: Color::Blue })
    );
}

#[test]
fn rule_table_derives_from_base_facts() {
    let rules = prog();
    assert_eq!(rules.len(), 3);
    assert_eq!(rules[1].stages[2], Stage::MapRows { func: MapFn::ActionFromOrigin });
    let db = vec![
        Fact::Object { oid: 1, sort: Sort::Window },
        Fact::Attribute { oid: 1, name: AttrName::Width, value: 100 },
        Fact::Attribute { oid: 1, name: AttrName::Height, value: 100 },
        Fact::InFluent { oid: 1, x: 950, y: 0 },
        Fact::Action { target: 1, distance: -100, direction: Axis::X },
    ];
    let d = derive_facts(&rules, &db);
    assert_eq!(d.len(), 2);
    assert!(d.contains(&Fact::OutFluent { oid: 1, x: 850, y: 0 }));
    assert!(d.contains(&Fact::Output {
        oid: 1,
        x: 950,
        y: 0,
        width: 100,
        height: 100,
        color: Color::Red
    }));
}

#[test]
fn store_updates_and_delta() {
    let a = Fact::Object { oid: 1, sort: Sort::Window };
    let b = Fact::Object { oid: 1, sort: Sort::Shape };
    let mut v = vec![];
    insert_fact(&mut v, a);
    insert_fact(&mut v, a);
    assert_eq!(v, vec![a]);
    assert!(contains_fact(&v, &a));
    let old = v.clone();
    apply_update_vec(&mut v, &Update::InsertOrUpdate(b));
    assert_eq!(v, vec![b]);
    let d = delta(&old, &v);
    assert_eq!(d, vec![(b, 1), (a, -1)]);
    apply_update_vec(&mut v, &Update::DeleteValue(b));
    assert!(v.is_empty());
}

#[test]
fn converter_names_and_checks_commands() {
    assert_eq!(DDlogConverter::relid2name(0), Some("Object"));
    assert_eq!(DDlogConverter::relid2name(5), Some("Output"));
    assert_eq!(DDlogConverter::relid2name(6), None);
    assert_eq!(DDlogConverter::relid2rel(4), Some(Rel::InFluent));
    assert_eq!(DDlogConverter::indexid2name(3), Some("Attribute(width) by oid"));
    assert_eq!(DDlogConverter::indexid2join(1), Some(JoinFn::ActionAtFluent));
    assert_eq!(DDlogConverter::indexid2name(5), None);
    let f = Fact::Attribute { oid: 1, name: AttrName::Width, value: 2 };
    let ok = UpdCmd { kind: UpdKind::DeleteValue, rel_id: 1, fact: f };
    assert_eq!(DDlogConverter::updcmd2upd(&ok), Ok(Update::DeleteValue(f)));
    let bad = UpdCmd { kind: UpdKind::Insert, rel_id: 0, fact: f };
    assert_eq!(DDlogConverter::updcmd2upd(&bad), Err(EngineError::MalformedFact));
    let none = UpdCmd { kind: UpdKind::Insert, rel_id: 42, fact: f };
    assert_eq!(DDlogConverter::updcmd2upd(&none), Err(EngineError::MalformedFact));
}

#[test]
fn weights_report_presence_changes() {
    let a = Fact::Object { oid: 1, sort: Sort::Window };
    let b = Fact::Attribute { oid: 1, name: AttrName::Width, value: 9 };
    let mut v = vec![];
    assert!(apply_weight(&mut v, a, 1));
    assert!(!apply_weight(&mut v, a, 1));
    assert!(!apply_weight(&mut v, b, -1));
    assert!(!apply_weight(&mut v, a, 0));
    assert!(apply_weight(&mut v, b, 2));
    assert_eq!(v, vec![a, b]);
    clear_rel(&mut v, Rel::Object);
    assert_eq!(v, vec![b]);
    assert!(apply_weight(&mut v, b, -1));
    assert!(v.is_empty());
}
