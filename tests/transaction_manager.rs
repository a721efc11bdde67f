use realtime_canvas::{DocumentMutation, PropKind, PropValue, Transaction, TransactionManager};

fn fresh_id() -> u128 {
    uuid::Uuid::new_v4().as_u128()
}

#[test]
fn transaction_manager_it_works() {
    let mut manager = TransactionManager::new();

    let object_id = fresh_id();

    // A pending transaction may write a property before the object is created.
    manager.push(Transaction {
        id: fresh_id(),
        items: vec![DocumentMutation::UpsertProp(
            object_id,
            PropKind::Name,
            Some(PropValue::String("world".into())),
        )],
    });

    assert_eq!(
        manager.get_string_prop(object_id, PropKind::Name),
        Some("world".to_string())
    );

    assert_eq!(manager.get_string_prop(object_id, PropKind::RadiusH), None);

    let other_id = fresh_id();
    assert_eq!(manager.get_string_prop(other_id, PropKind::Name), None);
}

#[test]
fn newest_pending_write_wins_and_removal_shadows() {
    let mut manager = TransactionManager::new();
    let id = 7u128;
    manager.push(Transaction {
        id: 1,
        items: vec![DocumentMutation::UpsertProp(id, PropKind::Name, Some(PropValue::String("a".into())))],
    });
    manager.push(Transaction {
        id: 2,
        items: vec![
            DocumentMutation::UpsertProp(id, PropKind::Name, Some(PropValue::String("b".into()))),
            DocumentMutation::UpsertProp(id, PropKind::Name, Some(PropValue::String("c".into()))),
        ],
    });
    assert_eq!(manager.get_string_prop(id, PropKind::Name), Some("c".to_string()));
    assert_eq!(manager.find_prop_write(id, PropKind::Name), Some(Some(PropValue::String("c".into()))));
    manager.push(Transaction { id: 3, items: vec![DocumentMutation::UpsertProp(id, PropKind::Name, None)] });
    assert_eq!(manager.find_prop_write(id, PropKind::Name), Some(None));
    assert_eq!(manager.get_prop(id, PropKind::Name), None);
    let removed = manager.remove(2).expect("pending");
    assert_eq!(removed.items.len(), 2);
    assert!(manager.get(2).is_none());
    assert_eq!(manager.get(3).map(|t| t.id), Some(3));
}

#[test]
fn pending_create_and_delete_decide_kind_and_deletion() {
    let mut manager = TransactionManager::new();
    manager.push(Transaction { id: 1, items: vec![DocumentMutation::CreateObject(5, realtime_canvas::ObjectKind::Oval)] });
    assert_eq!(manager.get_object_kind(5), Some(realtime_canvas::ObjectKind::Oval));
    assert_eq!(manager.is_deleted(5), None);
    manager.push(Transaction { id: 2, items: vec![DocumentMutation::DeleteObject(5)] });
    assert_eq!(manager.get_object_kind(5), None);
    assert_eq!(manager.is_deleted(5), Some(true));
    // Any pending delete counts, even one that a later pending create follows.
    manager.push(Transaction { id: 3, items: vec![DocumentMutation::CreateObject(5, realtime_canvas::ObjectKind::Oval)] });
    assert_eq!(manager.is_deleted(5), Some(true));
    assert_eq!(manager.is_deleted(6), None);
}
