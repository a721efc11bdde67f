use realtime_canvas::{
    convert_command, convert_command_to_tx, ClientFollowerDocument, Color, CommandError,
    DocumentCommand, DocumentMutation, DocumentStorage, ObjectKind, Point, PropKind, PropValue,
    Transaction, TransactionalDocument,
};

fn upsert(id: u128, k: PropKind, v: PropValue) -> DocumentMutation {
    DocumentMutation::UpsertProp(id, k, Some(v))
}

fn num(n: i32) -> PropValue {
    PropValue::Number(n)
}

/// A store with a frame at (10, 20) and an oval at (100, 100), both under the document.
fn frame_and_oval() -> (DocumentStorage, u128, u128) {
    let mut storage = DocumentStorage::new();
    let document_id = storage.document_id();
    let frame_id = 11u128;
    let oval_id = 22u128;
    storage
        .process(&Transaction {
            id: 1,
            items: vec![
                DocumentMutation::CreateObject(frame_id, ObjectKind::Frame),
                upsert(frame_id, PropKind::PosX, num(10)),
                upsert(frame_id, PropKind::PosY, num(20)),
                upsert(frame_id, PropKind::Parent, PropValue::Reference(document_id)),
                DocumentMutation::CreateObject(oval_id, ObjectKind::Oval),
                upsert(oval_id, PropKind::PosX, num(100)),
                upsert(oval_id, PropKind::PosY, num(100)),
                upsert(oval_id, PropKind::Parent, PropValue::Reference(document_id)),
            ],
        })
        .expect("never fails");
    (storage, frame_id, oval_id)
}

fn copy_of(storage: &DocumentStorage) -> DocumentStorage {
    DocumentStorage::from_entries(storage.document_id(), storage.object_entries(), storage.prop_entries())
        .expect("tables of a store have unique keys")
}

fn number_written(tx: &Transaction, id: u128, k: PropKind) -> Option<i32> {
    tx.items.iter().find_map(|m| match m {
        DocumentMutation::UpsertProp(object_id, kind, Some(PropValue::Number(n))) if *object_id == id && *kind == k => Some(*n),
        _ => None,
    })
}

fn index_written(tx: &Transaction) -> String {
    tx.items
        .iter()
        .find_map(|m| match m {
            DocumentMutation::UpsertProp(_, PropKind::Index, Some(PropValue::String(s))) => Some(s.clone()),
            _ => None,
        })
        .expect("an index is written")
}

#[test]
fn it_should_preserve_global_transform_when_changing_parent() {
    let (storage, frame_id, oval_id) = frame_and_oval();
    let doc = ClientFollowerDocument::new(copy_of(&storage));

    let tx = convert_command_to_tx(
        doc.document(),
        DocumentCommand::UpdateParent { id: oval_id, parent_id: frame_id },
    )
    .expect("should work");

    let pos_x_after = number_written(&tx, oval_id, PropKind::PosX).expect("must exist");
    assert_eq!(pos_x_after, 90);

    let pos_y_after = number_written(&tx, oval_id, PropKind::PosY).expect("must exist");
    assert_eq!(pos_y_after, 80);
}

#[test]
fn reparent_keeps_global_position_once_applied() {
    let (storage, frame_id, oval_id) = frame_and_oval();
    let mut doc = TransactionalDocument::from_storage(storage);
    assert_eq!(doc.get_global_transform(oval_id), Some((100, 100)));
    let tx = convert_command(&doc, DocumentCommand::UpdateParent { id: oval_id, parent_id: frame_id }, 5, 6)
        .expect("should work");
    assert_eq!(tx.id, 5);
    assert_eq!(tx.items.len(), 4);
    assert_eq!(tx.items[0], upsert(oval_id, PropKind::Parent, PropValue::Reference(frame_id)));
    doc.begin(tx);
    assert_eq!(doc.get_global_transform(oval_id), Some((100, 100)));
    assert_eq!(doc.get_children(frame_id), vec![oval_id]);
    assert_eq!(doc.get_children(doc.document_id()), vec![frame_id]);
}

#[test]
fn store_applies_mutations_and_tombstones() {
    let (mut storage, frame_id, oval_id) = frame_and_oval();
    assert_eq!(storage.get_object_kind(oval_id), Some(ObjectKind::Oval));
    assert_eq!(storage.get_prop(oval_id, PropKind::PosX), Some(num(100)));
    assert_eq!(storage.is_deleted(oval_id), Some(false));
    assert_eq!(storage.is_deleted(999), None);
    storage
        .process(&Transaction { id: 2, items: vec![DocumentMutation::DeleteObject(oval_id), DocumentMutation::UpsertProp(frame_id, PropKind::PosX, None)] })
        .expect("never fails");
    assert_eq!(storage.is_deleted(oval_id), Some(true));
    assert_eq!(storage.get_object_kind(oval_id), None);
    assert_eq!(storage.get_prop(oval_id, PropKind::PosX), None);
    assert_eq!(storage.get_prop(frame_id, PropKind::PosX), None);
    // Re-creating lifts the tombstone; the kind may change.
    storage
        .process(&Transaction { id: 3, items: vec![DocumentMutation::CreateObject(oval_id, ObjectKind::Frame)] })
        .expect("never fails");
    assert_eq!(storage.get_object_kind(oval_id), Some(ObjectKind::Frame));
    assert_eq!(storage.get_prop(oval_id, PropKind::PosX), Some(num(100)));
}

#[test]
fn from_entries_refuses_repeated_keys() {
    let (storage, _, _) = frame_and_oval();
    let mut props = storage.prop_entries();
    props.push(props[0].clone());
    assert!(DocumentStorage::from_entries(storage.document_id(), storage.object_entries(), props).is_none());
}

#[test]
fn layered_read_matches_applied_state() {
    let (storage, frame_id, oval_id) = frame_and_oval();
    let mut applied = copy_of(&storage);
    let mut layered = TransactionalDocument::from_storage(storage);
    let t1 = Transaction { id: 1, items: vec![upsert(oval_id, PropKind::Name, PropValue::String("x".into())), DocumentMutation::DeleteObject(frame_id)] };
    let t2 = Transaction { id: 2, items: vec![DocumentMutation::CreateObject(frame_id, ObjectKind::Oval), DocumentMutation::UpsertProp(oval_id, PropKind::PosX, None)] };
    applied.process(&t1).unwrap();
    applied.process(&t2).unwrap();
    layered.begin(t1);
    layered.begin(t2);
    for id in [frame_id, oval_id, 12345u128] {
        assert_eq!(layered.get_object_kind(id), applied.get_object_kind(id));
        assert_eq!(layered.is_deleted(id), applied.is_deleted(id));
        for k in [PropKind::Name, PropKind::PosX, PropKind::PosY, PropKind::Parent] {
            assert_eq!(layered.get_prop(id, k), applied.get_prop(id, k));
        }
    }
}

#[test]
fn finish_commits_or_drops_and_reports_unknown_ids() {
    let (storage, _, oval_id) = frame_and_oval();
    let mut doc = TransactionalDocument::from_storage(storage);
    doc.begin(Transaction { id: 9, items: vec![upsert(oval_id, PropKind::Name, PropValue::String("n".into()))] });
    assert!(doc.get_tx(9).is_some());
    assert_eq!(doc.finish(9, false).map(|t| t.id), Ok(9));
    assert_eq!(doc.get_string_prop(oval_id, PropKind::Name), None);
    assert!(doc.finish(9, true).is_err());
    doc.begin(Transaction { id: 10, items: vec![upsert(oval_id, PropKind::Name, PropValue::String("n".into()))] });
    assert!(doc.finish(10, true).is_ok());
    assert_eq!(doc.storage().get_prop(oval_id, PropKind::Name), Some(PropValue::String("n".into())));
}

#[test]
fn inverse_restores_every_read() {
    let (storage, frame_id, oval_id) = frame_and_oval();
    let mut doc = TransactionalDocument::from_storage(copy_of(&storage));
    let before = TransactionalDocument::from_storage(storage);
    let tx = Transaction {
        id: 77,
        items: vec![
            upsert(oval_id, PropKind::Name, PropValue::String("renamed".into())),
            DocumentMutation::UpsertProp(oval_id, PropKind::PosX, None),
            DocumentMutation::DeleteObject(frame_id),
            DocumentMutation::CreateObject(33, ObjectKind::Oval),
        ],
    };
    let inverse = tx.inverted(&doc);
    assert_eq!(inverse.id, 77);
    assert_eq!(inverse.items[0], DocumentMutation::DeleteObject(33));
    assert_eq!(inverse.items[1], DocumentMutation::CreateObject(frame_id, ObjectKind::Frame));
    doc.begin(tx);
    doc.begin(inverse);
    for id in [frame_id, oval_id, 33u128] {
        assert_eq!(doc.get_object_kind(id), before.get_object_kind(id));
        for k in [PropKind::Name, PropKind::PosX, PropKind::PosY, PropKind::Parent] {
            assert_eq!(doc.get_prop(id, k), before.get_prop(id, k));
        }
    }
}

fn three_ovals() -> (ClientFollowerDocument, Vec<u128>) {
    let mut doc = ClientFollowerDocument::new(DocumentStorage::new());
    let mut ids = Vec::new();
    for i in 0..3 {
        let result = doc
            .handle_command(DocumentCommand::CreateOval { pos: Point { x: i, y: i }, r_h: 5, r_v: 5, fill_color: Color::default() })
            .expect("created");
        match &result.transaction.items[0] {
            DocumentMutation::CreateObject(id, ObjectKind::Oval) => ids.push(*id),
            other => panic!("unexpected first item {:?}", other),
        }
    }
    (doc, ids)
}

#[test]
fn new_ovals_get_increasing_indices() {
    let (doc, ids) = three_ovals();
    let reader = doc.document();
    assert_eq!(reader.get_string_prop(ids[0], PropKind::Index), Some("O".to_string()));
    assert_eq!(reader.get_string_prop(ids[1], PropKind::Index), Some("g".to_string()));
    assert_eq!(reader.get_string_prop(ids[2], PropKind::Index), Some("s".to_string()));
    assert_eq!(reader.get_children(reader.document_id()), ids);
}

#[test]
fn reorder_to_front_uses_index_below_first() {
    let (mut doc, ids) = three_ovals();
    let document_id = doc.document().document_id();
    let result = doc.handle_command(DocumentCommand::UpdateIndex { id: ids[1], int_index: 0 }).expect("reordered");
    assert_eq!(index_written(&result.transaction), "7");
    assert_eq!(doc.document().get_children(document_id), vec![ids[1], ids[0], ids[2]]);
    assert_eq!(result.invalidated_object_ids, vec![document_id]);
}

#[test]
fn reorder_between_and_to_end() {
    let (mut doc, ids) = three_ovals();
    let document_id = doc.document().document_id();
    let between = doc.handle_command(DocumentCommand::UpdateIndex { id: ids[2], int_index: 1 }).expect("reordered");
    assert_eq!(index_written(&between.transaction), "[");
    assert_eq!(doc.document().get_children(document_id), vec![ids[0], ids[2], ids[1]]);
    let to_end = doc.handle_command(DocumentCommand::UpdateIndex { id: ids[0], int_index: 3 }).expect("reordered");
    assert_eq!(index_written(&to_end.transaction), "s");
    assert_eq!(doc.document().get_children(document_id), vec![ids[2], ids[1], ids[0]]);
}

#[test]
fn reorder_errors() {
    let (mut doc, ids) = three_ovals();
    let document_id = doc.document().document_id();
    assert!(matches!(
        doc.handle_command(DocumentCommand::UpdateIndex { id: ids[0], int_index: 4 }),
        Err(realtime_canvas::FollowerError::Command(CommandError::IndexOutOfRange))
    ));
    assert!(matches!(
        doc.handle_command(DocumentCommand::UpdateIndex { id: document_id, int_index: 0 }),
        Err(realtime_canvas::FollowerError::Command(CommandError::NoParent))
    ));
    assert_eq!(doc.undo_len(), 3);
}

#[test]
fn index_between_is_refused_where_base95_would_overflow() {
    let mut storage = DocumentStorage::new();
    let document_id = storage.document_id();
    storage
        .process(&Transaction {
            id: 1,
            items: vec![
                DocumentMutation::CreateObject(1, ObjectKind::Oval),
                upsert(1, PropKind::Parent, PropValue::Reference(document_id)),
                upsert(1, PropKind::Index, PropValue::String("!~".into())),
                DocumentMutation::CreateObject(2, ObjectKind::Oval),
                upsert(2, PropKind::Parent, PropValue::Reference(document_id)),
                upsert(2, PropKind::Index, PropValue::String(" ~".into())),
            ],
        })
        .unwrap();
    let doc = TransactionalDocument::from_storage(storage);
    assert_eq!(doc.get_children(document_id), vec![2, 1]);
    assert_eq!(
        convert_command(&doc, DocumentCommand::UpdateIndex { id: 1, int_index: 1 }, 3, 4).map(|t| t.id),
        Err(CommandError::IndexNotComputable)
    );
}

#[test]
fn reparent_onto_a_cycle_is_refused() {
    let (storage, frame_id, oval_id) = frame_and_oval();
    let mut doc = TransactionalDocument::from_storage(storage);
    doc.begin(Transaction { id: 1, items: vec![upsert(frame_id, PropKind::Parent, PropValue::Reference(oval_id)), upsert(oval_id, PropKind::Parent, PropValue::Reference(frame_id))] });
    assert_eq!(doc.get_global_transform(oval_id), None);
    assert_eq!(
        convert_command(&doc, DocumentCommand::UpdateParent { id: oval_id, parent_id: frame_id }, 2, 3).map(|t| t.id),
        Err(CommandError::ParentChainTooLong)
    );
}

#[test]
fn undo_and_redo_are_not_edits_of_their_own() {
    let doc = TransactionalDocument::new();
    assert_eq!(convert_command(&doc, DocumentCommand::Undo, 1, 2).map(|t| t.id), Err(CommandError::NotAnEdit));
    assert_eq!(convert_command(&doc, DocumentCommand::Redo, 1, 2).map(|t| t.id), Err(CommandError::NotAnEdit));
}

#[test]
fn delete_command_removes_present_properties_first() {
    let (storage, _, oval_id) = frame_and_oval();
    let doc = TransactionalDocument::from_storage(storage);
    let tx = convert_command(&doc, DocumentCommand::DeleteObject { id: oval_id }, 1, 2).expect("converted");
    assert_eq!(
        tx.items,
        vec![
            DocumentMutation::UpsertProp(oval_id, PropKind::Parent, None),
            DocumentMutation::UpsertProp(oval_id, PropKind::PosX, None),
            DocumentMutation::UpsertProp(oval_id, PropKind::PosY, None),
            DocumentMutation::DeleteObject(oval_id),
        ]
    );
}

#[test]
fn undo_then_redo_returns_to_the_state_after_the_command() {
    let (storage, _, oval_id) = frame_and_oval();
    let mut doc = ClientFollowerDocument::new(storage);
    let tx_id = doc.handle_command(DocumentCommand::UpdateName { id: oval_id, name: "after".into() }).expect("ok").transaction.id;
    let undo_len = doc.undo_len();
    // The undo keeps the edit's id and is begun while the edit still awaits the server.
    doc.undo().expect("undone");
    assert_eq!(doc.document().get_string_prop(oval_id, PropKind::Name), None);
    assert_eq!(doc.redo_len(), 1);
    doc.redo().expect("redone");
    assert_eq!(doc.document().get_string_prop(oval_id, PropKind::Name), Some("after".to_string()));
    assert_eq!(doc.undo_len(), undo_len);
    // Acknowledgements settle the three transactions with this id, oldest first.
    for _ in 0..3 {
        doc.handle_ack(tx_id).expect("pending");
    }
    assert!(doc.handle_ack(tx_id).is_err());
    assert_eq!(doc.document().storage().get_prop(oval_id, PropKind::Name), Some(PropValue::String("after".into())));
    assert!(matches!(doc.redo(), Err(realtime_canvas::FollowerError::NothingToRedo)));
}

#[test]
fn undo_with_empty_stack_fails() {
    let mut doc = ClientFollowerDocument::new(DocumentStorage::new());
    assert!(matches!(doc.undo(), Err(realtime_canvas::FollowerError::NothingToUndo)));
    assert!(matches!(doc.handle_command(DocumentCommand::Undo), Err(realtime_canvas::FollowerError::NothingToUndo)));
}

#[test]
fn nack_rolls_back_and_clears_stacks() {
    let (storage, _, oval_id) = frame_and_oval();
    let mut doc = ClientFollowerDocument::new(storage);
    let result = doc.handle_command(DocumentCommand::UpdatePosition { id: oval_id, pos: Point { x: 1, y: 2 } }).expect("ok");
    let tx_id = result.transaction.id;
    assert_eq!(result.invalidated_object_ids, vec![oval_id]);
    assert_eq!(doc.document().get_number_prop(oval_id, PropKind::PosX), Some(1));
    doc.handle_nack(tx_id).expect("pending");
    assert_eq!(doc.document().get_number_prop(oval_id, PropKind::PosX), Some(100));
    assert!(!doc.stacks_mention(tx_id));
    assert!(matches!(doc.handle_nack(tx_id), Err(realtime_canvas::FollowerError::UnknownTransaction)));
}

#[test]
fn ack_commits_to_the_base() {
    let (storage, _, oval_id) = frame_and_oval();
    let mut doc = ClientFollowerDocument::new(storage);
    let result = doc.handle_command(DocumentCommand::UpdatePosition { id: oval_id, pos: Point { x: 1, y: 2 } }).expect("ok");
    let acked = doc.handle_ack(result.transaction.id).expect("pending");
    assert_eq!(acked.transaction.id, result.transaction.id);
    assert_eq!(doc.document().storage().get_prop(oval_id, PropKind::PosY), Some(num(2)));
    assert!(doc.document().get_tx(result.transaction.id).is_none());
    assert!(matches!(doc.handle_ack(12345), Err(realtime_canvas::FollowerError::UnknownTransaction)));
}

#[test]
fn peer_transaction_reparenting_invalidates_both_parents() {
    let (storage, frame_id, oval_id) = frame_and_oval();
    let document_id = storage.document_id();
    let mut doc = ClientFollowerDocument::new(storage);
    let result = doc.handle_transaction(Transaction { id: 4, items: vec![upsert(oval_id, PropKind::Parent, PropValue::Reference(frame_id))] });
    let mut ids = result.invalidated_object_ids.clone();
    ids.sort();
    let mut expected = vec![document_id, frame_id];
    expected.sort();
    assert_eq!(ids, expected);
    assert_eq!(doc.document().storage().get_prop(oval_id, PropKind::Parent), Some(PropValue::Reference(frame_id)));
}

#[test]
fn property_written_before_creation_reads_back() {
    let mut storage = DocumentStorage::new();
    storage
        .process(&Transaction { id: 1, items: vec![upsert(50, PropKind::Name, PropValue::String("early".into()))] })
        .unwrap();
    assert_eq!(storage.get_object_kind(50), None);
    assert_eq!(storage.get_prop(50, PropKind::Name), Some(PropValue::String("early".into())));
    let mut doc = TransactionalDocument::from_storage(storage);
    doc.begin(Transaction { id: 2, items: vec![upsert(51, PropKind::Name, PropValue::String("pending".into()))] });
    assert_eq!(doc.get_string_prop(51, PropKind::Name), Some("pending".to_string()));
}

#[test]
fn pending_delete_then_create_reads_as_present() {
    let (storage, _, oval_id) = frame_and_oval();
    let mut doc = TransactionalDocument::from_storage(storage);
    doc.begin(Transaction { id: 1, items: vec![DocumentMutation::DeleteObject(oval_id)] });
    assert_eq!(doc.is_deleted(oval_id), Some(true));
    assert_eq!(doc.get_prop(oval_id, PropKind::PosX), None);
    doc.begin(Transaction { id: 2, items: vec![DocumentMutation::CreateObject(oval_id, ObjectKind::Oval)] });
    assert_eq!(doc.is_deleted(oval_id), Some(false));
    assert_eq!(doc.get_prop(oval_id, PropKind::PosX), Some(num(100)));
}

#[test]
fn object_with_a_parent_but_no_kind_is_not_a_child() {
    let (storage, frame_id, _) = frame_and_oval();
    let mut doc = TransactionalDocument::from_storage(storage);
    doc.begin(Transaction { id: 1, items: vec![upsert(60, PropKind::Parent, PropValue::Reference(frame_id))] });
    assert_eq!(doc.get_id_prop(60, PropKind::Parent), Some(frame_id));
    assert!(doc.get_children(frame_id).is_empty());
    assert_eq!(
        convert_command(&doc, DocumentCommand::UpdateIndex { id: 60, int_index: 0 }, 2, 3).map(|t| t.id),
        Err(CommandError::IndexOutOfRange)
    );
}
