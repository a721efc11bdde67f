use realtime_canvas::{
    convert_command, ClientSession, ClientSessionError, CommandError, DocumentCommand,
    DocumentMutation, DocumentSnapshot, DocumentStorage, IdentifiableEvent, ObjectKind, PropKind,
    PropValue, ServerError, ServerState, SessionBehavior, SessionEvent, SessionSnapshot,
    Transaction, TransactionalDocument,
};

#[test]
fn reparent_that_leaves_the_coordinate_range_is_refused() {
    let mut storage = DocumentStorage::new();
    let document_id = storage.document_id();
    storage
        .process(&Transaction {
            id: 1,
            items: vec![
                DocumentMutation::CreateObject(1, ObjectKind::Frame),
                DocumentMutation::UpsertProp(1, PropKind::Parent, Some(PropValue::Reference(document_id))),
                DocumentMutation::UpsertProp(1, PropKind::PosX, Some(PropValue::Number(i32::MIN))),
                DocumentMutation::CreateObject(2, ObjectKind::Oval),
                DocumentMutation::UpsertProp(2, PropKind::Parent, Some(PropValue::Reference(document_id))),
                DocumentMutation::UpsertProp(2, PropKind::PosX, Some(PropValue::Number(i32::MAX))),
            ],
        })
        .unwrap();
    let doc = TransactionalDocument::from_storage(storage);
    assert_eq!(doc.get_global_transform(2), Some((i32::MAX as i64, 0)));
    assert_eq!(
        convert_command(&doc, DocumentCommand::UpdateParent { id: 2, parent_id: 1 }, 3, 4).map(|t| t.id),
        Err(CommandError::PositionOutOfRange)
    );
}

#[test]
fn server_state_errors() {
    let mut state = ServerState::new();
    assert_eq!(state.join_session(1), Err(ServerError::NoSessionForFile));
    let sid = state.create_session(1, DocumentStorage::new(), SessionBehavior::AutoTerminateWhenEmpty).expect("created");
    assert_eq!(
        state.create_session(1, DocumentStorage::new(), SessionBehavior::ManualCommitByAdmin),
        Err(ServerError::SessionAlreadyCreatedForFileId)
    );
    assert_eq!(state.connection_ids_in_session(sid + 100), Err(ServerError::InvalidCommandForState));
    let (joined, c) = state.join_session(1).expect("joined");
    assert_eq!(joined, sid);
    assert_eq!(state.get_session_id_of_connection(c), Some(sid));
    assert_eq!(state.connection_ids_in_session(sid), Ok(vec![c]));
    assert_eq!(state.leave_session(c), Some(sid));
    assert_eq!(state.leave_session(c), None);
    assert_eq!(state.connection_ids_in_session(sid), Ok(vec![]));
    let session = state.terminate_session(sid).expect("present");
    assert_eq!(session.file_id, 1);
    assert!(state.terminate_session(sid).is_none());
    assert_eq!(state.session_id(1), None);
}

#[test]
fn kernel_refuses_a_second_init() {
    let mut client = ClientSession::new(DocumentStorage::new(), SessionSnapshot { connections: vec![] });
    let init = SessionEvent::Init {
        session_id: 1,
        session_snapshot: SessionSnapshot { connections: vec![] },
        document_snapshot: DocumentSnapshot { content: vec![] },
    };
    assert_eq!(
        client.handle_event_from_server(IdentifiableEvent::BySystem { session_event: init }),
        Err(ClientSessionError::Unexpected)
    );
}
