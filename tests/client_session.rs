use realtime_canvas::{
    ClientSession, ClientSessionError, Color, CommandResult, ConnectionEvent, DocumentCommand,
    DocumentMutation, DocumentStorage, FatalError, IdentifiableEvent, LivePointerEvent, ObjectKind,
    Point, Server, ServerAction, SessionCommand, SessionError, SessionEvent, SessionSnapshot,
};

fn copy_of(storage: &DocumentStorage) -> DocumentStorage {
    DocumentStorage::from_entries(storage.document_id(), storage.object_entries(), storage.prop_entries())
        .expect("tables of a store have unique keys")
}

fn client_for(server: &Server, file_id: u128) -> ClientSession {
    let sid = server.state_ref().session_id(file_id).expect("online");
    let session = server.state_ref().get_session(sid).expect("present");
    ClientSession::new(copy_of(session.document().storage()), session.snapshot())
}

#[test]
fn create_oval_is_acknowledged_and_replicated() {
    let mut server = Server::new();
    let file_id = 1u128;
    let (a, _) = server.connect(file_id, Some(DocumentStorage::new())).expect("connected");
    let mut client_a = client_for(&server, file_id);
    let (b, _) = server.connect(file_id, None).expect("connected");
    let mut client_b = client_for(&server, file_id);

    client_a
        .push_document_command(DocumentCommand::CreateOval {
            pos: Point { x: 40, y: 50 },
            r_h: 30,
            r_v: 20,
            fill_color: Color { r: 50, g: 50, b: 50 },
        })
        .expect("converted");
    assert_eq!(client_a.last_command_id(), 1);
    let command = client_a.consume_pending_identifiable_command().expect("queued");
    assert!(client_a.consume_pending_identifiable_command().is_none());
    let (tx_id, new_id) = match &command.session_command {
        SessionCommand::Transaction(t) => match &t.items[0] {
            DocumentMutation::CreateObject(id, ObjectKind::Oval) => (t.id, *id),
            _ => panic!("unexpected transaction"),
        },
        _ => panic!("unexpected command"),
    };

    let actions = server.handle_identifiable_command(a, command);
    for action in actions {
        match action {
            ServerAction::Send { to, event: ConnectionEvent::IdentifiableEvent(event) } => {
                assert_eq!(to, a);
                assert!(matches!(&event, IdentifiableEvent::ByMyself { result: CommandResult::SessionEvent(SessionEvent::TransactionAck(id)), .. } if *id == tx_id));
                client_a.handle_event_from_server(event).expect("acknowledged");
            }
            ServerAction::Broadcast { to, event } => {
                assert_eq!(to, vec![b]);
                client_b.handle_event_from_server(IdentifiableEvent::BySystem { session_event: event }).expect("applied");
            }
            other => panic!("unexpected {:?}", other),
        }
    }

    let doc_a = client_a.document().document().materialize_document();
    let doc_b = client_b.document().document().materialize_document();
    assert_eq!(doc_a.children.len(), 1);
    assert_eq!(doc_b.children, vec![new_id]);
    let oval_a = client_a.document().document().materialize_oval(new_id).expect("oval");
    let oval_b = client_b.document().document().materialize_oval(new_id).expect("oval");
    assert_eq!(format!("{:?}", oval_a), format!("{:?}", oval_b));
    let mut invalidated = client_b.consume_invalidated_object_ids();
    invalidated.sort();
    let mut expected = vec![doc_b.id, new_id];
    expected.sort();
    assert_eq!(invalidated, expected);
    assert!(client_b.consume_invalidated_object_ids().is_empty());
}

#[test]
fn kernel_keeps_roster_pointers_and_termination() {
    let mut client = ClientSession::new(DocumentStorage::new(), SessionSnapshot { connections: vec![1] });
    client
        .handle_event_from_server(IdentifiableEvent::BySystem { session_event: SessionEvent::SessionStateChanged(SessionSnapshot { connections: vec![1, 2] }) })
        .unwrap();
    assert_eq!(client.session_snapshot().connections, vec![1, 2]);
    let pointer = LivePointerEvent { connection_id: 2, x: 5, y: 6 };
    client.handle_event_from_server(IdentifiableEvent::BySystem { session_event: SessionEvent::LivePointer(pointer) }).unwrap();
    assert_eq!(client.consume_live_pointer_events(), vec![pointer]);
    assert!(client.consume_live_pointer_events().is_empty());
    assert!(!client.terminated());
    client.handle_event_from_server(IdentifiableEvent::BySystem { session_event: SessionEvent::TerminatedBySystem }).unwrap();
    assert!(client.terminated());
}

#[test]
fn kernel_reports_errors() {
    let mut client = ClientSession::new(DocumentStorage::new(), SessionSnapshot { connections: vec![] });
    assert_eq!(
        client.handle_event_from_server(IdentifiableEvent::ByMyself {
            command_id: 1,
            result: CommandResult::Error(SessionError::FatalError(FatalError { reason: "x".into() })),
        }),
        Err(ClientSessionError::ServerError)
    );
    assert!(matches!(
        client.handle_event_from_server(IdentifiableEvent::BySystem { session_event: SessionEvent::TransactionAck(5) }),
        Err(ClientSessionError::Follower(_))
    ));
    assert!(client.undo().is_err());
    assert!(client.redo().is_err());
    assert!(client.consume_pending_identifiable_command().is_none());
}

#[test]
fn kernel_undo_queues_a_command_with_the_next_id() {
    let mut client = ClientSession::new(DocumentStorage::new(), SessionSnapshot { connections: vec![] });
    client.push_document_command(DocumentCommand::UpdateDocumentName { name: "n".into() }).unwrap();
    let first = client.consume_pending_identifiable_command().unwrap();
    let tx_id = match &first.session_command {
        SessionCommand::Transaction(t) => t.id,
        _ => panic!("unexpected command"),
    };
    let ack = || IdentifiableEvent::BySystem { session_event: SessionEvent::TransactionAck(tx_id) };
    client.undo().unwrap();
    let second = client.consume_pending_identifiable_command().unwrap();
    assert_eq!((first.command_id, second.command_id), (1, 2));
    client.redo().unwrap();
    client.handle_event_from_server(ack()).unwrap();
    client.handle_event_from_server(ack()).unwrap();
    assert_eq!(client.consume_pending_identifiable_command().unwrap().command_id, 3);
}
