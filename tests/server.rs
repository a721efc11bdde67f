use realtime_canvas::{
    ClientFollowerDocument, Color, CommandResult, ConnectionEvent, ConnectionState, DocumentCommand,
    DocumentMutation, DocumentStorage, EgressStep, FileDescription, IdentifiableCommand,
    IdentifiableEvent, LivePointerCommand, ObjectKind, Point, Server, ServerAction,
    ServerLeaderDocument, SessionBehavior, SessionCommand, SessionEvent, Transaction,
};

fn copy_of(storage: &DocumentStorage) -> DocumentStorage {
    DocumentStorage::from_entries(storage.document_id(), storage.object_entries(), storage.prop_entries())
        .expect("tables of a store have unique keys")
}

fn oval_command() -> DocumentCommand {
    DocumentCommand::CreateOval {
        r_v: 20,
        r_h: 30,
        pos: Point { x: 40, y: 50 },
        fill_color: Color { r: 50, g: 50, b: 50 },
    }
}

#[test]
fn it_should_materialize_oval() {
    let document = DocumentStorage::new();
    let mut client = ClientFollowerDocument::new(copy_of(&document));
    let mut server = ServerLeaderDocument::new(document);

    let tx_result = client.handle_command(oval_command()).expect("");

    let tx = server.process_transaction(tx_result.transaction).expect("");
    let oval_object_id = match &tx.items[0] {
        DocumentMutation::CreateObject(object_id, _) => *object_id,
        _ => panic!("unexpected transaction"),
    };

    let oval_material_from_server = server.document().materialize_oval(oval_object_id).expect("");
    let oval_material_from_client = client.document().materialize_oval(oval_object_id).expect("");
    assert_eq!(format!("{:?}", oval_material_from_server), format!("{:?}", oval_material_from_client));

    let tx_result = client.handle_command(oval_command()).expect("");
    server.process_transaction(tx_result.transaction).expect("");

    let document_material_from_server = server.document().materialize_document();
    assert_eq!(document_material_from_server.children.len(), 2);

    let document_material_from_client = client.document().materialize_document();
    assert_eq!(document_material_from_client.children.len(), 2);
}

#[test]
fn oval_material_has_its_properties_and_defaults() {
    let mut client = ClientFollowerDocument::new(DocumentStorage::new());
    let tx = client.handle_command(oval_command()).expect("").transaction;
    let id = match &tx.items[0] {
        DocumentMutation::CreateObject(id, ObjectKind::Oval) => *id,
        _ => panic!("unexpected transaction"),
    };
    let oval = client.document().materialize_oval(id).expect("an oval");
    assert_eq!(oval.name, "Untitled");
    assert_eq!((oval.pos_x, oval.pos_y, oval.r_h, oval.r_v), (40, 50, 30, 20));
    assert_eq!(oval.fill_color, Color { r: 50, g: 50, b: 50 });
    assert_eq!(oval.index, "O");
    assert!(client.document().materialize_frame(id).is_err());
    assert!(client.document().materialize_object(12345).is_err());
    let doc = client.document().materialize_document();
    assert_eq!(doc.name, "Untitled");
    assert_eq!(doc.children, vec![id]);
}

fn connect(server: &mut Server, file_id: u128, doc: Option<DocumentStorage>) -> (u16, Vec<ServerAction>) {
    server.connect(file_id, doc).expect("connected")
}

#[test]
fn it_remove_session_when_all_connections_disconnect() {
    let mut state = Server::new();
    let file_id = uuid::Uuid::new_v4().as_u128();
    let (connection_id, _) = connect(&mut state, file_id, Some(DocumentStorage::new()));
    let actions = state.disconnect(connection_id);
    assert!(state.state_ref().session_id(file_id).is_none());
    assert!(actions.iter().any(|a| matches!(a, ServerAction::Persist { file_id: f, .. } if *f == file_id)));
    assert!(matches!(actions.last(), Some(ServerAction::Unregister { connection_id: c }) if *c == connection_id));
}

#[test]
fn connect_sends_connected_then_init_then_roster() {
    let mut server = Server::new();
    let file_id = 5u128;
    assert!(server.needs_document(file_id));
    assert!(server.connect(file_id, None).is_none());
    let (a, actions) = connect(&mut server, file_id, Some(DocumentStorage::new()));
    assert!(!server.needs_document(file_id));
    assert!(matches!(&actions[0], ServerAction::Send { to, event: ConnectionEvent::Connected { connection_id } } if *to == a && *connection_id == a));
    assert!(matches!(&actions[1], ServerAction::SendInit { to, .. } if *to == a));
    let (b, actions) = connect(&mut server, file_id, None);
    assert_ne!(a, b);
    match &actions[2] {
        ServerAction::Broadcast { to, event: SessionEvent::SessionStateChanged(snapshot) } => {
            assert_eq!(to, &vec![a]);
            assert_eq!(snapshot.connections, vec![a, b]);
        }
        other => panic!("unexpected {:?}", other),
    }
}

#[test]
fn transaction_is_acknowledged_before_it_is_broadcast() {
    let mut server = Server::new();
    let file_id = 6u128;
    let (a, _) = connect(&mut server, file_id, Some(DocumentStorage::new()));
    let (b, _) = connect(&mut server, file_id, None);
    let (c, _) = connect(&mut server, file_id, None);
    let tx = Transaction { id: 99, items: vec![DocumentMutation::CreateObject(1, ObjectKind::Oval)] };
    let actions = server.handle_identifiable_command(a, IdentifiableCommand { command_id: 3, session_command: SessionCommand::Transaction(tx) });
    assert_eq!(actions.len(), 2);
    assert!(matches!(&actions[0], ServerAction::Send { to, event: ConnectionEvent::IdentifiableEvent(IdentifiableEvent::ByMyself { command_id: 3, result: CommandResult::SessionEvent(SessionEvent::TransactionAck(99)) }) } if *to == a));
    match &actions[1] {
        ServerAction::Broadcast { to, event: SessionEvent::OthersTransaction(t) } => {
            assert_eq!(to, &vec![b, c]);
            assert_eq!(t.id, 99);
        }
        other => panic!("unexpected {:?}", other),
    }
    let sid = server.state_ref().session_id(file_id).expect("online");
    let session = server.state_ref().get_session(sid).expect("present");
    assert_eq!(session.document().storage().get_object_kind(1), Some(ObjectKind::Oval));
}

#[test]
fn live_pointer_goes_to_everyone_else() {
    let mut server = Server::new();
    let (a, _) = connect(&mut server, 7, Some(DocumentStorage::new()));
    let (b, _) = connect(&mut server, 7, None);
    let actions = server.handle_identifiable_command(b, IdentifiableCommand { command_id: 1, session_command: SessionCommand::LivePointer(LivePointerCommand { x: 3, y: 4 }) });
    match &actions[..] {
        [ServerAction::Broadcast { to, event: SessionEvent::LivePointer(e) }] => {
            assert_eq!(to, &vec![a]);
            assert_eq!((e.connection_id, e.x, e.y), (b, 3, 4));
        }
        other => panic!("unexpected {:?}", other),
    }
    let sid = server.state_ref().session_id(7).unwrap();
    assert_eq!(server.broadcast_targets(sid, Some(a)), vec![b]);
    assert_eq!(server.broadcast_targets(sid, None), vec![a, b]);
    assert_eq!(server.broadcast_targets(sid + 1, None), Vec::<u16>::new());
}

#[test]
fn command_from_unknown_connection_is_dropped() {
    let mut server = Server::new();
    let actions = server.handle_identifiable_command(42, IdentifiableCommand { command_id: 1, session_command: SessionCommand::LivePointer(LivePointerCommand { x: 0, y: 0 }) });
    assert!(matches!(&actions[0], ServerAction::Send { to: 42, event: ConnectionEvent::Disconnected { connection_id: 42 } }));
    assert!(matches!(actions.last(), Some(ServerAction::Unregister { connection_id: 42 })));
}

#[test]
fn manual_commit_session_queues_until_committed() {
    let mut server = Server::new();
    let file_id = 8u128;
    let sid = server.open_manual_commit_session(file_id, DocumentStorage::new()).expect("opened");
    assert!(server.open_manual_commit_session(file_id, DocumentStorage::new()).is_err());
    let (a, _) = connect(&mut server, file_id, None);
    let (b, _) = connect(&mut server, file_id, None);
    let ta = Transaction { id: 1, items: vec![DocumentMutation::CreateObject(10, ObjectKind::Oval)] };
    let tb = Transaction { id: 2, items: vec![DocumentMutation::CreateObject(11, ObjectKind::Frame)] };
    assert!(server.handle_identifiable_command(a, IdentifiableCommand { command_id: 1, session_command: SessionCommand::Transaction(ta) }).is_empty());
    assert!(server.handle_identifiable_command(b, IdentifiableCommand { command_id: 1, session_command: SessionCommand::Transaction(tb) }).is_empty());
    assert_eq!(server.describe_file(file_id), FileDescription::Online { behavior: SessionBehavior::ManualCommitByAdmin, has_pending_txs: true });

    let (r, actions) = server.commit_manually(file_id);
    assert!(r.is_ok());
    assert!(matches!(&actions[0], ServerAction::Send { to, event: ConnectionEvent::IdentifiableEvent(IdentifiableEvent::BySystem { session_event: SessionEvent::TransactionAck(1) }) } if *to == a));
    assert!(matches!(&actions[1], ServerAction::Broadcast { to, event: SessionEvent::OthersTransaction(t) } if to == &vec![b] && t.id == 1));
    let (r, actions) = server.commit_manually(file_id);
    assert!(r.is_ok());
    assert!(matches!(&actions[1], ServerAction::Broadcast { to, event: SessionEvent::OthersTransaction(t) } if to == &vec![a] && t.id == 2));
    assert_eq!(server.describe_file(file_id), FileDescription::Online { behavior: SessionBehavior::ManualCommitByAdmin, has_pending_txs: false });
    let (r, actions) = server.commit_manually(file_id);
    assert!(r.is_err() && actions.is_empty());

    let (r, actions) = server.close_manual_commit_session(file_id);
    assert!(r.is_ok());
    assert!(matches!(&actions[1], ServerAction::Persist { file_id: f, .. } if *f == file_id));
    assert!(server.state_ref().get_session(sid).is_none());
    assert_eq!(server.describe_file(file_id), FileDescription::Offline);
    assert!(server.close_manual_commit_session(file_id).0.is_err());
}

#[test]
fn automatic_session_cannot_be_closed_by_hand_and_ends_when_empty() {
    let mut server = Server::new();
    let file_id = 9u128;
    let (a, _) = connect(&mut server, file_id, Some(DocumentStorage::new()));
    let (b, _) = connect(&mut server, file_id, None);
    assert!(server.close_manual_commit_session(file_id).0.is_err());
    assert!(server.commit_manually(file_id).0.is_err());
    let actions = server.disconnect(a);
    assert!(matches!(&actions[0], ServerAction::Broadcast { to, event: SessionEvent::SessionStateChanged(_) } if to == &vec![b]));
    assert!(server.state_ref().session_id(file_id).is_some());
    let actions = server.disconnect(b);
    assert!(matches!(&actions[1], ServerAction::Persist { file_id: f, .. } if *f == file_id));
    assert!(server.state_ref().session_id(file_id).is_none());
    let again = server.disconnect(b);
    assert_eq!(again.len(), 1);
}

#[test]
fn connection_state_machine() {
    let idle = ConnectionState::Idle;
    assert_eq!(idle.sender(), None);
    let (connected, step) = idle.on_egress(&ConnectionEvent::Connected { connection_id: 4 });
    assert_eq!((connected, step), (ConnectionState::Connected(4), EgressStep::Ignore));
    assert_eq!(connected.sender(), Some(4));
    let event = ConnectionEvent::IdentifiableEvent(IdentifiableEvent::BySystem { session_event: SessionEvent::TerminatedBySystem });
    assert_eq!(connected.on_egress(&event), (ConnectionState::Connected(4), EgressStep::Forward));
    assert_eq!(connected.on_close(), (ConnectionState::Closed, Some(4)));
    let (closed, step) = connected.on_egress(&ConnectionEvent::Disconnected { connection_id: 4 });
    assert_eq!((closed, step), (ConnectionState::Closed, EgressStep::Close));
    assert_eq!(closed.on_egress(&event), (ConnectionState::Closed, EgressStep::Ignore));
    assert_eq!(idle.on_close(), (ConnectionState::Closed, None));
}

#[test]
fn closing_a_session_forgets_its_connections() {
    let mut server = Server::new();
    let file_id = 12u128;
    server.open_manual_commit_session(file_id, DocumentStorage::new()).expect("opened");
    let (a, _) = connect(&mut server, file_id, None);
    let (_, actions) = server.close_manual_commit_session(file_id);
    assert!(matches!(&actions[0], ServerAction::Broadcast { to, event: SessionEvent::TerminatedBySystem } if to == &vec![a]));
    assert_eq!(server.state_ref().get_session_id_of_connection(a), None);
    let actions = server.handle_identifiable_command(a, IdentifiableCommand { command_id: 1, session_command: SessionCommand::LivePointer(LivePointerCommand { x: 0, y: 0 }) });
    assert!(matches!(&actions[0], ServerAction::Send { event: ConnectionEvent::Disconnected { .. }, .. }));
}
