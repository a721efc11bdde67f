use realtime_canvas::fractional_index::{avg_defined, index_less, parse_index};
use realtime_canvas::{
    create_last_index_of_parent, ClientFollowerDocument, Color, DocumentCommand, DocumentMutation,
    DocumentStorage, ObjectKind, Point, TransactionalDocument,
};

#[test]
fn parse_accepts_printable_ascii_only() {
    assert!(parse_index("O"));
    assert!(parse_index("j>Z= 4"));
    assert!(parse_index("~"));
    assert!(!parse_index(""));
    assert!(!parse_index("한글"));
    assert!(!parse_index("a\tb"));
    assert!(!parse_index("\u{7f}"));
}

#[test]
fn order_is_lexicographic() {
    assert!(index_less("7", "O"));
    assert!(index_less("O", "O "));
    assert!(index_less("O", "g"));
    assert!(!index_less("g", "O"));
    assert!(!index_less("O", "O"));
    assert!(index_less("", "!"));
}

#[test]
fn average_definedness_follows_the_carried_remainder() {
    assert!(avg_defined("O", "g"));
    assert!(avg_defined("~~", "~~"));
    assert!(!avg_defined("!~", " ~"));
    assert!(avg_defined(" ~", " ~"));
}

#[test]
fn first_child_index_is_the_middle() {
    let doc = TransactionalDocument::new();
    assert_eq!(create_last_index_of_parent(&doc, doc.document_id()), "O");
}

fn create_oval(doc: &mut ClientFollowerDocument) -> u128 {
    let tx = doc
        .handle_command(DocumentCommand::CreateOval { pos: Point { x: 0, y: 0 }, r_h: 1, r_v: 1, fill_color: Color::default() })
        .expect("created")
        .transaction;
    match &tx.items[0] {
        DocumentMutation::CreateObject(id, ObjectKind::Oval) => *id,
        _ => panic!("unexpected transaction"),
    }
}

#[test]
fn repeated_midpoint_insertion_stays_ordered() {
    let mut doc = ClientFollowerDocument::new(DocumentStorage::new());
    let document_id = doc.document().document_id();
    let first = create_oval(&mut doc);
    let last = create_oval(&mut doc);
    let mut inserted = Vec::new();
    for _ in 0..8 {
        let id = create_oval(&mut doc);
        doc.handle_command(DocumentCommand::UpdateIndex { id, int_index: 1 }).expect("reordered");
        inserted.push(id);
    }
    let children = doc.document().get_children_indices(document_id);
    assert_eq!(children.len(), 10);
    assert_eq!(children[0].0, first);
    assert_eq!(children[9].0, last);
    for w in children.windows(2) {
        assert!(index_less(&w[0].1, &w[1].1), "{:?} then {:?}", w[0].1, w[1].1);
    }
    let newest_first: Vec<u128> = inserted.iter().rev().cloned().collect();
    let middle: Vec<u128> = children[1..9].iter().map(|c| c.0).collect();
    assert_eq!(middle, newest_first);
}

fn doc_with_indices(indices: &[&str]) -> (TransactionalDocument, u128) {
    let mut storage = DocumentStorage::new();
    let document_id = storage.document_id();
    let mut items = Vec::new();
    for (i, index) in indices.iter().enumerate() {
        let id = (i as u128) + 1;
        items.push(DocumentMutation::CreateObject(id, ObjectKind::Oval));
        items.push(DocumentMutation::UpsertProp(id, realtime_canvas::PropKind::Parent, Some(realtime_canvas::PropValue::Reference(document_id))));
        items.push(DocumentMutation::UpsertProp(id, realtime_canvas::PropKind::Index, Some(realtime_canvas::PropValue::String(index.to_string()))));
    }
    storage.process(&realtime_canvas::Transaction { id: 1, items }).unwrap();
    (TransactionalDocument::from_storage(storage), document_id)
}

#[test]
fn average_of_an_index_and_its_extension_by_a_space_is_not_strictly_between() {
    // base95 averages "O" and "O " to "O " itself: no index lies strictly between them.
    let (doc, _) = doc_with_indices(&["O", "O ", "g"]);
    let tx = realtime_canvas::convert_command(&doc, DocumentCommand::UpdateIndex { id: 3, int_index: 1 }, 9, 9).expect("converted");
    match &tx.items[0] {
        DocumentMutation::UpsertProp(3, realtime_canvas::PropKind::Index, Some(realtime_canvas::PropValue::String(s))) => assert_eq!(s, "O "),
        other => panic!("unexpected {:?}", other),
    }
}

#[test]
fn invalid_last_index_falls_back_to_the_middle() {
    let (doc, document_id) = doc_with_indices(&["g", ""]);
    assert_eq!(doc.sort_index_of(2), "O");
    assert_eq!(doc.get_children(document_id), vec![2, 1]);
    assert_eq!(create_last_index_of_parent(&doc, document_id), "s");
    let (doc, document_id) = doc_with_indices(&["7", "\u{7f}"]);
    assert_eq!(doc.get_children(document_id), vec![1, 2]);
    assert_eq!(create_last_index_of_parent(&doc, document_id), "O");
}

#[test]
fn average_that_would_write_del_is_refused() {
    // Digit sums 3 (odd, so a remainder is carried) then 48 + 48 = 96: the half is 95, DEL.
    assert!(!avg_defined("!P", "\"P"));
    assert!(avg_defined("!0", "\"0"));
}
