use kotlin_analyzer::text::{DocumentStore, Position, Range, TextDocument, TextDocumentContentChangeEvent};
use tower_lsp::lsp_types::Url;

fn edit(start: (u32, u32), end: (u32, u32), text: &str) -> TextDocumentContentChangeEvent {
    TextDocumentContentChangeEvent {
        range: Some(Range {
            start: Position::new(start.0, start.1),
            end: Position::new(end.0, end.1),
        }),
        range_length: None,
        text: text.to_string(),
    }
}

#[test]
fn applies_incremental_change() {
    let uri = Url::parse("file:///test.kt").expect("valid uri");
    let mut doc = TextDocument::new(uri.to_string(), 1, "val x = 1\n".to_string());

    let change = TextDocumentContentChangeEvent {
        range: Some(Range {
            start: Position::new(0, 4),
            end: Position::new(0, 5),
        }),
        range_length: None,
        text: "y".to_string(),
    };

    doc.apply_change(&change);

    assert_eq!(doc.text(), "val y = 1\n");
}

#[test]
fn change_without_range_replaces_whole_text() {
    let mut doc = TextDocument::new("file:///a.kt".to_string(), 1, "val x = 1\nval y = 2\n".to_string());
    let change = TextDocumentContentChangeEvent { range: None, range_length: None, text: "fun f() {}".to_string() };
    doc.apply_change(&change);
    assert_eq!(doc.text(), "fun f() {}");
}

#[test]
fn change_with_reversed_range_leaves_text() {
    let mut doc = TextDocument::new("file:///a.kt".to_string(), 1, "val x = 1\n".to_string());
    doc.apply_change(&edit((0, 5), (0, 4), "zzz"));
    assert_eq!(doc.text(), "val x = 1\n");
}

#[test]
fn change_counts_columns_in_utf16_units() {
    // The emoji takes two UTF-16 units: column 3 is just after it.
    let mut doc = TextDocument::new("file:///a.kt".to_string(), 1, "a🍣b\nc".to_string());
    doc.apply_change(&edit((0, 3), (0, 4), "X"));
    assert_eq!(doc.text(), "a🍣X\nc");
    doc.apply_change(&edit((1, 0), (1, 1), "line two"));
    assert_eq!(doc.text(), "a🍣X\nline two");
}

#[test]
fn change_spanning_lines_and_past_the_end() {
    let mut doc = TextDocument::new("file:///a.kt".to_string(), 1, "ab\ncd\nef".to_string());
    doc.apply_change(&edit((0, 1), (1, 1), "-"));
    assert_eq!(doc.text(), "a-d\nef");
    // A position past the end of the text lands at its end.
    doc.apply_change(&edit((9, 0), (9, 5), "!"));
    assert_eq!(doc.text(), "a-d\nef!");
}

#[test]
fn version_and_slice() {
    let mut doc = TextDocument::new("file:///a.kt".to_string(), 3, "hello world".to_string());
    assert_eq!(doc.version(), 3);
    doc.set_version(4);
    assert_eq!(doc.version(), 4);
    assert_eq!(doc.uri(), "file:///a.kt");
    assert_eq!(doc.slice(6, 11), "world");
    assert_eq!(doc.slice(6, 100), "world");
    assert_eq!(doc.slice(5, 2), "");
}

#[test]
fn store_open_then_get_and_close() {
    let mut store = DocumentStore::new();
    let a = "file:///a.kt".to_string();
    let b = "file:///b.kt".to_string();
    store.open(a.clone(), 1, "val a = 1".to_string());
    store.open(b.clone(), 7, "val b = 2".to_string());
    assert_eq!(store.get(&a).map(|d| d.text()), Some("val a = 1".to_string()));
    assert_eq!(store.get(&b).map(|d| d.version()), Some(7));

    // Opening again replaces the document under that URI only.
    store.open(a.clone(), 2, "val a = 3".to_string());
    assert_eq!(store.get(&a).map(|d| (d.version(), d.text())), Some((2, "val a = 3".to_string())));
    assert_eq!(store.get(&b).map(|d| d.text()), Some("val b = 2".to_string()));
    let mut uris = store.uris();
    uris.sort();
    assert_eq!(uris, vec![a.clone(), b.clone()]);

    store.close(&a);
    assert!(store.get(&a).is_none());
    assert_eq!(store.get(&b).map(|d| d.text()), Some("val b = 2".to_string()));
    assert_eq!(store.uris(), vec![b.clone()]);
}

#[test]
fn store_changes_in_one_batch_or_two_agree() {
    let uri = "file:///a.kt".to_string();
    let first = [edit((0, 4), (0, 5), "y")];
    let second = [edit((0, 8), (0, 9), "42")];
    let both = [edit((0, 4), (0, 5), "y"), edit((0, 8), (0, 9), "42")];

    let mut one = DocumentStore::new();
    one.open(uri.clone(), 1, "val x = 1\n".to_string());
    one.apply_changes(&uri, 3, &both);

    let mut two = DocumentStore::new();
    two.open(uri.clone(), 1, "val x = 1\n".to_string());
    two.apply_changes(&uri, 2, &first);
    two.apply_changes(&uri, 3, &second);

    let a = one.get(&uri).map(|d| (d.version(), d.text()));
    let b = two.get(&uri).map(|d| (d.version(), d.text()));
    assert_eq!(a, Some((3, "val y = 42\n".to_string())));
    assert_eq!(a, b);
}

#[test]
fn store_ignores_changes_to_unknown_documents() {
    let mut store = DocumentStore::new();
    let uri = "file:///missing.kt".to_string();
    store.apply_changes(&uri, 2, &[edit((0, 0), (0, 0), "x")]);
    assert!(store.get(&uri).is_none());
    assert!(store.uris().is_empty());
}
