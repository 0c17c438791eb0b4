use kotlin_analyzer::diagnostics::{to_lsp_diagnostic, Diagnostic, Severity, TextRange};
use kotlin_analyzer::index::{DiskFile, FileStamp, WorkspaceIndex};
use kotlin_analyzer::lsp::{
    document_changed, document_closed, document_opened, goto_definition, identifier_at_position,
    DefinitionResponse,
};
use kotlin_analyzer::parser::parse_with_ast;
use kotlin_analyzer::text::{DocumentStore, Position, Range, TextDocumentContentChangeEvent};
use ropey::Rope;

fn uris(locations: &[kotlin_analyzer::index::Location]) -> Vec<String> {
    locations.iter().map(|l| l.uri.clone()).collect()
}

#[test]
fn opening_a_document_indexes_it_and_reports_its_errors() {
    let mut docs = DocumentStore::new();
    let mut index = WorkspaceIndex::new();
    let uri = "file:///w/A.kt".to_string();
    let diags = document_opened(&mut docs, &mut index, uri.clone(), 1, "class Foo {}\nval x = # + 1".to_string());
    assert_eq!(diags.len(), 1);
    assert_eq!(diags[0].message, "Unexpected character: '#'");
    assert_eq!(diags[0].source.as_deref(), Some("kotlin-analyzer"));
    assert_eq!(diags[0].severity, Some(Severity::Error));
    assert_eq!(diags[0].range, Range { start: Position::new(1, 8), end: Position::new(1, 9) });
    assert_eq!(uris(&index.find_all("Foo")), vec![uri.clone()]);
    assert_eq!(docs.get(&uri).map(|d| d.version()), Some(1));
}

#[test]
fn changing_a_document_reindexes_its_new_text() {
    let mut docs = DocumentStore::new();
    let mut index = WorkspaceIndex::new();
    let uri = "file:///w/A.kt".to_string();
    let _ = document_opened(&mut docs, &mut index, uri.clone(), 1, "class Foo {}".to_string());
    let change = TextDocumentContentChangeEvent {
        range: Some(Range { start: Position::new(0, 6), end: Position::new(0, 9) }),
        range_length: None,
        text: "Bar".to_string(),
    };
    let diags = document_changed(&mut docs, &mut index, &uri, 2, &[change]);
    assert!(diags.is_empty());
    assert!(index.find_all("Foo").is_empty());
    assert_eq!(uris(&index.find_all("Bar")), vec![uri.clone()]);
    assert_eq!(docs.get(&uri).map(|d| (d.version(), d.text())), Some((2, "class Bar {}".to_string())));

    // Changing a document that is not open indexes it as empty text.
    let other = "file:///w/B.kt".to_string();
    let diags = document_changed(&mut docs, &mut index, &other, 5, &[]);
    assert!(diags.is_empty());
    assert!(docs.get(&other).is_none());
}

#[test]
fn closing_a_document_reads_it_from_disk() {
    let mut docs = DocumentStore::new();
    let mut index = WorkspaceIndex::new();
    let uri = "file:///w/A.kt".to_string();
    let _ = document_opened(&mut docs, &mut index, uri.clone(), 1, "fun edited() {}".to_string());
    let disk = DiskFile { path: "/w/A.kt".to_string(), text: "fun saved() {}".to_string(), modified: Some(42) };
    document_closed(&mut docs, &mut index, &uri, Some(disk));
    assert!(docs.get(&uri).is_none());
    assert!(index.find("edited").is_none());
    assert_eq!(index.find("saved").map(|l| l.uri), Some(uri.clone()));

    // Without a readable file the document's symbols go.
    document_closed(&mut docs, &mut index, &uri, None);
    assert!(index.find("saved").is_none());
}

#[test]
fn indexing_twice_is_indexing_once() {
    let source = "class A {}\nfun b() {}";
    let (ast, _) = parse_with_ast(source);
    let file = ast.expect("file");
    let mut index = WorkspaceIndex::new();
    index.update_from_ast("file:///x.kt".to_string(), Some(&file), source);
    index.update_from_ast("file:///y.kt".to_string(), Some(&file), source);
    index.update_from_ast("file:///x.kt".to_string(), Some(&file), source);
    assert_eq!(uris(&index.find_all("A")), vec!["file:///y.kt".to_string(), "file:///x.kt".to_string()]);
    index.update_from_ast("file:///x.kt".to_string(), None, source);
    assert_eq!(uris(&index.find_all("A")), vec!["file:///y.kt".to_string()]);
    assert_eq!(index.find("b").map(|l| l.range.start), Some(Position::new(1, 4)));
}

#[test]
fn refresh_reads_changed_files_and_forgets_missing_ones() {
    let a = FileStamp::new("/w/A.kt".to_string(), 1);
    let b = FileStamp::new("/w/B.kt".to_string(), 1);
    assert_eq!(a.uri.as_deref(), Some("file:///w/A.kt"));
    assert_eq!(FileStamp::new("rel/C.kt".to_string(), 1).uri, None);
    let mut index = WorkspaceIndex::build(
        &vec![a.duplicate(), b.duplicate()],
        &vec![Some("class A {}".to_string()), Some("class B {}".to_string())],
    );
    assert!(index.find("A").is_some() && index.find("B").is_some());

    // B unchanged, A touched, open document skipped.
    let a2 = FileStamp::new("/w/A.kt".to_string(), 2);
    let current = vec![a2.duplicate(), b.duplicate()];
    let stale = index.stale_files(&current, &vec![]);
    assert_eq!(stale, vec![true, false]);
    let skip = vec!["file:///w/A.kt".to_string()];
    assert_eq!(index.stale_files(&current, &skip), vec![false, false]);
    index.refresh_roots(&current, &vec![], &vec![Some("class A2 {}".to_string()), None]);
    assert!(index.find("A").is_none());
    assert!(index.find("A2").is_some());
    assert!(index.find("B").is_some());

    // B is gone from the scan: its symbols go too.
    index.refresh_roots(&vec![a2.duplicate()], &vec![], &vec![None]);
    assert!(index.find("B").is_none());
    assert!(index.find("A2").is_some());
}

#[test]
fn identifier_under_the_cursor() {
    let rope = Rope::from_str("val fooBar = baz_1 + 2\n");
    assert_eq!(identifier_at_position(&rope, Position::new(0, 4)), Some("fooBar".to_string()));
    assert_eq!(identifier_at_position(&rope, Position::new(0, 10)), Some("fooBar".to_string()));
    // Just after an identifier still names it.
    assert_eq!(identifier_at_position(&rope, Position::new(0, 18)), Some("baz_1".to_string()));
    assert_eq!(identifier_at_position(&rope, Position::new(0, 11)), None);
    assert_eq!(identifier_at_position(&Rope::from_str(""), Position::new(0, 0)), None);
}

#[test]
fn definition_prefers_the_workspace_then_the_document() {
    let mut index = WorkspaceIndex::new();
    let lib = "class Lib {}\nclass Lib {}";
    let (ast, _) = parse_with_ast(lib);
    index.update_from_ast("file:///w/Lib.kt".to_string(), ast.as_ref(), lib);
    let uri = "file:///w/Main.kt".to_string();
    let text = Rope::from_str("fun local() {}\nval x: Lib = local()");
    match goto_definition(&uri, &text, Position::new(1, 8), &index) {
        Some(DefinitionResponse::Array(v)) => assert_eq!(v.len(), 2),
        other => panic!("expected two locations, got {other:?}"),
    }
    match goto_definition(&uri, &text, Position::new(1, 15), &index) {
        Some(DefinitionResponse::Scalar(l)) => {
            assert_eq!(l.uri, uri);
            assert_eq!(l.range.start, Position::new(0, 4));
        }
        other => panic!("expected one location, got {other:?}"),
    }
    assert!(goto_definition(&uri, &text, Position::new(1, 11), &index).is_none());
    match goto_definition(&uri, &text, Position::new(1, 5), &index) {
        Some(DefinitionResponse::Scalar(l)) => assert_eq!(l.range.start, Position::new(1, 4)),
        other => panic!("expected the local x, got {other:?}"),
    }
}

#[test]
fn diagnostic_in_protocol_form() {
    let rope = Rope::from_str("a🍣b\nc");
    let diag = Diagnostic::new(TextRange::new(2, 5), Severity::Warning, "careful".to_string());
    let lsp = to_lsp_diagnostic(&diag, &rope);
    assert_eq!(lsp.range, Range { start: Position::new(0, 3), end: Position::new(1, 1) });
    assert_eq!(lsp.severity, Some(Severity::Warning));
    assert_eq!(lsp.source.as_deref(), Some("kotlin-analyzer"));
    assert_eq!(lsp.message, "careful");
}

#[test]
fn identifiers_may_hold_letters_beyond_ascii() {
    let rope = Rope::from_str("val über = 1");
    assert_eq!(identifier_at_position(&rope, Position::new(0, 5)), Some("über".to_string()));
    let (ast, diags) = parse_with_ast("val über = 1");
    assert!(diags.is_empty());
    assert_eq!(ast.map(|f| f.declarations.len()), Some(1));
}

#[test]
fn a_second_refresh_from_the_same_scan_reads_nothing() {
    let current = vec![
        FileStamp::new("/w/A.kt".to_string(), 10),
        FileStamp::new("/w/B.kt".to_string(), 20),
    ];
    let mut index = WorkspaceIndex::default();
    let stale = index.stale_files(&current, &vec![]);
    assert_eq!(stale, vec![true, true]);
    index.refresh_roots(&current, &vec![], &vec![Some("class A {}".to_string()), None]);
    assert_eq!(index.stale_files(&current, &vec![]), vec![false, false]);
    // Texts offered again are not read: the index stays as it was.
    index.refresh_roots(&current, &vec![], &vec![Some("class Other {}".to_string()), Some("class B {}".to_string())]);
    assert!(index.find("A").is_some());
    assert!(index.find("Other").is_none());
    assert!(index.find("B").is_none());
}

#[test]
fn defaults_are_empty() {
    assert!(DocumentStore::default().uris().is_empty());
    assert!(WorkspaceIndex::default().find_all("A").is_empty());
    assert!(kotlin_analyzer::analysis::SymbolIndex::default().all_symbols().is_empty());
    assert!(kotlin_analyzer::gradle::GradleCache::default().get("file:///w").is_none());
}

#[test]
fn refresh_leaves_open_documents_alone() {
    let a = FileStamp::new("/w/A.kt".to_string(), 1);
    let mut index = WorkspaceIndex::build(&vec![a.duplicate()], &vec![Some("class A {}".to_string())]);
    assert!(index.find("A").is_some());
    // A's file is gone from disk while A is open: its symbols stay.
    let open = vec!["file:///w/A.kt".to_string()];
    index.refresh_roots(&vec![], &open, &vec![]);
    assert!(index.find("A").is_some());
    // Once it is no longer open, a refresh that does not find it forgets it
    // only if its stamp is still held; it was dropped with the missing file.
    index.refresh_roots(&vec![], &vec![], &vec![]);
    assert!(index.find("A").is_some());
    let mut other = WorkspaceIndex::build(&vec![a.duplicate()], &vec![Some("class A {}".to_string())]);
    other.refresh_roots(&vec![], &vec![], &vec![]);
    assert!(other.find("A").is_none());
}

#[test]
fn dropping_a_document_keeps_the_others_in_order() {
    let mut index = WorkspaceIndex::new();
    for (uri, text) in [("file:///1.kt", "class A {}"), ("file:///2.kt", "class A {}"), ("file:///3.kt", "class A {}")] {
        let (ast, _) = parse_with_ast(text);
        index.update_from_ast(uri.to_string(), ast.as_ref(), text);
    }
    index.update_from_ast("file:///2.kt".to_string(), None, "");
    assert_eq!(uris(&index.find_all("A")), vec!["file:///1.kt".to_string(), "file:///3.kt".to_string()]);
}
