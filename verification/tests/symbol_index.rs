use kotlin_analyzer::analysis::SymbolIndex;
use kotlin_analyzer::parser::parse_with_ast;
use kotlin_analyzer::text::{Position, Range};
use ropey::Rope;

#[test]
fn finds_symbol_by_name() {
    let source = r#"
        class Foo {}
        fun bar() {}
        val baz = 1
    "#;

    let (ast, diagnostics) = parse_with_ast(source);
    assert!(diagnostics.is_empty(), "unexpected diagnostics: {diagnostics:?}");
    let file = ast.expect("expected ast");

    let rope = Rope::from_str(source);
    let index = SymbolIndex::from_file(&file, &rope);

    assert!(index.find("Foo").is_some());
    assert!(index.find("bar").is_some());
    assert!(index.find("baz").is_some());
}

#[test]
fn symbols_are_located_at_their_names() {
    let source = "class Foo {}\nfun bär() {}\nval x\nvar x = 2";
    let (ast, _) = parse_with_ast(source);
    let file = ast.expect("expected ast");
    let rope = Rope::from_str(source);
    let index = SymbolIndex::from_file(&file, &rope);

    let foo = index.find("Foo").expect("Foo");
    assert_eq!(foo.range, Range { start: Position::new(0, 6), end: Position::new(0, 9) });
    let all = index.all_symbols();
    let names: Vec<&str> = all.iter().map(|s| s.name.as_str()).collect();
    assert_eq!(names, vec!["Foo", "bär", "x", "x"]);
    let xs = index.find_all("x");
    assert_eq!(xs.len(), 2);
    assert_eq!(xs[0].range.start, Position::new(2, 4));
    assert_eq!(xs[1].range.start, Position::new(3, 4));
    // The first of `find_all` is what `find` gives.
    assert_eq!(index.find("x").map(|s| s.range), Some(xs[0].range));
    assert!(index.find("missing").is_none());
    assert!(index.find_all("missing").is_empty());
    assert!(SymbolIndex::new().all_symbols().is_empty());
}
