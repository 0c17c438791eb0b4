use kotlin_analyzer::diagnostics::{Severity, TextRange};
use kotlin_analyzer::parser::parse;

#[test]
fn unexpected_character_message_and_range() {
    let diags = parse("val x = #");
    assert!(!diags.is_empty());
    assert_eq!(diags[0].message, "Unexpected character: '#'");
    assert_eq!(diags[0].range, TextRange::new(8, 9));
    assert_eq!(diags[0].severity, Severity::Error);
}

#[test]
fn unclosed_brace_reports_end_of_input() {
    let source = "fun bar() { val x = 1";
    let diags = parse(source);
    let last = diags.last().expect("a diagnostic");
    assert_eq!(last.message, "Unexpected end of input");
    let n = source.chars().count();
    assert_eq!(last.range, TextRange::new(n, n));
}

#[test]
fn stray_closing_brace_is_an_unexpected_token() {
    let diags = parse("class A {}\n}");
    assert_eq!(diags.len(), 1);
    assert_eq!(diags[0].message, "Unexpected token: RBrace");
    assert_eq!(diags[0].range, TextRange::new(11, 12));
}

#[test]
fn comments_and_strings_are_not_errors() {
    let source = "// line comment\n/* block\n comment */\nval s = \"a # b\"\nval c = '#'\n";
    assert!(parse(source).is_empty(), "{:?}", parse(source));
}

#[test]
fn diagnostics_stay_within_the_text() {
    for source in ["", "#", "fun (", "class { ]", "val x = 1 }}", "package", "import a.", "var 🍣 = 1"] {
        let n = source.chars().count();
        for d in parse(source) {
            assert!(d.range.start <= d.range.end && d.range.end <= n, "{source:?}: {d:?}");
        }
    }
}

#[test]
fn unexpected_tokens_quote_their_text() {
    let diags = parse("class 12 {}");
    let messages: Vec<&str> = diags.iter().map(|d| d.message.as_str()).collect();
    assert_eq!(messages, vec!["Unexpected token: Int(\"12\")"]);
    let diags = parse("fun \"a\\tb\"() {}");
    let messages: Vec<&str> = diags.iter().map(|d| d.message.as_str()).collect();
    assert_eq!(messages, vec!["Unexpected token: String(\"a\\\\tb\")"]);
}

use kotlin_analyzer::parser::parse_with_ast;

fn names(source: &str) -> Option<Vec<String>> {
    let (file, _) = parse_with_ast(source);
    file.map(|f| {
        f.declarations
            .iter()
            .map(|d| match d {
                kotlin_analyzer::parser::Decl::Class(c) => c.name.name.clone(),
                kotlin_analyzer::parser::Decl::Fun(f) => f.name.name.clone(),
                kotlin_analyzer::parser::Decl::Property(p) => p.name.name.clone(),
            })
            .collect()
    })
}

#[test]
fn an_initialiser_or_type_takes_the_rest_of_its_group() {
    // The initialiser of `a` runs on over the next declaration.
    assert_eq!(names("val a = 1\nval b = 2"), Some(vec!["a".to_string()]));
    assert_eq!(names("val a: Int\nfun f() {}"), Some(vec!["a".to_string()]));
    assert_eq!(names("fun f(): Int { return 1 }\nclass B {}"), Some(vec!["f".to_string()]));
    // Without one, the next declaration starts a new item.
    assert_eq!(
        names("val a\nfun f() {}\nclass B {}"),
        Some(vec!["a".to_string(), "f".to_string(), "B".to_string()])
    );
    // A closing delimiter that closes no group ends it, and is reported.
    let diags = parse("val a = 1 }\nval b = 2");
    assert_eq!(diags.len(), 1);
    assert_eq!(diags[0].message, "Unexpected token: RBrace");
    assert_eq!(names("val a = 1 }\nval b = 2"), Some(vec!["a".to_string(), "b".to_string()]));
}

#[test]
fn unlexable_chars_at_the_end_leave_no_tokens() {
    assert_eq!(names("val x = #"), Some(vec![]));
    assert_eq!(names("val x = #  // trailing\n"), Some(vec![]));
    assert_eq!(names("val x = # 1"), Some(vec!["x".to_string()]));
}

#[test]
fn unterminated_literals_report_where_they_stop() {
    let source = "val s = \"abc";
    let diags = parse(source);
    assert_eq!(diags.len(), 1);
    assert_eq!(diags[0].message, "Unexpected end of input");
    assert_eq!(diags[0].range, TextRange::new(12, 12));
    let diags = parse("val s = \"abc\nval t = 1");
    assert_eq!(diags[0].message, "Unexpected character: '\\n'");
    assert_eq!(diags[0].range, TextRange::new(12, 13));
    let diags = parse("val c = 'ab' + 1");
    assert_eq!(diags[0].message, "Unexpected character: 'b'");
    assert_eq!(diags[0].range, TextRange::new(10, 11));
}

#[test]
fn a_missing_name_fails_the_whole_parse() {
    for (source, message) in [
        ("class {", "Unexpected token: LBrace"),
        ("class A {}\nfun (", "Unexpected token: LParen"),
        ("val 1", "Unexpected token: Int(\"1\")"),
        ("fun f {}", "Unexpected token: LBrace"),
        ("class", "Unexpected end of input"),
    ] {
        let (file, diags) = parse_with_ast(source);
        assert!(file.is_none(), "{source:?}");
        let messages: Vec<&str> = diags.iter().map(|d| d.message.as_str()).collect();
        assert_eq!(messages, vec![message], "{source:?}");
    }
}
