//! From a source text to its declarations and syntax diagnostics.
use vstd::prelude::*;
use crate::diagnostics::{Diagnostic, DiagnosticView, Severity, TextRange};
use crate::parser::ast::{ClassDecl, Decl, DeclKind, DeclView, File, FunDecl, Ident, PropertyDecl, Span};
use crate::parser::chars::{char_debug, debug_char, debug_str, str_debug};
use crate::parser::grammar::{self, law_unbalanced_delimiters_reported, lemma_run_indices, open_groups, parse_spec, DeclSpec, ParseIssue};
use crate::parser::lexer::{
    failure_point, kind_of, lemma_lex_ranges, lemma_scan_while, lex_ends_in_error, lex_from, CharClass, lex, lex_error_fits, lex_spec, lexeme_fits, payload_of, payload_spec, LexError, Lexeme, LexemeSpec,
    Token, TokenKind,
};
use crate::text::lines::utf8_len;

verus! {

/// How a token is written by `Debug`: its variant's name, and for a token
/// that carries text, that text's `Debug` rendering in parentheses.
pub open spec fn token_debug_spec(k: TokenKind, p: Seq<char>) -> Seq<char> {
    match k {
        TokenKind::Package => "Package"@,
        TokenKind::Import => "Import"@,
        TokenKind::Class => "Class"@,
        TokenKind::Fun => "Fun"@,
        TokenKind::Val => "Val"@,
        TokenKind::Var => "Var"@,
        TokenKind::Ident => "Ident("@ + str_debug(p) + ")"@,
        TokenKind::Int => "Int("@ + str_debug(p) + ")"@,
        TokenKind::Str => "String("@ + str_debug(p) + ")"@,
        TokenKind::Char => "Char("@ + str_debug(p) + ")"@,
        TokenKind::LParen => "LParen"@,
        TokenKind::RParen => "RParen"@,
        TokenKind::LBrace => "LBrace"@,
        TokenKind::RBrace => "RBrace"@,
        TokenKind::LBracket => "LBracket"@,
        TokenKind::RBracket => "RBracket"@,
        TokenKind::Comma => "Comma"@,
        TokenKind::Dot => "Dot"@,
        TokenKind::Colon => "Colon"@,
        TokenKind::ColonColon => "ColonColon"@,
        TokenKind::Semi => "Semi"@,
        TokenKind::Eq => "Eq"@,
        TokenKind::Arrow => "Arrow"@,
        TokenKind::Question => "Question"@,
        TokenKind::At => "At"@,
        TokenKind::LAngle => "LAngle"@,
        TokenKind::RAngle => "RAngle"@,
        TokenKind::Op => "Op("@ + str_debug(p) + ")"@,
    }
}

/// The diagnostic for a char where no token starts: it names what was
/// found where reading a token there failed (see [`failure_point`]), a
/// char or the end of the text.
pub open spec fn lex_diagnostic(s: Seq<char>, at: int) -> DiagnosticView {
    let p = failure_point(s, at);
    if p < s.len() {
        DiagnosticView {
            range: TextRange { start: p as usize, end: (p + 1) as usize },
            severity: Severity::Error,
            message: "Unexpected character: "@ + char_debug(s[p]),
        }
    } else {
        DiagnosticView {
            range: TextRange { start: s.len() as usize, end: s.len() as usize },
            severity: Severity::Error,
            message: "Unexpected end of input"@,
        }
    }
}

/// The diagnostic for a problem that the grammar found.
pub open spec fn parse_diagnostic(s: Seq<char>, ls: Seq<LexemeSpec>, issue: ParseIssue) -> DiagnosticView {
    match issue {
        ParseIssue::Unexpected(i) => {
            let l = ls[i as int];
            DiagnosticView {
                range: TextRange { start: l.start as usize, end: l.end as usize },
                severity: Severity::Error,
                message: "Unexpected token: "@ + token_debug_spec(
                    l.kind,
                    payload_spec(s, l.kind, l.start, l.end),
                ),
            }
        },
        ParseIssue::EndOfInput => DiagnosticView {
            range: TextRange { start: s.len() as usize, end: s.len() as usize },
            severity: Severity::Error,
            message: "Unexpected end of input"@,
        },
    }
}

/// A declaration as the grammar found it: its kind, the text of its name
/// and the name's byte range.
pub open spec fn decl_view_spec(s: Seq<char>, ls: Seq<LexemeSpec>, d: DeclSpec) -> DeclView {
    let l = ls[d.name as int];
    DeclView {
        kind: d.kind,
        name: s.subrange(l.start, l.end),
        span: Span {
            start: utf8_len(s.take(l.start)) as usize,
            end: utf8_len(s.take(l.end)) as usize,
        },
    }
}

/// Whether parsing a source text fails as a whole: the grammar met an item
/// it cannot recover from, and no file comes back.
pub open spec fn parse_fails(s: Seq<char>) -> bool {
    parse_spec(s, lex_spec(s).0).2
}

/// The declarations of a source text, in order; none when parsing fails.
pub open spec fn declarations_spec(s: Seq<char>) -> Seq<DeclView> {
    let ls = lex_spec(s).0;
    if parse_fails(s) {
        Seq::empty()
    } else {
        parse_spec(s, ls).0.map_values(|d: DeclSpec| decl_view_spec(s, ls, d))
    }
}

/// The syntax diagnostics of a source text: those of the lexer, then those
/// of the grammar.
pub open spec fn diagnostics_spec(s: Seq<char>) -> Seq<DiagnosticView> {
    let ls = lex_spec(s).0;
    let errs = lex_spec(s).1;
    errs.map_values(|at: int| lex_diagnostic(s, at)) + parse_spec(s, ls).1.map_values(
        |i: ParseIssue| parse_diagnostic(s, ls, i),
    )
}

/// Every syntax diagnostic of a text lies within it: its range starts no
/// later than it ends, and ends no later than the text does.
pub proof fn law_diagnostics_within_text(s: Seq<char>)
    requires
        s.len() <= usize::MAX,
    ensures
        forall|i: int|
            0 <= i < diagnostics_spec(s).len() ==> (#[trigger] diagnostics_spec(s)[i]).range.start
                <= diagnostics_spec(s)[i].range.end <= s.len(),
{
    let ls = lex_spec(s).0;
    let errs = lex_spec(s).1;
    lemma_lex_ranges(s, 0, false);
    lemma_run_indices(s, ls, ls.len() as int);
    if !lex_ends_in_error(s, 0, false) {
        assert(ls == lex_from(s, 0, false).0);
    }
    let issues = parse_spec(s, ls).1;
    let a = errs.map_values(|at: int| lex_diagnostic(s, at));
    let b = issues.map_values(|i: ParseIssue| parse_diagnostic(s, ls, i));
    let d = diagnostics_spec(s);
    assert(d == a + b);
    assert forall|i: int| 0 <= i < d.len() implies (#[trigger] d[i]).range.start <= d[i].range.end
        <= s.len() by {
        if i < a.len() {
            assert(d[i] == lex_diagnostic(s, errs[i]));
            assert(0 <= errs[i] < s.len());
            if s[errs[i]] == '"' {
                lemma_scan_while(s, errs[i] + 1, CharClass::StringBody);
            }
        } else {
            let k = i - a.len();
            assert(d[i] == parse_diagnostic(s, ls, issues[k]));
            match issues[k] {
                ParseIssue::Unexpected(j) => {
                    assert(j < ls.len());
                    assert(ls[j as int].start < ls[j as int].end <= s.len());
                },
                ParseIssue::EndOfInput => {},
            }
        }
    }
}

/// A text whose delimiters do not balance (more groups opened than closed,
/// as when the input ends inside a group, or the other way round) always
/// gets at least one syntax diagnostic.
pub proof fn law_unbalanced_delimiters_diagnosed(s: Seq<char>)
    requires
        open_groups(lex_spec(s).0, lex_spec(s).0.len() as int) != 0,
    ensures
        diagnostics_spec(s).len() > 0,
{
    let ls = lex_spec(s).0;
    law_unbalanced_delimiters_reported(s, ls);
    assert(diagnostics_spec(s).len() >= parse_spec(s, ls).1.len());
}

fn token_debug(t: &Token) -> (r: String)
    ensures
        r@ == token_debug_spec(kind_of(*t), payload_of(*t)),
{
    let (name, payload): (&str, Option<&String>) = match t {
        Token::Package => ("Package", None),
        Token::Import => ("Import", None),
        Token::Class => ("Class", None),
        Token::Fun => ("Fun", None),
        Token::Val => ("Val", None),
        Token::Var => ("Var", None),
        Token::Ident(p) => ("Ident(", Some(p)),
        Token::Int(p) => ("Int(", Some(p)),
        Token::String(p) => ("String(", Some(p)),
        Token::Char(p) => ("Char(", Some(p)),
        Token::LParen => ("LParen", None),
        Token::RParen => ("RParen", None),
        Token::LBrace => ("LBrace", None),
        Token::RBrace => ("RBrace", None),
        Token::LBracket => ("LBracket", None),
        Token::RBracket => ("RBracket", None),
        Token::Comma => ("Comma", None),
        Token::Dot => ("Dot", None),
        Token::Colon => ("Colon", None),
        Token::ColonColon => ("ColonColon", None),
        Token::Semi => ("Semi", None),
        Token::Eq => ("Eq", None),
        Token::Arrow => ("Arrow", None),
        Token::Question => ("Question", None),
        Token::At => ("At", None),
        Token::LAngle => ("LAngle", None),
        Token::RAngle => ("RAngle", None),
        Token::Op(p) => ("Op(", Some(p)),
    };
    let mut r = name.to_owned();
    if let Some(p) = payload {
        let rendered = debug_str(p.as_str());
        r.append(rendered.as_str());
        r.append(")");
    }
    r
}

fn lex_error_diagnostic(e: &LexError, text_len: usize, Ghost(s): Ghost<Seq<char>>) -> (d: Diagnostic)
    requires
        lex_error_fits(s, *e),
        text_len == s.len(),
    ensures
        d@ == lex_diagnostic(s, e.at as int),
{
    match e.found {
        Some(c) => {
            let mut message = "Unexpected character: ".to_owned();
            let rendered = debug_char(c);
            message.append(rendered.as_str());
            Diagnostic::new(TextRange::new(e.point, e.point + 1), Severity::Error, message)
        },
        None => {
            let d = Diagnostic::new(
                TextRange::new(text_len, text_len),
                Severity::Error,
                "Unexpected end of input".to_owned(),
            );
            d
        },
    }
}

fn issue_diagnostic(
    lexemes: &Vec<Lexeme>,
    issue: ParseIssue,
    text_len: usize,
    Ghost(s): Ghost<Seq<char>>,
) -> (d: Diagnostic)
    requires
        forall|i: int| 0 <= i < lexemes.len() ==> lexeme_fits(s, #[trigger] lexemes@[i]),
        issue matches ParseIssue::Unexpected(i) ==> i < lexemes.len(),
        text_len == s.len(),
    ensures
        d@ == parse_diagnostic(s, lexemes@.map_values(|l: Lexeme| l@), issue),
{
    match issue {
        ParseIssue::Unexpected(i) => {
            let l = &lexemes[i];
            assert(lexeme_fits(s, lexemes@[i as int]));
            let mut message = "Unexpected token: ".to_owned();
            let rendered = token_debug(&l.token);
            message.append(rendered.as_str());
            Diagnostic::new(TextRange::new(l.start, l.end), Severity::Error, message)
        },
        ParseIssue::EndOfInput => Diagnostic::new(
            TextRange::new(text_len, text_len),
            Severity::Error,
            "Unexpected end of input".to_owned(),
        ),
    }
}

fn build_decl(lexemes: &Vec<Lexeme>, d: DeclSpec, Ghost(s): Ghost<Seq<char>>) -> (decl: Decl)
    requires
        forall|i: int| 0 <= i < lexemes.len() ==> lexeme_fits(s, #[trigger] lexemes@[i]),
        d.name < lexemes.len(),
        kind_of(lexemes@[d.name as int].token) == TokenKind::Ident,
    ensures
        decl@ == decl_view_spec(s, lexemes@.map_values(|l: Lexeme| l@), d),
{
    let l = &lexemes[d.name];
    assert(lexeme_fits(s, lexemes@[d.name as int]));
    let name = match &l.token {
        Token::Ident(p) => p.clone(),
        _ => String::new(),
    };
    let ident = Ident { name, span: Span { start: l.byte_start, end: l.byte_end } };
    match d.kind {
        DeclKind::Class => Decl::Class(ClassDecl { name: ident }),
        DeclKind::Fun => Decl::Fun(FunDecl { name: ident }),
        DeclKind::Property(mutability) => Decl::Property(PropertyDecl { name: ident, mutability }),
    }
}

/// Lexes and parses a source text: its declarations (see
/// [`declarations_spec`]) and its syntax diagnostics (see
/// [`diagnostics_spec`]).  No file comes back when an item fails past its
/// keyword in a way the grammar cannot recover from (see [`parse_fails`]).
pub fn parse_with_ast(text: &str) -> (r: (Option<File>, Vec<Diagnostic>))
    ensures
        (r.0 is None) == parse_fails(text@),
        r.0 matches Some(f) ==> f.declarations@.map_values(|d: Decl| d@) == declarations_spec(text@),
        r.1@.map_values(|d: Diagnostic| d@) == diagnostics_spec(text@),
{
    let ghost s = text@;
    let text_len = text.unicode_len();
    let (lexemes, lex_errors) = lex(text);
    let ghost ls = lexemes@.map_values(|l: Lexeme| l@);
    let ghost errs = lex_spec(s).1;
    let mut diagnostics: Vec<Diagnostic> = Vec::new();
    let mut k: usize = 0;
    while k < lex_errors.len()
        invariant
            k <= lex_errors.len(),
            text_len == s.len(),
            s == text@,
            lex_errors@.map_values(|e: LexError| e.at as int) == errs,
            forall|i: int| 0 <= i < lex_errors.len() ==> lex_error_fits(s, #[trigger] lex_errors@[i]),
            diagnostics.len() == k,
            forall|t: int| 0 <= t < k ==> (#[trigger] diagnostics@[t])@ == lex_diagnostic(s, errs[t]),
        decreases lex_errors.len() - k,
    {
        let e = &lex_errors[k];
        assert(lex_error_fits(s, lex_errors@[k as int]));
        assert(errs[k as int] == e.at as int);
        let d = lex_error_diagnostic(e, text_len, Ghost(s));
        diagnostics.push(d);
        k = k + 1;
    }
    let ghost lex_count = diagnostics.len() as int;
    let (decl_specs, issues, failed) = grammar::parse(&lexemes, Ghost(s));
    proof {
        lemma_run_indices(s, ls, ls.len() as int);
    }
    let mut k: usize = 0;
    while k < issues.len()
        invariant
            k <= issues.len(),
            text_len == s.len(),
            ls == lexemes@.map_values(|l: Lexeme| l@),
            issues@ == parse_spec(s, ls).1,
            errs.len() == lex_count,
            forall|i: int| 0 <= i < lexemes.len() ==> lexeme_fits(s, #[trigger] lexemes@[i]),
            forall|i: int|
                0 <= i < issues.len() ==> (#[trigger] issues@[i] matches ParseIssue::Unexpected(j)
                    ==> j < lexemes.len()),
            diagnostics.len() == lex_count + k,
            forall|t: int| 0 <= t < lex_count ==> (#[trigger] diagnostics@[t])@ == lex_diagnostic(s, errs[t]),
            forall|t: int|
                lex_count <= t < lex_count + k ==> (#[trigger] diagnostics@[t])@ == parse_diagnostic(
                    s,
                    ls,
                    issues@[t - lex_count],
                ),
        decreases issues.len() - k,
    {
        assert(issues@[k as int] matches ParseIssue::Unexpected(j) ==> j < lexemes.len());
        let d = issue_diagnostic(&lexemes, issues[k], text_len, Ghost(s));
        diagnostics.push(d);
        k = k + 1;
    }
    proof {
        let want = diagnostics_spec(s);
        let got = diagnostics@.map_values(|d: Diagnostic| d@);
        assert(errs == lex_spec(s).1);
        assert(ls == lex_spec(s).0);
        assert forall|t: int| 0 <= t < diagnostics.len() implies #[trigger] got[t] == want[t] by {
            if t < lex_count {
                assert(diagnostics@[t]@ == lex_diagnostic(s, errs[t]));
            } else {
                assert(diagnostics@[t]@ == parse_diagnostic(s, ls, issues@[t - lex_count]));
            }
        }
        assert(got =~= want);
    }
    if failed {
        return (None, diagnostics);
    }
    let mut declarations: Vec<Decl> = Vec::new();
    let mut k: usize = 0;
    while k < decl_specs.len()
        invariant
            k <= decl_specs.len(),
            ls == lexemes@.map_values(|l: Lexeme| l@),
            decl_specs@ == parse_spec(s, ls).0,
            forall|i: int| 0 <= i < lexemes.len() ==> lexeme_fits(s, #[trigger] lexemes@[i]),
            forall|i: int|
                0 <= i < decl_specs.len() ==> (#[trigger] decl_specs@[i]).name < lexemes.len()
                    && ls[decl_specs@[i].name as int].kind == TokenKind::Ident,
            declarations.len() == k,
            forall|t: int| 0 <= t < k ==> (#[trigger] declarations@[t])@ == decl_view_spec(s, ls, decl_specs@[t]),
        decreases decl_specs.len() - k,
    {
        let ds = decl_specs[k];
        assert(decl_specs@[k as int].name < lexemes.len());
        let d = build_decl(&lexemes, ds, Ghost(s));
        declarations.push(d);
        k = k + 1;
    }
    proof {
        let want = declarations_spec(s);
        let got = declarations@.map_values(|d: Decl| d@);
        assert forall|t: int| 0 <= t < declarations.len() implies #[trigger] got[t] == want[t] by {
            assert(declarations@[t]@ == decl_view_spec(s, ls, decl_specs@[t]));
        }
        assert(got =~= want);
    }
    (Some(File { declarations }), diagnostics)
}

/// The syntax diagnostics of a source text (see [`diagnostics_spec`]).
pub fn parse(text: &str) -> (diagnostics: Vec<Diagnostic>)
    ensures
        diagnostics@.map_values(|d: Diagnostic| d@) == diagnostics_spec(text@),
{
    parse_with_ast(text).1
}

} // verus!
