//! The lexer: from the chars of a source text to tokens, with one error
//! for each run of chars where no token starts.
use vstd::prelude::*;
use crate::parser::chars::{
    collect_chars, ident_continue, ident_start, is_ascii_digit, is_ascii_letter,
    is_ident_continue, is_ident_start, string_push, utf8_width_of,
};
use crate::text::lines::{lemma_utf8_len_take, utf8_len};

verus! {

/// What kind of token a token is, without its text.
#[derive(Clone, Copy, Debug, PartialEq, Eq, Structural)]
pub enum TokenKind {
    Package,
    Import,
    Class,
    Fun,
    Val,
    Var,
    Ident,
    Int,
    Str,
    Char,
    LParen,
    RParen,
    LBrace,
    RBrace,
    LBracket,
    RBracket,
    Comma,
    Dot,
    Colon,
    ColonColon,
    Semi,
    Eq,
    Arrow,
    Question,
    At,
    LAngle,
    RAngle,
    Op,
}

/// A token of the Kotlin subset: keywords, identifiers, literals,
/// punctuation and operator runs.
#[derive(Debug, Clone, PartialEq, Eq, Hash)]
pub enum Token {
    Package,
    Import,
    Class,
    Fun,
    Val,
    Var,
    Ident(String),
    Int(String),
    String(String),
    Char(String),
    LParen,
    RParen,
    LBrace,
    RBrace,
    LBracket,
    RBracket,
    Comma,
    Dot,
    Colon,
    ColonColon,
    Semi,
    Eq,
    Arrow,
    Question,
    At,
    LAngle,
    RAngle,
    Op(String),
}

pub open spec fn kind_of(t: Token) -> TokenKind {
    match t {
        Token::Package => TokenKind::Package,
        Token::Import => TokenKind::Import,
        Token::Class => TokenKind::Class,
        Token::Fun => TokenKind::Fun,
        Token::Val => TokenKind::Val,
        Token::Var => TokenKind::Var,
        Token::Ident(_) => TokenKind::Ident,
        Token::Int(_) => TokenKind::Int,
        Token::String(_) => TokenKind::Str,
        Token::Char(_) => TokenKind::Char,
        Token::LParen => TokenKind::LParen,
        Token::RParen => TokenKind::RParen,
        Token::LBrace => TokenKind::LBrace,
        Token::RBrace => TokenKind::RBrace,
        Token::LBracket => TokenKind::LBracket,
        Token::RBracket => TokenKind::RBracket,
        Token::Comma => TokenKind::Comma,
        Token::Dot => TokenKind::Dot,
        Token::Colon => TokenKind::Colon,
        Token::ColonColon => TokenKind::ColonColon,
        Token::Semi => TokenKind::Semi,
        Token::Eq => TokenKind::Eq,
        Token::Arrow => TokenKind::Arrow,
        Token::Question => TokenKind::Question,
        Token::At => TokenKind::At,
        Token::LAngle => TokenKind::LAngle,
        Token::RAngle => TokenKind::RAngle,
        Token::Op(_) => TokenKind::Op,
    }
}

/// The text a token carries (empty for keywords and punctuation).
pub open spec fn payload_of(t: Token) -> Seq<char> {
    match t {
        Token::Ident(s) => s@,
        Token::Int(s) => s@,
        Token::String(s) => s@,
        Token::Char(s) => s@,
        Token::Op(s) => s@,
        _ => Seq::empty(),
    }
}

impl Token {
    pub fn kind(&self) -> (k: TokenKind)
        ensures
            k == kind_of(*self),
    {
        match self {
            Token::Package => TokenKind::Package,
            Token::Import => TokenKind::Import,
            Token::Class => TokenKind::Class,
            Token::Fun => TokenKind::Fun,
            Token::Val => TokenKind::Val,
            Token::Var => TokenKind::Var,
            Token::Ident(_) => TokenKind::Ident,
            Token::Int(_) => TokenKind::Int,
            Token::String(_) => TokenKind::Str,
            Token::Char(_) => TokenKind::Char,
            Token::LParen => TokenKind::LParen,
            Token::RParen => TokenKind::RParen,
            Token::LBrace => TokenKind::LBrace,
            Token::RBrace => TokenKind::RBrace,
            Token::LBracket => TokenKind::LBracket,
            Token::RBracket => TokenKind::RBracket,
            Token::Comma => TokenKind::Comma,
            Token::Dot => TokenKind::Dot,
            Token::Colon => TokenKind::Colon,
            Token::ColonColon => TokenKind::ColonColon,
            Token::Semi => TokenKind::Semi,
            Token::Eq => TokenKind::Eq,
            Token::Arrow => TokenKind::Arrow,
            Token::Question => TokenKind::Question,
            Token::At => TokenKind::At,
            Token::LAngle => TokenKind::LAngle,
            Token::RAngle => TokenKind::RAngle,
            Token::Op(_) => TokenKind::Op,
        }
    }
}

/// Classes of chars that the lexer scans runs of.
#[derive(Clone, Copy, PartialEq, Eq, Structural)]
pub enum CharClass {
    /// ASCII letters, digits and `_`.
    AsciiIdentContinue,
    /// ASCII digits.
    Digit,
    /// Anything but a double quote or a line end.
    StringBody,
    /// The operator chars `+-*/%!=|&^`.
    OpChar,
    /// Chars that may continue a Unicode identifier.
    IdentContinue,
    /// Anything but LF.
    NotNewline,
}

pub open spec fn is_whitespace(c: char) -> bool {
    c == ' ' || c == '\t' || c == '\r' || c == '\n'
}

pub open spec fn is_op_char(c: char) -> bool {
    c == '+' || c == '-' || c == '*' || c == '/' || c == '%' || c == '!' || c == '=' || c == '|'
        || c == '&' || c == '^'
}

pub open spec fn in_class(cls: CharClass, c: char) -> bool {
    match cls {
        CharClass::AsciiIdentContinue => is_ascii_letter(c) || is_ascii_digit(c) || c == '_',
        CharClass::Digit => is_ascii_digit(c),
        CharClass::StringBody => c != '"' && c != '\n' && c != '\r',
        CharClass::OpChar => is_op_char(c),
        CharClass::IdentContinue => is_ident_continue(c),
        CharClass::NotNewline => c != '\n',
    }
}

/// The end of the run of chars of a class that starts at `i`.
pub open spec fn scan_while(s: Seq<char>, i: int, cls: CharClass) -> int
    decreases s.len() - i,
{
    if 0 <= i < s.len() && in_class(cls, s[i]) {
        scan_while(s, i + 1, cls)
    } else {
        i
    }
}

/// Where the first `*/` at or after `j` ends, if there is one.
pub open spec fn block_comment_end(s: Seq<char>, j: int) -> Option<int>
    decreases s.len() - j,
{
    if j < 0 || j + 1 >= s.len() {
        None
    } else if s[j] == '*' && s[j + 1] == '/' {
        Some(j + 2)
    } else {
        block_comment_end(s, j + 1)
    }
}

/// Where the whitespace and comments that start at `i` end.  A block
/// comment needs its closing `*/`; a line comment ends before the LF.
pub open spec fn trivia_end(s: Seq<char>, i: int) -> int
    decreases s.len() - i,
{
    if i < 0 || i >= s.len() {
        i
    } else if is_whitespace(s[i]) {
        trivia_end(s, i + 1)
    } else if i + 1 < s.len() && s[i] == '/' && s[i + 1] == '/' {
        let e = scan_while(s, i + 2, CharClass::NotNewline);
        if i < e <= s.len() {
            trivia_end(s, e)
        } else {
            i
        }
    } else if i + 1 < s.len() && s[i] == '/' && s[i + 1] == '*' {
        match block_comment_end(s, i + 2) {
            Some(e) => if i < e <= s.len() {
                trivia_end(s, e)
            } else {
                i
            },
            None => i,
        }
    } else {
        i
    }
}

/// The keyword spelled by a word, if it is one.
pub open spec fn keyword_kind(w: Seq<char>) -> Option<TokenKind> {
    if w == seq!['p', 'a', 'c', 'k', 'a', 'g', 'e'] {
        Some(TokenKind::Package)
    } else if w == seq!['i', 'm', 'p', 'o', 'r', 't'] {
        Some(TokenKind::Import)
    } else if w == seq!['c', 'l', 'a', 's', 's'] {
        Some(TokenKind::Class)
    } else if w == seq!['f', 'u', 'n'] {
        Some(TokenKind::Fun)
    } else if w == seq!['v', 'a', 'l'] {
        Some(TokenKind::Val)
    } else if w == seq!['v', 'a', 'r'] {
        Some(TokenKind::Var)
    } else {
        None
    }
}

/// The punctuation token of a single char, if it is one.
pub open spec fn single_punct(c: char) -> Option<TokenKind> {
    if c == '(' {
        Some(TokenKind::LParen)
    } else if c == ')' {
        Some(TokenKind::RParen)
    } else if c == '{' {
        Some(TokenKind::LBrace)
    } else if c == '}' {
        Some(TokenKind::RBrace)
    } else if c == '[' {
        Some(TokenKind::LBracket)
    } else if c == ']' {
        Some(TokenKind::RBracket)
    } else if c == '<' {
        Some(TokenKind::LAngle)
    } else if c == '>' {
        Some(TokenKind::RAngle)
    } else if c == ',' {
        Some(TokenKind::Comma)
    } else if c == '.' {
        Some(TokenKind::Dot)
    } else if c == ':' {
        Some(TokenKind::Colon)
    } else if c == ';' {
        Some(TokenKind::Semi)
    } else if c == '=' {
        Some(TokenKind::Eq)
    } else if c == '?' {
        Some(TokenKind::Question)
    } else if c == '@' {
        Some(TokenKind::At)
    } else {
        None
    }
}

/// The token that starts at `i`, with its end, trying in order: a keyword
/// (an ASCII word `[A-Za-z_][A-Za-z0-9_]*` that spells one), an integer
/// (`0`, or a nonzero digit and more digits), a string literal on one line,
/// a char literal, `::` and `->`, single-char punctuation, a run of
/// operator chars, and a Unicode identifier.
pub open spec fn token_at(s: Seq<char>, i: int) -> Option<(TokenKind, int)> {
    if i < 0 || i >= s.len() {
        None
    } else {
        let c = s[i];
        let w = scan_while(s, i + 1, CharClass::AsciiIdentContinue);
        let q = scan_while(s, i + 1, CharClass::StringBody);
        if (is_ascii_letter(c) || c == '_') && keyword_kind(s.subrange(i, w)) is Some {
            Some((keyword_kind(s.subrange(i, w))->0, w))
        } else if is_ascii_digit(c) {
            Some(
                (
                    TokenKind::Int,
                    if c == '0' {
                        i + 1
                    } else {
                        scan_while(s, i + 1, CharClass::Digit)
                    },
                ),
            )
        } else if c == '"' && q < s.len() && s[q] == '"' {
            Some((TokenKind::Str, q + 1))
        } else if c == '\'' && i + 2 < s.len() && s[i + 1] != '\'' && s[i + 1] != '\n' && s[i + 1]
            != '\r' && s[i + 2] == '\'' {
            Some((TokenKind::Char, i + 3))
        } else if c == ':' && i + 1 < s.len() && s[i + 1] == ':' {
            Some((TokenKind::ColonColon, i + 2))
        } else if c == '-' && i + 1 < s.len() && s[i + 1] == '>' {
            Some((TokenKind::Arrow, i + 2))
        } else if single_punct(c) is Some {
            Some((single_punct(c)->0, i + 1))
        } else if is_op_char(c) {
            Some((TokenKind::Op, scan_while(s, i + 1, CharClass::OpChar)))
        } else if is_ident_start(c) {
            Some((TokenKind::Ident, scan_while(s, i + 1, CharClass::IdentContinue)))
        } else {
            None
        }
    }
}

/// A string literal is one token: where a `"` stands, and the next `"`
/// comes before any line break, the token there is a string running
/// through that closing quote, whatever the chars between (`$` and `\\`
/// included), and it carries exactly those chars.
pub proof fn law_string_literal_is_one_token(s: Seq<char>, i: int, q: int)
    requires
        0 <= i < q < s.len(),
        s[i] == '"',
        s[q] == '"',
        forall|k: int| i < k < q ==> #[trigger] s[k] != '"' && s[k] != '\n' && s[k] != '\r',
    ensures
        token_at(s, i) == Some((TokenKind::Str, q + 1)),
        payload_spec(s, TokenKind::Str, i, q + 1) == s.subrange(i + 1, q),
{
    lemma_scan_while(s, i + 1, CharClass::StringBody);
    let e = scan_while(s, i + 1, CharClass::StringBody);
    if e < q {
        assert(s[e] != '"' && s[e] != '\n' && s[e] != '\r');
    }
    if e > q {
        assert(in_class(CharClass::StringBody, s[q]));
    }
    assert(e == q);
}

/// A token found in a text: its kind and the char range it covers.
pub struct LexemeSpec {
    pub kind: TokenKind,
    pub start: int,
    pub end: int,
}

/// Lexing from `i`: skip whitespace and comments, take the token there, go
/// on after it.  Where no token starts, the char is skipped; the first char
/// of each such run is reported (`in_error` says a run is going on).
pub open spec fn lex_from(s: Seq<char>, i: int, in_error: bool) -> (Seq<LexemeSpec>, Seq<int>)
    decreases s.len() - i,
{
    if i < 0 || i >= s.len() {
        (Seq::empty(), Seq::empty())
    } else {
        let j = trivia_end(s, i);
        if j < i || j >= s.len() {
            (Seq::empty(), Seq::empty())
        } else {
            match token_at(s, j) {
                Some((k, e)) => if j < e <= s.len() {
                    let r = lex_from(s, e, false);
                    (seq![LexemeSpec { kind: k, start: j, end: e }] + r.0, r.1)
                } else {
                    (Seq::empty(), Seq::empty())
                },
                None => {
                    let r = lex_from(s, j + 1, true);
                    (r.0, if in_error { r.1 } else { seq![j] + r.1 })
                },
            }
        }
    }
}

/// The tokens of a text and the char indices where the lexer found no token.
pub open spec fn lex_spec(s: Seq<char>) -> (Seq<LexemeSpec>, Seq<int>) {
    let r = lex_from(s, 0, false);
    (if lex_ends_in_error(s, 0, false) {
        Seq::empty()
    } else {
        r.0
    }, r.1)
}

/// Whether lexing from `i` ends inside a run of chars where no token
/// starts: the last run reaches the end of the text (trailing whitespace
/// and comments included).  The lexer then gives no tokens at all, since
/// its retries after that run never reach a token before the end.
pub open spec fn lex_ends_in_error(s: Seq<char>, i: int, in_error: bool) -> bool
    decreases s.len() - i,
{
    if i < 0 || i >= s.len() {
        in_error
    } else {
        let j = trivia_end(s, i);
        if j < i || j >= s.len() {
            in_error
        } else {
            match token_at(s, j) {
                Some((k, e)) => if j < e <= s.len() {
                    lex_ends_in_error(s, e, false)
                } else {
                    in_error
                },
                None => lex_ends_in_error(s, j + 1, true),
            }
        }
    }
}

/// Where trying to read a token at `at` fails, for a char where no token
/// starts: past an opening `"`, at the line break that comes before any
/// closing quote (or the end of the text); past an opening `'`, at the
/// char that cannot continue the literal (or the end); else at `at`.
pub open spec fn failure_point(s: Seq<char>, at: int) -> int {
    if s[at] == '"' {
        scan_while(s, at + 1, CharClass::StringBody)
    } else if s[at] == '\'' {
        if at + 1 >= s.len() {
            s.len() as int
        } else if s[at + 1] == '\'' || s[at + 1] == '\n' || s[at + 1] == '\r' {
            at + 1
        } else if at + 2 >= s.len() {
            s.len() as int
        } else {
            at + 2
        }
    } else {
        at
    }
}

/// The text a token of this kind and range carries.
pub open spec fn payload_spec(s: Seq<char>, k: TokenKind, start: int, end: int) -> Seq<char> {
    match k {
        TokenKind::Ident | TokenKind::Int | TokenKind::Op => s.subrange(start, end),
        TokenKind::Str => s.subrange(start + 1, end - 1),
        TokenKind::Char => s.subrange(start + 1, start + 2),
        _ => Seq::empty(),
    }
}

pub proof fn lemma_scan_while(s: Seq<char>, i: int, cls: CharClass)
    requires
        0 <= i <= s.len(),
    ensures
        i <= scan_while(s, i, cls) <= s.len(),
        forall|k: int| i <= k < scan_while(s, i, cls) ==> in_class(cls, #[trigger] s[k]),
        scan_while(s, i, cls) < s.len() ==> !in_class(cls, s[scan_while(s, i, cls)]),
    decreases s.len() - i,
{
    if i < s.len() && in_class(cls, s[i]) {
        lemma_scan_while(s, i + 1, cls);
    }
}

pub proof fn lemma_block_comment_end(s: Seq<char>, j: int)
    requires
        0 <= j,
    ensures
        block_comment_end(s, j) matches Some(e) ==> j + 2 <= e <= s.len(),
    decreases s.len() - j,
{
    if j + 1 < s.len() && !(s[j] == '*' && s[j + 1] == '/') {
        lemma_block_comment_end(s, j + 1);
    }
}

pub proof fn lemma_trivia_end(s: Seq<char>, i: int)
    requires
        0 <= i <= s.len(),
    ensures
        i <= trivia_end(s, i) <= s.len(),
    decreases s.len() - i,
{
    if i < s.len() {
        if is_whitespace(s[i]) {
            lemma_trivia_end(s, i + 1);
        } else if i + 1 < s.len() && s[i] == '/' && s[i + 1] == '/' {
            lemma_scan_while(s, i + 2, CharClass::NotNewline);
            lemma_trivia_end(s, scan_while(s, i + 2, CharClass::NotNewline));
        } else if i + 1 < s.len() && s[i] == '/' && s[i + 1] == '*' {
            lemma_block_comment_end(s, i + 2);
            if let Some(e) = block_comment_end(s, i + 2) {
                lemma_trivia_end(s, e);
            }
        }
    }
}

pub proof fn lemma_token_at(s: Seq<char>, i: int)
    requires
        0 <= i < s.len(),
    ensures
        token_at(s, i) matches Some((k, e)) ==> i < e <= s.len(),
{
    lemma_scan_while(s, i + 1, CharClass::AsciiIdentContinue);
    lemma_scan_while(s, i + 1, CharClass::StringBody);
    lemma_scan_while(s, i + 1, CharClass::Digit);
    lemma_scan_while(s, i + 1, CharClass::OpChar);
    lemma_scan_while(s, i + 1, CharClass::IdentContinue);
}

pub proof fn lemma_token_at_shape(s: Seq<char>, i: int)
    requires
        0 <= i < s.len(),
    ensures
        token_at(s, i) matches Some((k, e)) ==> (k == TokenKind::Str ==> e >= i + 2) && (k
            == TokenKind::Char ==> e == i + 3 && e <= s.len()),
{
    lemma_scan_while(s, i + 1, CharClass::StringBody);
}

/// The UTF-8 length of a text is the byte length of its encoding.
pub proof fn lemma_utf8_len_encode(s: Seq<char>)
    ensures
        utf8_len(s) == vstd::utf8::encode_utf8(s).len(),
    decreases s.len(),
{
    if s.len() > 0 {
        lemma_utf8_len_encode(s.drop_first());
        let c = s[0];
        vstd::utf8::char_is_scalar(c);
        assert(vstd::utf8::encode_scalar(c as u32).len() == crate::text::lines::utf8_width(c));
    }
}

/// A prefix takes no more bytes than the whole text.
pub proof fn lemma_utf8_len_prefix(s: Seq<char>, j: int)
    requires
        0 <= j <= s.len(),
    ensures
        utf8_len(s.take(j)) <= utf8_len(s),
{
    crate::text::lines::lemma_utf8_len_concat(s.take(j), s.skip(j));
    assert(s.take(j) + s.skip(j) =~= s);
}

/// Every token lies inside the text, after where lexing started; so does
/// every reported char.
pub proof fn lemma_lex_ranges(s: Seq<char>, i: int, in_error: bool)
    requires
        0 <= i,
    ensures
        forall|k: int|
            0 <= k < lex_from(s, i, in_error).0.len() ==> i <= (#[trigger] lex_from(s, i, in_error).0[k]).start
                < lex_from(s, i, in_error).0[k].end <= s.len(),
        forall|k: int|
            0 <= k < lex_from(s, i, in_error).1.len() ==> i <= #[trigger] lex_from(s, i, in_error).1[k]
                < s.len(),
        i <= s.len() ==> lex_from(s, i, in_error).0.len() <= s.len() - i,
    decreases s.len() - i,
{
    if i < s.len() {
        lemma_trivia_end(s, i);
        let j = trivia_end(s, i);
        if j < s.len() {
            lemma_token_at(s, j);
            match token_at(s, j) {
                Some((k, e)) => {
                    lemma_lex_ranges(s, e, false);
                    let r = lex_from(s, e, false);
                    let me = lex_from(s, i, in_error);
                    assert forall|t: int| 0 <= t < me.0.len() implies i <= (#[trigger] me.0[t]).start
                        < me.0[t].end <= s.len() by {
                        if t > 0 {
                            assert(me.0[t] == r.0[t - 1]);
                        }
                    }
                },
                None => {
                    lemma_lex_ranges(s, j + 1, true);
                    let r = lex_from(s, j + 1, true);
                    let me = lex_from(s, i, in_error);
                    assert forall|t: int| 0 <= t < me.1.len() implies i <= #[trigger] me.1[t] < s.len() by {
                        if !in_error && t > 0 {
                            assert(me.1[t] == r.1[t - 1]);
                        }
                    }
                },
            }
        }
    }
}

/// A token found in a text, with its char range and its byte range.
pub struct Lexeme {
    pub token: Token,
    pub start: usize,
    pub end: usize,
    pub byte_start: usize,
    pub byte_end: usize,
}

impl View for Lexeme {
    type V = LexemeSpec;

    open spec fn view(&self) -> LexemeSpec {
        LexemeSpec { kind: kind_of(self.token), start: self.start as int, end: self.end as int }
    }
}

/// A lexeme carries the text of its range, and its byte range is where its
/// chars lie in the UTF-8 encoding of `s`.
pub open spec fn lexeme_fits(s: Seq<char>, l: Lexeme) -> bool {
    &&& payload_of(l.token) == payload_spec(s, kind_of(l.token), l.start as int, l.end as int)
    &&& l.byte_start == utf8_len(s.take(l.start as int))
    &&& l.byte_end == utf8_len(s.take(l.end as int))
}

/// A char where no token starts (`at`), with the point where reading a
/// token there failed and the char found at that point (`None` at the end
/// of the text).
#[derive(Clone, Copy, Debug)]
pub struct LexError {
    pub at: usize,
    pub point: usize,
    pub found: Option<char>,
}

/// What a lexer error records of its run's first char `at`.
pub open spec fn lex_error_fits(s: Seq<char>, e: LexError) -> bool {
    &&& e.at < s.len()
    &&& e.point == failure_point(s, e.at as int)
    &&& e.at <= e.point <= s.len()
    &&& e.found == if e.point < s.len() {
        Some(s[e.point as int])
    } else {
        None
    }
}

fn in_class_exec(cls: CharClass, c: char) -> (b: bool)
    ensures
        b == in_class(cls, c),
{
    match cls {
        CharClass::AsciiIdentContinue => ('a' <= c && c <= 'z') || ('A' <= c && c <= 'Z') || (
        '0' <= c && c <= '9') || c == '_',
        CharClass::Digit => '0' <= c && c <= '9',
        CharClass::StringBody => c != '"' && c != '\n' && c != '\r',
        CharClass::OpChar => c == '+' || c == '-' || c == '*' || c == '/' || c == '%' || c == '!'
            || c == '=' || c == '|' || c == '&' || c == '^',
        CharClass::IdentContinue => ident_continue(c),
        CharClass::NotNewline => c != '\n',
    }
}

fn scan(chars: &Vec<char>, i: usize, cls: CharClass) -> (e: usize)
    requires
        i <= chars.len(),
    ensures
        e == scan_while(chars@, i as int, cls),
{
    let mut k = i;
    while k < chars.len() && in_class_exec(cls, chars[k])
        invariant
            i <= k <= chars.len(),
            scan_while(chars@, i as int, cls) == scan_while(chars@, k as int, cls),
        decreases chars.len() - k,
    {
        k = k + 1;
    }
    k
}

fn block_comment_end_exec(chars: &Vec<char>, j: usize) -> (r: Option<usize>)
    requires
        j <= chars.len(),
    ensures
        match r {
            Some(e) => block_comment_end(chars@, j as int) == Some(e as int),
            None => block_comment_end(chars@, j as int) is None,
        },
{
    let mut k = j;
    while k < chars.len() && k + 1 < chars.len()
        invariant
            j <= k <= chars.len(),
            block_comment_end(chars@, j as int) == block_comment_end(chars@, k as int),
        decreases chars.len() - k,
    {
        if chars[k] == '*' && chars[k + 1] == '/' {
            return Some(k + 2);
        }
        k = k + 1;
    }
    None
}

fn trivia_end_exec(chars: &Vec<char>, i: usize) -> (e: usize)
    requires
        i <= chars.len(),
    ensures
        e == trivia_end(chars@, i as int),
{
    let ghost s = chars@;
    let n = chars.len();
    let mut k = i;
    loop
        invariant
            s == chars@,
            n == chars.len(),
            i <= k <= n,
            trivia_end(s, i as int) == trivia_end(s, k as int),
        decreases n - k,
    {
        if k >= n {
            return k;
        }
        let c = chars[k];
        if c == ' ' || c == '\t' || c == '\r' || c == '\n' {
            k = k + 1;
        } else if k + 1 < n && c == '/' && chars[k + 1] == '/' {
            proof {
                lemma_scan_while(s, k + 2, CharClass::NotNewline);
            }
            k = scan(chars, k + 2, CharClass::NotNewline);
        } else if k + 1 < n && c == '/' && chars[k + 1] == '*' {
            proof {
                lemma_block_comment_end(s, k + 2);
            }
            match block_comment_end_exec(chars, k + 2) {
                Some(e) => {
                    k = e;
                },
                None => {
                    return k;
                },
            }
        } else {
            return k;
        }
    }
}

fn word_eq(chars: &Vec<char>, i: usize, j: usize, w: &[char]) -> (b: bool)
    requires
        i <= j <= chars.len(),
    ensures
        b == (chars@.subrange(i as int, j as int) == w@),
{
    if j - i != w.len() {
        return false;
    }
    let mut k: usize = 0;
    while k < w.len()
        invariant
            i <= j <= chars.len(),
            j - i == w@.len(),
            k <= w@.len(),
            forall|t: int| 0 <= t < k ==> chars@[i + t] == w@[t],
        decreases w@.len() - k,
    {
        if chars[i + k] != w[k] {
            assert(chars@.subrange(i as int, j as int)[k as int] != w@[k as int]);
            return false;
        }
        k = k + 1;
    }
    assert(chars@.subrange(i as int, j as int) =~= w@);
    true
}

fn keyword_exec(chars: &Vec<char>, i: usize, j: usize) -> (r: Option<TokenKind>)
    requires
        i <= j <= chars.len(),
    ensures
        r == keyword_kind(chars@.subrange(i as int, j as int)),
{
    let package: [char; 7] = ['p', 'a', 'c', 'k', 'a', 'g', 'e'];
    let import: [char; 6] = ['i', 'm', 'p', 'o', 'r', 't'];
    let class: [char; 5] = ['c', 'l', 'a', 's', 's'];
    let fun: [char; 3] = ['f', 'u', 'n'];
    let val: [char; 3] = ['v', 'a', 'l'];
    let var: [char; 3] = ['v', 'a', 'r'];
    assert(package@ =~= seq!['p', 'a', 'c', 'k', 'a', 'g', 'e']);
    assert(import@ =~= seq!['i', 'm', 'p', 'o', 'r', 't']);
    assert(class@ =~= seq!['c', 'l', 'a', 's', 's']);
    assert(fun@ =~= seq!['f', 'u', 'n']);
    assert(val@ =~= seq!['v', 'a', 'l']);
    assert(var@ =~= seq!['v', 'a', 'r']);
    if word_eq(chars, i, j, &package) {
        Some(TokenKind::Package)
    } else if word_eq(chars, i, j, &import) {
        Some(TokenKind::Import)
    } else if word_eq(chars, i, j, &class) {
        Some(TokenKind::Class)
    } else if word_eq(chars, i, j, &fun) {
        Some(TokenKind::Fun)
    } else if word_eq(chars, i, j, &val) {
        Some(TokenKind::Val)
    } else if word_eq(chars, i, j, &var) {
        Some(TokenKind::Var)
    } else {
        None
    }
}

fn single_punct_exec(c: char) -> (r: Option<TokenKind>)
    ensures
        r == single_punct(c),
{
    if c == '(' {
        Some(TokenKind::LParen)
    } else if c == ')' {
        Some(TokenKind::RParen)
    } else if c == '{' {
        Some(TokenKind::LBrace)
    } else if c == '}' {
        Some(TokenKind::RBrace)
    } else if c == '[' {
        Some(TokenKind::LBracket)
    } else if c == ']' {
        Some(TokenKind::RBracket)
    } else if c == '<' {
        Some(TokenKind::LAngle)
    } else if c == '>' {
        Some(TokenKind::RAngle)
    } else if c == ',' {
        Some(TokenKind::Comma)
    } else if c == '.' {
        Some(TokenKind::Dot)
    } else if c == ':' {
        Some(TokenKind::Colon)
    } else if c == ';' {
        Some(TokenKind::Semi)
    } else if c == '=' {
        Some(TokenKind::Eq)
    } else if c == '?' {
        Some(TokenKind::Question)
    } else if c == '@' {
        Some(TokenKind::At)
    } else {
        None
    }
}

fn token_at_exec(chars: &Vec<char>, i: usize) -> (r: Option<(TokenKind, usize)>)
    requires
        i < chars.len(),
    ensures
        match r {
            Some((k, e)) => token_at(chars@, i as int) == Some((k, e as int)),
            None => token_at(chars@, i as int) is None,
        },
{
    let ghost s = chars@;
    let c = chars[i];
    let w = scan(chars, i + 1, CharClass::AsciiIdentContinue);
    let q = scan(chars, i + 1, CharClass::StringBody);
    proof {
        lemma_scan_while(s, i + 1, CharClass::AsciiIdentContinue);
        lemma_scan_while(s, i + 1, CharClass::StringBody);
    }
    if ('a' <= c && c <= 'z') || ('A' <= c && c <= 'Z') || c == '_' {
        if let Some(k) = keyword_exec(chars, i, w) {
            return Some((k, w));
        }
    }
    if '0' <= c && c <= '9' {
        if c == '0' {
            Some((TokenKind::Int, i + 1))
        } else {
            Some((TokenKind::Int, scan(chars, i + 1, CharClass::Digit)))
        }
    } else if c == '"' && q < chars.len() && chars[q] == '"' {
        Some((TokenKind::Str, q + 1))
    } else if c == '\'' && chars.len() - i > 2 && chars[i + 1] != '\'' && chars[i + 1] != '\n'
        && chars[i + 1] != '\r' && chars[i + 2] == '\'' {
        Some((TokenKind::Char, i + 3))
    } else if c == ':' && i + 1 < chars.len() && chars[i + 1] == ':' {
        Some((TokenKind::ColonColon, i + 2))
    } else if c == '-' && i + 1 < chars.len() && chars[i + 1] == '>' {
        Some((TokenKind::Arrow, i + 2))
    } else if let Some(k) = single_punct_exec(c) {
        Some((k, i + 1))
    } else if c == '+' || c == '-' || c == '*' || c == '/' || c == '%' || c == '!' || c == '='
        || c == '|' || c == '&' || c == '^' {
        Some((TokenKind::Op, scan(chars, i + 1, CharClass::OpChar)))
    } else if ident_start(c) {
        Some((TokenKind::Ident, scan(chars, i + 1, CharClass::IdentContinue)))
    } else {
        None
    }
}

fn substring(chars: &Vec<char>, a: usize, b: usize) -> (r: String)
    requires
        a <= b <= chars.len(),
    ensures
        r@ == chars@.subrange(a as int, b as int),
{
    let mut r = String::new();
    let mut k = a;
    while k < b
        invariant
            a <= k <= b <= chars.len(),
            r@ == chars@.subrange(a as int, k as int),
        decreases b - k,
    {
        string_push(&mut r, chars[k]);
        assert(r@ =~= chars@.subrange(a as int, k + 1));
        k = k + 1;
    }
    r
}

fn make_token(chars: &Vec<char>, kind: TokenKind, start: usize, end: usize) -> (t: Token)
    requires
        start < end <= chars.len(),
        kind == TokenKind::Str ==> end >= start + 2,
        kind == TokenKind::Char ==> start + 2 <= chars.len(),
    ensures
        kind_of(t) == kind,
        payload_of(t) == payload_spec(chars@, kind, start as int, end as int),
{
    match kind {
        TokenKind::Package => Token::Package,
        TokenKind::Import => Token::Import,
        TokenKind::Class => Token::Class,
        TokenKind::Fun => Token::Fun,
        TokenKind::Val => Token::Val,
        TokenKind::Var => Token::Var,
        TokenKind::Ident => Token::Ident(substring(chars, start, end)),
        TokenKind::Int => Token::Int(substring(chars, start, end)),
        TokenKind::Str => Token::String(substring(chars, start + 1, end - 1)),
        TokenKind::Char => Token::Char(substring(chars, start + 1, start + 2)),
        TokenKind::LParen => Token::LParen,
        TokenKind::RParen => Token::RParen,
        TokenKind::LBrace => Token::LBrace,
        TokenKind::RBrace => Token::RBrace,
        TokenKind::LBracket => Token::LBracket,
        TokenKind::RBracket => Token::RBracket,
        TokenKind::Comma => Token::Comma,
        TokenKind::Dot => Token::Dot,
        TokenKind::Colon => Token::Colon,
        TokenKind::ColonColon => Token::ColonColon,
        TokenKind::Semi => Token::Semi,
        TokenKind::Eq => Token::Eq,
        TokenKind::Arrow => Token::Arrow,
        TokenKind::Question => Token::Question,
        TokenKind::At => Token::At,
        TokenKind::LAngle => Token::LAngle,
        TokenKind::RAngle => Token::RAngle,
        TokenKind::Op => Token::Op(substring(chars, start, end)),
    }
}

/// The byte offset of char index `to`, from that of `from`.
fn advance_bytes(chars: &Vec<char>, from: usize, to: usize, bytes: usize) -> (r: usize)
    requires
        from <= to <= chars.len(),
        bytes == utf8_len(chars@.take(from as int)),
        utf8_len(chars@) <= usize::MAX,
    ensures
        r == utf8_len(chars@.take(to as int)),
{
    let mut k = from;
    let mut b = bytes;
    while k < to
        invariant
            from <= k <= to <= chars.len(),
            b == utf8_len(chars@.take(k as int)),
            utf8_len(chars@) <= usize::MAX,
        decreases to - k,
    {
        proof {
            lemma_utf8_len_take(chars@, k as int);
            lemma_utf8_len_prefix(chars@, k + 1);
        }
        b = b + utf8_width_of(chars[k]);
        k = k + 1;
    }
    b
}

proof fn lemma_push_error(prev: Seq<LexError>, e: LexError, next: Seq<LexError>)
    requires
        next == prev.push(e),
    ensures
        next.map_values(|x: LexError| x.at as int) == prev.map_values(|x: LexError| x.at as int).push(
            e.at as int,
        ),
        forall|t: int| 0 <= t < prev.len() ==> next[t] == prev[t],
        next[prev.len() as int] == e,
        next.len() == prev.len() + 1,
{
    assert(next.map_values(|x: LexError| x.at as int) =~= prev.map_values(|x: LexError| x.at as int).push(
        e.at as int,
    ));
}

fn failure_point_exec(chars: &Vec<char>, at: usize) -> (p: usize)
    requires
        at < chars.len(),
    ensures
        p == failure_point(chars@, at as int),
        at <= p <= chars.len(),
{
    let n = chars.len();
    if chars[at] == '"' {
        proof {
            lemma_scan_while(chars@, at + 1, CharClass::StringBody);
        }
        scan(chars, at + 1, CharClass::StringBody)
    } else if chars[at] == '\'' {
        if at + 1 >= n {
            n
        } else if chars[at + 1] == '\'' || chars[at + 1] == '\n' || chars[at + 1] == '\r' {
            at + 1
        } else if at + 2 >= n {
            n
        } else {
            at + 2
        }
    } else {
        at
    }
}

/// Splits a source text into tokens (see [`lex_spec`]), each with the
/// text and the char and byte ranges it covers, and reports each char that
/// starts a run where no token starts.
pub fn lex(source: &str) -> (r: (Vec<Lexeme>, Vec<LexError>))
    ensures
        r.0@.map_values(|l: Lexeme| l@) == lex_spec(source@).0,
        forall|i: int| 0 <= i < r.0.len() ==> lexeme_fits(source@, #[trigger] r.0@[i]),
        r.1@.map_values(|e: LexError| e.at as int) == lex_spec(source@).1,
        forall|i: int| 0 <= i < r.1.len() ==> lex_error_fits(source@, #[trigger] r.1@[i]),
{
    let chars = collect_chars(source);
    let ghost s = chars@;
    proof {
        lemma_utf8_len_encode(s);
    }
    // Every byte offset of the text fits in a usize.
    let byte_len = source.as_bytes().len();
    assert(utf8_len(s) == byte_len);
    let n = chars.len();
    let mut tokens: Vec<Lexeme> = Vec::new();
    let mut errors: Vec<LexError> = Vec::new();
    let mut i: usize = 0;
    let mut byte_i: usize = 0;
    let mut in_error = false;
    assert(s.take(0) =~= Seq::<char>::empty());
    loop
        invariant
            s == chars@,
            s == source@,
            n == s.len(),
            utf8_len(s) <= usize::MAX,
            i <= n,
            byte_i == utf8_len(s.take(i as int)),
            lex_from(s, 0, false).0 == tokens@.map_values(|l: Lexeme| l@) + lex_from(s, i as int, in_error).0,
            lex_ends_in_error(s, 0, false) == lex_ends_in_error(s, i as int, in_error),
            lex_spec(s).1 == errors@.map_values(|e: LexError| e.at as int) + lex_from(
                s,
                i as int,
                in_error,
            ).1,
            forall|k: int| 0 <= k < tokens.len() ==> lexeme_fits(s, #[trigger] tokens@[k]),
            forall|k: int| 0 <= k < errors.len() ==> lex_error_fits(s, #[trigger] errors@[k]),
        decreases n - i,
    {
        if i >= n {
            proof {
                assert(lex_from(s, i as int, in_error).0 =~= Seq::<LexemeSpec>::empty());
                assert(tokens@.map_values(|l: Lexeme| l@) + Seq::<LexemeSpec>::empty() =~= tokens@.map_values(|l: Lexeme| l@));
                assert(errors@.map_values(|e: LexError| e.at as int) + Seq::<int>::empty() =~= errors@.map_values(|e: LexError| e.at as int));
            }
            if in_error {
                let none: Vec<Lexeme> = Vec::new();
                assert(none@.map_values(|l: Lexeme| l@) =~= Seq::<LexemeSpec>::empty());
                return (none, errors);
            }
            return (tokens, errors);
        }
        let j = trivia_end_exec(&chars, i);
        proof {
            lemma_trivia_end(s, i as int);
        }
        if j >= n {
            proof {
                assert(lex_from(s, i as int, in_error).0 =~= Seq::<LexemeSpec>::empty());
                assert(tokens@.map_values(|l: Lexeme| l@) + Seq::<LexemeSpec>::empty() =~= tokens@.map_values(|l: Lexeme| l@));
                assert(errors@.map_values(|e: LexError| e.at as int) + Seq::<int>::empty() =~= errors@.map_values(|e: LexError| e.at as int));
            }
            if in_error {
                let none: Vec<Lexeme> = Vec::new();
                assert(none@.map_values(|l: Lexeme| l@) =~= Seq::<LexemeSpec>::empty());
                return (none, errors);
            }
            return (tokens, errors);
        }
        let byte_j = advance_bytes(&chars, i, j, byte_i);
        let ghost rest = lex_from(s, i as int, in_error);
        proof {
            lemma_token_at(s, j as int);
            lemma_token_at_shape(s, j as int);
        }
        match token_at_exec(&chars, j) {
            Some((k, e)) => {
                let byte_e = advance_bytes(&chars, j, e, byte_j);
                let token = make_token(&chars, k, j, e);
                let lexeme = Lexeme { token, start: j, end: e, byte_start: byte_j, byte_end: byte_e };
                let ghost next = lex_from(s, e as int, false);
                assert(rest.0 == seq![lexeme@] + next.0);
                assert(rest.1 == next.1);
                let ghost tv = tokens@.map_values(|l: Lexeme| l@);
                tokens.push(lexeme);
                assert(tokens@.map_values(|l: Lexeme| l@) =~= tv.push(lexeme@));
                assert(tv + rest.0 =~= tv.push(lexeme@) + next.0);
                i = e;
                byte_i = byte_e;
                in_error = false;
            },
            None => {
                let ghost next = lex_from(s, j + 1, true);
                let ghost ev = errors@.map_values(|x: LexError| x.at as int);
                let ghost prev_errors = errors@;
                assert(rest.0 == next.0);
                if !in_error {
                    assert(rest.1 == seq![j as int] + next.1);
                    let point = failure_point_exec(&chars, j);
                    let found = if point < n {
                        Some(chars[point])
                    } else {
                        None
                    };
                    let e = LexError { at: j, point, found };
                    assert(lex_error_fits(s, e));
                    errors.push(e);
                    proof {
                        lemma_push_error(prev_errors, e, errors@);
                    }
                    assert(ev + rest.1 =~= ev.push(j as int) + next.1);
                } else {
                    assert(rest.1 == next.1);
                }
                byte_i = advance_bytes(&chars, j, j + 1, byte_j);
                i = j + 1;
                in_error = true;
            },
        }
    }
}

} // verus!
