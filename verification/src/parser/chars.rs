//! Character facts that the lexer takes from elsewhere: the identifier
//! classes of chumsky's text parsers, and the `Debug` rendering of strings
//! and chars that the diagnostics quote.
use vstd::prelude::*;
use vstd::std_specs::iter::IteratorSpec;
use crate::text::lines::utf8_width;

verus! {

/// Whether chumsky's `Char::is_ident_start` accepts a char (Unicode
/// XID_Start, or `_`).
pub uninterp spec fn is_ident_start(c: char) -> bool;

/// Whether chumsky's `Char::is_ident_continue` accepts a char (Unicode
/// XID_Continue).
pub uninterp spec fn is_ident_continue(c: char) -> bool;

/// The `Debug` rendering of a string (quoted and escaped).
pub uninterp spec fn str_debug(s: Seq<char>) -> Seq<char>;

/// The `Debug` rendering of a char (quoted and escaped).
pub uninterp spec fn char_debug(c: char) -> Seq<char>;

pub open spec fn is_ascii_letter(c: char) -> bool {
    ('a' <= c && c <= 'z') || ('A' <= c && c <= 'Z')
}

pub open spec fn is_ascii_digit(c: char) -> bool {
    '0' <= c && c <= '9'
}

/// `chumsky::text::Char::is_ident_start` on a `char`, which is
/// `unicode_ident::is_xid_start(c) || c == '_'`.  Stated: the result is the
/// named property, and for ASCII chars it holds of exactly the letters and
/// `_` (unicode-ident's ASCII table).
#[verifier::external_body]
pub(crate) fn ident_start(c: char) -> (b: bool)
    ensures
        b == is_ident_start(c),
        (c as u32) < 0x80 ==> (b <==> (is_ascii_letter(c) || c == '_')),
{
    chumsky::text::Char::is_ident_start(&c)
}

/// `chumsky::text::Char::is_ident_continue` on a `char`, which is
/// `unicode_ident::is_xid_continue(c)`.  Stated: the result is the named
/// property, and for ASCII chars it holds of exactly the letters, the
/// digits and `_`.
#[verifier::external_body]
pub(crate) fn ident_continue(c: char) -> (b: bool)
    ensures
        b == is_ident_continue(c),
        (c as u32) < 0x80 ==> (b <==> (is_ascii_letter(c) || is_ascii_digit(c) || c == '_')),
{
    chumsky::text::Char::is_ident_continue(&c)
}

/// `<str as Debug>::fmt`, rendered to a `String`.  The rendering itself
/// (quotes, escapes) is not stated.
#[verifier::external_body]
pub(crate) fn debug_str(s: &str) -> (r: String)
    ensures
        r@ == str_debug(s@),
{
    format!("{:?}", s)
}

/// `<char as Debug>::fmt`, rendered to a `String`.  The rendering itself
/// (quotes, escapes) is not stated.
#[verifier::external_body]
pub(crate) fn debug_char(c: char) -> (r: String)
    ensures
        r@ == char_debug(c),
{
    format!("{:?}", c)
}

/// `String::push`: the char is appended.
#[verifier::external_body]
pub(crate) fn string_push(s: &mut String, c: char)
    ensures
        final(s)@ == old(s)@.push(c),
{
    s.push(c)
}

/// The chars of a string, in a vector.
pub fn collect_chars(text: &str) -> (v: Vec<char>)
    ensures
        v@ == text@,
{
    broadcast use vstd::string::group_string_axioms;
    let mut v: Vec<char> = Vec::new();
    let mut chars = text.chars();
    assert(chars.remaining() == text@);
    loop
        invariant
            v@ + chars.remaining() == text@,
            chars.obeys_prophetic_iter_laws(),
            chars.decrease() is Some,
        decreases chars.decrease()->0,
    {
        match chars.next() {
            Some(c) => {
                v.push(c);
            },
            None => {
                assert(v@ =~= text@);
                return v;
            },
        }
    }
}

pub fn utf8_width_of(c: char) -> (w: usize)
    ensures
        w == utf8_width(c),
{
    if (c as u32) < 0x80 {
        1
    } else if (c as u32) < 0x800 {
        2
    } else if (c as u32) < 0x10000 {
        3
    } else {
        4
    }
}

} // verus!
