//! The `ropey::Rope` text buffer, held as it is and seen through the
//! sequence of chars it contains.
use vstd::prelude::*;
use ropey::Rope;
use crate::text::lines::{count_breaks, is_line_start, line_count, utf8_len};

verus! {

#[verifier::external_type_specification]
#[verifier::external_body]
pub struct ExRope(Rope);

/// The chars that a rope holds, in order.
pub uninterp spec fn rope_text(r: Rope) -> Seq<char>;

/// `Rope::from_str`: the new rope holds exactly the chars of `text`.
#[verifier::external_body]
pub(crate) fn rope_from_str(text: &str) -> (r: Rope)
    ensures
        rope_text(r) == text@,
{
    Rope::from_str(text)
}

/// `Rope::clone`: the copy holds the same chars.
#[verifier::external_body]
pub(crate) fn rope_clone(r: &Rope) -> (c: Rope)
    ensures
        rope_text(c) == rope_text(*r),
{
    r.clone()
}

/// `Rope::len_chars`: the number of chars.
#[verifier::external_body]
pub(crate) fn rope_len_chars(r: &Rope) -> (n: usize)
    ensures
        n == rope_text(*r).len(),
{
    r.len_chars()
}

/// `Rope::len_bytes`: the length of the UTF-8 encoding.
#[verifier::external_body]
pub(crate) fn rope_len_bytes(r: &Rope) -> (n: usize)
    ensures
        n == utf8_len(rope_text(*r)),
{
    r.len_bytes()
}

/// `Rope::len_lines`: one more than the number of line breaks, counted with
/// ropey's default line breaks (LF, CRLF, lone CR, VT, FF, NEL, LS, PS).
#[verifier::external_body]
pub(crate) fn rope_len_lines(r: &Rope) -> (n: usize)
    ensures
        n == line_count(rope_text(*r)),
{
    r.len_lines()
}

/// `Rope::line_to_char`: the char index where a line starts
/// (one past the end for `line == len_lines()`).  Panics beyond that, so
/// `requires` leaves those lines out.
#[verifier::external_body]
pub(crate) fn rope_line_to_char(r: &Rope, line: usize) -> (c: usize)
    requires
        line <= line_count(rope_text(*r)),
    ensures
        is_line_start(rope_text(*r), line as int, c as int),
{
    r.line_to_char(line)
}

/// `Rope::char_to_line`: the number of line breaks that end at or before
/// `char_idx`.  Panics past one-past-the-end.
#[verifier::external_body]
pub(crate) fn rope_char_to_line(r: &Rope, char_idx: usize) -> (line: usize)
    requires
        char_idx <= rope_text(*r).len(),
    ensures
        line == count_breaks(rope_text(*r), char_idx as int),
{
    r.char_to_line(char_idx)
}

/// `Rope::char`: the char at an index.  Panics out of bounds.
#[verifier::external_body]
pub(crate) fn rope_char(r: &Rope, char_idx: usize) -> (c: char)
    requires
        char_idx < rope_text(*r).len(),
    ensures
        c == rope_text(*r)[char_idx as int],
{
    r.char(char_idx)
}

/// `Rope::byte_to_char`: at a char boundary, the index of the char that
/// starts there (the count of chars before that byte); one past the end
/// for the byte length.  For a byte inside a multi-byte char the rope
/// returns that char's index, which is not stated here.  Panics past the
/// byte length.
#[verifier::external_body]
pub(crate) fn rope_byte_to_char(r: &Rope, byte_idx: usize) -> (c: usize)
    requires
        byte_idx <= utf8_len(rope_text(*r)),
    ensures
        c <= rope_text(*r).len(),
        forall|i: int|
            0 <= i <= rope_text(*r).len() && utf8_len(#[trigger] rope_text(*r).take(i)) == byte_idx
                ==> c == i,
{
    r.byte_to_char(byte_idx)
}

/// `Rope::remove(start..end)`: the chars in the range are gone.  Panics
/// if the range is reversed or out of bounds.
#[verifier::external_body]
pub(crate) fn rope_remove(r: &mut Rope, start: usize, end: usize)
    requires
        start <= end <= rope_text(*old(r)).len(),
    ensures
        rope_text(*final(r)) == rope_text(*old(r)).take(start as int) + rope_text(*old(r)).skip(
            end as int,
        ),
{
    r.remove(start..end)
}

/// `Rope::insert`: `text` is inserted at a char index.  Panics past the end.
#[verifier::external_body]
pub(crate) fn rope_insert(r: &mut Rope, char_idx: usize, text: &str)
    requires
        char_idx <= rope_text(*old(r)).len(),
    ensures
        rope_text(*final(r)) == rope_text(*old(r)).take(char_idx as int) + text@ + rope_text(
            *old(r),
        ).skip(char_idx as int),
{
    r.insert(char_idx, text)
}

/// `Rope::to_string` (through `Display`): all the chars, as a `String`.
#[verifier::external_body]
pub(crate) fn rope_to_string(r: &Rope) -> (s: String)
    ensures
        s@ == rope_text(*r),
{
    r.to_string()
}

/// `Rope::slice(start..end)` then `to_string`: the chars in the range.
/// Panics if the range is reversed or out of bounds.
#[verifier::external_body]
pub(crate) fn rope_slice_to_string(r: &Rope, start: usize, end: usize) -> (s: String)
    requires
        start <= end <= rope_text(*r).len(),
    ensures
        s@ == rope_text(*r).subrange(start as int, end as int),
{
    r.slice(start..end).to_string()
}

} // verus!
