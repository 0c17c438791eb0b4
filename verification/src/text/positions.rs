use vstd::prelude::*;
use ropey::Rope;
use crate::text::lines::{
    chars_in_utf16_units, count_breaks, lemma_chars_in_utf16_prefix,
    lemma_chars_in_utf16_units, lemma_count_breaks_bounds, lemma_line_of_index, lemma_line_start,
    lemma_line_start_unique, lemma_utf16_len_take, line_count, line_start, utf16_len, utf16_width,
};
use crate::text::rope::{
    rope_char, rope_char_to_line, rope_len_chars, rope_len_lines, rope_line_to_char, rope_text,
};

verus! {

/// A position in a document, as the language server protocol counts it:
/// a zero-based line and a zero-based column in UTF-16 code units.
#[derive(Clone, Copy, Debug, PartialEq, Eq, Structural)]
pub struct Position {
    pub line: u32,
    pub character: u32,
}

impl Position {
    pub fn new(line: u32, character: u32) -> (p: Self)
        ensures
            p.line == line,
            p.character == character,
    {
        Position { line, character }
    }
}

/// A range between two positions.
#[derive(Clone, Copy, Debug, PartialEq, Eq, Structural)]
pub struct Range {
    pub start: Position,
    pub end: Position,
}

/// The char index that a position designates in `s`: the start of the
/// position's line plus the chars of that line (its break included) that
/// fit in the position's UTF-16 column; the end of the text for a line past
/// the last.
pub open spec fn position_to_char_idx_spec(s: Seq<char>, p: Position) -> int {
    if p.line >= line_count(s) {
        s.len() as int
    } else {
        let st = line_start(s, p.line as int);
        let en = line_start(s, p.line + 1);
        st + chars_in_utf16_units(s.subrange(st, en), p.character as int)
    }
}

/// The position of a char index in `s` (capped at the end of the text):
/// its line is the number of line breaks before it, its column the UTF-16
/// length of the part of that line before it.  Both are cast to `u32`.
pub open spec fn char_idx_to_position_spec(s: Seq<char>, char_idx: int) -> Position {
    let c = if char_idx < s.len() { char_idx } else { s.len() as int };
    let l = count_breaks(s, c);
    Position {
        line: l as u32,
        character: utf16_len(s.subrange(line_start(s, l as int), c)) as u32,
    }
}

pub proof fn lemma_line_start_le_next(s: Seq<char>, l: int)
    requires
        0 <= l < line_count(s),
    ensures
        0 <= line_start(s, l) <= line_start(s, l + 1) <= s.len(),
{
    lemma_line_start(s, l);
    lemma_line_start(s, l + 1);
    let a = line_start(s, l);
    let b = line_start(s, l + 1);
    if b < a {
        lemma_count_breaks_bounds(s, b, a);
        lemma_count_breaks_bounds(s, a, s.len() as int);
    }
}

fn utf16_width_of(c: char) -> (w: u64)
    ensures
        w == utf16_width(c),
{
    if (c as u32) >= 0x10000 {
        2
    } else {
        1
    }
}

/// Number of chars among `start..end` of the rope whose UTF-16 encoding
/// fits in `utf16_col` code units.
fn utf16_col_to_char_offset(text: &Rope, start: usize, end: usize, utf16_col: usize) -> (k: usize)
    requires
        start <= end <= rope_text(*text).len(),
    ensures
        k == chars_in_utf16_units(rope_text(*text).subrange(start as int, end as int), utf16_col as int),
{
    let ghost line = rope_text(*text).subrange(start as int, end as int);
    // Every char index of the text fits in a usize.
    let char_len = rope_len_chars(text);
    assert(rope_text(*text).len() == char_len);
    let mut units: u64 = 0;
    let mut chars: usize = 0;
    proof {
        assert(line.skip(0) =~= line);
        assert(line.take(0) =~= Seq::<char>::empty());
    }
    while chars < end - start
        invariant
            start <= end <= rope_text(*text).len(),
            line == rope_text(*text).subrange(start as int, end as int),
            chars <= end - start,
            units == utf16_len(line.take(chars as int)),
            units <= utf16_col,
            chars_in_utf16_units(line, utf16_col as int) == chars + chars_in_utf16_units(
                line.skip(chars as int),
                utf16_col - units,
            ),
        decreases end - start - chars,
    {
        let ch = rope_char(text, start + chars);
        let len = utf16_width_of(ch);
        assert(line.skip(chars as int)[0] == ch);
        if len > utf16_col as u64 - units {
            return chars;
        }
        proof {
            lemma_utf16_len_take(line, chars as int);
            assert(line.skip(chars as int).drop_first() =~= line.skip(chars + 1));
        }
        units = units + len;
        chars = chars + 1;
    }
    proof {
        assert(line.skip(chars as int) =~= Seq::<char>::empty());
    }
    chars
}

/// UTF-16 length of the `count` chars of the rope from `start`.
fn char_offset_to_utf16_col(text: &Rope, start: usize, count: usize) -> (units: u128)
    requires
        start + count <= rope_text(*text).len(),
    ensures
        units == utf16_len(rope_text(*text).subrange(start as int, start + count)),
{
    let ghost seg = rope_text(*text).subrange(start as int, start + count);
    // Every char index of the text fits in a usize.
    let char_len = rope_len_chars(text);
    assert(rope_text(*text).len() == char_len);
    let mut units: u128 = 0;
    let mut i: usize = 0;
    proof {
        assert(seg.take(0) =~= Seq::<char>::empty());
    }
    while i < count
        invariant
            start + count <= rope_text(*text).len(),
            seg == rope_text(*text).subrange(start as int, start + count),
            char_len == rope_text(*text).len(),
            i <= count,
            units == utf16_len(seg.take(i as int)),
            units <= 2 * i,
        decreases count - i,
    {
        let ch = rope_char(text, start + i);
        proof {
            lemma_utf16_len_take(seg, i as int);
        }
        units = units + utf16_width_of(ch) as u128;
        i = i + 1;
    }
    proof {
        assert(seg.take(count as int) =~= seg);
    }
    units
}

/// The char index that an LSP position designates in the text (see
/// [`position_to_char_idx_spec`]).
pub fn position_to_char_idx(text: &Rope, position: Position) -> (idx: usize)
    ensures
        idx == position_to_char_idx_spec(rope_text(*text), position),
        idx <= rope_text(*text).len(),
{
    let ghost s = rope_text(*text);
    let total_lines = rope_len_lines(text);
    if total_lines == 0 {
        return 0;
    }
    let line = position.line as usize;
    if line >= total_lines {
        return rope_len_chars(text);
    }
    let line_start = rope_line_to_char(text, line);
    let line_end = rope_line_to_char(text, line + 1);
    proof {
        lemma_line_start(s, line as int);
        lemma_line_start(s, line + 1);
        lemma_line_start_unique(s, line as int, line_start as int, crate::text::lines::line_start(s, line as int));
        lemma_line_start_unique(s, line + 1, line_end as int, crate::text::lines::line_start(s, line + 1));
        lemma_line_start_le_next(s, line as int);
    }
    let col = utf16_col_to_char_offset(text, line_start, line_end, position.character as usize);
    proof {
        lemma_chars_in_utf16_units(s.subrange(line_start as int, line_end as int), position.character as int);
    }
    let line_chars = line_end - line_start;
    let clamped_col = if col < line_chars {
        col
    } else {
        line_chars
    };
    line_start + clamped_col
}

/// The LSP position of a char index in the text (see
/// [`char_idx_to_position_spec`]).
pub fn char_idx_to_position(text: &Rope, char_idx: usize) -> (p: Position)
    ensures
        p == char_idx_to_position_spec(rope_text(*text), char_idx as int),
{
    let ghost s = rope_text(*text);
    let len = rope_len_chars(text);
    let capped = if char_idx < len {
        char_idx
    } else {
        len
    };
    if rope_len_lines(text) == 0 {
        return Position::new(0, 0);
    }
    let line = rope_char_to_line(text, capped);
    proof {
        lemma_line_of_index(s, capped as int);
    }
    let line_start = rope_line_to_char(text, line);
    proof {
        lemma_line_start(s, line as int);
        lemma_line_start_unique(s, line as int, line_start as int, crate::text::lines::line_start(s, line as int));
    }
    let char_offset = if capped >= line_start {
        capped - line_start
    } else {
        0
    };
    let utf16_col = char_offset_to_utf16_col(text, line_start, char_offset);
    Position::new(line as u32, utf16_col as u32)
}

/// Mapping a char index to a position and back gives the index again
/// (capped at the end of the text), whenever the position's line and
/// column fit in `u32`.
pub proof fn law_position_roundtrip(s: Seq<char>, char_idx: int)
    requires
        0 <= char_idx,
        count_breaks(s, if char_idx < s.len() { char_idx } else { s.len() as int }) <= u32::MAX,
        utf16_len(
            s.subrange(
                line_start(
                    s,
                    count_breaks(s, if char_idx < s.len() { char_idx } else { s.len() as int }) as int,
                ),
                if char_idx < s.len() { char_idx } else { s.len() as int },
            ),
        ) <= u32::MAX,
    ensures
        position_to_char_idx_spec(s, char_idx_to_position_spec(s, char_idx)) == if char_idx < s.len() {
            char_idx
        } else {
            s.len() as int
        },
{
    let c = if char_idx < s.len() { char_idx } else { s.len() as int };
    let l = count_breaks(s, c) as int;
    lemma_line_of_index(s, c);
    lemma_line_start_le_next(s, l);
    let st = line_start(s, l);
    let en = line_start(s, l + 1);
    let line = s.subrange(st, en);
    assert(line.take(c - st) =~= s.subrange(st, c));
    lemma_chars_in_utf16_prefix(line, c - st);
}

/// Mapping a position to a char index and back gives the position again,
/// for a position on an existing line whose column counts the UTF-16
/// units of the first `k` chars of that line, stopping before the line's
/// break (or at the end of the text on the last line).
pub proof fn law_position_roundtrip_from_position(s: Seq<char>, p: Position, k: int)
    requires
        p.line < line_count(s),
        0 <= k,
        line_start(s, p.line as int) + k < line_start(s, p.line + 1) || (p.line + 1 == line_count(s)
            && line_start(s, p.line as int) + k == s.len()),
        p.character == utf16_len(
            s.subrange(line_start(s, p.line as int), line_start(s, p.line as int) + k),
        ),
    ensures
        char_idx_to_position_spec(s, position_to_char_idx_spec(s, p)) == p,
{
    let line = p.line as int;
    lemma_line_start(s, line);
    lemma_line_start(s, line + 1);
    lemma_line_start_le_next(s, line);
    let st = line_start(s, line);
    let en = line_start(s, line + 1);
    let c = st + k;
    let seg = s.subrange(st, en);
    assert(seg.take(k) =~= s.subrange(st, c));
    lemma_chars_in_utf16_prefix(seg, k);
    assert(position_to_char_idx_spec(s, p) == c);
    lemma_count_breaks_bounds(s, st, c);
    if line > 0 {
        assert(count_breaks(s, st) == line);
    }
    if line + 1 < line_count(s) {
        assert(count_breaks(s, en) == line + 1);
        assert(count_breaks(s, en) == count_breaks(s, en - 1) + 1);
        lemma_count_breaks_bounds(s, c, en - 1);
    } else {
        lemma_count_breaks_bounds(s, c, s.len() as int);
    }
    assert(count_breaks(s, c) == line);
}

/// A char index past the end of the text maps to the position of the end.
pub proof fn law_index_past_end(s: Seq<char>, i: int)
    requires
        i > s.len(),
    ensures
        char_idx_to_position_spec(s, i) == char_idx_to_position_spec(s, s.len() as int),
{
}

/// A position designates a char index within the text (its end included).
pub proof fn lemma_position_in_text(s: Seq<char>, p: Position)
    ensures
        0 <= position_to_char_idx_spec(s, p) <= s.len(),
{
    if p.line < line_count(s) {
        let line = p.line as int;
        lemma_line_start_le_next(s, line);
        let st = line_start(s, line);
        let en = line_start(s, line + 1);
        lemma_chars_in_utf16_units(s.subrange(st, en), p.character as int);
    }
}

} // verus!
