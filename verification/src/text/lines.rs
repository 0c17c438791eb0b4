//! The line and UTF-16 structure of a text, as plain sequences of chars.
use vstd::prelude::*;

verus! {

/// Chars that end a line on their own: LF, VT, FF, NEL, LS and PS.
pub open spec fn is_single_line_break(c: char) -> bool {
    c == '\n' || c == '\x0B' || c == '\x0C' || c == '\u{85}' || c == '\u{2028}' || c == '\u{2029}'
}

/// A line break ends right after index `i`: one of the single-char breaks,
/// or a CR that is not the first half of a CRLF pair.
pub open spec fn break_after(s: Seq<char>, i: int) -> bool {
    &&& 0 <= i < s.len()
    &&& (is_single_line_break(s[i]) || (s[i] == '\r' && (i + 1 == s.len() || s[i + 1] != '\n')))
}

/// Number of line breaks that end at or before char index `n`.
pub open spec fn count_breaks(s: Seq<char>, n: int) -> nat
    decreases n,
{
    if n <= 0 {
        0
    } else {
        count_breaks(s, n - 1) + (if break_after(s, n - 1) { 1nat } else { 0nat })
    }
}

/// Number of lines: one more than the number of line breaks.
pub open spec fn line_count(s: Seq<char>) -> nat {
    count_breaks(s, s.len() as int) + 1
}

/// `r` is where line `line` starts: 0 for the first line, the end of the
/// line's preceding break otherwise, and one past the end for `line_count`.
pub open spec fn is_line_start(s: Seq<char>, line: int, r: int) -> bool {
    ||| line == 0 && r == 0
    ||| 0 < line < line_count(s) && 0 < r <= s.len() && break_after(s, r - 1) && count_breaks(s, r)
        == line
    ||| line > 0 && line >= line_count(s) && r == s.len()
}

/// The char index where line `line` starts (see [`is_line_start`]).
pub open spec fn line_start(s: Seq<char>, line: int) -> int {
    if line <= 0 {
        0
    } else if line >= line_count(s) {
        s.len() as int
    } else {
        choose|r: int| is_line_start(s, line, r)
    }
}

/// UTF-16 code units of one char.
pub open spec fn utf16_width(c: char) -> nat {
    if (c as u32) >= 0x10000 {
        2
    } else {
        1
    }
}

/// UTF-16 code units of a sequence of chars.
pub open spec fn utf16_len(s: Seq<char>) -> nat
    decreases s.len(),
{
    if s.len() == 0 {
        0
    } else {
        utf16_width(s[0]) + utf16_len(s.drop_first())
    }
}

/// Number of leading chars of `s` whose UTF-16 encoding fits in `units` code units.
pub open spec fn chars_in_utf16_units(s: Seq<char>, units: int) -> nat
    decreases s.len(),
{
    if s.len() == 0 || utf16_width(s[0]) > units {
        0
    } else {
        1 + chars_in_utf16_units(s.drop_first(), units - utf16_width(s[0]))
    }
}

pub proof fn lemma_count_breaks_bounds(s: Seq<char>, a: int, b: int)
    requires
        0 <= a <= b,
    ensures
        count_breaks(s, a) <= count_breaks(s, b),
        count_breaks(s, b) <= count_breaks(s, a) + (b - a),
    decreases b - a,
{
    if a < b {
        lemma_count_breaks_bounds(s, a, b - 1);
    }
}

pub proof fn lemma_count_breaks_beyond(s: Seq<char>, n: int)
    requires
        n >= s.len(),
    ensures
        count_breaks(s, n) == count_breaks(s, s.len() as int),
    decreases n - s.len(),
{
    if n > s.len() {
        lemma_count_breaks_beyond(s, n - 1);
    }
}

/// Every line between the first and the last has a start.
pub proof fn lemma_line_start_exists(s: Seq<char>, n: int, line: int)
    requires
        0 <= n <= s.len(),
        0 < line <= count_breaks(s, n),
    ensures
        exists|r: int| 0 < r <= n && break_after(s, r - 1) && count_breaks(s, r) == line,
    decreases n,
{
    if n > 0 {
        if line <= count_breaks(s, n - 1) {
            lemma_line_start_exists(s, n - 1, line);
            let r = choose|r: int| 0 < r <= n - 1 && break_after(s, r - 1) && count_breaks(s, r) == line;
            assert(0 < r <= n && break_after(s, r - 1) && count_breaks(s, r) == line);
        } else {
            assert(break_after(s, n - 1) && count_breaks(s, n) == line);
        }
    }
}

/// A line's start is unique.
pub proof fn lemma_line_start_unique(s: Seq<char>, line: int, r1: int, r2: int)
    requires
        is_line_start(s, line, r1),
        is_line_start(s, line, r2),
    ensures
        r1 == r2,
{
    if 0 < line < line_count(s) && r1 != r2 {
        let (a, b) = if r1 < r2 { (r1, r2) } else { (r2, r1) };
        lemma_count_breaks_bounds(s, a, b - 1);
        assert(count_breaks(s, b) == count_breaks(s, b - 1) + 1);
    }
}

/// [`line_start`] is the start of its line, for every line up to `line_count`.
pub proof fn lemma_line_start(s: Seq<char>, line: int)
    requires
        0 <= line <= line_count(s),
    ensures
        is_line_start(s, line, line_start(s, line)),
        0 <= line_start(s, line) <= s.len(),
{
    if 0 < line < line_count(s) {
        lemma_line_start_exists(s, s.len() as int, line);
        let r = choose|r: int| 0 < r <= s.len() && break_after(s, r - 1) && count_breaks(s, r) == line;
        assert(is_line_start(s, line, r));
    }
}

/// Any char index lies between the start of its own line and the start of the next.
pub proof fn lemma_line_of_index(s: Seq<char>, c: int)
    requires
        0 <= c <= s.len(),
    ensures
        count_breaks(s, c) < line_count(s),
        line_start(s, count_breaks(s, c) as int) <= c,
        c <= line_start(s, count_breaks(s, c) as int + 1),
        count_breaks(s, c) + 1 < line_count(s) ==> c < line_start(s, count_breaks(s, c) as int + 1),
        count_breaks(s, line_start(s, count_breaks(s, c) as int)) == count_breaks(s, c),
{
    let l = count_breaks(s, c) as int;
    lemma_count_breaks_bounds(s, c, s.len() as int);
    lemma_line_start(s, l);
    lemma_line_start(s, l + 1);
    let st = line_start(s, l);
    let en = line_start(s, l + 1);
    if l > 0 && st > c {
        lemma_count_breaks_bounds(s, c, st - 1);
        assert(count_breaks(s, st) == count_breaks(s, st - 1) + 1);
    }
    if l + 1 < line_count(s) && en <= c {
        lemma_count_breaks_bounds(s, en, c);
    }
}

pub proof fn lemma_utf16_len_concat(a: Seq<char>, b: Seq<char>)
    ensures
        utf16_len(a + b) == utf16_len(a) + utf16_len(b),
    decreases a.len(),
{
    if a.len() > 0 {
        lemma_utf16_len_concat(a.drop_first(), b);
        assert((a + b).drop_first() =~= a.drop_first() + b);
    } else {
        assert(a + b =~= b);
    }
}

/// Extending a prefix by one char adds that char's width.
pub proof fn lemma_utf16_len_take(s: Seq<char>, k: int)
    requires
        0 <= k < s.len(),
    ensures
        utf16_len(s.take(k + 1)) == utf16_len(s.take(k)) + utf16_width(s[k]),
{
    lemma_utf16_len_concat(s.take(k), seq![s[k]]);
    assert(s.take(k + 1) =~= s.take(k) + seq![s[k]]);
    assert(utf16_len(seq![s[k]]) == utf16_width(s[k])) by {
        assert(seq![s[k]].drop_first() =~= Seq::<char>::empty());
        assert(utf16_len(seq![s[k]].drop_first()) == 0);
    }
}

pub proof fn lemma_utf16_len_ge_len(s: Seq<char>)
    ensures
        utf16_len(s) >= s.len(),
    decreases s.len(),
{
    if s.len() > 0 {
        lemma_utf16_len_ge_len(s.drop_first());
    }
}

/// Exactly `k` chars fit in the UTF-16 length of the first `k` chars.
pub proof fn lemma_chars_in_utf16_prefix(s: Seq<char>, k: int)
    requires
        0 <= k <= s.len(),
    ensures
        chars_in_utf16_units(s, utf16_len(s.take(k)) as int) == k,
    decreases k,
{
    if k > 0 {
        let t = s.drop_first();
        lemma_chars_in_utf16_prefix(t, k - 1);
        assert(s.take(k).drop_first() =~= t.take(k - 1));
        assert(utf16_len(s.take(k)) == utf16_width(s[0]) + utf16_len(t.take(k - 1)));
    } else {
        if s.len() > 0 {
            assert(utf16_width(s[0]) > 0);
        }
    }
}

/// What fits is a prefix whose width does not exceed the units, and the next char does not fit.
pub proof fn lemma_chars_in_utf16_units(s: Seq<char>, units: int)
    ensures
        chars_in_utf16_units(s, units) <= s.len(),
        units >= 0 ==> utf16_len(s.take(chars_in_utf16_units(s, units) as int)) <= units,
        chars_in_utf16_units(s, units) < s.len() ==> utf16_len(
            s.take(chars_in_utf16_units(s, units) as int + 1),
        ) > units,
    decreases s.len(),
{
    if s.len() > 0 && utf16_width(s[0]) <= units {
        let t = s.drop_first();
        let w = utf16_width(s[0]) as int;
        lemma_chars_in_utf16_units(t, units - w);
        let k = chars_in_utf16_units(t, units - w) as int;
        assert(s.take(k + 1).drop_first() =~= t.take(k));
        if k < t.len() {
            assert(s.take(k + 2).drop_first() =~= t.take(k + 1));
        }
    } else if s.len() > 0 {
        assert(s.take(1).drop_first() =~= Seq::<char>::empty());
    } else {
        assert(s.take(0) =~= Seq::<char>::empty());
    }
}

/// UTF-8 bytes of one char.
pub open spec fn utf8_width(c: char) -> nat {
    if (c as u32) < 0x80 {
        1
    } else if (c as u32) < 0x800 {
        2
    } else if (c as u32) < 0x10000 {
        3
    } else {
        4
    }
}

/// UTF-8 bytes of a sequence of chars.
pub open spec fn utf8_len(s: Seq<char>) -> nat
    decreases s.len(),
{
    if s.len() == 0 {
        0
    } else {
        utf8_width(s[0]) + utf8_len(s.drop_first())
    }
}

pub proof fn lemma_utf8_len_concat(a: Seq<char>, b: Seq<char>)
    ensures
        utf8_len(a + b) == utf8_len(a) + utf8_len(b),
    decreases a.len(),
{
    if a.len() > 0 {
        lemma_utf8_len_concat(a.drop_first(), b);
        assert((a + b).drop_first() =~= a.drop_first() + b);
    } else {
        assert(a + b =~= b);
    }
}

pub proof fn lemma_utf8_len_ge_len(s: Seq<char>)
    ensures
        utf8_len(s) >= s.len(),
    decreases s.len(),
{
    if s.len() > 0 {
        lemma_utf8_len_ge_len(s.drop_first());
    }
}

/// Extending a prefix by one char adds that char's UTF-8 width.
pub proof fn lemma_utf8_len_take(s: Seq<char>, k: int)
    requires
        0 <= k < s.len(),
    ensures
        utf8_len(s.take(k + 1)) == utf8_len(s.take(k)) + utf8_width(s[k]),
{
    lemma_utf8_len_concat(s.take(k), seq![s[k]]);
    assert(s.take(k + 1) =~= s.take(k) + seq![s[k]]);
    assert(utf8_len(seq![s[k]]) == utf8_width(s[k])) by {
        assert(seq![s[k]].drop_first() =~= Seq::<char>::empty());
        assert(utf8_len(seq![s[k]].drop_first()) == 0);
    }
}

} // verus!
