use vstd::prelude::*;
use ropey::Rope;
use crate::parser::ast::{Decl, DeclView, Span};
use crate::text::lines::{lemma_utf8_len_take, utf8_len};
use crate::text::positions::{char_idx_to_position, char_idx_to_position_spec, Range};
use crate::text::rope::{rope_byte_to_char, rope_len_bytes, rope_text};
use crate::text::strings::str_eq;
use crate::parser::analyze::{declarations_spec, decl_view_spec};
use crate::parser::grammar::{lemma_run_indices, parse_spec};
use crate::parser::lexer::{lemma_lex_ranges, lemma_utf8_len_prefix, lex_spec, TokenKind};

verus! {

/// A declared name and the range it occupies in its document.
#[derive(Debug)]
pub struct Symbol {
    pub name: String,
    pub range: Range,
}

pub struct SymbolView {
    pub name: Seq<char>,
    pub range: Range,
}

impl View for Symbol {
    type V = SymbolView;

    open spec fn view(&self) -> SymbolView {
        SymbolView { name: self.name@, range: self.range }
    }
}

impl Clone for Symbol {
    fn clone(&self) -> (r: Self)
        ensures
            r@ == self@,
    {
        Symbol { name: self.name.clone(), range: self.range }
    }
}

/// A byte offset where a char of `s` starts (or the end of `s`).
pub open spec fn is_byte_boundary(s: Seq<char>, b: int) -> bool {
    exists|i: int| 0 <= i <= s.len() && utf8_len(s.take(i)) == b
}

/// The index of the char that starts at byte offset `b`.
pub open spec fn char_of_byte(s: Seq<char>, b: int) -> int {
    choose|i: int| 0 <= i <= s.len() && utf8_len(s.take(i)) == b
}

/// A byte offset, capped at the byte length of `s`.
pub open spec fn clamp_byte(s: Seq<char>, b: int) -> int {
    if b < utf8_len(s) {
        b
    } else {
        utf8_len(s) as int
    }
}

/// The range of positions that a byte span covers in `s`.
pub open spec fn span_range(s: Seq<char>, span: Span) -> Range {
    Range {
        start: char_idx_to_position_spec(s, char_of_byte(s, clamp_byte(s, span.start as int))),
        end: char_idx_to_position_spec(s, char_of_byte(s, clamp_byte(s, span.end as int))),
    }
}

/// A span whose (capped) ends fall on char boundaries of `s`.
pub open spec fn span_fits(s: Seq<char>, span: Span) -> bool {
    is_byte_boundary(s, clamp_byte(s, span.start as int)) && is_byte_boundary(
        s,
        clamp_byte(s, span.end as int),
    )
}

/// The symbols of a list of declarations: each declaration's name, at the
/// range of its name's span in `s`.
pub open spec fn symbols_of(s: Seq<char>, decls: Seq<DeclView>) -> Seq<SymbolView> {
    decls.map_values(|d: DeclView| SymbolView { name: d.name, range: span_range(s, d.span) })
}

/// The symbols of a list that have a given name, in order.
pub open spec fn symbols_named(syms: Seq<SymbolView>, name: Seq<char>) -> Seq<SymbolView>
    decreases syms.len(),
{
    if syms.len() == 0 {
        Seq::empty()
    } else {
        let r = symbols_named(syms.drop_last(), name);
        if syms.last().name == name {
            r.push(syms.last())
        } else {
            r
        }
    }
}

pub proof fn lemma_symbols_named_concat(a: Seq<SymbolView>, b: Seq<SymbolView>, name: Seq<char>)
    ensures
        symbols_named(a + b, name) == symbols_named(a, name) + symbols_named(b, name),
    decreases b.len(),
{
    if b.len() == 0 {
        assert(a + b =~= a);
        assert(symbols_named(a, name) + Seq::<SymbolView>::empty() =~= symbols_named(a, name));
    } else {
        lemma_symbols_named_concat(a, b.drop_last(), name);
        assert((a + b).drop_last() =~= a + b.drop_last());
        assert((symbols_named(a, name) + symbols_named(b.drop_last(), name)).push(b.last())
            =~= symbols_named(a, name) + symbols_named(b.drop_last(), name).push(b.last()));
    }
}

/// Byte offsets of char starts grow with the char index.
pub proof fn lemma_utf8_prefix_increasing(s: Seq<char>, i: int, j: int)
    requires
        0 <= i < j <= s.len(),
    ensures
        utf8_len(s.take(i)) < utf8_len(s.take(j)),
    decreases j - i,
{
    lemma_utf8_len_take(s, j - 1);
    if i < j - 1 {
        lemma_utf8_prefix_increasing(s, i, j - 1);
    }
}

pub proof fn lemma_char_of_byte(s: Seq<char>, i: int)
    requires
        0 <= i <= s.len(),
    ensures
        is_byte_boundary(s, utf8_len(s.take(i)) as int),
        char_of_byte(s, utf8_len(s.take(i)) as int) == i,
{
    let b = utf8_len(s.take(i)) as int;
    assert(0 <= i <= s.len() && utf8_len(s.take(i)) == b);
    let c = char_of_byte(s, b);
    if c < i {
        lemma_utf8_prefix_increasing(s, c, i);
    } else if i < c {
        lemma_utf8_prefix_increasing(s, i, c);
    }
}

/// The declarations that parsing a text finds have name spans that fall on
/// the text's char boundaries, and the symbol of each is its name's text at
/// the positions where the name's identifier token starts and ends.
pub proof fn law_symbols_locate_declared_names(s: Seq<char>)
    requires
        utf8_len(s) <= usize::MAX,
    ensures
        forall|i: int|
            0 <= i < declarations_spec(s).len() ==> span_fits(s, (#[trigger] declarations_spec(s)[i]).span),
        forall|i: int|
            0 <= i < declarations_spec(s).len() ==> {
                let l = lex_spec(s).0[parse_spec(s, lex_spec(s).0).0[i].name as int];
                &&& l.kind == TokenKind::Ident
                &&& 0 <= l.start < l.end <= s.len()
                &&& #[trigger] symbols_of(s, declarations_spec(s))[i] == SymbolView {
                    name: s.subrange(l.start, l.end),
                    range: Range {
                        start: char_idx_to_position_spec(s, l.start),
                        end: char_idx_to_position_spec(s, l.end),
                    },
                }
            },
{
    let ls = lex_spec(s).0;
    let decls = parse_spec(s, ls).0;
    lemma_lex_ranges(s, 0, false);
    crate::text::lines::lemma_utf8_len_ge_len(s);
    lemma_run_indices(s, ls, ls.len() as int);
    assert forall|i: int| 0 <= i < declarations_spec(s).len() implies span_fits(
        s,
        (#[trigger] declarations_spec(s)[i]).span,
    ) && {
        let l = ls[decls[i].name as int];
        &&& l.kind == TokenKind::Ident
        &&& 0 <= l.start < l.end <= s.len()
        &&& symbols_of(s, declarations_spec(s))[i] == SymbolView {
            name: s.subrange(l.start, l.end),
            range: Range {
                start: char_idx_to_position_spec(s, l.start),
                end: char_idx_to_position_spec(s, l.end),
            },
        }
    } by {
        let d = decls[i];
        let l = ls[d.name as int];
        assert(declarations_spec(s)[i] == decl_view_spec(s, ls, d));
        lemma_utf8_len_prefix(s, l.start);
        lemma_utf8_len_prefix(s, l.end);
        lemma_char_of_byte(s, l.start);
        lemma_char_of_byte(s, l.end);
    }
}

/// The char index at a byte boundary of the rope (capped at its end).
fn byte_to_char_idx(text: &Rope, byte: usize) -> (c: usize)
    requires
        is_byte_boundary(rope_text(*text), clamp_byte(rope_text(*text), byte as int)),
    ensures
        c == char_of_byte(rope_text(*text), clamp_byte(rope_text(*text), byte as int)),
{
    let len = rope_len_bytes(text);
    let clamped = if byte < len {
        byte
    } else {
        len
    };
    let c = rope_byte_to_char(text, clamped);
    proof {
        let s = rope_text(*text);
        let i = char_of_byte(s, clamped as int);
        assert(0 <= i <= s.len() && utf8_len(s.take(i)) == clamped);
    }
    c
}

/// The declarations of one file by name.
pub struct SymbolIndex {
    symbols: Vec<Symbol>,
}

impl View for SymbolIndex {
    type V = Seq<SymbolView>;

    closed spec fn view(&self) -> Seq<SymbolView> {
        self.symbols@.map_values(|s: Symbol| s@)
    }
}

impl SymbolIndex {
    /// An index with no symbols.
    pub fn new() -> (index: Self)
        ensures
            index@ == Seq::<SymbolView>::empty(),
    {
        let index = SymbolIndex { symbols: Vec::new() };
        assert(index@ =~= Seq::<SymbolView>::empty());
        index
    }

    /// The symbols of a parsed file, in declaration order, located in
    /// `text` (see [`symbols_of`]).  Each declaration's span must fall on
    /// char boundaries of `text`, as it does when the file was parsed from it.
    pub fn from_file(file: &crate::parser::ast::File, text: &Rope) -> (index: Self)
        requires
            forall|i: int|
                0 <= i < file.declarations.len() ==> span_fits(
                    rope_text(*text),
                    (#[trigger] file.declarations@[i])@.span,
                ),
        ensures
            index@ == symbols_of(rope_text(*text), file.declarations@.map_values(|d: Decl| d@)),
    {
        let ghost s = rope_text(*text);
        let mut symbols: Vec<Symbol> = Vec::new();
        let mut k: usize = 0;
        while k < file.declarations.len()
            invariant
                s == rope_text(*text),
                k <= file.declarations.len(),
                forall|i: int|
                    0 <= i < file.declarations.len() ==> span_fits(
                        s,
                        (#[trigger] file.declarations@[i])@.span,
                    ),
                symbols.len() == k,
                forall|t: int|
                    0 <= t < k ==> (#[trigger] symbols@[t])@ == (SymbolView {
                        name: file.declarations@[t]@.name,
                        range: span_range(s, file.declarations@[t]@.span),
                    }),
            decreases file.declarations.len() - k,
        {
            let decl = &file.declarations[k];
            let ident = match decl {
                Decl::Class(class_decl) => &class_decl.name,
                Decl::Fun(fun_decl) => &fun_decl.name,
                Decl::Property(prop_decl) => &prop_decl.name,
            };
            assert(span_fits(s, file.declarations@[k as int]@.span));
            let start = char_idx_to_position(text, byte_to_char_idx(text, ident.span.start));
            let end = char_idx_to_position(text, byte_to_char_idx(text, ident.span.end));
            symbols.push(Symbol { name: ident.name.clone(), range: Range { start, end } });
            k = k + 1;
        }
        let index = SymbolIndex { symbols };
        proof {
            let want = symbols_of(s, file.declarations@.map_values(|d: Decl| d@));
            let got = index@;
            assert forall|t: int| 0 <= t < got.len() implies #[trigger] got[t] == want[t] by {
                assert(symbols@[t]@ == got[t]);
            }
            assert(got =~= want);
        }
        index
    }

    /// The first symbol with this name, if any: the first of [`Self::find_all`].
    pub fn find(&self, name: &str) -> (r: Option<&Symbol>)
        ensures
            match r {
                Some(sym) => symbols_named(self@, name@).len() > 0 && sym@ == symbols_named(
                    self@,
                    name@,
                )[0],
                None => symbols_named(self@, name@).len() == 0,
            },
    {
        let ghost all = self@;
        let mut i: usize = 0;
        while i < self.symbols.len()
            invariant
                all == self@,
                i <= self.symbols.len(),
                symbols_named(all.take(i as int), name@) == Seq::<SymbolView>::empty(),
            decreases self.symbols.len() - i,
        {
            assert(all.take(i + 1).drop_last() =~= all.take(i as int));
            if str_eq(self.symbols[i].name.as_str(), name) {
                proof {
                    assert(all.take(i + 1).last() == all[i as int]);
                    lemma_symbols_named_concat(all.take(i + 1), all.skip(i + 1), name@);
                    assert(all.take(i + 1) + all.skip(i + 1) =~= all);
                    assert(symbols_named(all.take(i + 1), name@) =~= seq![all[i as int]]);
                }
                return Some(&self.symbols[i]);
            }
            i = i + 1;
        }
        assert(all.take(i as int) =~= all);
        None
    }

    /// The symbols with this name, in declaration order.
    pub fn find_all(&self, name: &str) -> (r: Vec<Symbol>)
        ensures
            r@.map_values(|s: Symbol| s@) == symbols_named(self@, name@),
    {
        let ghost all = self@;
        let mut found: Vec<Symbol> = Vec::new();
        let mut i: usize = 0;
        while i < self.symbols.len()
            invariant
                all == self@,
                i <= self.symbols.len(),
                found@.map_values(|s: Symbol| s@) == symbols_named(all.take(i as int), name@),
            decreases self.symbols.len() - i,
        {
            assert(all.take(i + 1).drop_last() =~= all.take(i as int));
            if str_eq(self.symbols[i].name.as_str(), name) {
                let ghost prev = found@;
                found.push(self.symbols[i].clone());
                assert(found@.map_values(|s: Symbol| s@) =~= prev.map_values(|s: Symbol| s@).push(
                    all[i as int],
                ));
            }
            i = i + 1;
        }
        assert(all.take(i as int) =~= all);
        found
    }

    /// All the symbols, in declaration order.
    pub fn all_symbols(&self) -> (r: Vec<Symbol>)
        ensures
            r@.map_values(|s: Symbol| s@) == self@,
    {
        let mut out: Vec<Symbol> = Vec::new();
        let mut i: usize = 0;
        while i < self.symbols.len()
            invariant
                i <= self.symbols.len(),
                out.len() == i,
                forall|t: int| 0 <= t < i ==> (#[trigger] out@[t])@ == self.symbols@[t]@,
            decreases self.symbols.len() - i,
        {
            out.push(self.symbols[i].clone());
            i = i + 1;
        }
        proof {
            let got = out@.map_values(|s: Symbol| s@);
            assert forall|t: int| 0 <= t < got.len() implies #[trigger] got[t] == self@[t] by {
                assert(out@[t]@ == self.symbols@[t]@);
            }
            assert(got =~= self@);
        }
        out
    }
}

impl Default for SymbolIndex {
    fn default() -> (index: Self)
        ensures
            index@ == Seq::<SymbolView>::empty(),
    {
        SymbolIndex::new()
    }
}

} // verus!
