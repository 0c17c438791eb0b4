//! Go to definition: the identifier under the cursor, and where it is
//! declared in the workspace or, failing that, in the document itself.
use vstd::prelude::*;
use ropey::Rope;
use crate::analysis::symbols::{
    law_symbols_locate_declared_names, span_fits, symbols_named, SymbolIndex, SymbolView,
};
use crate::parser::analyze::{declarations_spec, parse_with_ast};
use crate::parser::ast::Decl;
use crate::parser::chars::is_ascii_letter;
use crate::parser::chars::is_ascii_digit;
use crate::text::lines::utf8_len;
use crate::index::workspace::{locations_named, text_symbols, Location, LocationView, WorkspaceIndex};
use crate::text::positions::{position_to_char_idx, position_to_char_idx_spec, Position};
use crate::text::rope::{rope_char, rope_len_bytes, rope_len_chars, rope_slice_to_string, rope_text, rope_to_string};

verus! {

/// Whether `char::is_alphanumeric` holds of a char (Unicode Alphabetic or
/// Numeric).
pub uninterp spec fn is_alphanumeric(c: char) -> bool;

/// `char::is_alphanumeric`.  Stated: the result is the named property, and
/// for ASCII chars it holds of exactly the letters and digits.
#[verifier::external_body]
fn char_is_alphanumeric(c: char) -> (b: bool)
    ensures
        b == is_alphanumeric(c),
        (c as u32) < 0x80 ==> (b <==> (is_ascii_letter(c) || is_ascii_digit(c))),
{
    c.is_alphanumeric()
}

pub open spec fn is_ident_char_spec(c: char) -> bool {
    c == '_' || is_alphanumeric(c)
}

/// Whether a char can be part of an identifier under the cursor: `_` or
/// an alphanumeric char (for ASCII: a letter or a digit).
pub fn is_ident_char(ch: char) -> (b: bool)
    ensures
        b == is_ident_char_spec(ch),
        (ch as u32) < 0x80 ==> (b <==> (is_ascii_letter(ch) || is_ascii_digit(ch) || ch == '_')),
{
    ch == '_' || char_is_alphanumeric(ch)
}

/// The char of the identifier to look at: the one at the position (or the
/// last char when the position is past the end), or else the one before it.
pub open spec fn anchor_index(s: Seq<char>, p: Position) -> Option<int> {
    if s.len() == 0 {
        None
    } else {
        let i0 = position_to_char_idx_spec(s, p);
        let i = if i0 >= s.len() { s.len() - 1 } else { i0 };
        if is_ident_char_spec(s[i]) {
            Some(i)
        } else if i > 0 && is_ident_char_spec(s[i - 1]) {
            Some(i - 1)
        } else {
            None
        }
    }
}

/// Where the run of identifier chars that ends at `i` starts.
pub open spec fn run_start(s: Seq<char>, i: int) -> int
    decreases i,
{
    if 0 < i <= s.len() && is_ident_char_spec(s[i - 1]) {
        run_start(s, i - 1)
    } else {
        i
    }
}

/// Where the run of identifier chars that starts at `i` ends.
pub open spec fn run_end(s: Seq<char>, i: int) -> int
    decreases s.len() - i,
{
    if 0 <= i < s.len() && is_ident_char_spec(s[i]) {
        run_end(s, i + 1)
    } else {
        i
    }
}

/// The identifier at a position: the whole run of identifier chars around
/// the anchor char.
pub open spec fn identifier_at_spec(s: Seq<char>, p: Position) -> Option<Seq<char>> {
    match anchor_index(s, p) {
        None => None,
        Some(i) => Some(s.subrange(run_start(s, i), run_end(s, i + 1))),
    }
}

proof fn lemma_run_start(s: Seq<char>, i: int)
    requires
        0 <= i <= s.len(),
    ensures
        0 <= run_start(s, i) <= i,
    decreases i,
{
    if 0 < i && is_ident_char_spec(s[i - 1]) {
        lemma_run_start(s, i - 1);
    }
}

proof fn lemma_run_end(s: Seq<char>, i: int)
    requires
        0 <= i <= s.len(),
    ensures
        i <= run_end(s, i) <= s.len(),
    decreases s.len() - i,
{
    if i < s.len() && is_ident_char_spec(s[i]) {
        lemma_run_end(s, i + 1);
    }
}

fn slice_rope(rope: &Rope, start: usize, end: usize) -> (s: String)
    requires
        start <= end <= rope_text(*rope).len(),
    ensures
        s@ == rope_text(*rope).subrange(start as int, end as int),
{
    if start >= end {
        return String::new();
    }
    rope_slice_to_string(rope, start, end)
}

/// The identifier around a position of the text (see [`identifier_at_spec`]).
pub fn identifier_at_position(rope: &Rope, position: Position) -> (r: Option<String>)
    ensures
        match r {
            Some(w) => identifier_at_spec(rope_text(*rope), position) == Some(w@),
            None => identifier_at_spec(rope_text(*rope), position) is None,
        },
{
    let ghost s = rope_text(*rope);
    let mut index = position_to_char_idx(rope, position);
    let len = rope_len_chars(rope);
    if len == 0 {
        return None;
    }
    if index >= len {
        index = len - 1;
    }
    let current = rope_char(rope, index);
    if !is_ident_char(current) {
        if index == 0 {
            return None;
        }
        let prev = rope_char(rope, index - 1);
        if !is_ident_char(prev) {
            return None;
        }
        index = index - 1;
    }
    let ghost anchor = index as int;
    assert(anchor_index(s, position) == Some(anchor));
    let mut start = index;
    while start > 0 && is_ident_char(rope_char(rope, start - 1))
        invariant
            s == rope_text(*rope),
            len == s.len(),
            start <= anchor < len,
            run_start(s, anchor) == run_start(s, start as int),
        decreases start,
    {
        start = start - 1;
    }
    let mut end = index + 1;
    while end < len && is_ident_char(rope_char(rope, end))
        invariant
            s == rope_text(*rope),
            len == s.len(),
            anchor < end <= len,
            run_end(s, anchor + 1) == run_end(s, end as int),
        decreases len - end,
    {
        end = end + 1;
    }
    if start >= end {
        return None;
    }
    Some(slice_rope(rope, start, end))
}

/// Where go to definition leads: one location, or several.
#[derive(Debug)]
pub enum DefinitionResponse {
    Scalar(Location),
    Array(Vec<Location>),
}

/// The locations of a document's own declarations of a name.
pub open spec fn local_locations(uri: Seq<char>, s: Seq<char>, name: Seq<char>) -> Seq<LocationView> {
    symbols_named(text_symbols(s), name).map_values(
        |sym: SymbolView| LocationView { uri, range: sym.range },
    )
}

/// The declarations of the identifier at a position: those the workspace
/// index knows, or else those of the document itself.
pub open spec fn definition_spec(
    uri: Seq<char>,
    s: Seq<char>,
    p: Position,
    entries: Seq<crate::index::workspace::EntryView>,
) -> Seq<LocationView> {
    match identifier_at_spec(s, p) {
        None => Seq::empty(),
        Some(name) => if locations_named(entries, name).len() > 0 {
            locations_named(entries, name)
        } else {
            local_locations(uri, s, name)
        },
    }
}

/// What the response holds: its locations.
pub open spec fn response_locations(r: Option<DefinitionResponse>) -> Seq<LocationView> {
    match r {
        None => Seq::empty(),
        Some(DefinitionResponse::Scalar(l)) => seq![l@],
        Some(DefinitionResponse::Array(v)) => v@.map_values(|l: Location| l@),
    }
}

fn respond(mut locations: Vec<Location>) -> (r: Option<DefinitionResponse>)
    ensures
        response_locations(r) == locations@.map_values(|l: Location| l@),
        r is None <==> locations.len() == 0,
        r matches Some(DefinitionResponse::Array(v)) ==> v.len() > 1,
{
    if locations.len() == 0 {
        assert(locations@.map_values(|l: Location| l@) =~= Seq::<LocationView>::empty());
        None
    } else if locations.len() == 1 {
        let ghost v = locations@.map_values(|l: Location| l@);
        let l = locations.pop().unwrap();
        assert(v =~= seq![l@]);
        Some(DefinitionResponse::Scalar(l))
    } else {
        Some(DefinitionResponse::Array(locations))
    }
}

/// Go to definition in document `uri` with text `text`: the identifier at
/// the position, looked up in the workspace index and, when the index has
/// no declaration of it, among the document's own declarations (see
/// [`definition_spec`]); one location comes back as `Scalar`, more as
/// `Array`, none as `None`.
pub fn goto_definition(
    uri: &String,
    text: &Rope,
    position: Position,
    workspace: &WorkspaceIndex,
) -> (r: Option<DefinitionResponse>)
    ensures
        response_locations(r) == definition_spec(uri@, rope_text(*text), position, workspace@.entries),
        r matches Some(DefinitionResponse::Array(v)) ==> v.len() > 1,
{
    let ghost s = rope_text(*text);
    let name = match identifier_at_position(text, position) {
        Some(name) => name,
        None => {
            assert(response_locations(None) =~= Seq::<LocationView>::empty());
            return None;
        },
    };
    let workspace_locations = workspace.find_all(name.as_str());
    if workspace_locations.len() > 0 {
        return respond(workspace_locations);
    }
    let text_snapshot = rope_to_string(text);
    let (ast, _) = parse_with_ast(text_snapshot.as_str());
    let file = match ast {
        Some(file) => file,
        None => {
            return None;
        },
    };
    // Every byte offset of the text fits in a usize.
    let byte_len = rope_len_bytes(text);
    assert(utf8_len(s) == byte_len);
    proof {
        law_symbols_locate_declared_names(s);
        assert forall|i: int| 0 <= i < file.declarations.len() implies span_fits(
            s,
            (#[trigger] file.declarations@[i])@.span,
        ) by {
            assert(file.declarations@.map_values(|d: Decl| d@)[i] == declarations_spec(s)[i]);
        }
        assert(file.declarations@.map_values(|d: Decl| d@) == declarations_spec(s));
    }
    let symbols = SymbolIndex::from_file(&file, text);
    let found = symbols.find_all(name.as_str());
    let ghost want = local_locations(uri@, s, name@);
    let mut locations: Vec<Location> = Vec::new();
    let mut k: usize = 0;
    while k < found.len()
        invariant
            k <= found.len(),
            found@.map_values(|x: crate::analysis::Symbol| x@) == symbols_named(text_symbols(s), name@),
            want == local_locations(uri@, s, name@),
            locations.len() == k,
            forall|t: int| 0 <= t < k ==> (#[trigger] locations@[t])@ == want[t],
        decreases found.len() - k,
    {
        locations.push(Location { uri: uri.clone(), range: found[k].range });
        k = k + 1;
    }
    proof {
        let got = locations@.map_values(|l: Location| l@);
        assert forall|t: int| 0 <= t < got.len() implies #[trigger] got[t] == want[t] by {
            assert(locations@[t]@ == want[t]);
        }
        assert(got =~= want);
    }
    respond(locations)
}

/// Go to definition answers with the workspace first: whenever the
/// workspace index knows at least one declaration of the identifier at the
/// position, the answer is exactly those locations, in the index's order;
/// only when it knows none does the document's own declarations count, and
/// without an identifier there is no answer.
pub proof fn law_definition_prefers_workspace(
    uri: Seq<char>,
    s: Seq<char>,
    p: Position,
    entries: Seq<crate::index::workspace::EntryView>,
)
    ensures
        identifier_at_spec(s, p) is None ==> definition_spec(uri, s, p, entries).len() == 0,
        identifier_at_spec(s, p) matches Some(name) ==> (locations_named(entries, name).len() >= 1
            ==> definition_spec(uri, s, p, entries) == locations_named(entries, name)),
        identifier_at_spec(s, p) matches Some(name) ==> (locations_named(entries, name).len() == 0
            ==> definition_spec(uri, s, p, entries) == local_locations(uri, s, name)),
{
}

} // verus!
