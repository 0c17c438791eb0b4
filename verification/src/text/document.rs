use vstd::prelude::*;
use ropey::Rope;
use crate::text::positions::{lemma_position_in_text, position_to_char_idx, position_to_char_idx_spec, Range};
use crate::text::rope::{
    rope_clone, rope_from_str, rope_insert, rope_len_chars, rope_remove, rope_slice_to_string,
    rope_text, rope_to_string,
};

verus! {

/// One edit that a client reports for a document: the text that replaces
/// a range, or the whole document when there is no range.
#[derive(Debug)]
pub struct TextDocumentContentChangeEvent {
    pub range: Option<Range>,
    pub range_length: Option<u32>,
    pub text: String,
}

/// What a document is: its URI, its version and its chars.
pub struct DocumentView {
    pub uri: Seq<char>,
    pub version: i32,
    pub text: Seq<char>,
}

/// The text after one change: the whole new text without a range; with a
/// range whose start does not come after its end, the chars between the
/// two positions replaced by the new text; otherwise the text unchanged.
pub open spec fn apply_change_spec(s: Seq<char>, change: TextDocumentContentChangeEvent) -> Seq<char> {
    match change.range {
        None => change.text@,
        Some(r) => {
            let a = position_to_char_idx_spec(s, r.start);
            let b = position_to_char_idx_spec(s, r.end);
            if a <= b {
                s.take(a) + change.text@ + s.skip(b)
            } else {
                s
            }
        },
    }
}

/// The text after a list of changes, applied in order.
pub open spec fn apply_changes_spec(s: Seq<char>, changes: Seq<TextDocumentContentChangeEvent>) -> Seq<char>
    decreases changes.len(),
{
    if changes.len() == 0 {
        s
    } else {
        apply_changes_spec(apply_change_spec(s, changes[0]), changes.drop_first())
    }
}

/// A change without a range replaces the whole text with its own.
pub proof fn law_full_change_replaces_text(s: Seq<char>, change: TextDocumentContentChangeEvent)
    requires
        change.range is None,
    ensures
        apply_change_spec(s, change) == change.text@,
{
}

/// A change whose range is empty inserts its text at that position: the
/// new text is the old one up to the position, then the inserted text,
/// then the rest of the old text.  Nothing of the old text is lost.
pub proof fn law_empty_range_inserts(s: Seq<char>, change: TextDocumentContentChangeEvent)
    requires
        change.range matches Some(r) && r.start == r.end,
    ensures
        ({
            let a = position_to_char_idx_spec(s, change.range->0.start);
            apply_change_spec(s, change) == s.take(a) + change.text@ + s.skip(a)
        }),
        apply_change_spec(s, change).len() == s.len() + change.text@.len(),
{
    let a = position_to_char_idx_spec(s, change.range->0.start);
    lemma_position_in_text(s, change.range->0.start);
    assert(s.take(a).len() + s.skip(a).len() == s.len());
}

/// Applying two lists of changes one after the other is applying them as
/// one list.
pub proof fn law_changes_compose(
    s: Seq<char>,
    first: Seq<TextDocumentContentChangeEvent>,
    then: Seq<TextDocumentContentChangeEvent>,
)
    ensures
        apply_changes_spec(apply_changes_spec(s, first), then) == apply_changes_spec(s, first + then),
    decreases first.len(),
{
    if first.len() == 0 {
        assert(first + then =~= then);
    } else {
        law_changes_compose(apply_change_spec(s, first[0]), first.drop_first(), then);
        assert((first + then).drop_first() =~= first.drop_first() + then);
        assert((first + then)[0] == first[0]);
    }
}

/// An open document: its URI, the version the client gave it, and its text.
pub struct TextDocument {
    uri: String,
    version: i32,
    text: Rope,
}

impl View for TextDocument {
    type V = DocumentView;

    closed spec fn view(&self) -> DocumentView {
        DocumentView { uri: self.uri@, version: self.version, text: rope_text(self.text) }
    }
}

impl TextDocument {
    pub fn new(uri: String, version: i32, text: String) -> (doc: Self)
        ensures
            doc@ == (DocumentView { uri: uri@, version, text: text@ }),
    {
        TextDocument { uri, version, text: rope_from_str(text.as_str()) }
    }

    /// An independent copy with the same URI, version and text.
    pub fn duplicate(&self) -> (doc: Self)
        ensures
            doc@ == self@,
    {
        TextDocument { uri: self.uri.clone(), version: self.version, text: rope_clone(&self.text) }
    }

    pub fn uri(&self) -> (uri: &String)
        ensures
            uri@ == self@.uri,
    {
        &self.uri
    }

    pub fn version(&self) -> (version: i32)
        ensures
            version == self@.version,
    {
        self.version
    }

    pub fn set_version(&mut self, version: i32)
        ensures
            final(self)@ == (DocumentView { version, ..old(self)@ }),
    {
        self.version = version;
    }

    pub fn rope(&self) -> (rope: &Rope)
        ensures
            rope_text(*rope) == self@.text,
    {
        &self.text
    }

    /// The chars from `start` to `end`, both capped at the end of the text;
    /// empty when `start` is not before `end`.
    pub fn slice(&self, start: usize, end: usize) -> (s: String)
        ensures
            s@ == (if start >= end {
                Seq::<char>::empty()
            } else {
                let e = if end < self@.text.len() { end as int } else { self@.text.len() as int };
                let b = if start < e { start as int } else { e };
                self@.text.subrange(b, e)
            }),
    {
        if start >= end {
            return String::new();
        }
        let len = rope_len_chars(&self.text);
        let end = if end < len {
            end
        } else {
            len
        };
        let start = if start < end {
            start
        } else {
            end
        };
        rope_slice_to_string(&self.text, start, end)
    }

    pub fn text(&self) -> (s: String)
        ensures
            s@ == self@.text,
    {
        rope_to_string(&self.text)
    }

    /// Applies one change to the text (see [`apply_change_spec`]); the URI
    /// and version stay.
    pub fn apply_change(&mut self, change: &TextDocumentContentChangeEvent)
        ensures
            final(self)@ == (DocumentView {
                text: apply_change_spec(old(self)@.text, *change),
                ..old(self)@
            }),
    {
        match &change.range {
            None => {
                self.text = rope_from_str(change.text.as_str());
            },
            Some(range) => {
                let start = position_to_char_idx(&self.text, range.start);
                let end = position_to_char_idx(&self.text, range.end);
                if start <= end {
                    let ghost s = rope_text(self.text);
                    rope_remove(&mut self.text, start, end);
                    let ghost t = rope_text(self.text);
                    assert(t.take(start as int) =~= s.take(start as int));
                    assert(t.skip(start as int) =~= s.skip(end as int));
                    rope_insert(&mut self.text, start, change.text.as_str());
                }
            },
        }
    }
}

} // verus!
