//! What the server does with its documents and its index when the client
//! opens, changes or closes a document.
use vstd::prelude::*;
use crate::diagnostics::convert::{lsp_form, to_lsp_diagnostic, LspDiagnostic, LspDiagnosticView};
use crate::diagnostics::Diagnostic;
use crate::index::workspace::{text_symbols, update_entries, DiskFile, WorkspaceIndex};
use crate::parser::analyze::diagnostics_spec;
use crate::text::document::{apply_changes_spec, DocumentView, TextDocumentContentChangeEvent};
use crate::text::rope::{rope_clone, rope_from_str, rope_text};
use crate::text::store::DocumentStore;

verus! {

/// The text of the document held under `uri`, or the empty text.
pub open spec fn document_text(docs: Map<Seq<char>, DocumentView>, uri: Seq<char>) -> Seq<char> {
    if docs.contains_key(uri) {
        docs[uri].text
    } else {
        Seq::empty()
    }
}

/// The diagnostics published for a text: its syntax diagnostics in
/// protocol form.
pub open spec fn published_diagnostics(t: Seq<char>) -> Seq<LspDiagnosticView> {
    Seq::new(diagnostics_spec(t).len(), |i: int| lsp_form(t, diagnostics_spec(t)[i]))
}

pub open spec fn lsp_views(v: Seq<LspDiagnostic>) -> Seq<LspDiagnosticView> {
    Seq::new(v.len(), |i: int| v[i]@)
}

/// Indexes the document held under `uri` (the empty text when there is
/// none) and gives back its diagnostics in protocol form.
fn reindex_document(documents: &DocumentStore, index: &mut WorkspaceIndex, uri: &String) -> (r: Vec<
    LspDiagnostic,
>)
    requires
        documents.wf(),
    ensures
        final(index)@.files == old(index)@.files,
        final(index)@.entries == update_entries(
            old(index)@.entries,
            uri@,
            Some(text_symbols(document_text(documents@, uri@))),
        ),
        lsp_views(r@) == published_diagnostics(document_text(documents@, uri@)),
{
    let found = documents.get(uri);
    let text: String;
    let rope;
    match found {
        Some(document) => {
            text = document.text();
            rope = rope_clone(document.rope());
        },
        None => {
            text = String::new();
            rope = rope_from_str("");
            proof {
                reveal_strlit("");
            }
        },
    }
    let ghost t = text@;
    assert(t == document_text(documents@, uri@));
    assert(rope_text(rope) == t);
    let diags = index.index_text(uri, text.as_str());
    let mut out: Vec<LspDiagnostic> = Vec::new();
    let mut i: usize = 0;
    while i < diags.len()
        invariant
            i <= diags.len(),
            rope_text(rope) == t,
            diags@.map_values(|d: Diagnostic| d@) == diagnostics_spec(t),
            out.len() == i,
            forall|k: int| 0 <= k < i ==> (#[trigger] out@[k])@ == lsp_form(t, diagnostics_spec(t)[k]),
        decreases diags.len() - i,
    {
        assert(diags@.map_values(|d: Diagnostic| d@)[i as int] == diags@[i as int]@);
        out.push(to_lsp_diagnostic(&diags[i], &rope));
        i = i + 1;
    }
    assert(lsp_views(out@) =~= published_diagnostics(t));
    out
}

/// The client opened a document: the store holds it, the index holds the
/// symbols of its text, and the text's diagnostics come back to publish.
pub fn document_opened(
    documents: &mut DocumentStore,
    index: &mut WorkspaceIndex,
    uri: String,
    version: i32,
    text: String,
) -> (r: Vec<LspDiagnostic>)
    requires
        old(documents).wf(),
    ensures
        final(documents).wf(),
        final(documents)@ == old(documents)@.insert(
            uri@,
            DocumentView { uri: uri@, version, text: text@ },
        ),
        final(index)@.files == old(index)@.files,
        final(index)@.entries == update_entries(old(index)@.entries, uri@, Some(text_symbols(text@))),
        lsp_views(r@) == published_diagnostics(text@),
{
    let key = uri.clone();
    documents.open(uri, version, text);
    reindex_document(documents, index, &key)
}

/// The client changed a document: the changes apply in order to the text
/// the store holds, which takes the version; the index holds the symbols
/// of the new text, and its diagnostics come back to publish.  A document
/// the store does not hold stays unheld and is indexed as empty.
pub fn document_changed(
    documents: &mut DocumentStore,
    index: &mut WorkspaceIndex,
    uri: &String,
    version: i32,
    changes: &[TextDocumentContentChangeEvent],
) -> (r: Vec<LspDiagnostic>)
    requires
        old(documents).wf(),
    ensures
        final(documents).wf(),
        old(documents)@.contains_key(uri@) ==> final(documents)@ == old(documents)@.insert(
            uri@,
            DocumentView {
                version,
                text: apply_changes_spec(old(documents)@[uri@].text, changes@),
                ..old(documents)@[uri@]
            },
        ),
        !old(documents)@.contains_key(uri@) ==> final(documents)@ == old(documents)@,
        final(index)@.files == old(index)@.files,
        final(index)@.entries == update_entries(
            old(index)@.entries,
            uri@,
            Some(text_symbols(document_text(final(documents)@, uri@))),
        ),
        lsp_views(r@) == published_diagnostics(document_text(final(documents)@, uri@)),
{
    documents.apply_changes(uri, version, changes);
    reindex_document(documents, index, uri)
}

/// The client closed a document: the store drops it and the index reads it
/// again from its file (see [`WorkspaceIndex::refresh_from_disk`]).
pub fn document_closed(
    documents: &mut DocumentStore,
    index: &mut WorkspaceIndex,
    uri: &String,
    disk: Option<DiskFile>,
)
    requires
        old(documents).wf(),
    ensures
        final(documents).wf(),
        final(documents)@ == old(documents)@.remove(uri@),
        match disk {
            Some(df) => {
                &&& final(index)@.entries == update_entries(
                    old(index)@.entries,
                    uri@,
                    Some(text_symbols(df.text@)),
                )
                &&& final(index)@.files == match df.modified {
                    Some(m) => crate::index::workspace::set_stamp(
                        old(index)@.files,
                        crate::index::workspace::FileStampView {
                            path: df.path@,
                            uri: Some(uri@),
                            modified: m,
                        },
                    ),
                    None => old(index)@.files,
                }
            },
            None => {
                &&& final(index)@.entries == crate::index::workspace::without_uri(
                    old(index)@.entries,
                    uri@,
                )
                &&& final(index)@.files == old(index)@.files
            },
        },
{
    documents.close(uri);
    index.refresh_from_disk(uri, disk);
}

} // verus!
