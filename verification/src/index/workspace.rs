//! The symbols of all the Kotlin files of a workspace, kept up to date from
//! open documents and from scans of the disk.
use vstd::prelude::*;
use crate::analysis::symbols::{
    law_symbols_locate_declared_names, span_fits, symbols_of, SymbolIndex, SymbolView,
};
use crate::diagnostics::Diagnostic;
use crate::parser::analyze::{declarations_spec, diagnostics_spec, parse_with_ast};
use crate::parser::ast::{Decl, File};
use crate::parser::lexer::lemma_utf8_len_encode;
use crate::text::lines::utf8_len;
use crate::text::positions::Range;
use crate::text::rope::rope_from_str;
use crate::text::strings::str_eq;
pub use crate::text::uri::opt_view;
use crate::text::uri::{file_path_to_uri, file_path_url};

verus! {

/// A place in a document: its URI and a range in it.
#[derive(Debug)]
pub struct Location {
    pub uri: String,
    pub range: Range,
}

pub struct LocationView {
    pub uri: Seq<char>,
    pub range: Range,
}

impl View for Location {
    type V = LocationView;

    open spec fn view(&self) -> LocationView {
        LocationView { uri: self.uri@, range: self.range }
    }
}

impl Clone for Location {
    fn clone(&self) -> (r: Self)
        ensures
            r@ == self@,
    {
        Location { uri: self.uri.clone(), range: self.range }
    }
}

/// One symbol of the workspace: its name, and the document and range
/// where it is declared.
struct SymbolEntry {
    name: String,
    location: Location,
}

pub struct EntryView {
    pub name: Seq<char>,
    pub uri: Seq<char>,
    pub range: Range,
}

impl View for SymbolEntry {
    type V = EntryView;

    closed spec fn view(&self) -> EntryView {
        EntryView { name: self.name@, uri: self.location.uri@, range: self.location.range }
    }
}


/// A Kotlin file seen on disk: its path, its URI (when the path has one)
/// and when it was last modified (nanoseconds from the Unix epoch).
pub struct FileStamp {
    pub path: String,
    pub uri: Option<String>,
    pub modified: i128,
}

pub struct FileStampView {
    pub path: Seq<char>,
    pub uri: Option<Seq<char>>,
    pub modified: i128,
}

impl View for FileStamp {
    type V = FileStampView;

    open spec fn view(&self) -> FileStampView {
        FileStampView { path: self.path@, uri: opt_view(self.uri), modified: self.modified }
    }
}

fn clone_opt(o: &Option<String>) -> (r: Option<String>)
    ensures
        opt_view(r) == opt_view(*o),
{
    match o {
        Some(s) => Some(s.clone()),
        None => None,
    }
}

impl FileStamp {
    /// A stamp for a scanned file: its path, the URI that the path converts
    /// to (`None` where it has none), and its modification time.
    pub fn new(path: String, modified: i128) -> (stamp: Self)
        ensures
            stamp.path@ == path@,
            stamp@.uri == file_path_url(path@),
            stamp.modified == modified,
    {
        let uri = file_path_to_uri(path.as_str());
        FileStamp { path, uri, modified }
    }

    pub fn duplicate(&self) -> (r: Self)
        ensures
            r@ == self@,
    {
        FileStamp { path: self.path.clone(), uri: clone_opt(&self.uri), modified: self.modified }
    }
}


/// A Kotlin file read from disk for a document that was just closed.
pub struct DiskFile {
    pub path: String,
    pub text: String,
    pub modified: Option<i128>,
}

/// The entries of a list whose document is not `uri`.
pub open spec fn without_uri(entries: Seq<EntryView>, uri: Seq<char>) -> Seq<EntryView>
    decreases entries.len(),
{
    if entries.len() == 0 {
        Seq::empty()
    } else {
        let r = without_uri(entries.drop_last(), uri);
        if entries.last().uri == uri {
            r
        } else {
            r.push(entries.last())
        }
    }
}

/// The entries for a document's symbols.
pub open spec fn entries_for(uri: Seq<char>, syms: Seq<SymbolView>) -> Seq<EntryView> {
    syms.map_values(|s: SymbolView| EntryView { name: s.name, uri, range: s.range })
}

/// The entries after a document is indexed again: its old entries go; the
/// entries for its new symbols, if it has any, come last.
pub open spec fn update_entries(
    entries: Seq<EntryView>,
    uri: Seq<char>,
    syms: Option<Seq<SymbolView>>,
) -> Seq<EntryView> {
    match syms {
        Some(ss) => without_uri(entries, uri) + entries_for(uri, ss),
        None => without_uri(entries, uri),
    }
}

/// The locations of the entries with a given name, in order.
pub open spec fn locations_named(entries: Seq<EntryView>, name: Seq<char>) -> Seq<LocationView>
    decreases entries.len(),
{
    if entries.len() == 0 {
        Seq::empty()
    } else {
        let r = locations_named(entries.drop_last(), name);
        if entries.last().name == name {
            r.push(LocationView { uri: entries.last().uri, range: entries.last().range })
        } else {
            r
        }
    }
}

/// The symbols of a source text: those of its declarations, located in it.
pub open spec fn text_symbols(t: Seq<char>) -> Seq<SymbolView> {
    symbols_of(t, declarations_spec(t))
}

/// Index of the first stamp with this path, or -1.
pub open spec fn stamp_index_from(files: Seq<FileStampView>, path: Seq<char>, k: int) -> int
    decreases files.len() - k,
{
    if k < 0 || k >= files.len() {
        -1
    } else if files[k].path == path {
        k
    } else {
        stamp_index_from(files, path, k + 1)
    }
}

pub open spec fn stamp_index(files: Seq<FileStampView>, path: Seq<char>) -> int {
    stamp_index_from(files, path, 0)
}

/// The stamps after recording one: it replaces the stamp with its path, or
/// comes last.
pub open spec fn set_stamp(files: Seq<FileStampView>, stamp: FileStampView) -> Seq<FileStampView> {
    let i = stamp_index(files, stamp.path);
    if 0 <= i < files.len() {
        files.update(i, stamp)
    } else {
        files.push(stamp)
    }
}


/// Whether a stamp's file changed since it was recorded: the index has no
/// stamp for its path, or one with another modification time.
pub open spec fn is_stale(files: Seq<FileStampView>, f: FileStampView) -> bool {
    let i = stamp_index(files, f.path);
    !(0 <= i < files.len() && files[i].modified == f.modified)
}

/// One scanned file: a file with a URI that is not skipped and that changed
/// is indexed again from its text (when it could be read) and its stamp is
/// recorded; anything else changes nothing.
pub open spec fn refresh_one(
    st: WorkspaceView,
    f: FileStampView,
    skip: Seq<Seq<char>>,
    text: Option<Seq<char>>,
) -> WorkspaceView {
    match f.uri {
        None => st,
        Some(u) => if skip.contains(u) || !is_stale(st.files, f) {
            st
        } else {
            WorkspaceView {
                entries: match text {
                    Some(t) => update_entries(st.entries, u, Some(text_symbols(t))),
                    None => st.entries,
                },
                files: set_stamp(st.files, f),
            }
        },
    }
}

/// The scanned files, one after the other (`texts[i]` is the text read for
/// `current[i]`).
pub open spec fn refresh_scanned(
    st: WorkspaceView,
    current: Seq<FileStampView>,
    skip: Seq<Seq<char>>,
    texts: Seq<Option<Seq<char>>>,
) -> WorkspaceView
    decreases current.len(),
{
    if current.len() == 0 {
        st
    } else {
        refresh_one(
            refresh_scanned(st, current.drop_last(), skip, texts),
            current.last(),
            skip,
            texts[current.len() - 1],
        )
    }
}

/// Whether a path was among the scanned files.
pub open spec fn in_scan(current: Seq<FileStampView>, path: Seq<char>) -> bool {
    exists|j: int| 0 <= j < current.len() && current[j].path == path
}

/// The entries after the files that the scan no longer found are
/// forgotten: the entries of each such file's URI go, unless that URI is an
/// open document (in `skip`), whose entries the refresh leaves alone.
pub open spec fn forget_missing(
    entries: Seq<EntryView>,
    files: Seq<FileStampView>,
    current: Seq<FileStampView>,
    skip: Seq<Seq<char>>,
) -> Seq<EntryView>
    decreases files.len(),
{
    if files.len() == 0 {
        entries
    } else {
        let r = forget_missing(entries, files.drop_last(), current, skip);
        let f = files.last();
        if !in_scan(current, f.path) && f.uri is Some && !skip.contains(f.uri->0) {
            without_uri(r, f.uri->0)
        } else {
            r
        }
    }
}

/// The stamps of the files that the scan found, in order.
pub open spec fn keep_scanned(files: Seq<FileStampView>, current: Seq<FileStampView>) -> Seq<
    FileStampView,
>
    decreases files.len(),
{
    if files.len() == 0 {
        Seq::empty()
    } else {
        let r = keep_scanned(files.drop_last(), current);
        if in_scan(current, files.last().path) {
            r.push(files.last())
        } else {
            r
        }
    }
}

/// A whole refresh from a scan: the scanned files one after the other, then
/// the files that the scan no longer found are forgotten.  The entries of
/// the open documents (`skip`) stay as they were throughout.
pub open spec fn refresh_spec(
    st: WorkspaceView,
    current: Seq<FileStampView>,
    skip: Seq<Seq<char>>,
    texts: Seq<Option<Seq<char>>>,
) -> WorkspaceView {
    let mid = refresh_scanned(st, current, skip, texts);
    WorkspaceView {
        entries: forget_missing(mid.entries, mid.files, current, skip),
        files: keep_scanned(mid.files, current),
    }
}

fn contains_str(list: &Vec<String>, x: &str) -> (r: bool)
    ensures
        r == list@.map_values(|s: String| s@).contains(x@),
{
    let ghost views = list@.map_values(|s: String| s@);
    let mut i: usize = 0;
    while i < list.len()
        invariant
            views == list@.map_values(|s: String| s@),
            i <= list.len(),
            forall|k: int| 0 <= k < i ==> views[k] != x@,
        decreases list.len() - i,
    {
        if str_eq(list[i].as_str(), x) {
            assert(views[i as int] == x@);
            return true;
        }
        i = i + 1;
    }
    false
}

fn in_scan_exec(current: &Vec<FileStamp>, path: &str) -> (r: bool)
    ensures
        r == in_scan(current@.map_values(|f: FileStamp| f@), path@),
{
    let ghost views = current@.map_values(|f: FileStamp| f@);
    let mut i: usize = 0;
    while i < current.len()
        invariant
            views == current@.map_values(|f: FileStamp| f@),
            i <= current.len(),
            forall|k: int| 0 <= k < i ==> views[k].path != path@,
        decreases current.len() - i,
    {
        if str_eq(current[i].path.as_str(), path) {
            assert(views[i as int].path == path@);
            return true;
        }
        i = i + 1;
    }
    false
}

/// The entries of a list whose document is `uri`, in order.
pub open spec fn with_uri(entries: Seq<EntryView>, uri: Seq<char>) -> Seq<EntryView>
    decreases entries.len(),
{
    if entries.len() == 0 {
        Seq::empty()
    } else {
        let r = with_uri(entries.drop_last(), uri);
        if entries.last().uri == uri {
            r.push(entries.last())
        } else {
            r
        }
    }
}

proof fn lemma_with_uri_concat(a: Seq<EntryView>, b: Seq<EntryView>, uri: Seq<char>)
    ensures
        with_uri(a + b, uri) == with_uri(a, uri) + with_uri(b, uri),
    decreases b.len(),
{
    if b.len() == 0 {
        assert(a + b =~= a);
        assert(with_uri(a, uri) + Seq::<EntryView>::empty() =~= with_uri(a, uri));
    } else {
        lemma_with_uri_concat(a, b.drop_last(), uri);
        assert((a + b).drop_last() =~= a + b.drop_last());
        assert((with_uri(a, uri) + with_uri(b.drop_last(), uri)).push(b.last()) =~= with_uri(a, uri)
            + with_uri(b.drop_last(), uri).push(b.last()));
    }
}

proof fn lemma_without_uri_removes(entries: Seq<EntryView>, uri: Seq<char>)
    ensures
        forall|i: int| 0 <= i < without_uri(entries, uri).len() ==> (#[trigger] without_uri(entries, uri)[i]).uri != uri,
    decreases entries.len(),
{
    if entries.len() > 0 {
        lemma_without_uri_removes(entries.drop_last(), uri);
        let r = without_uri(entries.drop_last(), uri);
        let w = without_uri(entries, uri);
        assert forall|i: int| 0 <= i < w.len() implies (#[trigger] w[i]).uri != uri by {
            if i < r.len() {
                assert(w[i] == r[i]);
            }
        }
    }
}

proof fn lemma_without_uri_absent(entries: Seq<EntryView>, uri: Seq<char>)
    requires
        forall|i: int| 0 <= i < entries.len() ==> (#[trigger] entries[i]).uri != uri,
    ensures
        without_uri(entries, uri) == entries,
    decreases entries.len(),
{
    if entries.len() > 0 {
        lemma_without_uri_absent(entries.drop_last(), uri);
        assert(entries.drop_last().push(entries.last()) =~= entries);
    }
}

proof fn lemma_with_uri_absent(entries: Seq<EntryView>, uri: Seq<char>)
    requires
        forall|i: int| 0 <= i < entries.len() ==> (#[trigger] entries[i]).uri != uri,
    ensures
        with_uri(entries, uri) == Seq::<EntryView>::empty(),
    decreases entries.len(),
{
    if entries.len() > 0 {
        lemma_with_uri_absent(entries.drop_last(), uri);
    }
}

proof fn lemma_entries_for_uri(uri: Seq<char>, syms: Seq<SymbolView>, other: Seq<char>)
    ensures
        without_uri(entries_for(uri, syms), uri) == Seq::<EntryView>::empty(),
        with_uri(entries_for(uri, syms), uri) == entries_for(uri, syms),
        other != uri ==> with_uri(entries_for(uri, syms), other) == Seq::<EntryView>::empty(),
    decreases syms.len(),
{
    if syms.len() > 0 {
        lemma_entries_for_uri(uri, syms.drop_last(), other);
        assert(entries_for(uri, syms).drop_last() =~= entries_for(uri, syms.drop_last()));
        assert(entries_for(uri, syms.drop_last()).push(entries_for(uri, syms).last()) =~= entries_for(
            uri,
            syms,
        ));
    } else {
        assert(entries_for(uri, syms) =~= Seq::<EntryView>::empty());
    }
}

proof fn lemma_with_uri_without(entries: Seq<EntryView>, uri: Seq<char>, other: Seq<char>)
    requires
        other != uri,
    ensures
        with_uri(without_uri(entries, uri), other) == with_uri(entries, other),
        with_uri(without_uri(entries, uri), uri) == Seq::<EntryView>::empty(),
    decreases entries.len(),
{
    if entries.len() > 0 {
        lemma_with_uri_without(entries.drop_last(), uri, other);
        let w = without_uri(entries.drop_last(), uri);
        let x = entries.last();
        if x.uri != uri {
            assert(w.push(x).drop_last() =~= w);
            assert(w.push(x).last() == x);
        }
    }
}

/// Indexing a document again with the same symbols changes nothing more.
pub proof fn law_update_idempotent(entries: Seq<EntryView>, uri: Seq<char>, syms: Option<Seq<SymbolView>>)
    ensures
        update_entries(update_entries(entries, uri, syms), uri, syms) == update_entries(entries, uri, syms),
{
    lemma_without_uri_removes(entries, uri);
    lemma_without_uri_absent(without_uri(entries, uri), uri);
    match syms {
        Some(ss) => {
            lemma_without_uri_concat(without_uri(entries, uri), entries_for(uri, ss), uri);
            lemma_entries_for_uri(uri, ss, uri);
            assert(without_uri(entries, uri) + Seq::<EntryView>::empty() =~= without_uri(entries, uri));
        },
        None => {},
    }
}

/// Indexing a document again leaves the entries of every other document
/// as they were, and leaves the document itself with exactly the entries
/// for its new symbols (none when it has none).
pub proof fn law_update_replaces_only_its_document(
    entries: Seq<EntryView>,
    uri: Seq<char>,
    syms: Option<Seq<SymbolView>>,
    other: Seq<char>,
)
    requires
        other != uri,
    ensures
        with_uri(update_entries(entries, uri, syms), other) == with_uri(entries, other),
        with_uri(update_entries(entries, uri, syms), uri) == match syms {
            Some(ss) => entries_for(uri, ss),
            None => Seq::<EntryView>::empty(),
        },
{
    lemma_with_uri_without(entries, uri, other);
    match syms {
        Some(ss) => {
            lemma_with_uri_concat(without_uri(entries, uri), entries_for(uri, ss), other);
            lemma_with_uri_concat(without_uri(entries, uri), entries_for(uri, ss), uri);
            lemma_entries_for_uri(uri, ss, other);
            assert(with_uri(entries, other) + Seq::<EntryView>::empty() =~= with_uri(entries, other));
            assert(Seq::<EntryView>::empty() + entries_for(uri, ss) =~= entries_for(uri, ss));
        },
        None => {},
    }
}

proof fn lemma_locations_named_uris(entries: Seq<EntryView>, name: Seq<char>, uri: Seq<char>)
    requires
        forall|i: int| 0 <= i < entries.len() ==> (#[trigger] entries[i]).uri != uri,
    ensures
        forall|i: int| 0 <= i < locations_named(entries, name).len() ==> (#[trigger] locations_named(entries, name)[i]).uri != uri,
    decreases entries.len(),
{
    if entries.len() > 0 {
        lemma_locations_named_uris(entries.drop_last(), name, uri);
        let r = locations_named(entries.drop_last(), name);
        let l = locations_named(entries, name);
        assert(entries[entries.len() - 1].uri != uri);
        assert forall|i: int| 0 <= i < l.len() implies (#[trigger] l[i]).uri != uri by {
            if i < r.len() {
                assert(l[i] == r[i]);
            }
        }
    }
}

/// Once a document's entries are dropped, looking up any name finds no
/// location in it.
pub proof fn law_dropped_document_not_found(entries: Seq<EntryView>, uri: Seq<char>, name: Seq<char>)
    ensures
        forall|i: int|
            0 <= i < locations_named(without_uri(entries, uri), name).len()
                ==> (#[trigger] locations_named(without_uri(entries, uri), name)[i]).uri != uri,
{
    lemma_without_uri_removes(entries, uri);
    lemma_locations_named_uris(without_uri(entries, uri), name, uri);
}

/// The locations of a list that are not in document `uri`, in order.
pub open spec fn locations_outside(locs: Seq<LocationView>, uri: Seq<char>) -> Seq<LocationView>
    decreases locs.len(),
{
    if locs.len() == 0 {
        Seq::empty()
    } else {
        let r = locations_outside(locs.drop_last(), uri);
        if locs.last().uri == uri {
            r
        } else {
            r.push(locs.last())
        }
    }
}

/// Dropping a document's entries takes exactly its locations out of every
/// lookup: for any name, the locations found are those found before that
/// are in other documents, in the same order.
pub proof fn law_drop_keeps_other_locations(entries: Seq<EntryView>, uri: Seq<char>, name: Seq<char>)
    ensures
        locations_named(without_uri(entries, uri), name) == locations_outside(
            locations_named(entries, name),
            uri,
        ),
    decreases entries.len(),
{
    if entries.len() > 0 {
        let e0 = entries.drop_last();
        let x = entries.last();
        law_drop_keeps_other_locations(e0, uri, name);
        let w = without_uri(e0, uri);
        let l0 = locations_named(e0, name);
        let loc = LocationView { uri: x.uri, range: x.range };
        if x.uri != uri {
            assert(w.push(x).drop_last() =~= w);
            assert(w.push(x).last() == x);
        }
        if x.name == name {
            assert(l0.push(loc).drop_last() =~= l0);
            assert(l0.push(loc).last() == loc);
        }
    }
}

proof fn lemma_keep_scanned(files: Seq<FileStampView>, current: Seq<FileStampView>)
    ensures
        forall|i: int| 0 <= i < keep_scanned(files, current).len() ==> in_scan(current, #[trigger] keep_scanned(files, current)[i].path),
    decreases files.len(),
{
    if files.len() > 0 {
        lemma_keep_scanned(files.drop_last(), current);
    }
}

/// After a refresh, the index keeps a stamp only for files that the scan
/// found.
pub proof fn law_refresh_keeps_only_scanned_files(
    st: WorkspaceView,
    current: Seq<FileStampView>,
    skip: Seq<Seq<char>>,
    texts: Seq<Option<Seq<char>>>,
)
    ensures
        forall|i: int|
            0 <= i < refresh_spec(st, current, skip, texts).files.len() ==> in_scan(
                current,
                #[trigger] refresh_spec(st, current, skip, texts).files[i].path,
            ),
{
    lemma_keep_scanned(refresh_scanned(st, current, skip, texts).files, current);
}

/// Whether `i` is where the first stamp with `path` is (-1: there is none).
pub open spec fn first_stamp_at(files: Seq<FileStampView>, path: Seq<char>, i: int) -> bool {
    if i == -1 {
        forall|j: int| 0 <= j < files.len() ==> (#[trigger] files[j]).path != path
    } else {
        &&& 0 <= i < files.len()
        &&& files[i].path == path
        &&& forall|j: int| 0 <= j < i ==> (#[trigger] files[j]).path != path
    }
}

proof fn lemma_stamp_index_from(files: Seq<FileStampView>, path: Seq<char>, k: int)
    requires
        0 <= k,
    ensures
        ({
            let r = stamp_index_from(files, path, k);
            if r == -1 {
                forall|j: int| k <= j < files.len() ==> (#[trigger] files[j]).path != path
            } else {
                &&& k <= r < files.len()
                &&& files[r].path == path
                &&& forall|j: int| k <= j < r ==> (#[trigger] files[j]).path != path
            }
        }),
    decreases files.len() - k,
{
    if k < files.len() && files[k].path != path {
        lemma_stamp_index_from(files, path, k + 1);
    }
}

/// `stamp_index` finds the first stamp with the path.
proof fn lemma_stamp_index(files: Seq<FileStampView>, path: Seq<char>)
    ensures
        first_stamp_at(files, path, stamp_index(files, path)),
{
    lemma_stamp_index_from(files, path, 0);
}

/// There is one first stamp with a path.
proof fn lemma_stamp_index_is(files: Seq<FileStampView>, path: Seq<char>, i: int)
    requires
        first_stamp_at(files, path, i),
    ensures
        stamp_index(files, path) == i,
{
    lemma_stamp_index(files, path);
    let r = stamp_index(files, path);
    if r != i {
        if r == -1 {
            assert(files[i].path == path);
        } else if i == -1 {
            assert(files[r].path == path);
        } else if r < i {
            assert(files[r].path == path);
        } else {
            assert(files[i].path == path);
        }
    }
}

proof fn lemma_stamp_index_push(files: Seq<FileStampView>, x: FileStampView, path: Seq<char>)
    ensures
        stamp_index(files.push(x), path) == if stamp_index(files, path) != -1 {
            stamp_index(files, path)
        } else if x.path == path {
            files.len() as int
        } else {
            -1
        },
{
    lemma_stamp_index(files, path);
    let i = stamp_index(files, path);
    let n = files.push(x);
    if i != -1 {
        assert(n[i] == files[i]);
        assert forall|j: int| 0 <= j < i implies (#[trigger] n[j]).path != path by {
            assert(n[j] == files[j]);
        }
        lemma_stamp_index_is(n, path, i);
    } else if x.path == path {
        assert forall|j: int| 0 <= j < files.len() implies (#[trigger] n[j]).path != path by {
            assert(n[j] == files[j]);
        }
        lemma_stamp_index_is(n, path, files.len() as int);
    } else {
        assert forall|j: int| 0 <= j < n.len() implies (#[trigger] n[j]).path != path by {
            if j < files.len() {
                assert(n[j] == files[j]);
            }
        }
        lemma_stamp_index_is(n, path, -1);
    }
}

/// Recording a stamp makes it the one found for its path, and leaves the
/// stamp found for every other path where it was.
proof fn lemma_set_stamp(files: Seq<FileStampView>, g: FileStampView, path: Seq<char>)
    ensures
        ({
            let n = set_stamp(files, g);
            let i = stamp_index(n, path);
            if path == g.path {
                0 <= i < n.len() && n[i] == g
            } else {
                &&& (i == -1) == (stamp_index(files, path) == -1)
                &&& i != -1 ==> n[i] == files[stamp_index(files, path)]
            }
        }),
{
    lemma_stamp_index(files, g.path);
    lemma_stamp_index(files, path);
    let k = stamp_index(files, g.path);
    let n = set_stamp(files, g);
    if 0 <= k < files.len() {
        assert(n == files.update(k, g));
        let i = stamp_index(files, path);
        if path == g.path {
            assert forall|j: int| 0 <= j < k implies (#[trigger] n[j]).path != path by {
                assert(n[j] == files[j]);
            }
            lemma_stamp_index_is(n, path, k);
        } else if i == -1 {
            assert forall|j: int| 0 <= j < n.len() implies (#[trigger] n[j]).path != path by {
                if j != k {
                    assert(n[j] == files[j]);
                }
            }
            lemma_stamp_index_is(n, path, -1);
        } else {
            assert(i != k);
            assert(n[i] == files[i]);
            assert forall|j: int| 0 <= j < i implies (#[trigger] n[j]).path != path by {
                if j != k {
                    assert(n[j] == files[j]);
                }
            }
            lemma_stamp_index_is(n, path, i);
        }
    } else {
        assert(k == -1);
        lemma_stamp_index_push(files, g, path);
        if path == g.path {
            assert(n[files.len() as int] == g);
        } else if stamp_index(files, path) != -1 {
            assert(n[stamp_index(files, path)] == files[stamp_index(files, path)]);
        }
    }
}

/// A scanned file the next refresh would not read: it has no URI, it is
/// skipped, or its stamp is the one recorded.
pub open spec fn settled(files: Seq<FileStampView>, f: FileStampView, skip: Seq<Seq<char>>) -> bool {
    f.uri is None || skip.contains(f.uri->0) || !is_stale(files, f)
}

/// No two scanned files share a path.
pub open spec fn distinct_paths(current: Seq<FileStampView>) -> bool {
    forall|i: int, j: int| 0 <= i < j < current.len() ==> current[i].path != current[j].path
}

proof fn lemma_scanned_settled(
    st: WorkspaceView,
    current: Seq<FileStampView>,
    skip: Seq<Seq<char>>,
    texts: Seq<Option<Seq<char>>>,
    n: int,
)
    requires
        0 <= n <= current.len(),
        distinct_paths(current),
    ensures
        forall|k: int|
            0 <= k < n ==> settled(
                refresh_scanned(st, current.take(n), skip, texts).files,
                #[trigger] current[k],
                skip,
            ),
    decreases n,
{
    if n > 0 {
        lemma_scanned_settled(st, current, skip, texts, n - 1);
        assert(current.take(n).drop_last() =~= current.take(n - 1));
        let prev = refresh_scanned(st, current.take(n - 1), skip, texts);
        let g = current[n - 1];
        let now = refresh_scanned(st, current.take(n), skip, texts);
        assert(now == refresh_one(prev, g, skip, texts[n - 1]));
        assert forall|k: int| 0 <= k < n implies settled(now.files, #[trigger] current[k], skip) by {
            let f = current[k];
            if g.uri is Some && !skip.contains(g.uri->0) && is_stale(prev.files, g) {
                assert(now.files == set_stamp(prev.files, g));
                lemma_set_stamp(prev.files, g, f.path);
                lemma_stamp_index(now.files, f.path);
                lemma_stamp_index(prev.files, f.path);
                if k < n - 1 {
                    assert(f.path != g.path);
                    assert(settled(prev.files, f, skip));
                }
            } else {
                assert(now == prev);
                if k < n - 1 {
                    assert(settled(prev.files, f, skip));
                }
            }
        }
    }
}

proof fn lemma_keep_scanned_first(files: Seq<FileStampView>, current: Seq<FileStampView>, path: Seq<char>)
    requires
        in_scan(current, path),
    ensures
        ({
            let kept = keep_scanned(files, current);
            let i = stamp_index(files, path);
            let j = stamp_index(kept, path);
            &&& (i == -1) == (j == -1)
            &&& i != -1 ==> kept[j] == files[i]
        }),
    decreases files.len(),
{
    lemma_stamp_index(files, path);
    lemma_stamp_index(keep_scanned(files, current), path);
    if files.len() > 0 {
        let f0 = files.drop_last();
        let x = files.last();
        lemma_keep_scanned_first(f0, current, path);
        let k0 = keep_scanned(f0, current);
        lemma_stamp_index(f0, path);
        lemma_stamp_index(k0, path);
        assert(f0.push(x) =~= files);
        lemma_stamp_index_push(f0, x, path);
        let kept = keep_scanned(files, current);
        if in_scan(current, x.path) {
            assert(kept == k0.push(x));
            lemma_stamp_index_push(k0, x, path);
        } else {
            assert(kept == k0);
        }
        if x.path == path {
            assert(in_scan(current, x.path));
        }
    }
}

proof fn lemma_rescan_unchanged(
    st: WorkspaceView,
    current: Seq<FileStampView>,
    skip: Seq<Seq<char>>,
    texts: Seq<Option<Seq<char>>>,
    n: int,
)
    requires
        0 <= n <= current.len(),
        forall|k: int| 0 <= k < current.len() ==> settled(st.files, #[trigger] current[k], skip),
    ensures
        refresh_scanned(st, current.take(n), skip, texts) == st,
    decreases n,
{
    if n > 0 {
        lemma_rescan_unchanged(st, current, skip, texts, n - 1);
        assert(current.take(n).drop_last() =~= current.take(n - 1));
        assert(settled(st.files, current[n - 1], skip));
    }
}

proof fn lemma_all_scanned_kept(
    files: Seq<FileStampView>,
    current: Seq<FileStampView>,
    entries: Seq<EntryView>,
    skip: Seq<Seq<char>>,
)
    requires
        forall|i: int| 0 <= i < files.len() ==> in_scan(current, #[trigger] files[i].path),
    ensures
        keep_scanned(files, current) == files,
        forget_missing(entries, files, current, skip) == entries,
    decreases files.len(),
{
    if files.len() > 0 {
        assert(in_scan(current, files[files.len() - 1].path));
        lemma_all_scanned_kept(files.drop_last(), current, entries, skip);
        assert(files.drop_last().push(files.last()) =~= files);
    }
}

proof fn lemma_scanned_keeps_open(
    st: WorkspaceView,
    current: Seq<FileStampView>,
    skip: Seq<Seq<char>>,
    texts: Seq<Option<Seq<char>>>,
    n: int,
    open: Seq<char>,
)
    requires
        0 <= n <= current.len(),
        skip.contains(open),
    ensures
        with_uri(refresh_scanned(st, current.take(n), skip, texts).entries, open) == with_uri(
            st.entries,
            open,
        ),
    decreases n,
{
    if n > 0 {
        lemma_scanned_keeps_open(st, current, skip, texts, n - 1, open);
        assert(current.take(n).drop_last() =~= current.take(n - 1));
        let prev = refresh_scanned(st, current.take(n - 1), skip, texts);
        let g = current[n - 1];
        let now = refresh_scanned(st, current.take(n), skip, texts);
        assert(now == refresh_one(prev, g, skip, texts[n - 1]));
        if g.uri is Some && !skip.contains(g.uri->0) && is_stale(prev.files, g) {
            let u = g.uri->0;
            assert(u != open);
            match texts[n - 1] {
                Some(t) => {
                    law_update_replaces_only_its_document(prev.entries, u, Some(text_symbols(t)), open);
                },
                None => {},
            }
        }
    }
}

proof fn lemma_forget_keeps_open(
    entries: Seq<EntryView>,
    files: Seq<FileStampView>,
    current: Seq<FileStampView>,
    skip: Seq<Seq<char>>,
    open: Seq<char>,
)
    requires
        skip.contains(open),
    ensures
        with_uri(forget_missing(entries, files, current, skip), open) == with_uri(entries, open),
    decreases files.len(),
{
    if files.len() > 0 {
        lemma_forget_keeps_open(entries, files.drop_last(), current, skip, open);
        let f = files.last();
        if !in_scan(current, f.path) && f.uri is Some && !skip.contains(f.uri->0) {
            assert(f.uri->0 != open);
            lemma_with_uri_without(forget_missing(entries, files.drop_last(), current, skip), f.uri->0, open);
        }
    }
}

/// A refresh from disk leaves the entries of every open document (every
/// URI in `skip`) exactly as they were: it neither reads such a document
/// again nor forgets it when its file is gone.
pub proof fn law_refresh_keeps_open_documents(
    st: WorkspaceView,
    current: Seq<FileStampView>,
    skip: Seq<Seq<char>>,
    texts: Seq<Option<Seq<char>>>,
    open: Seq<char>,
)
    requires
        skip.contains(open),
    ensures
        with_uri(refresh_spec(st, current, skip, texts).entries, open) == with_uri(st.entries, open),
{
    let n = current.len() as int;
    lemma_scanned_keeps_open(st, current, skip, texts, n, open);
    assert(current.take(n) =~= current);
    let mid = refresh_scanned(st, current, skip, texts);
    lemma_forget_keeps_open(mid.entries, mid.files, current, skip, open);
}

/// After a refresh, no file of the same scan is stale: a refresh right
/// after it reads no file (each path scanned once).
pub proof fn law_refresh_leaves_nothing_stale(
    st: WorkspaceView,
    current: Seq<FileStampView>,
    skip: Seq<Seq<char>>,
    texts: Seq<Option<Seq<char>>>,
)
    requires
        distinct_paths(current),
    ensures
        forall|k: int|
            0 <= k < current.len() ==> settled(
                refresh_spec(st, current, skip, texts).files,
                #[trigger] current[k],
                skip,
            ),
{
    let n = current.len() as int;
    lemma_scanned_settled(st, current, skip, texts, n);
    assert(current.take(n) =~= current);
    let mid = refresh_scanned(st, current, skip, texts);
    assert forall|k: int| 0 <= k < n implies settled(
        refresh_spec(st, current, skip, texts).files,
        #[trigger] current[k],
        skip,
    ) by {
        let f = current[k];
        assert(in_scan(current, f.path));
        lemma_keep_scanned_first(mid.files, current, f.path);
        lemma_stamp_index(mid.files, f.path);
        lemma_stamp_index(keep_scanned(mid.files, current), f.path);
        assert(settled(mid.files, f, skip));
    }
}

/// Refreshing twice from the same scan is refreshing once, whatever texts
/// the second refresh would read (each path scanned once).
pub proof fn law_refresh_idempotent(
    st: WorkspaceView,
    current: Seq<FileStampView>,
    skip: Seq<Seq<char>>,
    texts: Seq<Option<Seq<char>>>,
    again: Seq<Option<Seq<char>>>,
)
    requires
        distinct_paths(current),
    ensures
        refresh_spec(refresh_spec(st, current, skip, texts), current, skip, again) == refresh_spec(
            st,
            current,
            skip,
            texts,
        ),
{
    let st1 = refresh_spec(st, current, skip, texts);
    law_refresh_leaves_nothing_stale(st, current, skip, texts);
    let n = current.len() as int;
    lemma_rescan_unchanged(st1, current, skip, again, n);
    assert(current.take(n) =~= current);
    law_refresh_keeps_only_scanned_files(st, current, skip, texts);
    lemma_all_scanned_kept(st1.files, current, st1.entries, skip);
}

/// What the index holds: its symbol entries, in order, and the stamps of
/// the files it read from disk.
pub struct WorkspaceView {
    pub entries: Seq<EntryView>,
    pub files: Seq<FileStampView>,
}

pub struct WorkspaceIndex {
    entries: Vec<SymbolEntry>,
    files: Vec<FileStamp>,
}

impl View for WorkspaceIndex {
    type V = WorkspaceView;

    closed spec fn view(&self) -> WorkspaceView {
        WorkspaceView {
            entries: self.entries@.map_values(|e: SymbolEntry| e@),
            files: self.files@.map_values(|f: FileStamp| f@),
        }
    }
}

pub proof fn lemma_without_uri_concat(a: Seq<EntryView>, b: Seq<EntryView>, uri: Seq<char>)
    ensures
        without_uri(a + b, uri) == without_uri(a, uri) + without_uri(b, uri),
    decreases b.len(),
{
    if b.len() == 0 {
        assert(a + b =~= a);
        assert(without_uri(a, uri) + Seq::<EntryView>::empty() =~= without_uri(a, uri));
    } else {
        lemma_without_uri_concat(a, b.drop_last(), uri);
        assert((a + b).drop_last() =~= a + b.drop_last());
        assert((without_uri(a, uri) + without_uri(b.drop_last(), uri)).push(b.last()) =~= without_uri(
            a,
            uri,
        ) + without_uri(b.drop_last(), uri).push(b.last()));
    }
}

pub proof fn lemma_locations_named_concat(a: Seq<EntryView>, b: Seq<EntryView>, name: Seq<char>)
    ensures
        locations_named(a + b, name) == locations_named(a, name) + locations_named(b, name),
    decreases b.len(),
{
    if b.len() == 0 {
        assert(a + b =~= a);
        assert(locations_named(a, name) + Seq::<LocationView>::empty() =~= locations_named(a, name));
    } else {
        lemma_locations_named_concat(a, b.drop_last(), name);
        assert((a + b).drop_last() =~= a + b.drop_last());
        let x = LocationView { uri: b.last().uri, range: b.last().range };
        assert((locations_named(a, name) + locations_named(b.drop_last(), name)).push(x)
            =~= locations_named(a, name) + locations_named(b.drop_last(), name).push(x));
    }
}

impl WorkspaceIndex {
    /// An empty index.
    pub fn new() -> (index: Self)
        ensures
            index@.entries == Seq::<EntryView>::empty(),
            index@.files == Seq::<FileStampView>::empty(),
    {
        let index = WorkspaceIndex { entries: Vec::new(), files: Vec::new() };
        assert(index@.entries =~= Seq::<EntryView>::empty());
        assert(index@.files =~= Seq::<FileStampView>::empty());
        index
    }

    /// The first location declaring this name: the first of [`Self::find_all`].
    pub fn find(&self, name: &str) -> (r: Option<Location>)
        ensures
            match r {
                Some(loc) => locations_named(self@.entries, name@).len() > 0 && loc@
                    == locations_named(self@.entries, name@)[0],
                None => locations_named(self@.entries, name@).len() == 0,
            },
    {
        let ghost all = self@.entries;
        let mut i: usize = 0;
        while i < self.entries.len()
            invariant
                all == self@.entries,
                i <= self.entries.len(),
                locations_named(all.take(i as int), name@) == Seq::<LocationView>::empty(),
            decreases self.entries.len() - i,
        {
            assert(all.take(i + 1).drop_last() =~= all.take(i as int));
            if str_eq(self.entries[i].name.as_str(), name) {
                proof {
                    lemma_locations_named_concat(all.take(i + 1), all.skip(i + 1), name@);
                    assert(all.take(i + 1) + all.skip(i + 1) =~= all);
                    assert(all.take(i + 1).last() == all[i as int]);
                }
                return Some(self.entries[i].location.clone());
            }
            i = i + 1;
        }
        assert(all.take(i as int) =~= all);
        None
    }

    /// The locations declaring this name, in the order they were indexed.
    pub fn find_all(&self, name: &str) -> (r: Vec<Location>)
        ensures
            r@.map_values(|l: Location| l@) == locations_named(self@.entries, name@),
    {
        let ghost all = self@.entries;
        let mut found: Vec<Location> = Vec::new();
        let mut i: usize = 0;
        while i < self.entries.len()
            invariant
                all == self@.entries,
                i <= self.entries.len(),
                found@.map_values(|l: Location| l@) == locations_named(all.take(i as int), name@),
            decreases self.entries.len() - i,
        {
            assert(all.take(i + 1).drop_last() =~= all.take(i as int));
            if str_eq(self.entries[i].name.as_str(), name) {
                let ghost prev = found@;
                let loc = self.entries[i].location.clone();
                found.push(loc);
                assert(found@.map_values(|l: Location| l@) =~= prev.map_values(|l: Location| l@).push(
                    loc@,
                ));
            }
            i = i + 1;
        }
        assert(all.take(i as int) =~= all);
        found
    }

    /// Drops the entries of a document.
    fn remove_uri(&mut self, uri: &str)
        ensures
            final(self)@.entries == without_uri(old(self)@.entries, uri@),
            final(self)@.files == old(self)@.files,
    {
        let ghost all = self@.entries;
        let mut kept: Vec<SymbolEntry> = Vec::new();
        let mut i: usize = 0;
        while i < self.entries.len()
            invariant
                all == self@.entries,
                self@.files == old(self)@.files,
                all == old(self)@.entries,
                i <= self.entries.len(),
                kept@.map_values(|e: SymbolEntry| e@) == without_uri(all.take(i as int), uri@),
            decreases self.entries.len() - i,
        {
            assert(all.take(i + 1).drop_last() =~= all.take(i as int));
            let e = &self.entries[i];
            if !str_eq(e.location.uri.as_str(), uri) {
                let ghost prev = kept@;
                let copy = SymbolEntry { name: e.name.clone(), location: e.location.clone() };
                kept.push(copy);
                assert(kept@.map_values(|e: SymbolEntry| e@) =~= prev.map_values(|e: SymbolEntry| e@).push(
                    all[i as int],
                ));
            }
            i = i + 1;
        }
        assert(all.take(i as int) =~= all);
        self.entries = kept;
    }

    /// Appends the entries for a document's symbols.
    fn add_symbols(&mut self, uri: &String, symbols: &Vec<crate::analysis::Symbol>)
        ensures
            final(self)@.entries == old(self)@.entries + entries_for(
                uri@,
                symbols@.map_values(|s: crate::analysis::Symbol| s@),
            ),
            final(self)@.files == old(self)@.files,
    {
        let ghost start = self@.entries;
        let ghost syms = symbols@.map_values(|s: crate::analysis::Symbol| s@);
        let mut i: usize = 0;
        while i < symbols.len()
            invariant
                i <= symbols.len(),
                syms == symbols@.map_values(|s: crate::analysis::Symbol| s@),
                self@.files == old(self)@.files,
                start == old(self)@.entries,
                self@.entries == start + entries_for(uri@, syms.take(i as int)),
            decreases symbols.len() - i,
        {
            let ghost prev = self.entries@;
            let entry = SymbolEntry {
                name: symbols[i].name.clone(),
                location: Location { uri: uri.clone(), range: symbols[i].range },
            };
            self.entries.push(entry);
            assert(self@.entries =~= prev.map_values(|e: SymbolEntry| e@).push(entry@));
            assert(entries_for(uri@, syms.take(i + 1)) =~= entries_for(uri@, syms.take(i as int)).push(
                entry@,
            ));
            i = i + 1;
        }
        assert(syms.take(i as int) =~= syms);
    }

    /// Indexes a document again from its parsed file: its old entries go,
    /// and, when there is a file, the entries for its symbols (located in
    /// `text`) come last.  Each declaration's span must fall on char
    /// boundaries of `text`, as it does when the file was parsed from it.
    pub fn update_from_ast(&mut self, uri: String, file: Option<&File>, text: &str)
        requires
            file matches Some(f) ==> forall|i: int|
                0 <= i < f.declarations.len() ==> span_fits(text@, (#[trigger] f.declarations@[i])@.span),
        ensures
            final(self)@.files == old(self)@.files,
            final(self)@.entries == update_entries(
                old(self)@.entries,
                uri@,
                match file {
                    Some(f) => Some(symbols_of(text@, f.declarations@.map_values(|d: Decl| d@))),
                    None => None,
                },
            ),
    {
        self.remove_uri(uri.as_str());
        if let Some(file) = file {
            let rope = rope_from_str(text);
            let index = SymbolIndex::from_file(file, &rope);
            let symbols = index.all_symbols();
            self.add_symbols(&uri, &symbols);
        }
    }


    fn stamp_position(&self, path: &str) -> (r: Option<usize>)
        ensures
            match r {
                Some(i) => i < self.files.len() && stamp_index(self@.files, path@) == i,
                None => stamp_index(self@.files, path@) == -1,
            },
    {
        let ghost files = self@.files;
        let mut i: usize = 0;
        while i < self.files.len()
            invariant
                files == self@.files,
                i <= self.files.len(),
                stamp_index(files, path@) == stamp_index_from(files, path@, i as int),
            decreases self.files.len() - i,
        {
            if str_eq(self.files[i].path.as_str(), path) {
                return Some(i);
            }
            i = i + 1;
        }
        None
    }

    /// Records a file's stamp (see [`set_stamp`]).
    fn record_stamp(&mut self, stamp: FileStamp)
        ensures
            final(self)@.files == set_stamp(old(self)@.files, stamp@),
            final(self)@.entries == old(self)@.entries,
    {
        match self.stamp_position(stamp.path.as_str()) {
            Some(i) => {
                let ghost v = stamp@;
                self.files.set(i, stamp);
                assert(self@.files =~= old(self)@.files.update(i as int, v));
            },
            None => {
                let ghost v = stamp@;
                self.files.push(stamp);
                assert(self@.files =~= old(self)@.files.push(v));
            },
        }
    }

    /// After a document is closed: indexes it again from its file on disk
    /// and records the file's stamp when its modification time is known;
    /// without a readable file, forgets its entries.
    pub fn refresh_from_disk(&mut self, uri: &String, disk: Option<DiskFile>)
        ensures
            match disk {
                Some(df) => {
                    &&& final(self)@.entries == update_entries(
                        old(self)@.entries,
                        uri@,
                        Some(text_symbols(df.text@)),
                    )
                    &&& final(self)@.files == match df.modified {
                        Some(m) => set_stamp(
                            old(self)@.files,
                            FileStampView { path: df.path@, uri: Some(uri@), modified: m },
                        ),
                        None => old(self)@.files,
                    }
                },
                None => {
                    &&& final(self)@.entries == without_uri(old(self)@.entries, uri@)
                    &&& final(self)@.files == old(self)@.files
                },
            },
    {
        match disk {
            Some(df) => {
                let _diags = self.index_text(uri, df.text.as_str());
                if let Some(modified) = df.modified {
                    self.record_stamp(FileStamp { path: df.path, uri: Some(uri.clone()), modified });
                }
            },
            None => {
                self.remove_uri(uri.as_str());
            },
        }
    }

    /// Which scanned files the index would read again: those with a URI,
    /// not skipped, whose stamp changed (see [`refresh_one`]).  The answer
    /// for each file is taken against the stamps as they stand now.
    pub fn stale_files(&self, current: &Vec<FileStamp>, skip_uris: &Vec<String>) -> (r: Vec<bool>)
        ensures
            r.len() == current.len(),
            forall|i: int|
                0 <= i < current.len() ==> #[trigger] r@[i] == (current@[i].uri is Some
                    && !skip_uris@.map_values(|s: String| s@).contains(opt_view(current@[i].uri)->0)
                    && is_stale(self@.files, current@[i]@)),
    {
        let mut out: Vec<bool> = Vec::new();
        let mut i: usize = 0;
        while i < current.len()
            invariant
                i <= current.len(),
                out.len() == i,
                forall|k: int|
                    0 <= k < i ==> #[trigger] out@[k] == (current@[k].uri is Some
                        && !skip_uris@.map_values(|s: String| s@).contains(
                        opt_view(current@[k].uri)->0,
                    ) && is_stale(self@.files, current@[k]@)),
            decreases current.len() - i,
        {
            let f = &current[i];
            let wanted = match &f.uri {
                None => false,
                Some(u) => {
                    if contains_str(skip_uris, u.as_str()) {
                        false
                    } else {
                        match self.stamp_position(f.path.as_str()) {
                            Some(k) => self.files[k].modified != f.modified,
                            None => true,
                        }
                    }
                },
            };
            out.push(wanted);
            i = i + 1;
        }
        out
    }

    /// An index built from a first scan of the workspace's files (see
    /// [`Self::refresh_roots`], with no document skipped).
    pub fn build(current: &Vec<FileStamp>, texts: &Vec<Option<String>>) -> (index: Self)
        requires
            texts.len() == current.len(),
        ensures
            index@ == refresh_spec(
                WorkspaceView { entries: Seq::empty(), files: Seq::empty() },
                current@.map_values(|f: FileStamp| f@),
                Seq::empty(),
                texts@.map_values(|t: Option<String>| opt_view(t)),
            ),
    {
        let mut index = WorkspaceIndex::new();
        let skip: Vec<String> = Vec::new();
        assert(index@ == WorkspaceView { entries: Seq::empty(), files: Seq::empty() });
        assert(skip@.map_values(|s: String| s@) =~= Seq::<Seq<char>>::empty());
        index.refresh_roots(current, &skip, texts);
        index
    }

    /// Brings the index up to date with a scan of the workspace's files:
    /// `current` holds the files found, `texts[i]` the text read for
    /// `current[i]` (`None` where it was not read), `skip_uris` the URIs of
    /// the documents that are open (see [`refresh_spec`]).
    pub fn refresh_roots(
        &mut self,
        current: &Vec<FileStamp>,
        skip_uris: &Vec<String>,
        texts: &Vec<Option<String>>,
    )
        requires
            texts.len() == current.len(),
        ensures
            final(self)@ == refresh_spec(
                old(self)@,
                current@.map_values(|f: FileStamp| f@),
                skip_uris@.map_values(|s: String| s@),
                texts@.map_values(|t: Option<String>| opt_view(t)),
            ),
            forall|u: Seq<char>|
                skip_uris@.map_values(|s: String| s@).contains(u) ==> #[trigger] with_uri(
                    final(self)@.entries,
                    u,
                ) == with_uri(old(self)@.entries, u),
    {
        proof {
            let c = current@.map_values(|f: FileStamp| f@);
            let sk = skip_uris@.map_values(|s: String| s@);
            let tx = texts@.map_values(|t: Option<String>| opt_view(t));
            let fin = refresh_spec(old(self)@, c, sk, tx);
            assert forall|u: Seq<char>| sk.contains(u) implies #[trigger] with_uri(fin.entries, u)
                == with_uri(old(self)@.entries, u) by {
                law_refresh_keeps_open_documents(old(self)@, c, sk, tx, u);
            }
        }
        let ghost cur = current@.map_values(|f: FileStamp| f@);
        let ghost skip = skip_uris@.map_values(|s: String| s@);
        let ghost txt = texts@.map_values(|t: Option<String>| opt_view(t));
        let mut i: usize = 0;
        assert(cur.take(0) =~= Seq::<FileStampView>::empty());
        while i < current.len()
            invariant
                cur == current@.map_values(|f: FileStamp| f@),
                skip == skip_uris@.map_values(|s: String| s@),
                txt == texts@.map_values(|t: Option<String>| opt_view(t)),
                texts.len() == current.len(),
                i <= current.len(),
                self@ == refresh_scanned(old(self)@, cur.take(i as int), skip, txt),
            decreases current.len() - i,
        {
            let ghost before = self@;
            assert(cur.take(i + 1).drop_last() =~= cur.take(i as int));
            assert(cur.take(i + 1).last() == cur[i as int]);
            let f = &current[i];
            match &f.uri {
                None => {},
                Some(u) => {
                    if !contains_str(skip_uris, u.as_str()) {
                        let stale = match self.stamp_position(f.path.as_str()) {
                            Some(k) => self.files[k].modified != f.modified,
                            None => true,
                        };
                        if stale {
                            match &texts[i] {
                                Some(t) => {
                                    let _diags = self.index_text(u, t.as_str());
                                },
                                None => {},
                            }
                            self.record_stamp(f.duplicate());
                        }
                    }
                },
            }
            assert(self@ == refresh_one(before, cur[i as int], skip, txt[i as int]));
            i = i + 1;
        }
        assert(cur.take(i as int) =~= cur);
        let ghost mid = self@;
        let mut files: Vec<FileStamp> = Vec::new();
        std::mem::swap(&mut files, &mut self.files);
        let ghost fs = files@.map_values(|f: FileStamp| f@);
        assert(fs == mid.files);
        let mut kept: Vec<FileStamp> = Vec::new();
        let mut k: usize = 0;
        assert(fs.take(0) =~= Seq::<FileStampView>::empty());
        while k < files.len()
            invariant
                cur == current@.map_values(|f: FileStamp| f@),
                fs == files@.map_values(|f: FileStamp| f@),
                k <= files.len(),
                skip == skip_uris@.map_values(|s: String| s@),
                self@.entries == forget_missing(mid.entries, fs.take(k as int), cur, skip),
                kept@.map_values(|f: FileStamp| f@) == keep_scanned(fs.take(k as int), cur),
            decreases files.len() - k,
        {
            assert(fs.take(k + 1).drop_last() =~= fs.take(k as int));
            assert(fs.take(k + 1).last() == fs[k as int]);
            let f = &files[k];
            if in_scan_exec(current, f.path.as_str()) {
                let ghost prev = kept@;
                let copy = f.duplicate();
                kept.push(copy);
                assert(kept@.map_values(|f: FileStamp| f@) =~= prev.map_values(|f: FileStamp| f@).push(
                    fs[k as int],
                ));
            } else {
                match &f.uri {
                    Some(u) => {
                        if !contains_str(skip_uris, u.as_str()) {
                            self.remove_uri(u.as_str());
                        }
                    },
                    None => {},
                }
            }
            k = k + 1;
        }
        assert(fs.take(k as int) =~= fs);
        self.files = kept;
    }

    /// Parses a text and indexes the document with its symbols; gives back
    /// the text's syntax diagnostics.
    pub fn index_text(&mut self, uri: &String, text: &str) -> (diags: Vec<Diagnostic>)
        ensures
            final(self)@.files == old(self)@.files,
            final(self)@.entries == update_entries(old(self)@.entries, uri@, Some(text_symbols(text@))),
            diags@.map_values(|d: Diagnostic| d@) == diagnostics_spec(text@),
    {
        let (ast, diags) = parse_with_ast(text);
        proof {
            lemma_utf8_len_encode(text@);
        }
        // Every byte offset of the text fits in a usize.
        let byte_len = text.as_bytes().len();
        assert(utf8_len(text@) == byte_len);
        proof {
            law_symbols_locate_declared_names(text@);
        }
        match &ast {
            Some(file) => {
                proof {
                    assert forall|i: int| 0 <= i < file.declarations.len() implies span_fits(
                        text@,
                        (#[trigger] file.declarations@[i])@.span,
                    ) by {
                        assert(file.declarations@.map_values(|d: Decl| d@)[i] == declarations_spec(text@)[i]);
                    }
                }
                self.update_from_ast(uri.clone(), Some(file), text);
            },
            None => {
                self.update_from_ast(uri.clone(), None, text);
                assert(text_symbols(text@) =~= Seq::<SymbolView>::empty());
                assert(entries_for(uri@, text_symbols(text@)) =~= Seq::<EntryView>::empty());
                assert(without_uri(old(self)@.entries, uri@) + Seq::<EntryView>::empty() =~= without_uri(
                    old(self)@.entries,
                    uri@,
                ));
            },
        }
        diags
    }
}

impl Default for WorkspaceIndex {
    fn default() -> (index: Self)
        ensures
            index@.entries == Seq::<EntryView>::empty(),
            index@.files == Seq::<FileStampView>::empty(),
    {
        WorkspaceIndex::new()
    }
}

} // verus!
