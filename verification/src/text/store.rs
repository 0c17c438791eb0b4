use vstd::prelude::*;
use crate::text::document::{
    apply_changes_spec, DocumentView, TextDocument,
    TextDocumentContentChangeEvent,
};

verus! {

/// The documents that the client has open, each under its URI.
pub struct DocumentStore {
    documents: Vec<TextDocument>,
}

/// The documents of a list, keyed by their URIs.
pub open spec fn documents_by_uri(docs: Seq<DocumentView>) -> Map<Seq<char>, DocumentView> {
    Map::new(
        |u: Seq<char>| exists|i: int| 0 <= i < docs.len() && docs[i].uri == u,
        |u: Seq<char>| docs[choose|i: int| 0 <= i < docs.len() && docs[i].uri == u],
    )
}

/// No two documents of a list share a URI.
pub open spec fn distinct_uris(docs: Seq<DocumentView>) -> bool {
    forall|i: int, j: int| 0 <= i < j < docs.len() ==> docs[i].uri != docs[j].uri
}

proof fn lemma_lookup(docs: Seq<DocumentView>, i: int)
    requires
        distinct_uris(docs),
        0 <= i < docs.len(),
    ensures
        documents_by_uri(docs).contains_key(docs[i].uri),
        documents_by_uri(docs)[docs[i].uri] == docs[i],
{
    let u = docs[i].uri;
    assert(exists|k: int| 0 <= k < docs.len() && docs[k].uri == u);
    let k = choose|k: int| 0 <= k < docs.len() && docs[k].uri == u;
    assert(k == i);
}

proof fn lemma_push(docs: Seq<DocumentView>, d: DocumentView)
    requires
        distinct_uris(docs),
        !documents_by_uri(docs).contains_key(d.uri),
    ensures
        distinct_uris(docs.push(d)),
        documents_by_uri(docs.push(d)) == documents_by_uri(docs).insert(d.uri, d),
{
    let n = docs.push(d);
    assert forall|i: int, j: int| 0 <= i < j < n.len() implies n[i].uri != n[j].uri by {
        if j == docs.len() {
            assert(docs[i].uri == n[i].uri);
        }
    }
    let m = documents_by_uri(n);
    let e = documents_by_uri(docs).insert(d.uri, d);
    assert forall|u: Seq<char>| m.contains_key(u) <==> e.contains_key(u) by {
        if m.contains_key(u) {
            let k = choose|k: int| 0 <= k < n.len() && n[k].uri == u;
            if k < docs.len() {
                assert(docs[k].uri == u);
            }
        }
        if documents_by_uri(docs).contains_key(u) {
            let k = choose|k: int| 0 <= k < docs.len() && docs[k].uri == u;
            assert(n[k].uri == u);
        }
        if u == d.uri {
            assert(n[docs.len() as int].uri == u);
        }
    }
    assert forall|u: Seq<char>| m.contains_key(u) implies m[u] == e[u] by {
        let k = choose|k: int| 0 <= k < n.len() && n[k].uri == u;
        lemma_lookup(n, k);
        if k < docs.len() {
            lemma_lookup(docs, k);
        }
    }
    assert(m =~= e);
}

proof fn lemma_update(docs: Seq<DocumentView>, i: int, d: DocumentView)
    requires
        distinct_uris(docs),
        0 <= i < docs.len(),
        d.uri == docs[i].uri,
    ensures
        distinct_uris(docs.update(i, d)),
        documents_by_uri(docs.update(i, d)) == documents_by_uri(docs).insert(d.uri, d),
{
    let n = docs.update(i, d);
    assert forall|a: int, b: int| 0 <= a < b < n.len() implies n[a].uri != n[b].uri by {
        assert(n[a].uri == docs[a].uri && n[b].uri == docs[b].uri);
    }
    let m = documents_by_uri(n);
    let e = documents_by_uri(docs).insert(d.uri, d);
    assert forall|u: Seq<char>| m.contains_key(u) <==> e.contains_key(u) by {
        if m.contains_key(u) {
            let k = choose|k: int| 0 <= k < n.len() && n[k].uri == u;
            assert(docs[k].uri == u);
        }
        if documents_by_uri(docs).contains_key(u) {
            let k = choose|k: int| 0 <= k < docs.len() && docs[k].uri == u;
            assert(n[k].uri == u);
        }
    }
    assert forall|u: Seq<char>| m.contains_key(u) implies m[u] == e[u] by {
        let k = choose|k: int| 0 <= k < n.len() && n[k].uri == u;
        lemma_lookup(n, k);
        if k != i {
            lemma_lookup(docs, k);
        }
    }
    assert(m =~= e);
}

proof fn lemma_remove(docs: Seq<DocumentView>, i: int)
    requires
        distinct_uris(docs),
        0 <= i < docs.len(),
    ensures
        distinct_uris(docs.remove(i)),
        documents_by_uri(docs.remove(i)) == documents_by_uri(docs).remove(docs[i].uri),
{
    let n = docs.remove(i);
    let old_index = |k: int| if k < i { k } else { k + 1 };
    assert forall|a: int, b: int| 0 <= a < b < n.len() implies n[a].uri != n[b].uri by {
        assert(n[a] == docs[old_index(a)] && n[b] == docs[old_index(b)]);
    }
    let m = documents_by_uri(n);
    let e = documents_by_uri(docs).remove(docs[i].uri);
    assert forall|u: Seq<char>| m.contains_key(u) <==> e.contains_key(u) by {
        if m.contains_key(u) {
            let k = choose|k: int| 0 <= k < n.len() && n[k].uri == u;
            assert(docs[old_index(k)].uri == u);
        }
        if e.contains_key(u) {
            let k = choose|k: int| 0 <= k < docs.len() && docs[k].uri == u;
            assert(k != i);
            if k < i {
                assert(n[k].uri == u);
            } else {
                assert(n[k - 1].uri == u);
            }
        }
    }
    assert forall|u: Seq<char>| m.contains_key(u) implies m[u] == e[u] by {
        let k = choose|k: int| 0 <= k < n.len() && n[k].uri == u;
        lemma_lookup(n, k);
        lemma_lookup(docs, old_index(k));
    }
    assert(m =~= e);
}

impl View for DocumentStore {
    type V = Map<Seq<char>, DocumentView>;

    closed spec fn view(&self) -> Map<Seq<char>, DocumentView> {
        documents_by_uri(self.documents@.map_values(|d: TextDocument| d@))
    }
}

impl DocumentStore {
    closed spec fn docs(&self) -> Seq<DocumentView> {
        self.documents@.map_values(|d: TextDocument| d@)
    }

    /// The store's invariant: no two documents share a URI.
    pub closed spec fn wf(&self) -> bool {
        distinct_uris(self.docs())
    }

    /// An empty store.
    pub fn new() -> (store: Self)
        ensures
            store.wf(),
            store@ == Map::<Seq<char>, DocumentView>::empty(),
    {
        let store = DocumentStore { documents: Vec::new() };
        assert(store@ =~= Map::<Seq<char>, DocumentView>::empty());
        store
    }

    /// Index of the document with this URI, if any.
    fn position_of(&self, uri: &String) -> (r: Option<usize>)
        requires
            self.wf(),
        ensures
            match r {
                Some(i) => i < self.documents.len() && self.docs()[i as int].uri == uri@,
                None => !self@.contains_key(uri@),
            },
    {
        let mut i: usize = 0;
        while i < self.documents.len()
            invariant
                i <= self.documents.len(),
                forall|k: int| 0 <= k < i ==> self.docs()[k].uri != uri@,
            decreases self.documents.len() - i,
        {
            let candidate: &String = self.documents[i].uri();
            if candidate.eq(uri) {
                return Some(i);
            }
            i = i + 1;
        }
        proof {
            if self@.contains_key(uri@) {
                let k = choose|k: int| 0 <= k < self.docs().len() && self.docs()[k].uri == uri@;
                assert(self.docs()[k].uri == uri@);
            }
        }
        None
    }

    /// Opens a document: the store then holds it under its URI, replacing
    /// any document it held there.
    pub fn open(&mut self, uri: String, version: i32, text: String)
        requires
            old(self).wf(),
        ensures
            final(self).wf(),
            final(self)@ == old(self)@.insert(
                uri@,
                DocumentView { uri: uri@, version, text: text@ },
            ),
    {
        let document = TextDocument::new(uri.clone(), version, text);
        match self.position_of(&uri) {
            Some(i) => {
                proof {
                    lemma_update(self.docs(), i as int, document@);
                }
                self.documents.set(i, document);
                assert(self.docs() =~= old(self).docs().update(i as int, document@));
            },
            None => {
                proof {
                    lemma_push(self.docs(), document@);
                }
                self.documents.push(document);
                assert(self.docs() =~= old(self).docs().push(document@));
            },
        }
    }

    /// Applies the changes in order to the document with this URI and then
    /// gives it the version; a URI that the store does not hold changes
    /// nothing.
    pub fn apply_changes(
        &mut self,
        uri: &String,
        version: i32,
        changes: &[TextDocumentContentChangeEvent],
    )
        requires
            old(self).wf(),
        ensures
            final(self).wf(),
            old(self)@.contains_key(uri@) ==> final(self)@ == old(self)@.insert(
                uri@,
                DocumentView {
                    version,
                    text: apply_changes_spec(old(self)@[uri@].text, changes@),
                    ..old(self)@[uri@]
                },
            ),
            !old(self)@.contains_key(uri@) ==> final(self)@ == old(self)@,
    {
        if let Some(i) = self.position_of(uri) {
            proof {
                lemma_lookup(self.docs(), i as int);
            }
            let mut document = self.documents[i].duplicate();
            let ghost start = document@;
            let mut k: usize = 0;
            assert(changes@.skip(0) =~= changes@);
            while k < changes.len()
                invariant
                    k <= changes@.len(),
                    document@.uri == start.uri,
                    document@.version == start.version,
                    apply_changes_spec(start.text, changes@) == apply_changes_spec(
                        document@.text,
                        changes@.skip(k as int),
                    ),
                decreases changes@.len() - k,
            {
                document.apply_change(&changes[k]);
                assert(changes@.skip(k as int).drop_first() =~= changes@.skip(k + 1));
                k = k + 1;
            }
            assert(changes@.skip(k as int) =~= Seq::<TextDocumentContentChangeEvent>::empty());
            document.set_version(version);
            proof {
                lemma_update(self.docs(), i as int, document@);
            }
            self.documents.set(i, document);
            assert(self.docs() =~= old(self).docs().update(i as int, document@));
        }
    }

    /// Closes a document: the store no longer holds its URI.
    pub fn close(&mut self, uri: &String)
        requires
            old(self).wf(),
        ensures
            final(self).wf(),
            final(self)@ == old(self)@.remove(uri@),
    {
        match self.position_of(uri) {
            Some(i) => {
                proof {
                    lemma_remove(self.docs(), i as int);
                }
                self.documents.remove(i);
                assert(self.docs() =~= old(self).docs().remove(i as int));
            },
            None => {
                assert(self@ =~= old(self)@.remove(uri@));
            },
        }
    }

    /// The document held under this URI, if any.
    pub fn get(&self, uri: &String) -> (r: Option<&TextDocument>)
        requires
            self.wf(),
        ensures
            match r {
                Some(d) => self@.contains_key(uri@) && d@ == self@[uri@],
                None => !self@.contains_key(uri@),
            },
    {
        match self.position_of(uri) {
            Some(i) => {
                proof {
                    lemma_lookup(self.docs(), i as int);
                }
                Some(&self.documents[i])
            },
            None => None,
        }
    }

    /// The URIs of the open documents, each once.
    pub fn uris(&self) -> (uris: Vec<String>)
        requires
            self.wf(),
        ensures
            forall|i: int| 0 <= i < uris.len() ==> self@.contains_key(#[trigger] uris@[i]@),
            forall|u: Seq<char>| self@.contains_key(u) ==> exists|i: int| 0 <= i < uris.len() && uris@[i]@ == u,
            forall|i: int, j: int| 0 <= i < j < uris.len() ==> uris@[i]@ != uris@[j]@,
    {
        let mut uris: Vec<String> = Vec::new();
        let mut k: usize = 0;
        while k < self.documents.len()
            invariant
                self.wf(),
                k <= self.documents.len(),
                uris.len() == k,
                forall|i: int| 0 <= i < k ==> uris@[i]@ == self.docs()[i].uri,
            decreases self.documents.len() - k,
        {
            uris.push(self.documents[k].uri().clone());
            k = k + 1;
        }
        proof {
            assert forall|i: int| 0 <= i < uris.len() implies self@.contains_key(#[trigger] uris@[i]@) by {
                lemma_lookup(self.docs(), i);
            }
            assert forall|u: Seq<char>| self@.contains_key(u) implies exists|i: int| 0 <= i < uris.len() && uris@[i]@ == u by {
                let i = choose|i: int| 0 <= i < self.docs().len() && self.docs()[i].uri == u;
                assert(uris@[i]@ == u);
            }
        }
        uris
    }
}

/// What a store reads back after a document is opened: the document just
/// opened under its URI, every other URI as it was.
pub proof fn law_open_then_get(
    docs: Map<Seq<char>, DocumentView>,
    uri: Seq<char>,
    version: i32,
    text: Seq<char>,
    other: Seq<char>,
)
    requires
        other != uri,
    ensures
        docs.insert(uri, DocumentView { uri, version, text }).contains_key(uri),
        docs.insert(uri, DocumentView { uri, version, text })[uri] == (DocumentView { uri, version, text }),
        docs.insert(uri, DocumentView { uri, version, text }).contains_key(other) == docs.contains_key(other),
        docs.contains_key(other) ==> docs.insert(uri, DocumentView { uri, version, text })[other]
            == docs[other],
{
}

/// What a store reads back after a document is closed: nothing under its
/// URI, every other URI as it was.
pub proof fn law_close_then_get(docs: Map<Seq<char>, DocumentView>, uri: Seq<char>, other: Seq<char>)
    requires
        other != uri,
    ensures
        !docs.remove(uri).contains_key(uri),
        docs.remove(uri).contains_key(other) == docs.contains_key(other),
        docs.contains_key(other) ==> docs.remove(uri)[other] == docs[other],
{
}

impl Default for DocumentStore {
    fn default() -> (store: Self)
        ensures
            store.wf(),
            store@ == Map::<Seq<char>, DocumentView>::empty(),
    {
        DocumentStore::new()
    }
}

} // verus!
