//! The results of the Gradle runs, one per workspace root, and the rule for
//! when a root is run again.
use vstd::prelude::*;
use crate::gradle::fingerprint::{GradleCacheEntry, GradleCacheEntryView, GradleFingerprint};
use crate::text::strings::str_eq;

verus! {

struct CachedRoot {
    root: String,
    entry: GradleCacheEntry,
}

pub struct CachedRootView {
    pub root: Seq<char>,
    pub entry: GradleCacheEntryView,
}

impl View for CachedRoot {
    type V = CachedRootView;

    closed spec fn view(&self) -> CachedRootView {
        CachedRootView { root: self.root@, entry: self.entry@ }
    }
}

/// The latest classpath of each workspace root, with the fingerprint of the
/// root's Gradle files it was read with.
pub struct GradleCache {
    roots: Vec<CachedRoot>,
}

/// The entries of a list, keyed by their roots.
pub open spec fn entries_by_root(s: Seq<CachedRootView>) -> Map<Seq<char>, GradleCacheEntryView> {
    Map::new(
        |r: Seq<char>| exists|i: int| 0 <= i < s.len() && s[i].root == r,
        |r: Seq<char>| s[choose|i: int| 0 <= i < s.len() && s[i].root == r].entry,
    )
}

/// No two entries of a list share a root.
pub open spec fn distinct_roots(s: Seq<CachedRootView>) -> bool {
    forall|i: int, j: int| 0 <= i < j < s.len() ==> s[i].root != s[j].root
}

/// Whether a root is to be run through Gradle again: always when forced,
/// else unless the cache holds a result for it read with this fingerprint.
pub open spec fn refresh_needed(
    cache: Map<Seq<char>, GradleCacheEntryView>,
    root: Seq<char>,
    fingerprint: GradleFingerprint,
    force: bool,
) -> bool {
    force || !(cache.contains_key(root) && cache[root].fingerprint == fingerprint)
}

proof fn lemma_lookup(s: Seq<CachedRootView>, i: int)
    requires
        distinct_roots(s),
        0 <= i < s.len(),
    ensures
        entries_by_root(s).contains_key(s[i].root),
        entries_by_root(s)[s[i].root] == s[i].entry,
{
    let r = s[i].root;
    assert(exists|k: int| 0 <= k < s.len() && s[k].root == r);
    let k = choose|k: int| 0 <= k < s.len() && s[k].root == r;
    assert(k == i);
}

proof fn lemma_push(s: Seq<CachedRootView>, c: CachedRootView)
    requires
        distinct_roots(s),
        !entries_by_root(s).contains_key(c.root),
    ensures
        distinct_roots(s.push(c)),
        entries_by_root(s.push(c)) == entries_by_root(s).insert(c.root, c.entry),
{
    let n = s.push(c);
    assert forall|i: int, j: int| 0 <= i < j < n.len() implies n[i].root != n[j].root by {
        if j == s.len() {
            assert(s[i].root == n[i].root);
        }
    }
    let m = entries_by_root(n);
    let e = entries_by_root(s).insert(c.root, c.entry);
    assert forall|r: Seq<char>| m.contains_key(r) <==> e.contains_key(r) by {
        if m.contains_key(r) {
            let k = choose|k: int| 0 <= k < n.len() && n[k].root == r;
            if k < s.len() {
                assert(s[k].root == r);
            }
        }
        if entries_by_root(s).contains_key(r) {
            let k = choose|k: int| 0 <= k < s.len() && s[k].root == r;
            assert(n[k].root == r);
        }
        if r == c.root {
            assert(n[s.len() as int].root == r);
        }
    }
    assert forall|r: Seq<char>| m.contains_key(r) implies m[r] == e[r] by {
        let k = choose|k: int| 0 <= k < n.len() && n[k].root == r;
        lemma_lookup(n, k);
        if k < s.len() {
            lemma_lookup(s, k);
        }
    }
    assert(m =~= e);
}

proof fn lemma_update(s: Seq<CachedRootView>, i: int, c: CachedRootView)
    requires
        distinct_roots(s),
        0 <= i < s.len(),
        c.root == s[i].root,
    ensures
        distinct_roots(s.update(i, c)),
        entries_by_root(s.update(i, c)) == entries_by_root(s).insert(c.root, c.entry),
{
    let n = s.update(i, c);
    assert forall|a: int, b: int| 0 <= a < b < n.len() implies n[a].root != n[b].root by {
        assert(n[a].root == s[a].root && n[b].root == s[b].root);
    }
    let m = entries_by_root(n);
    let e = entries_by_root(s).insert(c.root, c.entry);
    assert forall|r: Seq<char>| m.contains_key(r) <==> e.contains_key(r) by {
        if m.contains_key(r) {
            let k = choose|k: int| 0 <= k < n.len() && n[k].root == r;
            assert(s[k].root == r);
        }
        if entries_by_root(s).contains_key(r) {
            let k = choose|k: int| 0 <= k < s.len() && s[k].root == r;
            assert(n[k].root == r);
        }
    }
    assert forall|r: Seq<char>| m.contains_key(r) implies m[r] == e[r] by {
        let k = choose|k: int| 0 <= k < n.len() && n[k].root == r;
        lemma_lookup(n, k);
        if k != i {
            lemma_lookup(s, k);
        }
    }
    assert(m =~= e);
}

impl View for GradleCache {
    type V = Map<Seq<char>, GradleCacheEntryView>;

    closed spec fn view(&self) -> Map<Seq<char>, GradleCacheEntryView> {
        entries_by_root(self.slots())
    }
}

impl GradleCache {
    closed spec fn slots(&self) -> Seq<CachedRootView> {
        self.roots@.map_values(|c: CachedRoot| c@)
    }

    /// The cache's invariant: no two entries share a root.
    pub closed spec fn wf(&self) -> bool {
        distinct_roots(self.slots())
    }

    /// An empty cache.
    pub fn new() -> (cache: Self)
        ensures
            cache.wf(),
            cache@ == Map::<Seq<char>, GradleCacheEntryView>::empty(),
    {
        let cache = GradleCache { roots: Vec::new() };
        assert(cache@ =~= Map::<Seq<char>, GradleCacheEntryView>::empty());
        cache
    }

    fn position_of(&self, root: &str) -> (r: Option<usize>)
        requires
            self.wf(),
        ensures
            match r {
                Some(i) => i < self.roots.len() && self.slots()[i as int].root == root@,
                None => !self@.contains_key(root@),
            },
    {
        let mut i: usize = 0;
        while i < self.roots.len()
            invariant
                i <= self.roots.len(),
                forall|k: int| 0 <= k < i ==> self.slots()[k].root != root@,
            decreases self.roots.len() - i,
        {
            if str_eq(self.roots[i].root.as_str(), root) {
                return Some(i);
            }
            i = i + 1;
        }
        proof {
            if self@.contains_key(root@) {
                let k = choose|k: int| 0 <= k < self.slots().len() && self.slots()[k].root == root@;
                assert(self.slots()[k].root == root@);
            }
        }
        None
    }

    /// The entry held for a root, if any.
    pub fn get(&self, root: &str) -> (r: Option<&GradleCacheEntry>)
        requires
            self.wf(),
        ensures
            match r {
                Some(e) => self@.contains_key(root@) && e@ == self@[root@],
                None => !self@.contains_key(root@),
            },
    {
        match self.position_of(root) {
            Some(i) => {
                proof {
                    lemma_lookup(self.slots(), i as int);
                }
                Some(&self.roots[i].entry)
            },
            None => None,
        }
    }

    /// The fingerprint that the entry for a root was read with, if any.
    pub fn fingerprint_of(&self, root: &str) -> (r: Option<GradleFingerprint>)
        requires
            self.wf(),
        ensures
            r == if self@.contains_key(root@) {
                Some(self@[root@].fingerprint)
            } else {
                None
            },
    {
        match self.get(root) {
            Some(e) => Some(e.fingerprint),
            None => None,
        }
    }

    /// Whether the root is to be run through Gradle again (see
    /// [`refresh_needed`]).
    pub fn needs_refresh(&self, root: &str, fingerprint: GradleFingerprint, force: bool) -> (r: bool)
        requires
            self.wf(),
        ensures
            r == refresh_needed(self@, root@, fingerprint, force),
    {
        if force {
            return true;
        }
        match self.fingerprint_of(root) {
            Some(cached) => cached != fingerprint,
            None => true,
        }
    }

    /// Holds the entry for a root, replacing the one held before.
    pub fn insert(&mut self, root: String, entry: GradleCacheEntry)
        requires
            old(self).wf(),
        ensures
            final(self).wf(),
            final(self)@ == old(self)@.insert(root@, entry@),
    {
        let slot = CachedRoot { root, entry };
        let ghost v = slot@;
        match self.position_of(slot.root.as_str()) {
            Some(i) => {
                proof {
                    lemma_update(self.slots(), i as int, v);
                }
                self.roots.set(i, slot);
                assert(self.slots() =~= old(self).slots().update(i as int, v));
            },
            None => {
                proof {
                    lemma_push(self.slots(), v);
                }
                self.roots.push(slot);
                assert(self.slots() =~= old(self).slots().push(v));
            },
        }
    }
}

/// A root whose Gradle files have the fingerprint its cached result was
/// read with is not run again unless forced, and recording a root's result
/// changes the answer for no other root.
pub proof fn law_recorded_root_not_rerun(
    cache: Map<Seq<char>, GradleCacheEntryView>,
    root: Seq<char>,
    entry: GradleCacheEntryView,
    other: Seq<char>,
    fingerprint: GradleFingerprint,
    force: bool,
)
    requires
        other != root,
    ensures
        !refresh_needed(cache.insert(root, entry), root, entry.fingerprint, false),
        refresh_needed(cache.insert(root, entry), root, entry.fingerprint, true),
        fingerprint != entry.fingerprint ==> refresh_needed(
            cache.insert(root, entry),
            root,
            fingerprint,
            force,
        ),
        refresh_needed(cache.insert(root, entry), other, fingerprint, force) == refresh_needed(
            cache,
            other,
            fingerprint,
            force,
        ),
{
}

impl Default for GradleCache {
    fn default() -> (cache: Self)
        ensures
            cache.wf(),
            cache@ == Map::<Seq<char>, GradleCacheEntryView>::empty(),
    {
        GradleCache::new()
    }
}

} // verus!
