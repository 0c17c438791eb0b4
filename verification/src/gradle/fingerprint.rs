//! Which files of a workspace make up its Gradle build, and a fingerprint of
//! them that changes when one of them does.
use vstd::prelude::*;
use std::collections::hash_map::DefaultHasher;
use std::hash::Hasher;
use vstd::std_specs::hash::DefaultHasherAdditionalSpecFns;
use vstd::utf8::encode_utf8;
use crate::gradle::runner::{GradleClasspath, GradleModuleView};
use crate::index::walk::WalkAction;
use crate::text::collation::{
    law_sorted_distinct_depends_on_elements, same_elements, string_views, strictly_sorted,
};
use crate::text::strings::str_eq;

verus! {

/// A digest of the Gradle files of a workspace root.
#[derive(Clone, Copy, Debug, PartialEq, Eq, Structural)]
pub struct GradleFingerprint(pub u64);

/// The classpath that Gradle reported for a root, with the fingerprint of
/// the root's Gradle files at the time.
#[derive(Clone, Debug)]
pub struct GradleCacheEntry {
    pub classpath: GradleClasspath,
    pub fingerprint: GradleFingerprint,
}

pub struct GradleCacheEntryView {
    pub classpath: Seq<GradleModuleView>,
    pub fingerprint: GradleFingerprint,
}

impl View for GradleCacheEntry {
    type V = GradleCacheEntryView;

    open spec fn view(&self) -> GradleCacheEntryView {
        GradleCacheEntryView { classpath: self.classpath@, fingerprint: self.fingerprint }
    }
}

/// The paths, relative to a root, that are Gradle files of the root when
/// they are files.
pub open spec fn top_level_gradle_paths() -> Seq<Seq<char>> {
    seq![
        "build.gradle"@,
        "build.gradle.kts"@,
        "settings.gradle"@,
        "settings.gradle.kts"@,
        "gradle.properties"@,
        "gradle.lockfile"@,
        "gradle/wrapper/gradle-wrapper.properties"@,
        "gradle/libs.versions.toml"@,
    ]
}

/// The paths, relative to a root, that are looked at directly for Gradle
/// files, besides those found by walking the root.
pub fn top_level_gradle_files() -> (r: Vec<String>)
    ensures
        r@.len() == top_level_gradle_paths().len(),
        forall|i: int| 0 <= i < r@.len() ==> #[trigger] r@[i]@ == top_level_gradle_paths()[i],
{
    let r = vec![
        "build.gradle".to_owned(),
        "build.gradle.kts".to_owned(),
        "settings.gradle".to_owned(),
        "settings.gradle.kts".to_owned(),
        "gradle.properties".to_owned(),
        "gradle.lockfile".to_owned(),
        "gradle/wrapper/gradle-wrapper.properties".to_owned(),
        "gradle/libs.versions.toml".to_owned(),
    ];
    r
}

/// Directories that the walk for Gradle files does not enter.
pub open spec fn ignored_gradle_dir(name: Seq<char>) -> bool {
    ||| name == ".git"@
    ||| name == ".gradle"@
    ||| name == ".idea"@
    ||| name == "build"@
    ||| name == "out"@
    ||| name == "target"@
    ||| name == "node_modules"@
}

/// Whether the walk for Gradle files skips a directory of this name.
pub fn is_ignored_dir(name: &str) -> (r: bool)
    ensures
        r == ignored_gradle_dir(name@),
{
    str_eq(name, ".git") || str_eq(name, ".gradle") || str_eq(name, ".idea") || str_eq(name, "build")
        || str_eq(name, "out") || str_eq(name, "target") || str_eq(name, "node_modules")
}

/// Names of the files that belong to a Gradle build wherever they are.
pub open spec fn gradle_file_name(name: Seq<char>) -> bool {
    ||| name == "build.gradle"@
    ||| name == "build.gradle.kts"@
    ||| name == "settings.gradle"@
    ||| name == "settings.gradle.kts"@
    ||| name == "gradle.properties"@
    ||| name == "gradle.lockfile"@
    ||| name == "libs.versions.toml"@
    ||| name == "gradle-wrapper.properties"@
}

/// Whether a file of this name belongs to a Gradle build.
pub fn is_gradle_file_name(name: &str) -> (r: bool)
    ensures
        r == gradle_file_name(name@),
{
    str_eq(name, "build.gradle") || str_eq(name, "build.gradle.kts") || str_eq(name, "settings.gradle")
        || str_eq(name, "settings.gradle.kts") || str_eq(name, "gradle.properties") || str_eq(
        name,
        "gradle.lockfile",
    ) || str_eq(name, "libs.versions.toml") || str_eq(name, "gradle-wrapper.properties")
}

/// What the walk for Gradle files does with an entry of a directory.
pub open spec fn gradle_entry_action(name: Seq<char>, is_dir: bool) -> WalkAction {
    if is_dir {
        if ignored_gradle_dir(name) {
            WalkAction::Skip
        } else {
            WalkAction::Descend
        }
    } else if gradle_file_name(name) {
        WalkAction::Take
    } else {
        WalkAction::Skip
    }
}

/// What the walk for Gradle files does with an entry of a directory, given
/// its name and whether it is a directory.
pub fn classify_gradle_entry(name: &str, is_dir: bool) -> (r: WalkAction)
    ensures
        r == gradle_entry_action(name@, is_dir),
{
    if is_dir {
        if is_ignored_dir(name) {
            WalkAction::Skip
        } else {
            WalkAction::Descend
        }
    } else if is_gradle_file_name(name) {
        WalkAction::Take
    } else {
        WalkAction::Skip
    }
}

/// What the file system says of a Gradle file: its length, and when it was
/// last modified (nanoseconds after the Unix epoch) when that is known.
#[derive(Clone, Copy, Debug)]
pub struct FileMetadata {
    pub len: u64,
    pub modified_nanos: Option<u128>,
}

/// A Gradle file and its metadata, when the metadata could be read.
pub struct GradleFileMeta {
    pub path: String,
    pub metadata: Option<FileMetadata>,
}

pub struct GradleFileMetaView {
    pub path: Seq<char>,
    pub metadata: Option<FileMetadata>,
}

impl View for GradleFileMeta {
    type V = GradleFileMetaView;

    open spec fn view(&self) -> GradleFileMetaView {
        GradleFileMetaView { path: self.path@, metadata: self.metadata }
    }
}

/// The `n` bytes of `v`, least significant first.
pub open spec fn le_bytes(v: nat, n: nat) -> Seq<u8>
    decreases n,
{
    if n == 0 {
        Seq::empty()
    } else {
        seq![(v % 256) as u8] + le_bytes(v / 256, (n - 1) as nat)
    }
}

/// What is written to the hasher for one file: the UTF-8 bytes of its path
/// and the byte 0xff that ends a string, then, when its metadata was read,
/// its length as 8 bytes and, when known, its modification time as 16.
pub open spec fn file_writes(f: GradleFileMetaView) -> Seq<Seq<u8>> {
    let head = seq![encode_utf8(f.path), seq![0xffu8]];
    match f.metadata {
        None => head,
        Some(m) => {
            let with_len = head.push(le_bytes(m.len as nat, 8));
            match m.modified_nanos {
                None => with_len,
                Some(n) => with_len.push(le_bytes(n as nat, 16)),
            }
        },
    }
}

/// What is written to the hasher for the files, in order.
pub open spec fn fingerprint_writes(files: Seq<GradleFileMetaView>) -> Seq<Seq<u8>>
    decreases files.len(),
{
    if files.len() == 0 {
        Seq::empty()
    } else {
        fingerprint_writes(files.drop_last()) + file_writes(files.last())
    }
}

pub open spec fn meta_views(files: Seq<GradleFileMeta>) -> Seq<GradleFileMetaView> {
    Seq::new(files.len(), |i: int| files[i]@)
}

fn le_bytes_vec(v: u128, n: usize) -> (r: Vec<u8>)
    ensures
        r@ == le_bytes(v as nat, n as nat),
{
    let mut out: Vec<u8> = Vec::new();
    let mut x: u128 = v;
    let mut i: usize = 0;
    while i < n
        invariant
            i <= n,
            out@ + le_bytes(x as nat, (n - i) as nat) == le_bytes(v as nat, n as nat),
        decreases n - i,
    {
        let b = (x % 256) as u8;
        proof {
            let rest = le_bytes((x / 256) as nat, (n - i - 1) as nat);
            assert(le_bytes(x as nat, (n - i) as nat) == seq![b] + rest);
            assert(out@.push(b) + rest =~= out@ + (seq![b] + rest));
        }
        out.push(b);
        x = x / 256;
        i = i + 1;
    }
    assert(out@ + le_bytes(x as nat, 0) =~= out@);
    out
}

/// The fingerprint of the Gradle files of a root, in the order given (the
/// walk sorts them first): `None` when there are none, else the digest of
/// a `DefaultHasher` fed with each file's path and, where they could be
/// read, its length and modification time.
pub fn compute_gradle_fingerprint(files: &Vec<GradleFileMeta>) -> (r: Option<GradleFingerprint>)
    ensures
        files.len() == 0 ==> r is None,
        files.len() > 0 ==> r == Some(
            GradleFingerprint(
                DefaultHasher::spec_finish(fingerprint_writes(meta_views(files@))),
            ),
        ),
{
    if files.len() == 0 {
        return None;
    }
    let mut hasher = DefaultHasher::new();
    let mut i: usize = 0;
    while i < files.len()
        invariant
            i <= files.len(),
            hasher@ == fingerprint_writes(meta_views(files@.take(i as int))),
        decreases files.len() - i,
    {
        let f = &files[i];
        proof {
            assert(meta_views(files@.take(i + 1)).drop_last() =~= meta_views(files@.take(i as int)));
            assert(meta_views(files@.take(i + 1)).last() == f@);
        }
        let ghost start = hasher@;
        let path_bytes = f.path.as_str().as_bytes();
        assert(path_bytes@ == encode_utf8(f.path@));
        hasher.write(path_bytes);
        assert(hasher@ == start.push(encode_utf8(f.path@)));
        let end_of_string: Vec<u8> = vec![0xffu8];
        assert(end_of_string@ == seq![0xffu8]);
        hasher.write(end_of_string.as_slice());
        assert(hasher@ == start.push(encode_utf8(f.path@)).push(seq![0xffu8]));
        let ghost head = seq![encode_utf8(f.path@), seq![0xffu8]];
        assert(hasher@ =~= start + head);
        match f.metadata {
            Some(m) => {
                assert(f@.metadata == Some(m));
                let len_bytes = le_bytes_vec(m.len as u128, 8);
                hasher.write(len_bytes.as_slice());
                match m.modified_nanos {
                    Some(n) => {
                        let time_bytes = le_bytes_vec(n, 16);
                        hasher.write(time_bytes.as_slice());
                        assert(file_writes(f@) == head.push(le_bytes(m.len as nat, 8)).push(
                            le_bytes(n as nat, 16),
                        ));
                        assert(hasher@ =~= start + file_writes(f@));
                    },
                    None => {
                        assert(file_writes(f@) == head.push(le_bytes(m.len as nat, 8)));
                        assert(hasher@ =~= start + file_writes(f@));
                    },
                }
            },
            None => {
                assert(hasher@ =~= start + file_writes(f@));
            },
        }
        i = i + 1;
    }
    assert(files@.take(files.len() as int) =~= files@);
    Some(GradleFingerprint(hasher.finish()))
}

/// The fingerprint depends only on which Gradle files there are and on
/// their metadata, not on the order in which the walk found them: two walks
/// that found the same paths (in any order, with any repeats), each sorted
/// without repeats (as `sorted_distinct` does) and given each path's
/// metadata, hash the same writes and so give the same fingerprint.
pub proof fn law_fingerprint_depends_on_file_set(
    found1: Seq<String>,
    found2: Seq<String>,
    sorted1: Seq<String>,
    sorted2: Seq<String>,
    files1: Seq<GradleFileMeta>,
    files2: Seq<GradleFileMeta>,
    metadata: spec_fn(Seq<char>) -> Option<FileMetadata>,
)
    requires
        same_elements(string_views(found1), string_views(found2)),
        strictly_sorted(string_views(sorted1), true),
        same_elements(string_views(sorted1), string_views(found1)),
        strictly_sorted(string_views(sorted2), true),
        same_elements(string_views(sorted2), string_views(found2)),
        files1.len() == sorted1.len(),
        files2.len() == sorted2.len(),
        forall|i: int|
            0 <= i < files1.len() ==> (#[trigger] files1[i])@ == (GradleFileMetaView {
                path: sorted1[i]@,
                metadata: metadata(sorted1[i]@),
            }),
        forall|i: int|
            0 <= i < files2.len() ==> (#[trigger] files2[i])@ == (GradleFileMetaView {
                path: sorted2[i]@,
                metadata: metadata(sorted2[i]@),
            }),
    ensures
        fingerprint_writes(meta_views(files1)) == fingerprint_writes(meta_views(files2)),
        DefaultHasher::spec_finish(fingerprint_writes(meta_views(files1))) == DefaultHasher::spec_finish(
            fingerprint_writes(meta_views(files2)),
        ),
{
    law_sorted_distinct_depends_on_elements(found1, found2, sorted1, sorted2, true);
    let v1 = string_views(sorted1);
    let v2 = string_views(sorted2);
    assert(v1.len() == v2.len());
    assert forall|i: int| 0 <= i < files1.len() implies meta_views(files1)[i] == meta_views(files2)[i] by {
        assert(v1[i] == v2[i]);
        assert(files1[i]@ == files2[i]@);
    }
    assert(meta_views(files1) =~= meta_views(files2));
}

/// The directories and the file name of each path of
/// [`top_level_gradle_paths`], in the same order.
pub open spec fn top_level_gradle_parts() -> Seq<(Seq<Seq<char>>, Seq<char>)> {
    seq![
        (Seq::empty(), "build.gradle"@),
        (Seq::empty(), "build.gradle.kts"@),
        (Seq::empty(), "settings.gradle"@),
        (Seq::empty(), "settings.gradle.kts"@),
        (Seq::empty(), "gradle.properties"@),
        (Seq::empty(), "gradle.lockfile"@),
        (seq!["gradle"@, "wrapper"@], "gradle-wrapper.properties"@),
        (seq!["gradle"@], "libs.versions.toml"@),
    ]
}

/// A relative path from its directories and file name, joined by `/`.
pub open spec fn join_path(dirs: Seq<Seq<char>>, name: Seq<char>) -> Seq<char>
    decreases dirs.len(),
{
    if dirs.len() == 0 {
        name
    } else {
        dirs[0] + seq!['/'] + join_path(dirs.drop_first(), name)
    }
}

/// The paths looked at directly under a root add nothing that the walk for
/// Gradle files misses: each is a chain of directories that the walk
/// enters, ending in a file name that the walk takes.
pub proof fn law_top_level_files_are_walked()
    ensures
        top_level_gradle_parts().len() == top_level_gradle_paths().len(),
        forall|i: int|
            0 <= i < top_level_gradle_paths().len() ==> {
                let (dirs, name) = #[trigger] top_level_gradle_parts()[i];
                &&& join_path(dirs, name) == top_level_gradle_paths()[i]
                &&& forall|j: int|
                    0 <= j < dirs.len() ==> gradle_entry_action(#[trigger] dirs[j], true)
                        == WalkAction::Descend
                &&& gradle_entry_action(name, false) == WalkAction::Take
            },
{
    reveal_strlit("gradle");
    reveal_strlit("wrapper");
    reveal_strlit("gradle-wrapper.properties");
    reveal_strlit("libs.versions.toml");
    reveal_strlit("gradle/wrapper/gradle-wrapper.properties");
    reveal_strlit("gradle/libs.versions.toml");
    reveal_strlit(".git");
    reveal_strlit(".gradle");
    reveal_strlit(".idea");
    reveal_strlit("build");
    reveal_strlit("out");
    reveal_strlit("target");
    reveal_strlit("node_modules");
    let parts = top_level_gradle_parts();
    let paths = top_level_gradle_paths();
    let w = seq!["gradle"@, "wrapper"@];
    assert(w.drop_first() =~= seq!["wrapper"@]);
    assert(w.drop_first().drop_first() =~= Seq::<Seq<char>>::empty());
    let wn = "gradle-wrapper.properties"@;
    assert(join_path(w.drop_first().drop_first(), wn) == wn);
    assert(join_path(w.drop_first(), wn) == "wrapper"@ + seq!['/'] + wn);
    assert(join_path(w, wn) == "gradle"@ + seq!['/'] + ("wrapper"@ + seq!['/'] + wn));
    assert("gradle"@ + seq!['/'] + ("wrapper"@ + seq!['/'] + wn) =~= "gradle/wrapper/gradle-wrapper.properties"@);
    let g = seq!["gradle"@];
    let gn = "libs.versions.toml"@;
    assert(g.drop_first() =~= Seq::<Seq<char>>::empty());
    assert(join_path(g.drop_first(), gn) == gn);
    assert(join_path(g, gn) == "gradle"@ + seq!['/'] + gn);
    assert("gradle"@ + seq!['/'] + gn =~= "gradle/libs.versions.toml"@);
    assert("gradle"@[0] == 'g' && "wrapper"@[0] == 'w');
    assert(".git"@[0] == '.' && ".gradle"@[0] == '.' && ".idea"@[0] == '.');
    assert("build"@[0] == 'b' && "out"@[0] == 'o' && "target"@[0] == 't' && "node_modules"@[0] == 'n');
    assert(!ignored_gradle_dir("gradle"@));
    assert(!ignored_gradle_dir("wrapper"@));
    assert forall|i: int| 0 <= i < paths.len() implies {
        let (dirs, name) = #[trigger] parts[i];
        &&& join_path(dirs, name) == paths[i]
        &&& forall|j: int|
            0 <= j < dirs.len() ==> gradle_entry_action(#[trigger] dirs[j], true) == WalkAction::Descend
        &&& gradle_entry_action(name, false) == WalkAction::Take
    } by {
        if i == 6 {
            assert(parts[i].0 == w);
        } else if i == 7 {
            assert(parts[i].0 == g);
        } else {
            assert(parts[i].0.len() == 0);
        }
    }
}

} // verus!
