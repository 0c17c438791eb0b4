//! The decisions of a scan of a directory tree for Kotlin sources.
use vstd::prelude::*;
use crate::parser::chars::collect_chars;
use crate::text::strings::str_eq;

verus! {

/// What a walk of a directory tree does with one entry.
#[derive(Clone, Copy, Debug, PartialEq, Eq, Structural)]
pub enum WalkAction {
    /// Walk into the directory.
    Descend,
    /// Keep the file.
    Take,
    /// Leave the entry alone.
    Skip,
}

/// Directories that a scan for Kotlin sources does not enter.
pub open spec fn ignored_source_dir(name: Seq<char>) -> bool {
    ||| name == ".git"@
    ||| name == ".gradle"@
    ||| name == ".idea"@
    ||| name == "build"@
    ||| name == "out"@
    ||| name == "target"@
}

/// Whether a scan for Kotlin sources skips a directory of this name.
pub fn is_ignored_dir(name: &str) -> (r: bool)
    ensures
        r == ignored_source_dir(name@),
{
    str_eq(name, ".git") || str_eq(name, ".gradle") || str_eq(name, ".idea") || str_eq(name, "build")
        || str_eq(name, "out") || str_eq(name, "target")
}

/// A file name with the extension `kt`: it ends in `.kt`, and something
/// comes before that dot (a name that is only `.kt` has no extension).
pub open spec fn kotlin_file_name(name: Seq<char>) -> bool {
    &&& name.len() > 3
    &&& name[name.len() - 3] == '.'
    &&& name[name.len() - 2] == 'k'
    &&& name[name.len() - 1] == 't'
}

/// Whether a file of this name is a Kotlin source.
pub fn is_kotlin_file_name(name: &str) -> (r: bool)
    ensures
        r == kotlin_file_name(name@),
{
    let c = collect_chars(name);
    let n = c.len();
    n > 3 && c[n - 3] == '.' && c[n - 2] == 'k' && c[n - 1] == 't'
}

/// What a scan for Kotlin sources does with an entry of a directory.
pub open spec fn source_entry_action(name: Seq<char>, is_dir: bool) -> WalkAction {
    if is_dir {
        if ignored_source_dir(name) {
            WalkAction::Skip
        } else {
            WalkAction::Descend
        }
    } else if kotlin_file_name(name) {
        WalkAction::Take
    } else {
        WalkAction::Skip
    }
}

/// What a scan for Kotlin sources does with an entry of a directory, given
/// its name and whether it is a directory.
pub fn classify_source_entry(name: &str, is_dir: bool) -> (r: WalkAction)
    ensures
        r == source_entry_action(name@, is_dir),
{
    if is_dir {
        if is_ignored_dir(name) {
            WalkAction::Skip
        } else {
            WalkAction::Descend
        }
    } else if is_kotlin_file_name(name) {
        WalkAction::Take
    } else {
        WalkAction::Skip
    }
}

} // verus!
