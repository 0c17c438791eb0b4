//! The workspace roots the server works on, and its one command: refresh
//! the Gradle classpath of some roots.
use vstd::prelude::*;
use crate::text::collation::{same_elements, sorted_distinct, string_views, strictly_sorted};
use crate::text::strings::str_eq;
use crate::text::uri::{file_path_to_uri, file_path_url, opt_view, parse_url, parsed_url};

verus! {

/// The name of the command that refreshes the Gradle classpath.
pub open spec fn refresh_gradle_command_name() -> Seq<char> {
    "kotlin-analyzer.refreshGradle"@
}

/// The name of the command that refreshes the Gradle classpath, as the
/// server announces it.
pub fn refresh_gradle_command() -> (r: &'static str)
    ensures
        r@ == refresh_gradle_command_name(),
{
    "kotlin-analyzer.refreshGradle"
}

/// Whether a command is the one that refreshes the Gradle classpath (the
/// server answers any other with nothing).
pub fn is_refresh_gradle_command(command: &str) -> (r: bool)
    ensures
        r == (command@ == refresh_gradle_command_name()),
{
    str_eq(command, "kotlin-analyzer.refreshGradle")
}

/// The roots of the workspace, from what the client sent at initialization:
/// the URIs of its workspace folders, sorted and each once, when it sent
/// folders; else its root URI, when it sent one; else none.
pub fn collect_workspace_roots(folders: Option<Vec<String>>, root_uri: Option<String>) -> (r: Vec<
    String,
>)
    ensures
        match folders {
            Some(f) => strictly_sorted(string_views(r@), false) && same_elements(
                string_views(r@),
                string_views(f@),
            ),
            None => string_views(r@) == match root_uri {
                Some(u) => seq![u@],
                None => Seq::<Seq<char>>::empty(),
            },
        },
{
    match folders {
        Some(f) => sorted_distinct(f, false),
        None => {
            let mut r: Vec<String> = Vec::new();
            match root_uri {
                Some(u) => {
                    r.push(u);
                    assert(string_views(r@) =~= seq![u@]);
                },
                None => {
                    assert(string_views(r@) =~= Seq::<Seq<char>>::empty());
                },
            }
            r
        },
    }
}

/// The root that a command argument names: the URI it parses as, else the
/// `file:` URI of it read as a path, else none.
pub open spec fn argument_root(arg: Seq<char>) -> Option<Seq<char>> {
    match parsed_url(arg) {
        Some(u) => Some(u),
        None => file_path_url(arg),
    }
}

/// The root that a command argument names (see [`argument_root`]).
pub fn root_from_argument(arg: &str) -> (r: Option<String>)
    ensures
        opt_view(r) == argument_root(arg@),
{
    match parse_url(arg) {
        Some(u) => Some(u),
        None => file_path_to_uri(arg),
    }
}

pub open spec fn opt_views(v: Seq<Option<String>>) -> Seq<Option<Seq<char>>> {
    Seq::new(v.len(), |i: int| opt_view(v[i]))
}

/// The roots to refresh, given whether the command had arguments and the
/// root that its first argument names: that root alone when there is one,
/// else all the workspace roots.
pub fn pick_gradle_roots(has_arguments: bool, named: Option<String>, workspace_roots: &Vec<String>) -> (r:
    Vec<String>)
    ensures
        string_views(r@) == match named {
            Some(u) if has_arguments => seq![u@],
            _ => string_views(workspace_roots@),
        },
{
    match named {
        Some(u) if has_arguments => {
            let r = vec![u];
            assert(string_views(r@) =~= seq![u@]);
            r
        },
        _ => {
            let mut r: Vec<String> = Vec::new();
            let mut i: usize = 0;
            while i < workspace_roots.len()
                invariant
                    i <= workspace_roots.len(),
                    r.len() == i,
                    forall|k: int| 0 <= k < i ==> (#[trigger] r@[k])@ == workspace_roots@[k]@,
                decreases workspace_roots.len() - i,
            {
                r.push(workspace_roots[i].clone());
                i = i + 1;
            }
            assert(string_views(r@) =~= string_views(workspace_roots@));
            r
        },
    }
}

/// The roots that the refresh command works on.  Its arguments come as the
/// strings they are, `None` for an argument that is not a string.  With no
/// arguments, all the workspace roots; when the first argument is a string
/// that names a root (a URI or a path), that root; else all of them.
pub open spec fn gradle_roots_spec(args: Seq<Option<Seq<char>>>, roots: Seq<Seq<char>>) -> Seq<
    Seq<char>,
> {
    if args.len() == 0 {
        roots
    } else {
        match args[0] {
            Some(a) => match argument_root(a) {
                Some(u) => seq![u],
                None => roots,
            },
            None => roots,
        }
    }
}

/// The roots that the refresh command works on (see [`gradle_roots_spec`]).
pub fn parse_gradle_roots(args: &Vec<Option<String>>, workspace_roots: &Vec<String>) -> (r: Vec<
    String,
>)
    ensures
        string_views(r@) == gradle_roots_spec(opt_views(args@), string_views(workspace_roots@)),
{
    let named = if args.len() > 0 {
        match &args[0] {
            Some(a) => root_from_argument(a.as_str()),
            None => None,
        }
    } else {
        None
    };
    pick_gradle_roots(args.len() > 0, named, workspace_roots)
}

} // verus!
