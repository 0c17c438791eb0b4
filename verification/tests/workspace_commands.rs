use kotlin_analyzer::lsp::commands::{
    is_refresh_gradle_command, pick_gradle_roots, refresh_gradle_command, root_from_argument,
};
use kotlin_analyzer::lsp::{collect_workspace_roots, parse_gradle_roots};
use kotlin_analyzer::text::collation::{sorted_distinct, string_precedes};

fn strings(v: &[&str]) -> Vec<String> {
    v.iter().map(|s| s.to_string()).collect()
}

#[test]
fn workspace_roots_are_sorted_folders_each_once() {
    let folders = strings(&["file:///b", "file:///a", "file:///b", "file:///a/c"]);
    assert_eq!(
        collect_workspace_roots(Some(folders), Some("file:///z".to_string())),
        strings(&["file:///a", "file:///a/c", "file:///b"])
    );
    assert_eq!(collect_workspace_roots(Some(Vec::new()), Some("file:///z".to_string())), Vec::<String>::new());
    assert_eq!(collect_workspace_roots(None, Some("file:///z".to_string())), strings(&["file:///z"]));
    assert_eq!(collect_workspace_roots(None, None), Vec::<String>::new());
}

#[test]
fn refresh_command_name() {
    assert_eq!(refresh_gradle_command(), "kotlin-analyzer.refreshGradle");
    assert!(is_refresh_gradle_command("kotlin-analyzer.refreshGradle"));
    assert!(!is_refresh_gradle_command("kotlin-analyzer.other"));
}

#[test]
fn refresh_roots_from_arguments() {
    let roots = strings(&["file:///a", "file:///b"]);
    // No arguments: every root.
    assert_eq!(parse_gradle_roots(&Vec::new(), &roots), roots);
    // A URI: that root alone, as the URL parser writes it.
    assert_eq!(
        parse_gradle_roots(&vec![Some("file:///work/app".to_string())], &roots),
        strings(&["file:///work/app"])
    );
    assert_eq!(
        parse_gradle_roots(&vec![Some("FILE:///work/a%20b".to_string())], &roots),
        strings(&["file:///work/a%20b"])
    );
    // An absolute path: its file URI.
    assert_eq!(
        parse_gradle_roots(&vec![Some("/work/my app".to_string())], &roots),
        strings(&["file:///work/my%20app"])
    );
    // A relative path names no root; neither does an argument that is no string.
    assert_eq!(parse_gradle_roots(&vec![Some("work/app".to_string())], &roots), roots);
    assert_eq!(parse_gradle_roots(&vec![None, Some("file:///x".to_string())], &roots), roots);
    assert_eq!(root_from_argument("/p"), Some("file:///p".to_string()));
    assert_eq!(root_from_argument("p"), None);
    assert_eq!(pick_gradle_roots(false, Some("file:///x".to_string()), &roots), roots);
    assert_eq!(pick_gradle_roots(true, Some("file:///x".to_string()), &roots), strings(&["file:///x"]));
}

#[test]
fn paths_sort_by_components() {
    // As paths, "a/b" comes before "a-b" ('/' ranks first); as plain strings, after.
    assert!(string_precedes("a/b", "a-b", true));
    assert!(!string_precedes("a/b", "a-b", false));
    assert!(string_precedes("a-b", "a/b", false));
    assert!(string_precedes("ab", "abc", true));
    assert!(!string_precedes("abc", "abc", true));
    assert_eq!(
        sorted_distinct(strings(&["/w/a-b/x", "/w/a/b", "/w/a/b", "/w/a"]), true),
        strings(&["/w/a", "/w/a/b", "/w/a-b/x"])
    );
    assert_eq!(
        sorted_distinct(strings(&["/w/a-b/x", "/w/a/b", "/w/a"]), false),
        strings(&["/w/a", "/w/a-b/x", "/w/a/b"])
    );
}

#[test]
fn sorting_depends_only_on_which_strings() {
    let one = sorted_distinct(strings(&["c", "a", "b", "a"]), false);
    let two = sorted_distinct(strings(&["b", "b", "c", "a"]), false);
    assert_eq!(one, two);
    assert_eq!(one, strings(&["a", "b", "c"]));
}
