use kotlin_analyzer::index::walk::{is_ignored_dir, is_kotlin_file_name};
use kotlin_analyzer::index::{classify_source_entry, WalkAction};

#[test]
fn source_walk_decisions() {
    for dir in [".git", ".gradle", ".idea", "build", "out", "target"] {
        assert!(is_ignored_dir(dir));
        assert_eq!(classify_source_entry(dir, true), WalkAction::Skip);
    }
    // Unlike the Gradle walk, the source walk enters node_modules.
    assert!(!is_ignored_dir("node_modules"));
    assert_eq!(classify_source_entry("node_modules", true), WalkAction::Descend);
    assert_eq!(classify_source_entry("src", true), WalkAction::Descend);
    assert_eq!(classify_source_entry("Main.kt", false), WalkAction::Take);
    assert_eq!(classify_source_entry("build.gradle.kts", false), WalkAction::Skip);
    assert_eq!(classify_source_entry("Main.kt", true), WalkAction::Descend);
}

#[test]
fn kotlin_file_names_follow_the_extension() {
    assert!(is_kotlin_file_name("a.kt"));
    assert!(is_kotlin_file_name("..kt"));
    assert!(is_kotlin_file_name("Über.kt"));
    assert!(!is_kotlin_file_name(".kt"));
    assert!(!is_kotlin_file_name("a.kts"));
    assert!(!is_kotlin_file_name("a.KT"));
    assert!(!is_kotlin_file_name("kt"));
    assert!(!is_kotlin_file_name(""));
}
