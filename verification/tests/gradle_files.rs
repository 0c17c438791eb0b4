use std::collections::hash_map::DefaultHasher;
use std::hash::{Hash, Hasher};

use kotlin_analyzer::gradle::cache::GradleCache;
use kotlin_analyzer::gradle::fingerprint::{
    classify_gradle_entry, is_gradle_file_name, is_ignored_dir, top_level_gradle_files, FileMetadata,
    GradleFileMeta,
};
use kotlin_analyzer::gradle::runner::{
    find_gradle_command, gradle_arguments, gradle_wrapper_file, init_script_body,
};
use kotlin_analyzer::gradle::{
    compute_gradle_fingerprint, GradleCacheEntry, GradleClasspath, GradleFingerprint, GradleModule,
};
use kotlin_analyzer::index::WalkAction;

fn meta(path: &str, len: Option<u64>, nanos: Option<u128>) -> GradleFileMeta {
    GradleFileMeta {
        path: path.to_string(),
        metadata: len.map(|len| FileMetadata { len, modified_nanos: nanos }),
    }
}

#[test]
fn gradle_walk_skips_build_output_and_takes_build_files() {
    for dir in [".git", ".gradle", ".idea", "build", "out", "target", "node_modules"] {
        assert!(is_ignored_dir(dir), "{dir}");
        assert_eq!(classify_gradle_entry(dir, true), WalkAction::Skip);
    }
    assert!(!is_ignored_dir("src"));
    assert_eq!(classify_gradle_entry("src", true), WalkAction::Descend);
    assert_eq!(classify_gradle_entry("gradle", true), WalkAction::Descend);
    for name in [
        "build.gradle",
        "build.gradle.kts",
        "settings.gradle",
        "settings.gradle.kts",
        "gradle.properties",
        "gradle.lockfile",
        "libs.versions.toml",
        "gradle-wrapper.properties",
    ] {
        assert!(is_gradle_file_name(name), "{name}");
        assert_eq!(classify_gradle_entry(name, false), WalkAction::Take);
    }
    assert!(!is_gradle_file_name("Main.kt"));
    assert_eq!(classify_gradle_entry("Main.kt", false), WalkAction::Skip);
    // A file that happens to be called like an ignored directory is no build file.
    assert_eq!(classify_gradle_entry("build", false), WalkAction::Skip);
}

#[test]
fn gradle_top_level_candidates() {
    assert_eq!(
        top_level_gradle_files(),
        vec![
            "build.gradle",
            "build.gradle.kts",
            "settings.gradle",
            "settings.gradle.kts",
            "gradle.properties",
            "gradle.lockfile",
            "gradle/wrapper/gradle-wrapper.properties",
            "gradle/libs.versions.toml",
        ]
    );
}

#[test]
fn fingerprint_of_no_files_is_none() {
    assert_eq!(compute_gradle_fingerprint(&Vec::new()), None);
}

#[test]
fn fingerprint_hashes_paths_lengths_and_times_as_std_hash_does() {
    let files = vec![
        meta("/w/build.gradle.kts", Some(120), Some(1_700_000_000_123_456_789)),
        meta("/w/gradle.properties", Some(7), None),
        meta("/w/settings.gradle", None, None),
    ];
    let mut hasher = DefaultHasher::new();
    "/w/build.gradle.kts".hash(&mut hasher);
    120u64.hash(&mut hasher);
    1_700_000_000_123_456_789u128.hash(&mut hasher);
    "/w/gradle.properties".hash(&mut hasher);
    7u64.hash(&mut hasher);
    "/w/settings.gradle".hash(&mut hasher);
    assert_eq!(compute_gradle_fingerprint(&files), Some(GradleFingerprint(hasher.finish())));
}

#[test]
fn fingerprint_changes_with_a_file() {
    let before = vec![meta("/w/build.gradle", Some(10), Some(5))];
    let touched = vec![meta("/w/build.gradle", Some(10), Some(6))];
    let same = vec![meta("/w/build.gradle", Some(10), Some(5))];
    assert_eq!(compute_gradle_fingerprint(&before), compute_gradle_fingerprint(&same));
    assert_ne!(compute_gradle_fingerprint(&before), compute_gradle_fingerprint(&touched));
}

#[test]
fn gradle_command_prefers_the_wrapper() {
    assert_eq!(gradle_wrapper_file(false), "gradlew");
    assert_eq!(gradle_wrapper_file(true), "gradlew.bat");
    assert_eq!(find_gradle_command(false, "/w/gradlew", true), "./gradlew");
    assert_eq!(find_gradle_command(true, "C:\\w\\gradlew.bat", true), "C:\\w\\gradlew.bat");
    assert_eq!(find_gradle_command(false, "/w/gradlew", false), "gradle");
    assert_eq!(find_gradle_command(true, "C:\\w\\gradlew.bat", false), "gradle");
}

#[test]
fn gradle_arguments_name_script_output_and_task() {
    assert_eq!(
        gradle_arguments("/tmp/x/init.gradle", "/tmp/x/classpath.json"),
        vec![
            "--no-daemon",
            "-q",
            "-I",
            "/tmp/x/init.gradle",
            "-PkotlinAnalyzerOutput=/tmp/x/classpath.json",
            "kotlinAnalyzerClasspath",
        ]
    );
    let script = init_script_body();
    assert!(script.contains("tasks.register(\"kotlinAnalyzerClasspath\")"));
    assert!(script.contains("hasProperty(\"kotlinAnalyzerOutput\")"));
    assert!(script.contains("source_roots: collectSourceRoots(p)"));
}

fn entry(fp: u64) -> GradleCacheEntry {
    GradleCacheEntry {
        classpath: GradleClasspath {
            modules: vec![GradleModule {
                name: "app".to_string(),
                path: ":app".to_string(),
                classpath: vec!["/m2/kotlin-stdlib.jar".to_string()],
                source_roots: vec!["/w/app/src/main/kotlin".to_string()],
            }],
        },
        fingerprint: GradleFingerprint(fp),
    }
}

#[test]
fn cached_root_is_not_rerun_until_its_files_change() {
    let mut cache = GradleCache::new();
    let root = "file:///w";
    assert!(cache.needs_refresh(root, GradleFingerprint(1), false));
    cache.insert(root.to_string(), entry(1));
    assert!(!cache.needs_refresh(root, GradleFingerprint(1), false));
    assert!(cache.needs_refresh(root, GradleFingerprint(1), true));
    assert!(cache.needs_refresh(root, GradleFingerprint(2), false));
    assert!(cache.needs_refresh("file:///other", GradleFingerprint(1), false));
    assert_eq!(cache.fingerprint_of(root), Some(GradleFingerprint(1)));
    cache.insert(root.to_string(), entry(2));
    assert_eq!(cache.fingerprint_of(root), Some(GradleFingerprint(2)));
    assert_eq!(cache.get(root).map(|e| e.classpath.modules[0].name.clone()), Some("app".to_string()));
    assert!(cache.get("file:///other").is_none());
}
