use fy_docs::paths::{
    extension, extension_on, is_under, is_under_on, join_path, path_components, unify_separators,
};
use fy_docs::project::Project;
use fy_docs::watcher::{
    debounce_extend, debounce_wait, event_touches_source, event_touches_source_on, is_typ_source,
    is_typ_source_on, DEBOUNCE_MAX_MS,
};

#[test]
fn is_typ_source_identifies_typst_files() {
    let project = Project::for_tests("docs");
    assert!(is_typ_source("main.typ", &project));
    assert!(is_typ_source("docs/modules/truth.typ", &project));
    assert!(!is_typ_source("index.html", &project));
    assert!(!is_typ_source("Cargo.toml", &project));
    assert!(!is_typ_source("no_extension", &project));
}

#[test]
fn generated_directories_are_excluded_by_path() {
    let project = Project::for_tests("docs");
    // Even a .typ artifact inside target/ or release/ must not trigger a
    // rebuild (path-level exclusion, not just extension filtering).
    assert!(!is_typ_source(&join_path(&project.target_dir, "dump.typ"), &project));
    assert!(!is_typ_source(&join_path(&project.release_dir, "spec.typ"), &project));
    assert!(is_typ_source(&join_path(&project.docs_dir, "main.typ"), &project));
}

#[test]
fn path_components_follow_unix_rules() {
    assert_eq!(path_components("/a//b/./c/"), vec!["/", "a", "b", "c"]);
    assert_eq!(path_components("./a/../b"), vec![".", "a", "..", "b"]);
    assert_eq!(path_components("a/./b"), vec!["a", "b"]);
    assert!(path_components("").is_empty());
    assert!(is_under("docs/target/x.typ", "docs/target"));
    assert!(is_under("docs//target/./x.typ", "docs/target/"));
    // A leading `.` is a component of its own, as `Path::strip_prefix` sees it.
    assert!(!is_under("docs/target/x.typ", "./docs/target"));
    assert!(!is_under("docs/targets/x.typ", "docs/target"));
    assert!(is_under("docs", "docs"));
}

#[test]
fn extensions_follow_the_last_dot_of_the_file_name() {
    assert_eq!(extension("a/b.tar.typ").as_deref(), Some("typ"));
    assert_eq!(extension(".typ"), None);
    assert_eq!(extension("a/.typ"), None);
    assert_eq!(extension("a.typ/"), Some("typ".to_owned()));
    assert_eq!(extension("a.typ/.."), None);
    assert_eq!(extension("a."), Some(String::new()));
    assert!(!is_typ_source(".typ", &Project::for_tests("docs")));
}

#[test]
fn an_event_counts_when_any_path_is_a_source() {
    let project = Project::for_tests("docs");
    let paths = vec!["docs/target/index.html".to_owned(), "docs/main.typ".to_owned()];
    assert!(event_touches_source(&paths, &project));
    assert!(!event_touches_source(&paths[..1], &project));
    assert!(!event_touches_source(&[], &project));
}

#[test]
fn debounce_never_waits_past_its_cap() {
    // A burst that keeps arriving within the quiet window is cut at the cap.
    let mut quiet_until = debounce_extend(0);
    let mut now = 0;
    while debounce_wait(quiet_until, now) > 0 {
        now += 260;
        quiet_until = debounce_extend(now);
    }
    assert!(now <= DEBOUNCE_MAX_MS + 260);
    assert!(now >= 800);
    assert_eq!(debounce_wait(500, 0), 500);
    assert_eq!(debounce_wait(2400, 1900), 100);
    assert_eq!(debounce_wait(2400, 2100), 0);
    assert_eq!(debounce_extend(u64::MAX), u64::MAX);
}

#[test]
fn windows_paths_separate_components_at_backslashes() {
    assert_eq!(unify_separators(r"C:\p\docs/target\x.typ", true), "C:/p/docs/target/x.typ");
    assert_eq!(unify_separators(r"a\b", false), r"a\b");
    assert!(is_under_on(r"C:\p\docs\target\x.typ", r"C:\p\docs/target", true));
    assert!(!is_under_on(r"C:\p\docs\target\x.typ", r"C:\p\docs/target", false));
    assert!(!is_under_on(r"C:\p\docs\targets\x.typ", r"C:\p\docs\target", true));
    assert_eq!(extension_on(r"C:\p\a.b\main", true), None);
    assert_eq!(extension_on(r"C:\p\a.b\main", false).as_deref(), Some(r"b\main"));
    assert_eq!(extension_on(r"C:\p\main.typ", true).as_deref(), Some("typ"));
}

#[test]
fn windows_edits_in_generated_directories_are_not_sources() {
    let project = Project::for_tests(r"C:\p\docs");
    let dump = r"C:\p\docs\target\dump.typ".to_owned();
    let spec = r"C:\p\docs\release\spec.typ".to_owned();
    let main = r"C:\p\docs\main.typ".to_owned();
    assert!(!is_typ_source_on(&dump, &project, true));
    assert!(!is_typ_source_on(&spec, &project, true));
    assert!(is_typ_source_on(&main, &project, true));
    // Read as Unix paths, the backslashes belong to one file name.
    assert!(is_typ_source_on(&dump, &project, false));
    assert!(!event_touches_source_on(&[dump.clone(), spec.clone()], &project, true));
    assert!(event_touches_source_on(&[dump, main], &project, true));
}
