use fy_docs::cli::{cargo_external_args, compiles_pdf, last_port, own_args_start, CommandKind};
use fy_docs::project::cargo_meta::{cargo_meta, cargo_package_meta, is_github_repository, package_name};
use fy_docs::scaffold::{fill_starter, starter_fields};

fn strings(items: &[&str]) -> Vec<String> {
    items.iter().map(|s| s.to_string()).collect()
}

#[test]
fn removes_cargo_forwarded_subcommand_name() {
    let normalized = cargo_external_args(strings(&["cargo-fy-docs", "fy-docs", "dev"]));
    assert_eq!(normalized, strings(&["cargo-fy-docs", "dev"]));
}

#[test]
fn keeps_direct_executable_arguments() {
    let normalized = cargo_external_args(strings(&["cargo-fy-docs", "html", "--root", "."]));
    assert_eq!(normalized, strings(&["cargo-fy-docs", "html", "--root", "."]));
}

#[test]
fn a_missing_program_name_is_supplied() {
    assert_eq!(cargo_external_args(Vec::new()), strings(&["cargo-fy-docs"]));
    assert_eq!(cargo_external_args(strings(&["x", "fy-docs"])), strings(&["x"]));
}

#[test]
fn the_default_command_and_build_always_compile_pdfs() {
    assert!(compiles_pdf(None, false));
    assert!(compiles_pdf(Some(CommandKind::Build), false));
    assert!(!compiles_pdf(Some(CommandKind::Html), false));
    assert!(compiles_pdf(Some(CommandKind::Dev), true));
}

#[test]
fn the_dev_server_tries_twenty_ports() {
    assert_eq!(last_port(8181), 8200);
    assert_eq!(last_port(65530), 65535);
}

#[test]
fn cargo_meta_keeps_only_github_repositories() {
    assert!(is_github_repository("https://github.com/org/repo"));
    assert!(!is_github_repository("https://github.com/"));
    assert!(!is_github_repository("https://github.com///"));
    assert!(!is_github_repository("https://gitlab.com/org/repo"));
    let meta = cargo_meta(
        Some("demo".to_owned()),
        Some("1.2.3".to_owned()),
        Some("https://github.com/org/repo".to_owned()),
        Some("Tester <t@example.com>".to_owned()),
    );
    assert_eq!(meta.name.as_deref(), Some("demo"));
    assert_eq!(meta.version.as_deref(), Some("1.2.3"));
    assert_eq!(meta.repository.as_deref(), Some("https://github.com/org/repo"));
    assert_eq!(meta.author.as_deref(), Some("Tester <t@example.com>"));
    let other = cargo_meta(None, None, Some("https://example.com/x".to_owned()), None);
    assert_eq!(other.repository, None);
}

const MANIFEST: &str = "[package]\nname = \"demo\"\nversion = \"1.2.3\"\nrepository = \"https://github.com/org/repo\"\nauthors = [\"Tester <t@example.com>\"]\n";

fn check_reads_package_metadata() {
    let meta = cargo_package_meta(Some(MANIFEST), &[Some(MANIFEST.to_owned())]);
    assert_eq!(meta.name.as_deref(), Some("demo"));
    assert_eq!(meta.version.as_deref(), Some("1.2.3"));
    assert_eq!(meta.repository.as_deref(), Some("https://github.com/org/repo"));
    assert_eq!(meta.author.as_deref(), Some("Tester <t@example.com>"));
}

#[test]
fn project_reads_package_metadata_from_valid_toml() {
    check_reads_package_metadata();
}

#[test]
fn cargo_meta_reads_package_metadata_from_valid_toml() {
    check_reads_package_metadata();
}

#[test]
fn package_fields_inherit_from_the_workspace() {
    let member = "[package]\nname = \"member\"\nversion.workspace = true\nrepository = { workspace = true }\n";
    let broken = "[workspace\n";
    let unrelated = "[workspace.package]\nedition = \"2021\"\n";
    let root = "[workspace]\nmembers = [\"member\"]\n[workspace.package]\nversion = \"2.0.0\"\nrepository = \"https://gitlab.com/o/r\"\n";
    let ancestors = vec![
        Some(member.to_owned()),
        Some(broken.to_owned()),
        None,
        Some(unrelated.to_owned()),
        Some(root.to_owned()),
    ];
    let meta = cargo_package_meta(Some(member), &ancestors);
    assert_eq!(meta.name.as_deref(), Some("member"));
    assert_eq!(meta.version.as_deref(), Some("2.0.0"));
    // Inherited, but not on GitHub.
    assert_eq!(meta.repository, None);
    assert_eq!(meta.author, None);
    // Without the workspace manifest the inherited version stays unknown.
    assert_eq!(cargo_package_meta(Some(member), &ancestors[..4]).version, None);
}

#[test]
fn unreadable_manifests_give_no_metadata() {
    for text in [None, Some("not [valid toml"), Some("[workspace]\n"), Some("package = 1\n")] {
        let meta = cargo_package_meta(text, &[]);
        assert_eq!((meta.name, meta.version, meta.repository, meta.author), (None, None, None, None));
    }
    let odd = cargo_package_meta(Some("[package]\nname = 7\nauthors = [1, \"x\"]\n"), &[]);
    assert_eq!((odd.name, odd.author), (None, None));
}

#[test]
fn package_names_fall_back_to_the_directory() {
    assert_eq!(package_name(Some("demo".to_owned()), Some("dir".to_owned())), "demo");
    assert_eq!(package_name(None, Some("dir".to_owned())), "dir");
    assert_eq!(package_name(None, None), "project");
}

#[test]
fn starter_entry_names_the_package() {
    let template = "title: \"{{NAME}} Specification\",\nversion: \"{{VERSION}}\",\nauthor: \"{{AUTHOR}}\",";
    assert_eq!(
        fill_starter(template, "test-project", "1.0.0", "Tester"),
        "title: \"test-project Specification\",\nversion: \"1.0.0\",\nauthor: \"Tester\","
    );
    let meta = cargo_meta(None, None, None, None);
    let (name, version, author) = starter_fields(meta, Some("dir".to_owned()));
    assert_eq!((name.as_str(), version.as_str(), author.as_str()), ("dir", "0.1.0", "TODO"));
    let (name, _, _) = starter_fields(cargo_meta(None, None, None, None), None);
    assert_eq!(name, "project");
}

#[test]
fn own_arguments_start_past_a_forwarded_name() {
    assert_eq!(own_args_start(&strings(&["cargo-fy-docs", "fy-docs", "dev"])), 2);
    assert_eq!(own_args_start(&strings(&["cargo-fy-docs", "dev"])), 1);
    assert_eq!(own_args_start(&strings(&["cargo-fy-docs"])), 1);
    assert_eq!(own_args_start(&[]), 1);
}
