use fy_docs::project::imports::{detect_root, imports_in_source, quoted_absolute_typs, sort_unique};
use fy_docs::project::lang::{format_lang, lang_display_name, normalize_lang, LanguageTarget};
use fy_docs::project::template_args::{main_typ_lang, main_typ_version, parse_template_argument};
use fy_docs::project::{detect_language_targets, gitignore_with_entries, LanguageDir, Project};

fn project_with_langs(langs: &[&str]) -> Project {
    let target = |lang: &str| LanguageTarget {
        lang: lang.to_owned(),
        content_lang: if lang.is_empty() {
            "en".to_owned()
        } else {
            format_lang(&normalize_lang(lang))
        },
        display_name: lang_display_name(lang),
        entry: String::new(),
        html_file_name: if lang.is_empty() {
            "index.html".to_owned()
        } else {
            format!("index_{lang}.html")
        },
        pdf_file_name: format!("demo_{lang}.pdf"),
    };
    let mut project = Project::for_tests("");
    project.name = "demo".to_owned();
    project.targets = langs.iter().map(|lang| target(lang)).collect();
    project
}

fn selected_langs(project: &Project, filter: Option<&str>) -> Vec<String> {
    project
        .selected_targets(filter)
        .into_iter()
        .map(|t| t.lang.clone())
        .collect()
}

fn check_normalize_lang() {
    assert_eq!(normalize_lang("ZH_CN"), "zh-cn");
    assert_eq!(normalize_lang(" en "), "en");
    assert_eq!(normalize_lang(""), "");
}

fn check_lang_filter_variants() {
    let project = project_with_langs(&["", "zh-CN", "en"]);
    for variant in ["zh-CN", "zh-cn", "ZH_CN", "zh_CN", " Zh-Cn "] {
        assert_eq!(
            selected_langs(&project, Some(variant)),
            vec![String::new(), "zh-CN".to_owned()],
            "`{variant}` must select the zh-CN target alongside the default"
        );
    }
    assert_eq!(
        selected_langs(&project, Some("en")),
        vec![String::new(), "en".to_owned()]
    );
    assert_eq!(selected_langs(&project, None).len(), 3);
}

fn check_unmatched_filter() {
    // A root main.typ must not mask a typo: falling back to "default only"
    // would exit 0 having built something nobody asked for.
    let project = project_with_langs(&["", "zh-CN", "en"]);
    assert!(project.selected_targets(Some("zz")).is_empty());
    assert!(project.selected_targets(Some("zh")).is_empty());

    let single_language = project_with_langs(&[""]);
    assert!(single_language.selected_targets(Some("en")).is_empty());
}

fn check_template_argument() {
    let text = "// version: \"9.9.9\"\n#show: project_book.with(\n  title: \"x\", // version: \"8.8.8\"\n  version: none,\n  version: \"1.2.3\",\n)\n";
    assert_eq!(
        parse_template_argument(text, "version").as_deref(),
        Some("1.2.3")
    );
    assert_eq!(
        parse_template_argument("// version: \"1.0.0\"", "version"),
        None
    );
    assert_eq!(parse_template_argument("no version here", "version"), None);

    // An argument whose name merely ends in the key is a different argument.
    assert_eq!(parse_template_argument("sub-lang: \"de\"", "lang"), None);
    assert_eq!(
        parse_template_argument("lang: \"de\"", "lang").as_deref(),
        Some("de")
    );
    // The comment after a value cannot steal it.
    assert_eq!(
        parse_template_argument(r#"lang: "en", // try "zh-CN""#, "lang").as_deref(),
        Some("en")
    );
}

fn check_import_scan() {
    assert_eq!(
        quoted_absolute_typs(r#"#import "/pkg/lib.typ": *"#),
        vec!["pkg/lib.typ".to_owned()]
    );
    assert_eq!(
        quoted_absolute_typs(r#"#import '/pkg/lib.typ': *"#),
        vec!["pkg/lib.typ".to_owned()]
    );
    assert!(quoted_absolute_typs(r#"// #import "/stale/lib.typ": *"#).is_empty());
    assert_eq!(
        quoted_absolute_typs(r#"#import "/a.typ": x // "/b.typ""#),
        vec!["a.typ".to_owned()]
    );
    assert!(quoted_absolute_typs(r#"#import "relative/lib.typ": *"#).is_empty());
}

fn check_endonyms() {
    for (tag, label) in [
        ("zh-CN", "简体中文"),
        ("zh_CN", "简体中文"),
        ("EN", "English"),
        ("ja-JP", "日本語"),
        ("zh-Hant", "繁體中文"),
    ] {
        assert_eq!(lang_display_name(tag), label, "{tag}");
    }
}

fn check_unregistered_tags() {
    // Shape only: fy-docs cannot know what language a bare code means, so
    // it must not invent a name for it either.
    assert_eq!(lang_display_name("pt_BR"), "pt-BR");
    assert_eq!(lang_display_name("fil"), "fil");
    assert_eq!(lang_display_name("zh_hant_tw"), "zh-Hant-TW");
    assert_eq!(lang_display_name("  sr_latn_rs "), "sr-Latn-RS");
}

fn check_gitignore_added_once() {
    let once = gitignore_with_entries("/existing\n", &["/docs/target/"]).unwrap();
    assert_eq!(gitignore_with_entries(&once, &["/docs/target/"]), None);
    assert_eq!(once, "/existing\n/docs/target/\n");
}

#[test]
fn project_normalize_lang_folds_case_and_separators() {
    check_normalize_lang();
}

#[test]
fn lang_normalize_lang_folds_case_and_separators() {
    check_normalize_lang();
}

#[test]
fn project_lang_filter_accepts_case_and_separator_variants() {
    check_lang_filter_variants();
}

#[test]
fn mod_lang_filter_accepts_case_and_separator_variants() {
    check_lang_filter_variants();
}

#[test]
fn project_unmatched_lang_filter_selects_nothing() {
    check_unmatched_filter();
}

#[test]
fn mod_unmatched_lang_filter_selects_nothing() {
    check_unmatched_filter();
}

#[test]
fn project_template_argument_reads_live_code_only() {
    check_template_argument();
}

#[test]
fn template_args_template_argument_reads_live_code_only() {
    check_template_argument();
}

#[test]
fn project_import_scan_handles_quotes_and_comments() {
    check_import_scan();
}

#[test]
fn imports_import_scan_handles_quotes_and_comments() {
    check_import_scan();
}

#[test]
fn project_registered_languages_keep_their_endonyms() {
    check_endonyms();
}

#[test]
fn lang_registered_languages_keep_their_endonyms() {
    check_endonyms();
}

#[test]
fn project_unregistered_tags_display_a_well_formed_code() {
    check_unregistered_tags();
}

#[test]
fn lang_unregistered_tags_display_a_well_formed_code() {
    check_unregistered_tags();
}

#[test]
fn project_gitignore_entries_are_added_once() {
    check_gitignore_added_once();
}

#[test]
fn mod_gitignore_entries_are_added_once() {
    check_gitignore_added_once();
}

#[test]
fn gitignore_appends_after_an_unterminated_line() {
    assert_eq!(
        gitignore_with_entries("/existing", &["/docs/target/", "/docs/release/"]).as_deref(),
        Some("/existing\n/docs/target/\n/docs/release/\n")
    );
    assert_eq!(gitignore_with_entries("  /docs/target/ \r\n", &["/docs/target/"]), None);
    assert_eq!(
        gitignore_with_entries("", &["/docs/target/"]).as_deref(),
        Some("/docs/target/\n")
    );
}

fn book_with(lang: Option<&str>, body: &str) -> String {
    let declared = lang.map_or(String::new(), |lang| format!("  lang: \"{lang}\",\n"));
    format!("#show: project_book.with(\n  title: \"T\",\n{declared})\n\n{body}\n")
}

fn dir(name: &str, text: &str) -> LanguageDir {
    LanguageDir {
        name: name.to_owned(),
        has_main: true,
        main_text: Some(text.to_owned()),
    }
}

#[test]
fn mod_the_language_directory_decides_content_lang() {
    // The entry disagrees with its folder; the folder is what the page,
    // the file name and the switcher are all built from.
    let text = book_with(Some("en"), "Ola");
    let (targets, _) =
        detect_language_targets("docs", "demo", None, false, None, &[dir("pt_BR", &text)]).unwrap();
    let target = targets.first().unwrap();
    assert_eq!(target.lang, "pt_BR");
    assert_eq!(target.content_lang, "pt-BR");
}

#[test]
fn mod_a_default_target_inherits_its_entry_declaration() {
    let text = book_with(Some("zh-CN"), "内容");
    let (targets, _) = detect_language_targets("docs", "demo", None, true, Some(&text), &[]).unwrap();
    let target = targets.first().unwrap();
    assert!(target.lang.is_empty());
    assert_eq!(target.content_lang, "zh-CN");

    let text = book_with(Some("ZH_TW"), "text");
    let (targets, _) = detect_language_targets("docs", "demo", None, true, Some(&text), &[]).unwrap();
    assert_eq!(targets.first().unwrap().content_lang, "zh-TW");
}

#[test]
fn mod_an_undeclared_default_target_is_english_even_with_chinese_text() {
    // Nothing is guessed from glyphs: an entry that declares no language
    // means the template's own default, which is English.
    let text = book_with(None, "#show: heading[中文规格说明]\n\n正文内容");
    let (targets, _) = detect_language_targets("docs", "demo", None, true, Some(&text), &[]).unwrap();
    let target = targets.first().unwrap();
    assert_eq!(target.lang, "");
    assert_eq!(target.content_lang, "en");
}

#[test]
fn language_targets_are_sorted_behind_the_default() {
    let en = book_with(None, "x");
    let dirs = [
        dir("zh-CN", &en),
        dir("target", &en),
        LanguageDir { name: "notes".to_owned(), has_main: false, main_text: None },
        dir("en", &en),
    ];
    let (targets, primary) =
        detect_language_targets("docs", "demo", Some("1.0.0"), true, Some(&en), &dirs).unwrap();
    let langs: Vec<&str> = targets.iter().map(|t| t.lang.as_str()).collect();
    assert_eq!(langs, vec!["", "en", "zh-CN"]);
    assert_eq!(primary, "docs/main.typ");
    assert_eq!(targets[2].entry, "docs/zh-CN/main.typ");
    assert_eq!(targets[2].html_file_name, "index_zh-CN.html");
    assert_eq!(targets[2].pdf_file_name, "demo_v1.0.0_zh-CN_specification.pdf");
    assert_eq!(targets[0].pdf_file_name, "demo_v1.0.0_specification.pdf");
    let (targets, primary) =
        detect_language_targets("docs", "demo", None, false, None, &dirs).unwrap();
    assert_eq!(targets.len(), 2);
    assert_eq!(primary, "docs/en/main.typ");
    assert_eq!(
        detect_language_targets("docs", "demo", None, false, None, &[]).err().unwrap(),
        "`docs` has no main.typ or language subdirectory (e.g. docs/zh-CN/main.typ)"
    );
}

#[test]
fn template_arguments_give_version_and_language() {
    let text = book_with(Some("de"), "x").replace("title", "version: \"2.0.0\",\n  title");
    assert_eq!(main_typ_version(&text).as_deref(), Some("2.0.0"));
    assert_eq!(main_typ_lang(&text).as_deref(), Some("de"));
    assert_eq!(main_typ_lang("no arguments"), None);
}

#[test]
fn imports_are_collected_sorted_and_unique() {
    let source = "#import \"/b/lib.typ\": *\n#import \"/a/lib.typ\": x\n// #import \"/c.typ\"\n#import \"/b/lib.typ\": y\n";
    let found = imports_in_source(source);
    assert_eq!(
        sort_unique(found),
        vec!["a/lib.typ".to_owned(), "b/lib.typ".to_owned()]
    );
    assert_eq!(
        sort_unique(vec!["b".to_owned(), "a".to_owned(), "b".to_owned(), "ab".to_owned()]),
        vec!["a".to_owned(), "ab".to_owned(), "b".to_owned()]
    );
}

#[test]
fn compile_root_is_the_nearest_satisfying_ancestor() {
    let candidates = |flags: [bool; 3]| -> Vec<(String, bool)> {
        vec![
            ("/w/p".to_owned(), flags[0]),
            ("/w".to_owned(), flags[1]),
            ("/".to_owned(), flags[2]),
        ]
    };
    let imports = vec!["pkg/lib.typ".to_owned()];
    assert_eq!(
        detect_root("/w/p", &candidates([false, true, true]), &imports),
        Ok("/w".to_owned())
    );
    assert_eq!(detect_root("/w/p", &candidates([false, false, false]), &[]), Ok("/w/p".to_owned()));
    assert_eq!(
        detect_root("/w/p", &candidates([false, false, false]), &imports),
        Err("absolute imports not satisfied by any ancestor of /w/p (imports: pkg/lib.typ)".to_owned())
    );
}

#[test]
fn version_and_display_names_follow_their_declarations() {
    assert_eq!(format_lang("zh-hans-cn"), "zh-Hans-CN");
    assert_eq!(lang_display_name("DE"), "Deutsch");
}
