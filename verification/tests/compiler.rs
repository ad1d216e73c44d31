use fy_docs::compiler::extract::{
    extract_all_styles, extract_between, extract_body, extract_root_lang, language_drift,
};
use fy_docs::compiler::output::{
    error_page, is_compile_temporary, landing_page_needed, merge_styles,
};
use fy_docs::compiler::typst::{
    assemble_page, export_failure, failure_output, is_older, precheck_verdict, temp_html_name,
    typst_banner_version, MINIMUM_TYPST,
};
use fy_docs::compiler::warnings::{format_warnings, split_warning_blocks, unmatched_font};
use fy_docs::compiler::{
    failure_summary, index_plan, lang_label, panic_text_of, select_targets, IndexPlan,
};
use fy_docs::project::lang::LanguageTarget;
use fy_docs::project::Project;

fn lang_target(lang: &str) -> LanguageTarget {
    LanguageTarget {
        lang: lang.to_owned(),
        content_lang: lang.to_owned(),
        display_name: lang.to_owned(),
        entry: format!("docs/{lang}/main.typ"),
        html_file_name: format!("index_{lang}.html"),
        pdf_file_name: format!("test_{lang}.pdf"),
    }
}

#[test]
fn extract_between_finds_enclosed_text() {
    assert_eq!(
        extract_between("<title>Hello</title>", "<title>", "</title>"),
        Some("Hello".to_owned())
    );
    assert_eq!(extract_between("no tags", "<title>", "</title>"), None);
}

#[test]
fn extract_body_tolerates_tag_attributes() {
    assert_eq!(
        extract_body(r#"<html><body lang="en"><p>hi</p></body></html>"#),
        Some("<p>hi</p>".to_owned())
    );
    assert_eq!(
        extract_body("<body><p>plain</p></body>"),
        Some("<p>plain</p>".to_owned())
    );
    assert_eq!(extract_body("<div>no body</div>"), None);
}

#[test]
fn extract_all_styles_concatenates_blocks() {
    let html = "<style>a{}</style><p>x</p><style>b{}</style>";
    assert_eq!(extract_all_styles(html), "a{}\nb{}\n");
    assert_eq!(extract_all_styles("<style>unclosed"), "");
}

#[test]
fn extract_all_styles_reads_attributed_tags_only() {
    let html = r#"<style media="print">a{}</style><styleset>x</styleset><style>b{}</style>"#;
    assert_eq!(extract_all_styles(html), "a{}\nb{}\n");
}

#[test]
fn root_lang_comes_from_the_opening_tag_only() {
    assert_eq!(
        extract_root_lang(
            r#"<!DOCTYPE html><html lang="zh-CN"><head><title>T</title></head><body><p>文</p></body></html>"#
        )
        .as_deref(),
        Some("zh-CN")
    );
    // A lang attribute in the body is never the document language.
    assert_eq!(
        extract_root_lang(r#"<html lang="en"><body><p lang="zh">x</p></body></html>"#).as_deref(),
        Some("en")
    );
    // `xml:lang` ends in the same name but is a different attribute.
    assert_eq!(
        extract_root_lang(r#"<html xml:lang="de" lang="fr">"#).as_deref(),
        Some("fr")
    );
    assert_eq!(extract_root_lang("<html><body>x</body></html>"), None);
    assert_eq!(extract_root_lang("<div>no root tag</div>"), None);
}

#[test]
fn root_lang_tolerates_spacing_around_the_value() {
    assert_eq!(
        extract_root_lang("<html\tlang= \"de-AT\">").as_deref(),
        Some("de-AT")
    );
    assert_eq!(extract_root_lang("<html lang =\"de\">"), None);
    assert_eq!(extract_root_lang("<html lang=\"unterminated>"), None);
}

#[test]
fn drift_is_reported_only_for_a_real_divergence() {
    let zh = lang_target("zh-CN");
    let note = language_drift(&zh, Some("en")).expect("a divergence must warn");
    assert!(
        note.contains("typst typesets `en`") && note.contains("reports `zh-CN`"),
        "{note}"
    );

    // Separator and case variants name the same tag, so they stay quiet.
    assert!(language_drift(&zh, Some("ZH_CN")).is_none());
    assert!(language_drift(&zh, Some("zh-CN")).is_none());
    // An export without a root language offers nothing to compare.
    assert!(language_drift(&zh, None).is_none());
}

#[test]
fn drift_note_names_the_target_and_its_entry() {
    let zh = lang_target("zh-CN");
    assert_eq!(
        language_drift(&zh, Some("en")).unwrap(),
        "[fy-docs] language mismatch for [zh-CN]: typst typesets `en` but fy-docs reports \
         `zh-CN` — the entry's `lang:` and its language directory disagree: docs/zh-CN/main.typ"
    );
    let mut default = lang_target("");
    default.content_lang = "en".to_owned();
    assert!(language_drift(&default, Some("de")).unwrap().contains("mismatch for [default]"));
}

#[test]
fn merge_styles_seeds_deduplicates_and_appends() {
    let mut combined = String::new();
    // An empty export never seeds the sheet.
    merge_styles(&mut combined, "");
    assert_eq!(combined, "");

    // The first non-empty export seeds the sheet verbatim.
    merge_styles(&mut combined, "a{}");
    assert_eq!(combined, "a{}");

    // An identical later export (a repeated language) is a no-op.
    merge_styles(&mut combined, "a{}");
    assert_eq!(combined, "a{}");

    // A genuinely different export appends under the marker comment.
    merge_styles(&mut combined, "b{}");
    assert_eq!(combined, "a{}\n/* additional language styles */\nb{}");
}

#[test]
fn merging_a_sheet_twice_keeps_one_copy() {
    let mut once = "a{}".to_owned();
    merge_styles(&mut once, "c{}");
    let mut twice = once.clone();
    merge_styles(&mut twice, "c{}");
    assert_eq!(once, twice);
    assert!(twice.starts_with("a{}"));
}

#[test]
fn parses_typst_version_banners() {
    assert_eq!(typst_banner_version("typst 0.15.1 (abcdef1)"), Some((0, 15, 1)));
    assert_eq!(typst_banner_version("typst 0.14.0"), Some((0, 14, 0)));
    assert_eq!(typst_banner_version("typst 1.2.3 (x)"), Some((1, 2, 3)));
    // Unknown formats resolve to None and must not block compiles.
    assert_eq!(typst_banner_version(""), None);
    assert_eq!(typst_banner_version("something else entirely"), None);
}

#[test]
fn banner_patch_defaults_to_zero() {
    assert_eq!(typst_banner_version("typst 0.14"), Some((0, 14, 0)));
    assert_eq!(typst_banner_version("typst 0.14.rc1"), Some((0, 14, 0)));
    assert_eq!(typst_banner_version("typst 0"), None);
    assert_eq!(typst_banner_version("typst x.1.2"), None);
}

#[test]
fn minimum_version_gate_rejects_old_typst() {
    assert!((0, 13, 9) < MINIMUM_TYPST);
    assert!((0, 14, 0) >= MINIMUM_TYPST);
    assert!(is_older((0, 13, 9), MINIMUM_TYPST));
    assert!(!is_older((0, 14, 0), MINIMUM_TYPST));
    assert!(!is_older((1, 0, 0), MINIMUM_TYPST));
}

#[test]
fn precheck_refuses_only_a_recognized_old_banner() {
    assert_eq!(
        precheck_verdict(b"typst 0.13.1 (8ace67d9)\n"),
        Err("typst 0.13.1 is too old — fy-docs requires Typst 0.14 or later for \
             `--pdf-standard 2.0`; upgrade at https://github.com/typst/typst/releases"
            .to_owned())
    );
    assert_eq!(precheck_verdict(b"typst 0.14.2"), Ok(()));
    assert_eq!(precheck_verdict(b"unrecognized"), Ok(()));
}

#[test]
fn temporaries_are_named_per_language_and_process() {
    assert_eq!(temp_html_name("zh-CN", 4242), "_temp_zh-CN_4242.html");
    assert_eq!(temp_html_name("", 7), "_temp_root_7.html");
    assert!(is_compile_temporary("_temp_zh-CN_4242.html"));
    assert!(!is_compile_temporary("index.html"));
    assert!(!is_compile_temporary("typst.css"));
    assert!(!is_compile_temporary("_temp_x.css"));
    // The sweep recognizes every name a compile goes through.
    for (lang, pid) in [("", 1), ("pt_BR", 12345), ("zh-Hant", u32::MAX)] {
        assert!(is_compile_temporary(&temp_html_name(lang, pid)));
    }
}

#[test]
fn assemble_page_reads_title_styles_and_body() {
    let page = assemble_page(
        "<html><head><title>Doc</title><style>p{}</style></head><body><p>x</p></body></html>",
        "pkg",
    )
    .unwrap();
    assert_eq!(page.title, "Doc");
    assert_eq!(page.styles, "p{}\n");
    assert_eq!(page.body, "<p>x</p>");
    let untitled = assemble_page("<body>y</body>", "pkg").unwrap();
    assert_eq!(untitled.title, "pkg");
    assert_eq!(
        assemble_page("<p>no body</p>", "pkg").err().unwrap(),
        "typst HTML export contains no <body>"
    );
}

#[test]
fn failures_report_stderr_before_stdout() {
    assert_eq!(failure_output(b"error: boom", b"out"), "error: boom");
    assert_eq!(failure_output(b" \n\t", b"only stdout"), "only stdout");
    let target = lang_target("en");
    assert_eq!(
        export_failure("HTML", &target),
        "typst HTML export failed for [en] docs/en/main.typ"
    );
}

#[test]
fn format_warnings_folds_repeated_font_warnings() {
    let stderr = [
        "warning: unknown font family: Noto Serif CJK SC\n",
        "   ┌─ docs/fy-spec/lib.typ:297:10\n",
        "297 │     font: active-fonts.serif,\n",
        "\n",
        "warning: unknown font family: noto serif cjk sc\n",
        "   ┌─ docs/fy-spec/lib.typ:383:51\n",
        "\n",
        "warning: pagebreak was ignored during HTML export\n",
        "   ┌─ docs/fy-spec/lib.typ:430:2\n",
    ]
    .join("");
    let note = format_warnings(stderr.as_bytes()).unwrap();
    assert!(note.starts_with("[fy-docs] typst reported warnings:"));
    assert!(
        note.contains("font families unavailable, fallback applied: noto serif cjk sc"),
        "{note}"
    );
    assert_eq!(note.matches("noto serif cjk sc").count(), 1, "{note}");
    // The unrelated warning must survive untouched.
    assert!(
        note.contains("warning: pagebreak was ignored during HTML export"),
        "{note}"
    );
}

#[test]
fn format_warnings_edge_cases() {
    assert!(format_warnings(b"").is_none());
    assert!(format_warnings(b"  \n\t ").is_none());

    // Without blank-line separators the `warning:` prefix still splits blocks.
    let note =
        format_warnings(b"warning: unknown font family: a\nwarning: unknown font family: b\n")
            .unwrap();
    assert!(note.contains("fallback applied: a, b"), "{note}");

    // An unrecognized block is forwarded as written, never dropped.
    let note = format_warnings(b"something unexpected from typst\n").unwrap();
    assert_eq!(
        note,
        "[fy-docs] typst reported warnings:\nsomething unexpected from typst"
    );
}

#[test]
fn warning_blocks_split_at_each_warning() {
    assert_eq!(
        split_warning_blocks("lead\nwarning: a\n  detail\nwarning: b"),
        vec!["lead".to_owned(), "warning: a\n  detail".to_owned(), "warning: b".to_owned()]
    );
    assert!(split_warning_blocks("").is_empty());
    assert_eq!(unmatched_font("warning: unknown font family:  Fira Sans \n x").as_deref(), Some("fira sans"));
    assert_eq!(unmatched_font("warning: unknown font family:   "), None);
    assert_eq!(unmatched_font("warning: something else"), None);
}

fn project_with(targets: Vec<LanguageTarget>) -> Project {
    let mut project = Project::for_tests("docs");
    project.targets = targets;
    project
}

#[test]
fn select_targets_rejects_an_unknown_language() {
    let project = project_with(vec![lang_target("zh-CN"), lang_target("en")]);
    let err = select_targets(&project, Some("zz")).err().unwrap();
    assert!(err.contains("`zz`"), "{err}");
    assert!(err.contains("zh-CN") && err.contains("en"), "{err}");
    assert_eq!(
        err,
        "no documentation language target matches `zz`; this project provides: zh-CN, en"
    );

    // Normalized variants of a real language still resolve.
    let selected = select_targets(&project, Some("ZH_CN")).unwrap();
    assert_eq!(selected.len(), 1);
    assert_eq!(selected[0].lang, "zh-CN");
}

#[test]
fn select_targets_refuses_a_project_without_targets() {
    let project = project_with(Vec::new());
    assert_eq!(
        select_targets(&project, None).err().unwrap(),
        "this documentation project declares no language targets"
    );
    let mut default = lang_target("");
    default.html_file_name = "index.html".to_owned();
    let project = project_with(vec![default, lang_target("en")]);
    assert_eq!(
        select_targets(&project, Some("fr")).err().unwrap(),
        "no documentation language target matches `fr`; this project provides: default, en"
    );
}

#[test]
fn labels_name_the_default_target() {
    assert_eq!(lang_label(&lang_target("")), "default");
    assert_eq!(lang_label(&lang_target("ja")), "ja");
}

#[test]
fn an_index_is_always_left_behind() {
    let index = vec!["index.html".to_owned()];
    let zh = vec!["index_zh-CN.html".to_owned()];
    assert_eq!(index_plan(1, &index, &[]), IndexPlan::Written);
    assert_eq!(index_plan(2, &zh, &index), IndexPlan::Written);
    assert_eq!(index_plan(1, &zh, &[]), IndexPlan::CopyPage);
    assert_eq!(index_plan(2, &zh, &[]), IndexPlan::Landing);
    assert_eq!(index_plan(1, &[], &zh), IndexPlan::Landing);
}

#[test]
fn failure_summaries_list_one_line_per_target() {
    let zh = lang_target("zh-CN");
    let default = lang_target("");
    let failures = vec![(&zh, "boom".to_owned()), (&default, "bust".to_owned())];
    assert_eq!(failure_summary(&failures), "[zh-CN] boom\n[default] bust");
    assert_eq!(failure_summary(&[]), "");
}

#[test]
fn formats_panic_payloads() {
    assert_eq!(panic_text_of(Some("boom".to_owned()), None), "boom");
    assert_eq!(panic_text_of(None, Some("boom".to_owned())), "boom");
    assert_eq!(panic_text_of(None, None), "unknown panic payload");
}

#[test]
fn panic_text_prefers_the_str_payload() {
    assert_eq!(panic_text_of(Some("boom".to_owned()), None), "boom");
    assert_eq!(panic_text_of(None, Some("boom".to_owned())), "boom");
    assert_eq!(panic_text_of(None, None), "unknown panic payload");
}

#[test]
fn error_page_targets_the_given_file() {
    let mut project = Project::for_tests("docs");
    project.targets = vec![lang_target("zh-CN"), lang_target("en")];
    let page = error_page(&project, "boom <b>detail</b>", &lang_target("zh-CN"));
    assert!(page.contains("fy-error"));
    assert!(page.contains("boom &lt;b&gt;detail&lt;/b&gt;"));
    // The zh-CN target gets a localized error page.
    assert!(page.contains("<html lang=\"zh-CN\">"));
    assert!(page.contains("编译失败"));
    let page = error_page(&project, "boom", &lang_target("en"));
    assert!(page.contains("<html lang=\"en\">"));
    assert!(page.contains("Compilation failed"));
}

#[test]
fn landing_page_survives_a_build_with_no_pages() {
    let i18n = project_with(vec![lang_target("en"), lang_target("zh-CN")]);
    assert!(landing_page_needed(&i18n, false));
    // An existing landing page is never clobbered.
    assert!(!landing_page_needed(&i18n, true));
    // A project with a default target writes index.html itself.
    let mut default = lang_target("");
    default.html_file_name = "index.html".to_owned();
    let single = project_with(vec![default]);
    assert!(!landing_page_needed(&single, false));
}
