use fy_docs::assets::{doc_page, escape, escape_attribute, redirect_page, render_lang_menu, ui_text};
use fy_docs::project::lang::LanguageTarget;

fn target(lang: &str, display_name: &str, entry: &str, html: &str, pdf: &str) -> LanguageTarget {
    LanguageTarget {
        lang: lang.to_owned(),
        content_lang: lang.to_owned(),
        display_name: display_name.to_owned(),
        entry: entry.to_owned(),
        html_file_name: html.to_owned(),
        pdf_file_name: pdf.to_owned(),
    }
}

#[test]
fn fills_all_tokens() {
    let page = doc_page(
        "T & <T>",
        "fy-x",
        Some("https://github.com/fengyangsi/fy-docs"),
        "<h1>hi</h1>",
        None,
        &[],
    );
    assert!(page.contains("<title>T &amp; &lt;T&gt; · fy-docs</title>"));
    assert!(page.contains("<html lang=\"en\">"));
    assert!(page.contains("title=\"Theme\""));
    assert!(page.contains("https://github.com/fengyangsi/fy-docs"));
    assert!(page.contains("<h1>hi</h1>"));
    assert!(page.contains("fy-theme-toggle"));
    assert!(page.contains("fy-search-toggle"));
    assert!(page.contains("fy-sidebar-resize"));
    assert!(page.contains("fy-docs.js"));
    assert!(page.contains("_poll.js"));
    assert!(!page.contains("{{"));
}

#[test]
fn omits_github_link_without_a_repository() {
    let page = doc_page("T", "fy-x", None, "<h1>hi</h1>", None, &[]);
    assert!(!page.contains("fy-github-link"));
}

#[test]
fn localizes_controls_for_chinese_documents() {
    let page = doc_page("中文文档", "fy-x", None, "<h1>内容</h1>", None, &[]);
    assert!(page.contains("<html lang=\"zh-CN\">"));
}

#[test]
fn redirect_page_generates_dynamic_json_map() {
    let targets = vec![
        target(
            "zh-CN",
            "简体中文",
            "docs/zh-CN/main.typ",
            "index_zh-CN.html",
            "fy-x_v0.1.0_zh-CN_specification.pdf",
        ),
        target(
            "ja",
            "日本語",
            "docs/ja/main.typ",
            "index_ja.html",
            "fy-x_v0.1.0_ja_specification.pdf",
        ),
        target(
            "en",
            "English",
            "docs/en/main.typ",
            "index_en.html",
            "fy-x_v0.1.0_en_specification.pdf",
        ),
    ];
    let html = redirect_page(&targets);
    assert!(html.contains(r#""zh-cn":"index_zh-CN.html""#));
    assert!(html.contains(r#""zh":"index_zh-CN.html""#));
    assert!(html.contains(r#""ja":"index_ja.html""#));
    assert!(html.contains(r#""en":"index_en.html""#));
    assert!(html.contains(r#"<a href="index_zh-CN.html">简体中文</a>"#));
    assert!(html.contains(r#"<a href="index_ja.html">日本語</a>"#));
    assert!(html.contains("location.replace('index_en.html')"));
}

#[test]
fn escape_writes_entities_for_markup_characters() {
    assert_eq!(escape("a & <b> \"c\""), "a &amp; &lt;b&gt; \"c\"");
    assert_eq!(escape_attribute("a & <b> \"c\""), "a &amp; &lt;b&gt; &quot;c&quot;");
    assert_eq!(escape(""), "");
    // Escaping escaped text escapes the ampersands again.
    assert_eq!(escape("&amp;"), "&amp;amp;");
}

#[test]
fn escaped_text_holds_no_tag_delimiters() {
    let escaped = escape("<script>alert('x')</script> > <");
    assert!(!escaped.contains('<') && !escaped.contains('>'));
    let attribute = escape_attribute("\" onload=\"x\" <>");
    assert!(!attribute.contains('"') && !attribute.contains('<') && !attribute.contains('>'));
}

#[test]
fn ui_text_follows_the_declared_language() {
    assert_eq!(ui_text("en").language, "en");
    assert_eq!(ui_text("zh-CN").language, "zh-CN");
    assert_eq!(ui_text("ZH_tw").theme, "主题");
    assert_eq!(ui_text("ja").theme, "Theme");
    assert_eq!(ui_text("en").compile_failed, "Compilation failed");
}

#[test]
fn a_targets_page_declares_its_content_language() {
    let mut t = target("ja", "日本語", "docs/ja/main.typ", "index_ja.html", "x.pdf");
    t.content_lang = "ja".to_owned();
    let page = doc_page("仕様書", "x", None, "<p>日本語の本文</p>", Some(&t), &[t.clone()]);
    assert!(page.contains(r#"<html lang="ja">"#));
    assert!(page.contains(r#"title="Theme""#));
    assert!(!page.contains(r#"<html lang="zh-CN">"#));
    let mut zh = target("", "Default", "docs/main.typ", "index.html", "x.pdf");
    zh.content_lang = "zh-CN".to_owned();
    let page = doc_page("Spec", "x", None, "<p>body</p>", Some(&zh), &[zh.clone()]);
    assert!(page.contains(r#"<html lang="zh-CN">"#));
    assert!(page.contains(r#"title="主题""#));
}

#[test]
fn redirect_page_escapes_the_default_for_script_and_refresh() {
    let odd = target("en", "English", "docs/en/main.typ", "index_a'b.html", "x.pdf");
    let page = redirect_page(&[odd]);
    assert!(!page.contains("location.replace('index_a'b.html')"));
    assert!(page.contains(r"location.replace('index_a\'b.html')"));
    assert!(page.contains(r#""en":"index_a\'b.html""#));
    assert!(page.contains(r#"url=index_a'b.html""#));
    let tricky = target("x</script>", "X", "x", "a\\b\"<c>.html", "x.pdf");
    let page = redirect_page(&[tricky]);
    assert!(page.contains(r#""x\u003c/script\u003e":"a\\b\"\u003cc\u003e.html""#), "{page}");
}

#[test]
fn language_menu_needs_two_named_languages() {
    let default = target("", "Default", "docs/main.typ", "index.html", "x.pdf");
    let en = target("en", "English", "docs/en/main.typ", "index_en.html", "x_en.pdf");
    let zh = target("zh-CN", "简体中文", "docs/zh-CN/main.typ", "index_zh-CN.html", "x_zh.pdf");
    assert_eq!(render_lang_menu(None, &[default.clone(), en.clone()], "Language"), "");
    let menu = render_lang_menu(Some(&zh), &[default, en, zh.clone()], "Language");
    assert!(menu.contains(r#"aria-label="Language""#));
    assert!(menu.contains(
        r#"<a href="index_en.html" role="menuitem" class="fy-lang-item" aria-checked="false">English</a>"#
    ));
    assert!(menu.contains(
        r#"<a href="index_zh-CN.html" role="menuitem" class="fy-lang-item" aria-checked="true">简体中文</a>"#
    ));
}

#[test]
fn language_menu_marks_the_first_language_without_a_current_one() {
    let en = target("en", "English", "docs/en/main.typ", "index_en.html", "x_en.pdf");
    let zh = target("zh-CN", "简体中文", "docs/zh-CN/main.typ", "index_zh-CN.html", "x_zh.pdf");
    let menu = render_lang_menu(None, &[zh, en], "切换语言");
    assert!(menu.contains(r#"href="index_zh-CN.html" role="menuitem" class="fy-lang-item" aria-checked="true""#));
    assert!(menu.contains(r#"href="index_en.html" role="menuitem" class="fy-lang-item" aria-checked="false""#));
}

#[test]
fn language_menu_matches_the_current_language_ignoring_case() {
    let en = target("en", "English", "docs/en/main.typ", "index_en.html", "x_en.pdf");
    let zh = target("zh-CN", "简体中文", "docs/zh-CN/main.typ", "index_zh-CN.html", "x_zh.pdf");
    let current = target("ZH-cn", "x", "x", "x", "x");
    let menu = render_lang_menu(Some(&current), &[en, zh], "Language");
    assert!(menu.contains(r#"href="index_zh-CN.html" role="menuitem" class="fy-lang-item" aria-checked="true""#));
}

#[test]
fn redirect_page_prefers_english_then_simplified_chinese() {
    let ja = target("ja", "日本語", "docs/ja/main.typ", "index_ja.html", "x_ja.pdf");
    let zh = target("zh", "中文", "docs/zh/main.typ", "index_zh.html", "x_zh.pdf");
    let en_gb = target("en-GB", "English", "docs/en-GB/main.typ", "index_en-GB.html", "x.pdf");
    let page = redirect_page(&[ja.clone(), zh.clone(), en_gb]);
    assert!(page.contains("location.replace('index_en-GB.html')"));
    assert!(page.contains(r#""en-gb":"index_en-GB.html","en":"index_en-GB.html""#));
    let page = redirect_page(&[ja.clone(), zh]);
    assert!(page.contains("location.replace('index_zh.html')"));
    let page = redirect_page(&[ja]);
    assert!(page.contains("location.replace('index_ja.html')"));
    assert!(page.contains("url=index_ja.html"));
    let page = redirect_page(&[]);
    assert!(page.contains("var map = {};"));
    assert!(page.contains("location.replace('index_en.html')"));
}

#[test]
fn redirect_page_links_every_language_in_order() {
    let en = target("en", "English", "docs/en/main.typ", "index_en.html", "x_en.pdf");
    let de = target("de", "Deutsch & Co", "docs/de/main.typ", "index_de.html", "x_de.pdf");
    let page = redirect_page(&[en, de]);
    assert!(page.contains(
        r#"正在跳转：<a href="index_en.html">English</a> | <a href="index_de.html">Deutsch &amp; Co</a></p>"#
    ));
}

#[test]
fn doc_page_links_the_repository_and_places_the_menu() {
    let en = target("en", "English", "docs/en/main.typ", "index_en.html", "x_en.pdf");
    let de = target("de", "Deutsch", "docs/de/main.typ", "index_de.html", "x_de.pdf");
    let page = doc_page(
        "Spec",
        "pkg",
        Some("https://github.com/o/r\"x"),
        "<p>b</p>",
        Some(&de),
        &[en, de.clone()],
    );
    assert!(page.contains(r#"<a class="fy-github-link" href="https://github.com/o/r&quot;x" title="GitHub repository""#));
    assert!(page.contains("fy-lang-toggle"));
    assert!(page.contains(r#"aria-checked="true">Deutsch</a>"#));
}
