//! The generated page: the shell template with its localized controls, the
//! language menu, HTML escaping, and the language-routing landing page.

use vstd::prelude::*;
use crate::project::imports::strings_view;
use crate::project::lang::{normalize_lang, normalized, LanguageTarget};
use crate::project::derefs;
use crate::text::{
    chars_of, chars_of_string, find, find_char, join, join_strings, lemma_find_from, lowercase,
    push_char, replace_all, replace_str, starts_with, starts_with_exec, string_of_range,
    to_lowercase,
};

verus! {

/// The page shell. Each `{{TOKEN}}` is filled in by [`doc_page`].
pub const DOC_TEMPLATE: &'static str = r#"<!DOCTYPE html>
<html lang="{{LANG}}">
<head>
<meta charset="utf-8">
<meta name="viewport" content="width=device-width, initial-scale=1">
<title>{{TITLE}} · fy-docs</title>
<link rel="stylesheet" href="typst.css">
<link rel="stylesheet" href="fy-docs.css">
</head>
<body class="fy-doc">
<div class="fy-shell">
  <header class="fy-topbar">
    <button id="fy-sidebar-toggle" class="fy-icon-btn" title="{{SIDEBAR_TOGGLE}}" aria-label="{{SIDEBAR_TOGGLE}}">
      <svg width="17" height="17" viewBox="0 0 24 24" fill="none" stroke="currentColor" stroke-width="1.8" stroke-linecap="round" aria-hidden="true"><path d="M4 6h16M4 12h16M4 18h16"/></svg>
    </button>
    <span class="fy-name">{{NAME}}</span>
    <div class="fy-actions">
      <button id="fy-search-toggle" class="fy-icon-btn" title="{{SEARCH}}" aria-label="{{SEARCH}}">
        <svg width="17" height="17" viewBox="0 0 24 24" fill="none" stroke="currentColor" stroke-width="1.8" stroke-linecap="round" aria-hidden="true"><circle cx="11" cy="11" r="7"/><path d="m20 20-3.5-3.5"/></svg>
      </button>
      <button id="fy-print" class="fy-icon-btn" title="{{PRINT}}" aria-label="{{PRINT}}">
        <svg width="17" height="17" viewBox="0 0 24 24" fill="none" stroke="currentColor" stroke-width="1.8" stroke-linecap="round" aria-hidden="true"><path d="M6 9V3h12v6M6 18H4v-7h16v7h-2M8 14h8v7H8z"/></svg>
      </button>
      <div class="fy-theme-wrap">
        <button id="fy-theme-toggle" class="fy-icon-btn" aria-expanded="false" aria-haspopup="true" title="{{THEME}}">
          <svg width="17" height="17" viewBox="0 0 24 24" fill="none" stroke="currentColor" stroke-width="1.8" aria-hidden="true"><circle cx="12" cy="12" r="9"/><path d="M12 3a9 9 0 0 1 0 18z" fill="currentColor"/></svg>
        </button>
        <div id="fy-theme-menu" class="fy-theme-menu" role="menu" aria-label="{{THEME}}" hidden>
          <a role="menuitem" data-theme="system">{{SYSTEM_THEME}}</a>
          <a role="menuitem" data-theme="light">&#9728;</a>
          <a role="menuitem" data-theme="dark">&#9790;</a>
        </div>
      </div>
      {{LANG_MENU}}
      {{GITHUB_LINK}}
    </div>
  </header>
  <div id="fy-search" class="fy-search" role="search" aria-label="{{SEARCH_DOCUMENT}}" hidden>
    <input id="fy-search-input" type="search" placeholder="{{SEARCH_PLACEHOLDER}}" aria-label="{{SEARCH_DOCUMENT}}">
    <ol id="fy-search-results" class="fy-search-results"></ol>
  </div>
  <nav id="fy-sidebar" class="fy-sidebar" aria-label="{{TABLE_OF_CONTENTS}}">
    <div class="fy-sidebar-title">{{TABLE_OF_CONTENTS}}</div>
    <ol id="fy-toc" class="fy-toc"></ol>
  </nav>
  <div id="fy-sidebar-resize" class="fy-sidebar-resize" aria-hidden="true"></div>
  <main id="fy-content" class="doc-body">
{{BODY}}
  </main>
</div>
<script src="fy-docs.js"></script>
<script src="_poll.js"></script>
</body>
</html>
"#;

/// The localized labels of the page shell and of the error page.
pub struct UiText {
    pub language: &'static str,
    pub sidebar_toggle: &'static str,
    pub theme: &'static str,
    pub system_theme: &'static str,
    pub search: &'static str,
    pub search_document: &'static str,
    pub search_placeholder: &'static str,
    pub print: &'static str,
    pub table_of_contents: &'static str,
    pub github: &'static str,
    pub language_label: &'static str,
    pub compile_failed: &'static str,
    pub compile_failed_detail: &'static str,
    pub compile_failed_hint: &'static str,
}

/// The Chinese labels when `chinese`, the English ones otherwise.
pub open spec fn ui_spec(chinese: bool) -> UiText {
    if chinese {
        UiText {
            language: "zh-CN",
            sidebar_toggle: "目录侧栏",
            theme: "主题",
            system_theme: "跟随系统",
            search: "搜索",
            search_document: "搜索文档",
            search_placeholder: "输入关键词",
            print: "打印当前章节",
            table_of_contents: "目录",
            github: "GitHub 仓库",
            language_label: "切换语言",
            compile_failed: "编译失败",
            compile_failed_detail: "typst 编译未能通过，输出如下：",
            compile_failed_hint: "修正源码并保存后，本页会在下次编译完成时自动更新。",
        }
    } else {
        UiText {
            language: "en",
            sidebar_toggle: "Toggle sidebar",
            theme: "Theme",
            system_theme: "System preference",
            search: "Search",
            search_document: "Search documentation",
            search_placeholder: "Enter keywords",
            print: "Print current chapter",
            table_of_contents: "Table of contents",
            github: "GitHub repository",
            language_label: "Language",
            compile_failed: "Compilation failed",
            compile_failed_detail: "typst compilation failed with the following output:",
            compile_failed_hint: "Fix the source and save; this page will update automatically on the next successful build.",
        }
    }
}

/// The labels in one language: Chinese when `chinese`, English otherwise.
pub fn ui_for(chinese: bool) -> (r: UiText)
    ensures
        r == ui_spec(chinese),
{
    if chinese {
        UiText {
            language: "zh-CN",
            sidebar_toggle: "目录侧栏",
            theme: "主题",
            system_theme: "跟随系统",
            search: "搜索",
            search_document: "搜索文档",
            search_placeholder: "输入关键词",
            print: "打印当前章节",
            table_of_contents: "目录",
            github: "GitHub 仓库",
            language_label: "切换语言",
            compile_failed: "编译失败",
            compile_failed_detail: "typst 编译未能通过，输出如下：",
            compile_failed_hint: "修正源码并保存后，本页会在下次编译完成时自动更新。",
        }
    } else {
        UiText {
            language: "en",
            sidebar_toggle: "Toggle sidebar",
            theme: "Theme",
            system_theme: "System preference",
            search: "Search",
            search_document: "Search documentation",
            search_placeholder: "Enter keywords",
            print: "Print current chapter",
            table_of_contents: "Table of contents",
            github: "GitHub repository",
            language_label: "Language",
            compile_failed: "Compilation failed",
            compile_failed_detail: "typst compilation failed with the following output:",
            compile_failed_hint: "Fix the source and save; this page will update automatically on the next successful build.",
        }
    }
}

/// A CJK unified ideograph (U+4E00 to U+9FFF).
pub open spec fn is_cjk(c: char) -> bool {
    '\u{4e00}' <= c && c <= '\u{9fff}'
}

/// Some character of `s` is a CJK unified ideograph.
pub open spec fn has_cjk(s: Seq<char>) -> bool {
    exists|i: int| 0 <= i < s.len() && is_cjk(#[trigger] s[i])
}

/// Whether the text of `s` holds a CJK unified ideograph.
fn holds_cjk(s: &str) -> (r: bool)
    ensures
        r == has_cjk(s@),
{
    let v = chars_of(s);
    let mut i: usize = 0;
    while i < v.len()
        invariant
            i <= v@.len(),
            v@ == s@,
            forall|k: int| 0 <= k < i ==> !is_cjk(#[trigger] v@[k]),
        decreases v.len() - i,
    {
        if '\u{4e00}' <= v[i] && v[i] <= '\u{9fff}' {
            assert(is_cjk(s@[i as int]));
            return true;
        }
        i = i + 1;
    }
    false
}

/// A language whose pages read in Chinese: its normalized tag starts `zh`.
/// The labels exist in English and Chinese only; every other language reads
/// them in English.
pub open spec fn chinese_lang(lang: Seq<char>) -> bool {
    starts_with(normalized(lang), "zh"@)
}

/// The labels of a page in the language `lang`: Chinese for a Chinese tag,
/// English for every other.
pub fn ui_text(lang: &str) -> (r: UiText)
    ensures
        r == ui_spec(chinese_lang(lang@)),
{
    let n = normalize_lang(lang);
    let nv = chars_of(n.as_str());
    let zh = chars_of("zh");
    ui_for(starts_with_exec(nv.as_slice(), zh.as_slice()))
}

/// The labels of a page that belongs to no target: Chinese when the title or
/// the body holds a CJK ideograph, English otherwise.
fn guessed_ui_text(title: &str, body: &str) -> (r: UiText)
    ensures
        r == ui_spec(has_cjk(title@ + body@)),
{
    let chinese = holds_cjk(title) || holds_cjk(body);
    assert(chinese == has_cjk(title@ + body@)) by {
        let t = title@ + body@;
        if has_cjk(title@) {
            let i = choose|i: int| 0 <= i < title@.len() && is_cjk(#[trigger] title@[i]);
            assert(t[i] == title@[i]);
        }
        if has_cjk(body@) {
            let i = choose|i: int| 0 <= i < body@.len() && is_cjk(#[trigger] body@[i]);
            assert(t[title@.len() + i] == body@[i]);
        }
        if has_cjk(t) {
            let i = choose|i: int| 0 <= i < t.len() && is_cjk(#[trigger] t[i]);
            if i < title@.len() {
                assert(title@[i] == t[i]);
            } else {
                assert(body@[i - title@.len()] == t[i]);
            }
        }
    }
    ui_for(chinese)
}

/// How one character is written in HTML text.
pub open spec fn escaped_char(c: char) -> Seq<char> {
    if c == '&' {
        "&amp;"@
    } else if c == '<' {
        "&lt;"@
    } else if c == '>' {
        "&gt;"@
    } else {
        seq![c]
    }
}

/// `s` written as HTML text: `&`, `<` and `>` as entities.
pub open spec fn escaped(s: Seq<char>) -> Seq<char>
    decreases s.len(),
{
    if s.len() == 0 {
        Seq::empty()
    } else {
        escaped(s.drop_last()) + escaped_char(s.last())
    }
}

/// How one character is written in an HTML attribute value.
pub open spec fn attribute_char(c: char) -> Seq<char> {
    if c == '"' {
        "&quot;"@
    } else {
        escaped_char(c)
    }
}

/// `s` written as an HTML attribute value: also `"` as an entity.
pub open spec fn attribute_escaped(s: Seq<char>) -> Seq<char>
    decreases s.len(),
{
    if s.len() == 0 {
        Seq::empty()
    } else {
        attribute_escaped(s.drop_last()) + attribute_char(s.last())
    }
}

/// Writes `text` as HTML text.
pub fn escape(text: &str) -> (r: String)
    ensures
        r@ == escaped(text@),
{
    let v = chars_of(text);
    let mut out = String::new();
    let mut i: usize = 0;
    while i < v.len()
        invariant
            i <= v@.len(),
            v@ == text@,
            out@ == escaped(v@.take(i as int)),
        decreases v.len() - i,
    {
        let c = v[i];
        if c == '&' {
            out.append("&amp;");
        } else if c == '<' {
            out.append("&lt;");
        } else if c == '>' {
            out.append("&gt;");
        } else {
            push_char(&mut out, c);
        }
        assert(v@.take(i + 1).drop_last() =~= v@.take(i as int));
        i = i + 1;
    }
    assert(v@.take(v@.len() as int) =~= v@);
    out
}

/// Writes `text` as an HTML attribute value.
pub fn escape_attribute(text: &str) -> (r: String)
    ensures
        r@ == attribute_escaped(text@),
{
    let v = chars_of(text);
    let mut out = String::new();
    let mut i: usize = 0;
    while i < v.len()
        invariant
            i <= v@.len(),
            v@ == text@,
            out@ == attribute_escaped(v@.take(i as int)),
        decreases v.len() - i,
    {
        let c = v[i];
        if c == '"' {
            out.append("&quot;");
        } else if c == '&' {
            out.append("&amp;");
        } else if c == '<' {
            out.append("&lt;");
        } else if c == '>' {
            out.append("&gt;");
        } else {
            push_char(&mut out, c);
        }
        assert(v@.take(i + 1).drop_last() =~= v@.take(i as int));
        i = i + 1;
    }
    assert(v@.take(v@.len() as int) =~= v@);
    out
}

/// Escaped text never opens or closes a tag: no `<` or `>` is left in it.
pub proof fn lemma_escaped_has_no_tag_delimiters(s: Seq<char>)
    ensures
        forall|i: int|
            0 <= i < escaped(s).len() ==> #[trigger] escaped(s)[i] != '<' && escaped(s)[i] != '>',
    decreases s.len(),
{
    reveal_strlit("&amp;");
    reveal_strlit("&lt;");
    reveal_strlit("&gt;");
    if s.len() > 0 {
        lemma_escaped_has_no_tag_delimiters(s.drop_last());
        let a = escaped(s.drop_last());
        let b = escaped_char(s.last());
        assert forall|i: int| 0 <= i < escaped(s).len() implies #[trigger] escaped(s)[i] != '<'
            && escaped(s)[i] != '>' by {
            if i >= a.len() {
                assert(escaped(s)[i] == b[i - a.len()]);
            } else {
                assert(escaped(s)[i] == a[i]);
            }
        }
    }
}

/// An escaped attribute value can neither end its quotes nor open or close a
/// tag: no `"`, `<` or `>` is left in it.
pub proof fn lemma_attribute_escaped_stays_quoted(s: Seq<char>)
    ensures
        forall|i: int|
            0 <= i < attribute_escaped(s).len() ==> #[trigger] attribute_escaped(s)[i] != '"'
                && attribute_escaped(s)[i] != '<' && attribute_escaped(s)[i] != '>',
    decreases s.len(),
{
    reveal_strlit("&amp;");
    reveal_strlit("&lt;");
    reveal_strlit("&gt;");
    reveal_strlit("&quot;");
    if s.len() > 0 {
        lemma_attribute_escaped_stays_quoted(s.drop_last());
        let a = attribute_escaped(s.drop_last());
        let b = attribute_char(s.last());
        assert forall|i: int| 0 <= i < attribute_escaped(s).len() implies #[trigger] attribute_escaped(s)[i]
            != '"' && attribute_escaped(s)[i] != '<' && attribute_escaped(s)[i] != '>' by {
            if i >= a.len() {
                assert(attribute_escaped(s)[i] == b[i - a.len()]);
            } else {
                assert(attribute_escaped(s)[i] == a[i]);
            }
        }
    }
}

/// The start of the repository link, up to its address.
pub const GITHUB_LINK_OPEN: &'static str = r#"<a class="fy-github-link" href=""#;

/// Between the repository link's address and its title.
pub const GITHUB_LINK_TITLE: &'static str = r#"" title=""#;

/// Between the repository link's title and its accessible label.
pub const GITHUB_LINK_LABEL: &'static str = r#"" aria-label=""#;

/// The rest of the repository link: its icon.
pub const GITHUB_LINK_ICON: &'static str = r#""><svg width="17" height="17" viewBox="0 0 24 24" fill="currentColor" aria-hidden="true"><path d="M12 2a10 10 0 0 0-3.2 19.5c.5.1.7-.2.7-.5v-1.8c-2.8.6-3.4-1.2-3.4-1.2-.5-1.2-1.1-1.5-1.1-1.5-.9-.6.1-.6.1-.6 1 .1 1.5 1 1.5 1 .9 1.5 2.4 1.1 3 .8.1-.6.4-1.1.7-1.3-2.2-.2-4.6-1.1-4.6-5a3.9 3.9 0 0 1 1-2.7c-.1-.3-.4-1.3.1-2.7 0 0 .8-.3 2.8 1.1a9.7 9.7 0 0 1 5 0c2-1.4 2.8-1.1 2.8-1.1.5 1.4.2 2.4.1 2.7a3.9 3.9 0 0 1 1 2.7c0 3.9-2.4 4.7-4.6 5 .4.3.7 1 .7 1.9V21c0 .3.2.6.7.5A10 10 0 0 0 12 2Z"/></svg></a>"#;

/// The language menu up to its button's title.
pub const LANG_MENU_OPEN: &'static str = r#"<div class="fy-theme-wrap fy-lang-wrap">
        <button id="fy-lang-toggle" class="fy-icon-btn" aria-expanded="false" aria-haspopup="true" title=""#;

/// The language menu from its button's title to the menu's label.
pub const LANG_MENU_BUTTON: &'static str = r#"">
          <svg width="17" height="17" viewBox="0 0 24 24" fill="none" stroke="currentColor" stroke-width="1.8" stroke-linecap="round" stroke-linejoin="round" aria-hidden="true">
            <circle cx="12" cy="12" r="10"/>
            <path d="M12 2a14.5 14.5 0 0 0 0 20 14.5 14.5 0 0 0 0-20"/>
            <path d="M2 12h20"/>
          </svg>
        </button>
        <div id="fy-lang-menu" class="fy-theme-menu fy-lang-menu" role="menu" aria-label=""#;

/// The language menu from the menu's label to its items.
pub const LANG_MENU_ITEMS: &'static str = r#"" hidden>
          "#;

/// The end of the language menu.
pub const LANG_MENU_CLOSE: &'static str = r#"
        </div>
      </div>"#;

/// The landing page up to its language map.
pub const REDIRECT_HEAD: &'static str = r#"<!DOCTYPE html>
<html lang="en">
<head>
<meta charset="utf-8">
<meta name="viewport" content="width=device-width, initial-scale=1">
<title>Redirecting...</title>
<script>
(function () {
  var stored = null;
  try { stored = localStorage.getItem('fydocs-lang'); } catch (_) {}
  if (stored) { location.replace(stored); return; }
  var map = "#;

/// The landing page from its language map to the fallback page.
pub const REDIRECT_MATCH: &'static str = r#";
  var userLangs = (navigator.languages && navigator.languages.length) ? navigator.languages : [navigator.language || ''];
  for (var i = 0; i < userLangs.length; i++) {
    var l = (userLangs[i] || '').toLowerCase();
    if (map[l]) { location.replace(map[l]); return; }
    var base = l.split('-')[0];
    if (map[base]) { location.replace(map[base]); return; }
  }
  location.replace('"#;

/// The landing page from its scripted fallback to the refresh fallback.
pub const REDIRECT_NOSCRIPT: &'static str = r#"');
})();
</script>
<noscript><meta http-equiv="refresh" content="0; url="#;

/// The landing page from its refresh fallback to its links.
pub const REDIRECT_BODY: &'static str = r#""></noscript>
</head>
<body style="font-family: -apple-system, BlinkMacSystemFont, 'Segoe UI', Roboto, sans-serif; text-align: center; padding: 40px;">
  <p>Redirecting / 正在跳转："#;

/// The end of the landing page.
pub const REDIRECT_END: &'static str = r#"</p>
</body>
</html>
"#;

/// The repository link, when the package declares a repository.
pub open spec fn github_link(repository: Option<Seq<char>>, label: Seq<char>) -> Seq<char> {
    match repository {
        None => Seq::empty(),
        Some(url) => GITHUB_LINK_OPEN@ + attribute_escaped(url) + GITHUB_LINK_TITLE@ + label
            + GITHUB_LINK_LABEL@ + label + GITHUB_LINK_ICON@,
    }
}

/// The targets that have a language of their own, in order.
pub open spec fn named_targets(all: Seq<LanguageTarget>) -> Seq<LanguageTarget>
    decreases all.len(),
{
    if all.len() == 0 {
        Seq::empty()
    } else if all.last().lang@.len() > 0 {
        named_targets(all.drop_last()).push(all.last())
    } else {
        named_targets(all.drop_last())
    }
}

/// The code point of the ASCII lowercase of a character.
pub open spec fn ascii_lower(c: char) -> u32 {
    if 'A' <= c && c <= 'Z' {
        ((c as u32) + 32) as u32
    } else {
        c as u32
    }
}

/// `a` and `b` are equal ignoring ASCII case (`str::eq_ignore_ascii_case`).
pub open spec fn eq_ignore_ascii_case(a: Seq<char>, b: Seq<char>) -> bool {
    a.len() == b.len() && forall|i: int| 0 <= i < a.len() ==> ascii_lower(#[trigger] a[i]) == ascii_lower(b[i])
}

/// Decides `eq_ignore_ascii_case`.
pub fn same_ignoring_ascii_case(a: &str, b: &str) -> (r: bool)
    ensures
        r == eq_ignore_ascii_case(a@, b@),
{
    let av = chars_of(a);
    let bv = chars_of(b);
    if av.len() != bv.len() {
        return false;
    }
    let mut i: usize = 0;
    while i < av.len()
        invariant
            i <= av@.len() == bv@.len(),
            av@ == a@,
            bv@ == b@,
            forall|k: int| 0 <= k < i ==> ascii_lower(#[trigger] av@[k]) == ascii_lower(bv@[k]),
        decreases av.len() - i,
    {
        let x: u32 = if 'A' <= av[i] && av[i] <= 'Z' {
            (av[i] as u32) + 32
        } else {
            av[i] as u32
        };
        let y: u32 = if 'A' <= bv[i] && bv[i] <= 'Z' {
            (bv[i] as u32) + 32
        } else {
            bv[i] as u32
        };
        if x != y {
            return false;
        }
        i = i + 1;
    }
    true
}

/// One entry of the language menu.
pub open spec fn menu_item(t: LanguageTarget, active: bool) -> Seq<char> {
    "<a href=\""@ + attribute_escaped(t.html_file_name@)
        + "\" role=\"menuitem\" class=\"fy-lang-item\" aria-checked=\""@ + (if active {
        "true"@
    } else {
        "false"@
    }) + "\">"@ + escaped(t.display_name@) + "</a>"@
}

/// The entry of a target is marked current: without a current language, the
/// first named target is; otherwise the one whose language matches it
/// ignoring ASCII case.
pub open spec fn menu_active(t: LanguageTarget, current_lang: Seq<char>, first_lang: Seq<char>) -> bool {
    if current_lang.len() == 0 {
        t.lang@ == first_lang
    } else {
        eq_ignore_ascii_case(t.lang@, current_lang)
    }
}

/// The menu entries of some targets, in order.
pub open spec fn menu_items(d: Seq<LanguageTarget>, current_lang: Seq<char>, first_lang: Seq<char>) -> Seq<char>
    decreases d.len(),
{
    if d.len() == 0 {
        Seq::empty()
    } else {
        menu_items(d.drop_last(), current_lang, first_lang) + menu_item(
            d.last(),
            menu_active(d.last(), current_lang, first_lang),
        )
    }
}

/// The language of the current target, empty without one.
pub open spec fn current_lang_of(current: Option<LanguageTarget>) -> Seq<char> {
    match current {
        Some(t) => t.lang@,
        None => Seq::empty(),
    }
}

/// The language switcher: nothing unless at least two targets have a
/// language of their own.
pub open spec fn lang_menu(current: Option<LanguageTarget>, all: Seq<LanguageTarget>, label: Seq<char>) -> Seq<char> {
    let d = named_targets(all);
    if d.len() <= 1 {
        Seq::empty()
    } else {
        LANG_MENU_OPEN@ + label + LANG_MENU_BUTTON@ + label + LANG_MENU_ITEMS@ + menu_items(
            d,
            current_lang_of(current),
            d[0].lang@,
        ) + LANG_MENU_CLOSE@
    }
}

/// A borrowed target as the target itself.
pub open spec fn opt_target(o: Option<&LanguageTarget>) -> Option<LanguageTarget> {
    match o {
        Some(t) => Some(*t),
        None => None,
    }
}

/// The targets that have a language of their own, borrowed in order.
fn named_targets_of(all: &[LanguageTarget]) -> (r: Vec<&LanguageTarget>)
    ensures
        derefs(r@) == named_targets(all@),
{
    let mut out: Vec<&LanguageTarget> = Vec::new();
    let mut i: usize = 0;
    while i < all.len()
        invariant
            i <= all@.len(),
            derefs(out@) == named_targets(all@.take(i as int)),
        decreases all.len() - i,
    {
        assert(all@.take(i + 1).drop_last() =~= all@.take(i as int));
        assert(all@.take(i + 1).last() == all@[i as int]);
        let ghost before = derefs(out@);
        if !all[i].lang.as_str().is_empty() {
            out.push(&all[i]);
            assert(derefs(out@) =~= before.push(all@[i as int]));
        }
        i = i + 1;
    }
    assert(all@.take(all@.len() as int) =~= all@);
    out
}

/// Writes one entry of the language menu.
fn menu_item_of(t: &LanguageTarget, active: bool) -> (r: String)
    ensures
        r@ == menu_item(*t, active),
{
    let mut item = "<a href=\"".to_owned();
    item.append(escape_attribute(t.html_file_name.as_str()).as_str());
    item.append("\" role=\"menuitem\" class=\"fy-lang-item\" aria-checked=\"");
    if active {
        item.append("true");
    } else {
        item.append("false");
    }
    item.append("\">");
    item.append(escape(t.display_name.as_str()).as_str());
    item.append("</a>");
    item
}

/// Renders the language switcher of a page.
pub fn render_lang_menu(
    current_target: Option<&LanguageTarget>,
    all_targets: &[LanguageTarget],
    label: &str,
) -> (r: String)
    ensures
        r@ == lang_menu(opt_target(current_target), all_targets@, label@),
{
    let distinct = named_targets_of(all_targets);
    let ghost d = named_targets(all_targets@);
    if distinct.len() <= 1 {
        return String::new();
    }
    let current_lang: &str = match current_target {
        Some(t) => t.lang.as_str(),
        None => "",
    };
    proof {
        reveal_strlit("");
    }
    assert(current_lang@ == current_lang_of(opt_target(current_target)));
    let first_lang = distinct[0].lang.as_str();
    assert(first_lang@ == d[0].lang@);
    let mut items = String::new();
    let mut i: usize = 0;
    while i < distinct.len()
        invariant
            i <= distinct@.len(),
            d == derefs(distinct@),
            d.len() == distinct@.len(),
            current_lang@ == current_lang_of(opt_target(current_target)),
            first_lang@ == d[0].lang@,
            items@ == menu_items(d.take(i as int), current_lang@, first_lang@),
        decreases distinct.len() - i,
    {
        let t = distinct[i];
        assert(*t == d[i as int]);
        let active = if current_lang.is_empty() {
            t.lang == distinct[0].lang
        } else {
            same_ignoring_ascii_case(t.lang.as_str(), current_lang)
        };
        assert(active == menu_active(*t, current_lang@, first_lang@));
        items.append(menu_item_of(t, active).as_str());
        assert(d.take(i + 1).drop_last() =~= d.take(i as int));
        assert(d.take(i + 1).last() == *t);
        i = i + 1;
    }
    assert(d.take(d.len() as int) =~= d);
    let mut menu = LANG_MENU_OPEN.to_owned();
    menu.append(label);
    menu.append(LANG_MENU_BUTTON);
    menu.append(label);
    menu.append(LANG_MENU_ITEMS);
    menu.append(items.as_str());
    menu.append(LANG_MENU_CLOSE);
    menu
}

/// The labels of a page: in the declared language of its target, or for a
/// page of no target in the language its title and body are written in.
pub open spec fn page_ui(title: Seq<char>, body: Seq<char>, current: Option<LanguageTarget>) -> UiText {
    match current {
        Some(t) => ui_spec(chinese_lang(t.content_lang@)),
        None => ui_spec(has_cjk(title + body)),
    }
}

/// The language a page declares: its target's content language, or for a
/// page of no target the language of its labels.
pub open spec fn page_lang(title: Seq<char>, body: Seq<char>, current: Option<LanguageTarget>) -> Seq<
    char,
> {
    match current {
        Some(t) => t.content_lang@,
        None => ui_spec(has_cjk(title + body)).language@,
    }
}

/// The filled page shell: every token replaced in turn, the title and package
/// name escaped, `<html lang>` and the labels from the target's declared
/// language (English labels where none exist in it).
pub open spec fn page(
    title: Seq<char>,
    name: Seq<char>,
    repository: Option<Seq<char>>,
    body: Seq<char>,
    current: Option<LanguageTarget>,
    all: Seq<LanguageTarget>,
) -> Seq<char> {
    let ui = page_ui(title, body, current);
    let s1 = replace_all(DOC_TEMPLATE@, "{{TITLE}}"@, escaped(title));
    let s2 = replace_all(s1, "{{NAME}}"@, escaped(name));
    let s3 = replace_all(s2, "{{LANG}}"@, page_lang(title, body, current));
    let s4 = replace_all(s3, "{{SIDEBAR_TOGGLE}}"@, ui.sidebar_toggle@);
    let s5 = replace_all(s4, "{{THEME}}"@, ui.theme@);
    let s6 = replace_all(s5, "{{SYSTEM_THEME}}"@, ui.system_theme@);
    let s7 = replace_all(s6, "{{SEARCH}}"@, ui.search@);
    let s8 = replace_all(s7, "{{SEARCH_DOCUMENT}}"@, ui.search_document@);
    let s9 = replace_all(s8, "{{SEARCH_PLACEHOLDER}}"@, ui.search_placeholder@);
    let s10 = replace_all(s9, "{{PRINT}}"@, ui.print@);
    let s11 = replace_all(s10, "{{TABLE_OF_CONTENTS}}"@, ui.table_of_contents@);
    let s12 = replace_all(s11, "{{GITHUB_LINK}}"@, github_link(repository, ui.github@));
    let s13 = replace_all(s12, "{{LANG_MENU}}"@, lang_menu(current, all, ui.language_label@));
    replace_all(s13, "{{BODY}}"@, body)
}

/// Renders the generated page. The Typst body is already trimmed; GitHub is
/// linked only when the package declares that repository. The page declares
/// its target's content language and takes its labels from it (English where
/// the labels do not exist in that language); a page of no target reads in
/// the language its title and body are written in.
pub fn doc_page(
    title: &str,
    name: &str,
    repository: Option<&str>,
    body: &str,
    current_target: Option<&LanguageTarget>,
    all_targets: &[LanguageTarget],
) -> (r: String)
    ensures
        r@ == page(
            title@,
            name@,
            match repository {
                Some(u) => Some(u@),
                None => None,
            },
            body@,
            opt_target(current_target),
            all_targets@,
        ),
{
    let (ui, lang): (UiText, &str) = match current_target {
        Some(t) => (ui_text(t.content_lang.as_str()), t.content_lang.as_str()),
        None => {
            let guessed = guessed_ui_text(title, body);
            let lang = guessed.language;
            (guessed, lang)
        },
    };
    let github = match repository {
        None => String::new(),
        Some(url) => {
            let mut link = GITHUB_LINK_OPEN.to_owned();
            link.append(escape_attribute(url).as_str());
            link.append(GITHUB_LINK_TITLE);
            link.append(ui.github);
            link.append(GITHUB_LINK_LABEL);
            link.append(ui.github);
            link.append(GITHUB_LINK_ICON);
            link
        },
    };
    let menu = render_lang_menu(current_target, all_targets, ui.language_label);
    proof {
        reveal_strlit("{{TITLE}}");
        reveal_strlit("{{NAME}}");
        reveal_strlit("{{LANG}}");
        reveal_strlit("{{SIDEBAR_TOGGLE}}");
        reveal_strlit("{{THEME}}");
        reveal_strlit("{{SYSTEM_THEME}}");
        reveal_strlit("{{SEARCH}}");
        reveal_strlit("{{SEARCH_DOCUMENT}}");
        reveal_strlit("{{SEARCH_PLACEHOLDER}}");
        reveal_strlit("{{PRINT}}");
        reveal_strlit("{{TABLE_OF_CONTENTS}}");
        reveal_strlit("{{GITHUB_LINK}}");
        reveal_strlit("{{LANG_MENU}}");
        reveal_strlit("{{BODY}}");
    }
    let s = replace_str(DOC_TEMPLATE, "{{TITLE}}", escape(title).as_str());
    let s = replace_str(s.as_str(), "{{NAME}}", escape(name).as_str());
    let s = replace_str(s.as_str(), "{{LANG}}", lang);
    let s = replace_str(s.as_str(), "{{SIDEBAR_TOGGLE}}", ui.sidebar_toggle);
    let s = replace_str(s.as_str(), "{{THEME}}", ui.theme);
    let s = replace_str(s.as_str(), "{{SYSTEM_THEME}}", ui.system_theme);
    let s = replace_str(s.as_str(), "{{SEARCH}}", ui.search);
    let s = replace_str(s.as_str(), "{{SEARCH_DOCUMENT}}", ui.search_document);
    let s = replace_str(s.as_str(), "{{SEARCH_PLACEHOLDER}}", ui.search_placeholder);
    let s = replace_str(s.as_str(), "{{PRINT}}", ui.print);
    let s = replace_str(s.as_str(), "{{TABLE_OF_CONTENTS}}", ui.table_of_contents);
    let s = replace_str(s.as_str(), "{{GITHUB_LINK}}", github.as_str());
    let s = replace_str(s.as_str(), "{{LANG_MENU}}", menu.as_str());
    replace_str(s.as_str(), "{{BODY}}", body)
}

/// The lowercase hexadecimal digit of `d < 16`.
pub open spec fn hex_digit(d: nat) -> char {
    if d < 10 {
        ((d + 48) as u8) as char
    } else {
        ((d + 87) as u8) as char
    }
}

/// A character written as a JavaScript `\uXXXX` escape.
pub open spec fn unicode_escape(c: char) -> Seq<char> {
    let n = c as u32;
    seq![
        '\\',
        'u',
        hex_digit(((n / 4096) % 16) as nat),
        hex_digit(((n / 256) % 16) as nat),
        hex_digit(((n / 16) % 16) as nat),
        hex_digit((n % 16) as nat),
    ]
}

/// How one character is written inside a quoted JavaScript string in a
/// `<script>` element: backslash and both quotes behind a backslash, line
/// breaks and tabs by name, other control characters, the markup characters
/// `<`, `>`, `&` and the line and paragraph separators as `\u` escapes.
pub open spec fn js_char(c: char) -> Seq<char> {
    if c == '\\' {
        seq!['\\', '\\']
    } else if c == '"' {
        seq!['\\', '"']
    } else if c == '\'' {
        seq!['\\', '\'']
    } else if c == '\n' {
        seq!['\\', 'n']
    } else if c == '\r' {
        seq!['\\', 'r']
    } else if c == '\t' {
        seq!['\\', 't']
    } else if (c as u32) < 0x20 || c == '<' || c == '>' || c == '&' || c == '\u{2028}' || c
        == '\u{2029}' {
        unicode_escape(c)
    } else {
        seq![c]
    }
}

/// `s` written inside a quoted JavaScript string.
pub open spec fn js_escaped(s: Seq<char>) -> Seq<char>
    decreases s.len(),
{
    if s.len() == 0 {
        Seq::empty()
    } else {
        js_escaped(s.drop_last()) + js_char(s.last())
    }
}

/// Appends the hexadecimal digit of `d < 16`.
fn push_hex_digit(out: &mut String, d: u32)
    requires
        d < 16,
    ensures
        final(out)@ == old(out)@.push(hex_digit(d as nat)),
{
    if d < 10 {
        push_char(out, ((d as u8) + 48) as char);
    } else {
        push_char(out, ((d as u8) + 87) as char);
    }
}

/// Writes `text` inside a quoted JavaScript string, so that no value can end
/// the string or the `<script>` element it stands in.
pub fn escape_js(text: &str) -> (r: String)
    ensures
        r@ == js_escaped(text@),
{
    let v = chars_of(text);
    let mut out = String::new();
    let mut i: usize = 0;
    while i < v.len()
        invariant
            i <= v@.len(),
            v@ == text@,
            out@ == js_escaped(v@.take(i as int)),
        decreases v.len() - i,
    {
        let c = v[i];
        let ghost before = out@;
        if c == '\\' {
            out.append("\\\\");
            proof {
                reveal_strlit("\\\\");
            }
            assert(out@ =~= before + js_char(c));
        } else if c == '"' {
            out.append("\\\"");
            proof {
                reveal_strlit("\\\"");
            }
            assert(out@ =~= before + js_char(c));
        } else if c == '\'' {
            out.append("\\'");
            proof {
                reveal_strlit("\\'");
            }
            assert(out@ =~= before + js_char(c));
        } else if c == '\n' {
            out.append("\\n");
            proof {
                reveal_strlit("\\n");
            }
            assert(out@ =~= before + js_char(c));
        } else if c == '\r' {
            out.append("\\r");
            proof {
                reveal_strlit("\\r");
            }
            assert(out@ =~= before + js_char(c));
        } else if c == '\t' {
            out.append("\\t");
            proof {
                reveal_strlit("\\t");
            }
            assert(out@ =~= before + js_char(c));
        } else if (c as u32) < 0x20 || c == '<' || c == '>' || c == '&' || c == '\u{2028}' || c
            == '\u{2029}' {
            let n = c as u32;
            push_char(&mut out, '\\');
            push_char(&mut out, 'u');
            push_hex_digit(&mut out, (n / 4096) % 16);
            push_hex_digit(&mut out, (n / 256) % 16);
            push_hex_digit(&mut out, (n / 16) % 16);
            push_hex_digit(&mut out, n % 16);
            assert(out@ =~= before + js_char(c));
        } else {
            push_char(&mut out, c);
            assert(out@ =~= before + js_char(c));
        }
        assert(v@.take(i + 1).drop_last() =~= v@.take(i as int));
        i = i + 1;
    }
    assert(v@.take(v@.len() as int) =~= v@);
    out
}

/// A JavaScript-escaped value holds no line break, no other control
/// character and no markup character, so it can neither end its line nor the
/// `<script>` element.
pub proof fn lemma_js_escaped_stays_in_script(s: Seq<char>)
    ensures
        forall|i: int|
            0 <= i < js_escaped(s).len() ==> (#[trigger] js_escaped(s)[i] as u32) >= 0x20
                && js_escaped(s)[i] != '<' && js_escaped(s)[i] != '>' && js_escaped(s)[i] != '&',
    decreases s.len(),
{
    if s.len() > 0 {
        lemma_js_escaped_stays_in_script(s.drop_last());
        let a = js_escaped(s.drop_last());
        let b = js_char(s.last());
        assert forall|i: int| 0 <= i < js_escaped(s).len() implies (#[trigger] js_escaped(s)[i] as u32)
            >= 0x20 && js_escaped(s)[i] != '<' && js_escaped(s)[i] != '>' && js_escaped(s)[i]
            != '&' by {
            if i >= a.len() {
                assert(js_escaped(s)[i] == b[i - a.len()]);
            } else {
                assert(js_escaped(s)[i] == a[i]);
            }
        }
    }
}

/// One entry of the landing page's language map: `"<key>":"<file>"`, both
/// written as JavaScript strings.
pub open spec fn map_entry(key: Seq<char>, file: Seq<char>) -> Seq<char> {
    "\""@ + js_escaped(key) + "\":\""@ + js_escaped(file) + "\""@
}

/// The map entries of one target: its lowercase language, and the base
/// before the first `-` of it when that base is not empty.
pub open spec fn entries_of(t: LanguageTarget) -> Seq<Seq<char>> {
    let lower = lowercase(t.lang@);
    seq![map_entry(lower, t.html_file_name@)] + match find(lower, seq!['-']) {
        Some(k) => if k > 0 {
            seq![map_entry(lower.take(k), t.html_file_name@)]
        } else {
            Seq::empty()
        },
        None => Seq::empty(),
    }
}

/// The map entries of some targets, in order.
pub open spec fn map_entries(d: Seq<LanguageTarget>) -> Seq<Seq<char>>
    decreases d.len(),
{
    if d.len() == 0 {
        Seq::empty()
    } else {
        map_entries(d.drop_last()) + entries_of(d.last())
    }
}

/// An English target: `en`, or a tag under `en-`, ignoring case.
pub open spec fn prefers_english(t: LanguageTarget) -> bool {
    eq_ignore_ascii_case(t.lang@, "en"@) || starts_with(lowercase(t.lang@), "en-"@)
}

/// A Simplified Chinese target: `zh-cn` or `zh`, ignoring ASCII case.
pub open spec fn prefers_chinese(t: LanguageTarget) -> bool {
    eq_ignore_ascii_case(t.lang@, "zh-cn"@) || eq_ignore_ascii_case(t.lang@, "zh"@)
}

/// The first index at or after `i` whose target satisfies `p`.
pub open spec fn first_from(d: Seq<LanguageTarget>, p: spec_fn(LanguageTarget) -> bool, i: int) -> Option<int>
    decreases d.len() - i,
{
    if i < 0 || i >= d.len() {
        None
    } else if p(d[i]) {
        Some(i)
    } else {
        first_from(d, p, i + 1)
    }
}

/// The page a visitor lands on when no preference matches: the first English
/// target, else the first Simplified Chinese one, else the first target, else
/// `index_en.html`.
pub open spec fn landing_default(d: Seq<LanguageTarget>) -> Seq<char> {
    match first_from(d, |t: LanguageTarget| prefers_english(t), 0) {
        Some(i) => d[i].html_file_name@,
        None => match first_from(d, |t: LanguageTarget| prefers_chinese(t), 0) {
            Some(i) => d[i].html_file_name@,
            None => if d.len() > 0 {
                d[0].html_file_name@
            } else {
                "index_en.html"@
            },
        },
    }
}

/// The scan finds the first target that satisfies `p` at or after `j`.
proof fn lemma_first_from_at(d: Seq<LanguageTarget>, p: spec_fn(LanguageTarget) -> bool, i: int, j: int)
    requires
        0 <= j <= i < d.len(),
        p(d[i]),
        forall|k: int| j <= k < i ==> !p(#[trigger] d[k]),
    ensures
        first_from(d, p, j) == Some(i),
    decreases i - j,
{
    if j < i {
        assert(!p(d[j]));
        lemma_first_from_at(d, p, i, j + 1);
    }
}

/// The scan finds nothing when no target at or after `j` satisfies `p`.
proof fn lemma_first_from_none(d: Seq<LanguageTarget>, p: spec_fn(LanguageTarget) -> bool, j: int)
    requires
        0 <= j,
        forall|k: int| j <= k < d.len() ==> !p(#[trigger] d[k]),
    ensures
        first_from(d, p, j) is None,
    decreases d.len() - j,
{
    if j < d.len() {
        assert(!p(d[j]));
        lemma_first_from_none(d, p, j + 1);
    }
}

/// An English target: `en`, ignoring ASCII case, or a tag whose lowercase
/// starts `en-`.
pub open spec fn english_tag(lang: Seq<char>) -> bool {
    eq_ignore_ascii_case(lang, "en"@) || starts_with(lowercase(lang), "en-"@)
}

/// A Simplified Chinese target: `zh-CN` or `zh`, ignoring ASCII case.
pub open spec fn chinese_tag(lang: Seq<char>) -> bool {
    eq_ignore_ascii_case(lang, "zh-cn"@) || eq_ignore_ascii_case(lang, "zh"@)
}

/// The landing page's default: the page of the first English target; with
/// none, the page of the first target whose language is `zh-CN` or `zh`
/// (ignoring ASCII case); with neither, the page of the first target.
pub proof fn lemma_landing_default_order(d: Seq<LanguageTarget>, i: int)
    ensures
        0 <= i < d.len() && english_tag(d[i].lang@) && (forall|k: int|
            0 <= k < i ==> !english_tag(#[trigger] d[k].lang@)) ==> landing_default(d)
            == d[i].html_file_name@,
        0 <= i < d.len() && (forall|k: int| 0 <= k < d.len() ==> !english_tag(#[trigger] d[k].lang@))
            && chinese_tag(d[i].lang@) && (forall|k: int|
            0 <= k < i ==> !chinese_tag(#[trigger] d[k].lang@)) ==> landing_default(d)
            == d[i].html_file_name@,
        d.len() > 0 && (forall|k: int|
            0 <= k < d.len() ==> !english_tag(#[trigger] d[k].lang@) && !chinese_tag(d[k].lang@))
            ==> landing_default(d) == d[0].html_file_name@,
{
    let en = |t: LanguageTarget| prefers_english(t);
    let zh = |t: LanguageTarget| prefers_chinese(t);
    if 0 <= i < d.len() && english_tag(d[i].lang@) && (forall|k: int|
        0 <= k < i ==> !english_tag(#[trigger] d[k].lang@)) {
        assert forall|k: int| 0 <= k < i implies !en(#[trigger] d[k]) by {
            assert(!english_tag(d[k].lang@));
        }
        lemma_first_from_at(d, en, i, 0);
    }
    if forall|k: int| 0 <= k < d.len() ==> !english_tag(#[trigger] d[k].lang@) {
        assert forall|k: int| 0 <= k < d.len() implies !en(#[trigger] d[k]) by {
            assert(!english_tag(d[k].lang@));
        }
        lemma_first_from_none(d, en, 0);
        if 0 <= i < d.len() && chinese_tag(d[i].lang@) && (forall|k: int|
            0 <= k < i ==> !chinese_tag(#[trigger] d[k].lang@)) {
            assert forall|k: int| 0 <= k < i implies !zh(#[trigger] d[k]) by {
                assert(!chinese_tag(d[k].lang@));
            }
            lemma_first_from_at(d, zh, i, 0);
        }
        if forall|k: int| 0 <= k < d.len() ==> !chinese_tag(#[trigger] d[k].lang@) {
            assert forall|k: int| 0 <= k < d.len() implies !zh(#[trigger] d[k]) by {
                assert(!chinese_tag(d[k].lang@));
            }
            lemma_first_from_none(d, zh, 0);
        }
    }
}

/// A visible link to one language's page.
pub open spec fn landing_link(t: LanguageTarget) -> Seq<char> {
    "<a href=\""@ + attribute_escaped(t.html_file_name@) + "\">"@ + escaped(t.display_name@)
        + "</a>"@
}

/// The landing page: a language map the script matches the visitor's
/// preferred languages against, the default page for the script (as a
/// JavaScript string) and for visitors without scripts (as an attribute
/// value), and a link to every language.
pub open spec fn landing_page(all: Seq<LanguageTarget>) -> Seq<char> {
    let d = named_targets(all);
    let fallback = landing_default(d);
    REDIRECT_HEAD@ + "{"@ + join(map_entries(d), ","@) + "}"@ + REDIRECT_MATCH@ + js_escaped(
        fallback,
    ) + REDIRECT_NOSCRIPT@ + attribute_escaped(fallback) + REDIRECT_BODY@ + join(
        d.map_values(|t: LanguageTarget| landing_link(t)),
        " | "@,
    ) + REDIRECT_END@
}

/// Writes one entry of the language map.
fn map_entry_of(key: &str, file: &str) -> (r: String)
    ensures
        r@ == map_entry(key@, file@),
{
    let mut e = "\"".to_owned();
    e.append(escape_js(key).as_str());
    e.append("\":\"");
    e.append(escape_js(file).as_str());
    e.append("\"");
    e
}

/// Whether a target is English, as the landing page prefers it.
fn is_english(t: &LanguageTarget) -> (r: bool)
    ensures
        r == prefers_english(*t),
{
    let lower = to_lowercase(t.lang.as_str());
    let lv = chars_of_string(&lower);
    let pv = chars_of("en-");
    same_ignoring_ascii_case(t.lang.as_str(), "en") || starts_with_exec(lv.as_slice(), pv.as_slice())
}

/// Whether a target is Simplified Chinese, as the landing page prefers it.
fn is_chinese(t: &LanguageTarget) -> (r: bool)
    ensures
        r == prefers_chinese(*t),
{
    same_ignoring_ascii_case(t.lang.as_str(), "zh-cn") || same_ignoring_ascii_case(
        t.lang.as_str(),
        "zh",
    )
}

/// The default page of the landing page.
fn landing_default_of(d: &Vec<&LanguageTarget>) -> (r: String)
    ensures
        r@ == landing_default(derefs(d@)),
{
    let ghost ds = derefs(d@);
    let ghost en = |t: LanguageTarget| prefers_english(t);
    let ghost zh = |t: LanguageTarget| prefers_chinese(t);
    let mut i: usize = 0;
    while i < d.len()
        invariant
            i <= d@.len(),
            ds == derefs(d@),
            en == (|t: LanguageTarget| prefers_english(t)),
            first_from(ds, en, 0) == first_from(ds, en, i as int),
        decreases d.len() - i,
    {
        assert(ds[i as int] == *d@[i as int]);
        if is_english(d[i]) {
            return d[i].html_file_name.clone();
        }
        i = i + 1;
    }
    let mut j: usize = 0;
    while j < d.len()
        invariant
            j <= d@.len(),
            ds == derefs(d@),
            en == (|t: LanguageTarget| prefers_english(t)),
            zh == (|t: LanguageTarget| prefers_chinese(t)),
            first_from(ds, en, 0) is None,
            first_from(ds, zh, 0) == first_from(ds, zh, j as int),
        decreases d.len() - j,
    {
        assert(ds[j as int] == *d@[j as int]);
        if is_chinese(d[j]) {
            return d[j].html_file_name.clone();
        }
        j = j + 1;
    }
    if d.len() > 0 {
        d[0].html_file_name.clone()
    } else {
        "index_en.html".to_owned()
    }
}

/// Renders a tiny (~500B) client-side language routing landing page with dynamic matching.
pub fn redirect_page(all_targets: &[LanguageTarget]) -> (r: String)
    ensures
        r@ == landing_page(all_targets@),
{
    let distinct = named_targets_of(all_targets);
    let ghost d = named_targets(all_targets@);
    let mut entries: Vec<String> = Vec::new();
    let mut i: usize = 0;
    while i < distinct.len()
        invariant
            i <= distinct@.len(),
            d == derefs(distinct@),
            d.len() == distinct@.len(),
            strings_view(entries@) == map_entries(d.take(i as int)),
        decreases distinct.len() - i,
    {
        let t = distinct[i];
        assert(*t == d[i as int]);
        let ghost before = strings_view(entries@);
        let lower = to_lowercase(t.lang.as_str());
        entries.push(map_entry_of(lower.as_str(), t.html_file_name.as_str()));
        let lv = chars_of_string(&lower);
        let dash = find_char(lv.as_slice(), '-', 0);
        proof {
            lemma_find_from(lv@, seq!['-'], 0);
        }
        let ghost mid = strings_view(entries@);
        match dash {
            Some(k) => {
                if k > 0 {
                    let base = string_of_range(lv.as_slice(), 0, k);
                    assert(base@ =~= lv@.take(k as int));
                    entries.push(map_entry_of(base.as_str(), t.html_file_name.as_str()));
                    assert(strings_view(entries@) =~= mid.push(map_entry(
                        lv@.take(k as int),
                        t.html_file_name@,
                    )));
                }
            },
            None => {},
        }
        assert(strings_view(entries@) =~= before + entries_of(*t));
        assert(d.take(i + 1).drop_last() =~= d.take(i as int));
        assert(d.take(i + 1).last() == *t);
        i = i + 1;
    }
    assert(d.take(d.len() as int) =~= d);
    let mut links: Vec<String> = Vec::new();
    let mut k: usize = 0;
    while k < distinct.len()
        invariant
            k <= distinct@.len(),
            d == derefs(distinct@),
            d.len() == distinct@.len(),
            strings_view(links@) == d.take(k as int).map_values(
                |t: LanguageTarget| landing_link(t),
            ),
        decreases distinct.len() - k,
    {
        let t = distinct[k];
        assert(*t == d[k as int]);
        let mut link = "<a href=\"".to_owned();
        link.append(escape_attribute(t.html_file_name.as_str()).as_str());
        link.append("\">");
        link.append(escape(t.display_name.as_str()).as_str());
        link.append("</a>");
        let ghost before = strings_view(links@);
        links.push(link);
        assert(strings_view(links@) =~= before.push(landing_link(*t)));
        assert(d.take(k + 1).map_values(|t: LanguageTarget| landing_link(t)) =~= d.take(
            k as int,
        ).map_values(|t: LanguageTarget| landing_link(t)).push(landing_link(d[k as int])));
        k = k + 1;
    }
    assert(d.take(d.len() as int) =~= d);
    let fallback = landing_default_of(&distinct);
    let map_body = join_strings(entries.as_slice(), ",");
    assert(entries@.map_values(|p: String| p@) =~= strings_view(entries@));
    let link_list = join_strings(links.as_slice(), " | ");
    assert(links@.map_values(|p: String| p@) =~= strings_view(links@));
    let mut page = REDIRECT_HEAD.to_owned();
    page.append("{");
    page.append(map_body.as_str());
    page.append("}");
    page.append(REDIRECT_MATCH);
    page.append(escape_js(fallback.as_str()).as_str());
    page.append(REDIRECT_NOSCRIPT);
    page.append(escape_attribute(fallback.as_str()).as_str());
    page.append(REDIRECT_BODY);
    page.append(link_list.as_str());
    page.append(REDIRECT_END);
    page
}

} // verus!
