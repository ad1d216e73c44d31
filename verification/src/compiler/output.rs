//! What a build writes: the combined stylesheet, the error pages that stand in
//! for failed targets, the root landing page, and which leftovers are swept.

use vstd::prelude::*;
use crate::assets::{chinese_lang, doc_page, escape, escaped, page, ui_spec, ui_text};
use crate::compiler::typst::temp_html_name_of;
use crate::compiler::{INDEX_FILE, TEMP_PREFIX};
use crate::project::lang::LanguageTarget;
use crate::project::Project;
use crate::text::{
    chars_of, contains, decimal, ends_with, find_chars, lemma_find_from, matches_at, starts_with,
    starts_with_exec,
};

verus! {

/// A throwaway HTML file a compile goes through: `_temp_*.html`.
pub open spec fn compile_temporary(name: Seq<char>) -> bool {
    starts_with(name, TEMP_PREFIX@) && ends_with(name, ".html"@)
}

/// Whether a file in the output directory is the intermediate of a compile
/// that never finished: a target that finishes removes its own intermediate
/// on success and on failure alike, so anything still there is orphaned.
pub fn is_compile_temporary(name: &str) -> (r: bool)
    ensures
        r == compile_temporary(name@),
{
    let v = chars_of(name);
    let prefix = chars_of(TEMP_PREFIX);
    let suffix = chars_of(".html");
    if !starts_with_exec(v.as_slice(), prefix.as_slice()) {
        return false;
    }
    if suffix.len() > v.len() {
        return false;
    }
    let at = v.len() - suffix.len();
    let r = crate::text::matches_at_exec(v.as_slice(), suffix.as_slice(), at);
    assert(v@.skip(v@.len() - suffix@.len()) =~= v@.subrange(at as int, v@.len() as int));
    r
}

/// The sweep recognizes every intermediate a compile goes through, whatever
/// the target's language and the process.
pub proof fn lemma_sweep_finds_every_intermediate(lang: Seq<char>, pid: u32)
    ensures
        compile_temporary(temp_html_name_of(lang, pid)),
{
    let name = temp_html_name_of(lang, pid);
    let rest = (if lang.len() == 0 {
        "root"@
    } else {
        lang
    }) + "_"@ + decimal(pid as nat) + ".html"@;
    assert(name =~= TEMP_PREFIX@ + rest);
    assert(name.take(TEMP_PREFIX@.len() as int) =~= TEMP_PREFIX@);
    let front = TEMP_PREFIX@ + (if lang.len() == 0 {
        "root"@
    } else {
        lang
    }) + "_"@ + decimal(pid as nat);
    assert(name =~= front + ".html"@);
    assert(name.skip(name.len() - ".html"@.len()) =~= ".html"@);
}

/// The combined stylesheet after one export's CSS: the first non-empty
/// export seeds it, an export whose styles are already contained changes
/// nothing, and a genuinely different one appends under a marker comment.
pub open spec fn merged(combined: Seq<char>, styles: Seq<char>) -> Seq<char> {
    if styles.len() == 0 {
        combined
    } else if combined.len() == 0 {
        styles
    } else if contains(combined, styles) {
        combined
    } else {
        combined + "\n/* additional language styles */\n"@ + styles
    }
}

/// Extends the combined stylesheet with one export's CSS: the first non-empty
/// export seeds it, an export whose styles are already contained is a no-op,
/// and a genuinely different one appends under a marker comment. Containment
/// decides equality, so two languages exporting the same sheet keep one copy.
pub fn merge_styles(combined: &mut String, styles: &str)
    ensures
        final(combined)@ == merged(old(combined)@, styles@),
{
    if styles.is_empty() {
        return;
    }
    if combined.as_str().is_empty() {
        combined.append(styles);
        assert(combined@ =~= styles@);
        return;
    }
    let cv = chars_of(combined.as_str());
    let sv = chars_of(styles);
    if find_chars(cv.as_slice(), sv.as_slice(), 0).is_some() {
        return;
    }
    combined.append("\n/* additional language styles */\n");
    combined.append(styles);
}

/// A text that occurs at some position of `hay` is found in it.
proof fn lemma_found(hay: Seq<char>, pat: Seq<char>, k: int)
    requires
        0 <= k,
        matches_at(hay, pat, k),
    ensures
        contains(hay, pat),
{
    lemma_find_from(hay, pat, 0);
}

/// Merging keeps every style already combined as its prefix, leaves every
/// non-empty export contained in the result, and merging the same export again
/// changes nothing: a repeated language keeps one copy of its sheet.
pub proof fn lemma_merge_styles(combined: Seq<char>, styles: Seq<char>)
    ensures
        starts_with(merged(combined, styles), combined),
        styles.len() > 0 ==> contains(merged(combined, styles), styles),
        merged(merged(combined, styles), styles) == merged(combined, styles),
{
    let m = merged(combined, styles);
    if styles.len() == 0 {
        assert(m.take(combined.len() as int) =~= combined);
    } else if combined.len() == 0 {
        assert(m.take(0) =~= combined);
        assert(m.subrange(0, styles.len() as int) =~= styles);
        lemma_found(m, styles, 0);
    } else if contains(combined, styles) {
        assert(m.take(combined.len() as int) =~= combined);
    } else {
        assert(m.take(combined.len() as int) =~= combined);
        let k = m.len() - styles.len();
        assert(m.subrange(k, m.len() as int) =~= styles);
        lemma_found(m, styles, k);
    }
}

/// The project writes no landing page of its own: no target owns
/// `index.html`, and none is on disk yet.
pub open spec fn landing_needed(targets: Seq<LanguageTarget>, index_exists: bool) -> bool {
    !index_exists && !(exists|i: int|
        0 <= i < targets.len() && #[trigger] targets[i].html_file_name@ == INDEX_FILE@)
}

/// Whether a build that wrote no pages must still leave the routing landing
/// page as `index.html`. A pure i18n project owns `index.html` through no
/// single target, so without it the dev server has no route for `/`. An
/// existing landing page is left alone.
pub fn landing_page_needed(project: &Project, index_exists: bool) -> (r: bool)
    ensures
        r == landing_needed(project.targets@, index_exists),
{
    if index_exists {
        return false;
    }
    let mut i: usize = 0;
    while i < project.targets.len()
        invariant
            i <= project.targets@.len(),
            forall|k: int|
                0 <= k < i ==> #[trigger] project.targets@[k].html_file_name@ != INDEX_FILE@,
        decreases project.targets.len() - i,
    {
        let v = chars_of(project.targets[i].html_file_name.as_str());
        if crate::text::eq_str(v.as_slice(), INDEX_FILE) {
            return false;
        }
        i = i + 1;
    }
    true
}

/// The body of an error page: the failure headline and explanation in the
/// target's language, the escaped compiler output, and the hint.
pub open spec fn error_body(content_lang: Seq<char>, raw_error: Seq<char>) -> Seq<char> {
    let ui = ui_spec(chinese_lang(content_lang));
    "<div class=\"fy-error\">\n  <h1>"@ + ui.compile_failed@ + "</h1>\n  <p>"@
        + ui.compile_failed_detail@ + "</p>\n  <pre><code>"@ + escaped(raw_error)
        + "</code></pre>\n  <p class=\"fy-error-hint\">"@ + ui.compile_failed_hint@
        + "</p>\n</div>"@
}

/// Renders a compile failure as the page of one target, so browser reloads
/// never fall back to stale content: the project's shell around the escaped
/// compiler output, with the language menu of all targets.
pub fn error_page(project: &Project, raw_error: &str, target: &LanguageTarget) -> (r: String)
    ensures
        r@ == page(
            project.name@,
            project.name@,
            match project.repository {
                Some(u) => Some(u@),
                None => None,
            },
            error_body(target.content_lang@, raw_error@),
            Some(*target),
            project.targets@,
        ),
{
    let ui = ui_text(target.content_lang.as_str());
    let mut body = "<div class=\"fy-error\">\n  <h1>".to_owned();
    body.append(ui.compile_failed);
    body.append("</h1>\n  <p>");
    body.append(ui.compile_failed_detail);
    body.append("</p>\n  <pre><code>");
    body.append(escape(raw_error).as_str());
    body.append("</code></pre>\n  <p class=\"fy-error-hint\">");
    body.append(ui.compile_failed_hint);
    body.append("</p>\n</div>");
    let repository: Option<&str> = match &project.repository {
        Some(u) => Some(u.as_str()),
        None => None,
    };
    doc_page(
        project.name.as_str(),
        project.name.as_str(),
        repository,
        body.as_str(),
        Some(target),
        project.targets.as_slice(),
    )
}

} // verus!
