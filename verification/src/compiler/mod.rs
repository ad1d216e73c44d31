//! The build's decisions: which targets a language filter selects, how a
//! typst export decomposes into page pieces, how its diagnostics are shaped,
//! and which artifacts a build leaves behind.

pub mod extract;
pub mod output;
pub mod typst;
pub mod warnings;

use vstd::prelude::*;
use crate::project::imports::strings_view;
use crate::project::lang::{opt_str_view, LanguageTarget};
use crate::project::template_args::opt_view;
use crate::project::{derefs, selection, Project};
use crate::text::{join, join_strings};

verus! {

/// The root page every build leaves behind.
pub const INDEX_FILE: &'static str = "index.html";

/// The page shell's stylesheet.
pub const STYLE_FILE: &'static str = "fy-docs.css";

/// The combined stylesheet of every typst export.
pub const TYPST_CSS_FILE: &'static str = "typst.css";

/// The page shell's script.
pub const VIEWER_JS_FILE: &'static str = "fy-docs.js";

/// The live-reload script the page shell loads.
pub const LIVE_JS_FILE: &'static str = "_poll.js";

/// Prefix of the throwaway HTML file each language target compiles through.
pub const TEMP_PREFIX: &'static str = "_temp_";

/// The display label of a language: the tag, or `default` for the root
/// `main.typ` target.
pub open spec fn label_of(lang: Seq<char>) -> Seq<char> {
    if lang.len() == 0 {
        "default"@
    } else {
        lang
    }
}

/// The labels of some targets, in order.
pub open spec fn labels(targets: Seq<LanguageTarget>) -> Seq<Seq<char>> {
    targets.map_values(|t: LanguageTarget| label_of(t.lang@))
}

/// The display label of a target's language: its tag, or `default` for a
/// root `main.typ` target.
pub fn lang_label(target: &LanguageTarget) -> (r: &str)
    ensures
        r@ == label_of(target.lang@),
{
    if target.lang.as_str().is_empty() {
        "default"
    } else {
        target.lang.as_str()
    }
}

/// The refusal of a filter that selects nothing.
pub open spec fn no_match_message(filter: Option<Seq<char>>, targets: Seq<LanguageTarget>) -> Seq<
    char,
> {
    match filter {
        Some(f) => "no documentation language target matches `"@ + f
            + "`; this project provides: "@ + join(labels(targets), ", "@),
        None => "this documentation project declares no language targets"@,
    }
}

/// The labels of all targets, in order.
fn target_labels(targets: &[LanguageTarget]) -> (r: Vec<String>)
    ensures
        strings_view(r@) == labels(targets@),
{
    let mut out: Vec<String> = Vec::new();
    let mut i: usize = 0;
    while i < targets.len()
        invariant
            i <= targets@.len(),
            strings_view(out@) == labels(targets@.take(i as int)),
        decreases targets.len() - i,
    {
        out.push(lang_label(&targets[i]).to_owned());
        assert(labels(targets@.take(i + 1)) =~= labels(targets@.take(i as int)).push(
            label_of(targets@[i as int].lang@),
        ));
        assert(strings_view(out@) =~= labels(targets@.take(i + 1)));
        i = i + 1;
    }
    assert(targets@.take(targets@.len() as int) =~= targets@);
    out
}

/// Resolves the language filter into targets, refusing a filter that matches
/// no language so a typo cannot quietly build something else instead.
pub fn select_targets<'a>(project: &'a Project, lang_filter: Option<&str>) -> (r: Result<
    Vec<&'a LanguageTarget>,
    String,
>)
    ensures
        match r {
            Ok(v) => v@.len() > 0 && derefs(v@) == selection(
                project.targets@,
                opt_str_view(lang_filter),
            ),
            Err(m) => selection(project.targets@, opt_str_view(lang_filter)).len() == 0 && m@
                == no_match_message(opt_str_view(lang_filter), project.targets@),
        },
{
    let selected = project.selected_targets(lang_filter);
    assert(opt_str_view(lang_filter) == match lang_filter {
        Some(f) => Some(f@),
        None => None,
    });
    if selected.len() > 0 {
        assert(derefs(selected@).len() == selected@.len());
        return Ok(selected);
    }
    assert(derefs(selected@).len() == 0);
    let names = target_labels(project.targets.as_slice());
    let available = join_strings(names.as_slice(), ", ");
    assert(names@.map_values(|p: String| p@) =~= strings_view(names@));
    match lang_filter {
        Some(f) => {
            let mut m = "no documentation language target matches `".to_owned();
            m.append(f);
            m.append("`; this project provides: ");
            m.append(available.as_str());
            Err(m)
        },
        None => Err("this documentation project declares no language targets".to_owned()),
    }
}

/// What becomes of the root `index.html` after the pages are written.
#[derive(Debug, Clone, Copy, PartialEq, Eq, Structural)]
pub enum IndexPlan {
    /// A target's page or error page already is `index.html`.
    Written,
    /// The only page of a single-language project is copied to `index.html`.
    CopyPage,
    /// The routing landing page becomes `index.html`.
    Landing,
}

/// Some of these file names is `index.html`.
pub open spec fn names_index(files: Seq<String>) -> bool {
    exists|i: int| 0 <= i < files.len() && #[trigger] files[i]@ == INDEX_FILE@
}

/// Always leave an `index.html` behind: either a target wrote it directly, the
/// page of a single-language project is copied, or multi-language builds
/// (including partial failures) keep their routing landing page. The project
/// is single-language only when all of its targets collapse to one; a
/// multi-language project with one surviving page still gets the landing page
/// so language routing survives.
pub open spec fn index_plan_of(target_count: nat, rendered: Seq<String>, failed: Seq<String>) -> IndexPlan {
    if names_index(rendered) || names_index(failed) {
        IndexPlan::Written
    } else if target_count == 1 && rendered.len() == 1 {
        IndexPlan::CopyPage
    } else {
        IndexPlan::Landing
    }
}

/// Whether one of these file names is `index.html`.
fn any_index(files: &[String]) -> (r: bool)
    ensures
        r == names_index(files@),
{
    let mut i: usize = 0;
    while i < files.len()
        invariant
            i <= files@.len(),
            forall|k: int| 0 <= k < i ==> #[trigger] files@[k]@ != INDEX_FILE@,
        decreases files.len() - i,
    {
        let v = crate::text::chars_of(files[i].as_str());
        if crate::text::eq_str(v.as_slice(), INDEX_FILE) {
            return true;
        }
        i = i + 1;
    }
    false
}

/// Decides what becomes of `index.html`, from the number of targets the
/// project has and the file names of the pages rendered and of the error
/// pages written.
pub fn index_plan(target_count: usize, rendered: &[String], failed: &[String]) -> (r: IndexPlan)
    ensures
        r == index_plan_of(target_count as nat, rendered@, failed@),
{
    if any_index(rendered) || any_index(failed) {
        IndexPlan::Written
    } else if target_count == 1 && rendered.len() == 1 {
        IndexPlan::CopyPage
    } else {
        IndexPlan::Landing
    }
}

/// One line of a failed build's summary.
pub open spec fn failure_line(target: LanguageTarget, error: Seq<char>) -> Seq<char> {
    "["@ + label_of(target.lang@) + "] "@ + error
}

/// The summary of a build whose targets failed: one line per failure.
pub open spec fn failure_summary_of(failures: Seq<(&LanguageTarget, String)>) -> Seq<char> {
    join(failures.map_values(|f: (&LanguageTarget, String)| failure_line(*f.0, f.1@)), "\n"@)
}

/// Summarizes the failed targets of a build, one `[<label>] <error>` line each.
pub fn failure_summary(failures: &[(&LanguageTarget, String)]) -> (r: String)
    ensures
        r@ == failure_summary_of(failures@),
{
    let ghost fs = failures@.map_values(|f: (&LanguageTarget, String)| failure_line(*f.0, f.1@));
    let mut lines: Vec<String> = Vec::new();
    let mut i: usize = 0;
    while i < failures.len()
        invariant
            i <= failures@.len(),
            fs == failures@.map_values(|f: (&LanguageTarget, String)| failure_line(*f.0, f.1@)),
            strings_view(lines@) == fs.take(i as int),
        decreases failures.len() - i,
    {
        let (t, err) = &failures[i];
        let mut line = "[".to_owned();
        line.append(lang_label(t));
        line.append("] ");
        line.append(err.as_str());
        let ghost before = strings_view(lines@);
        lines.push(line);
        assert(strings_view(lines@) =~= before.push(fs[i as int]));
        assert(fs.take(i + 1) =~= fs.take(i as int).push(fs[i as int]));
        i = i + 1;
    }
    assert(fs.take(failures@.len() as int) =~= fs);
    let r = join_strings(lines.as_slice(), "\n");
    assert(lines@.map_values(|p: String| p@) =~= strings_view(lines@));
    r
}

/// The message of a panic: its text, else `unknown panic payload`.
pub open spec fn panic_text(as_str: Option<Seq<char>>, as_string: Option<Seq<char>>) -> Seq<char> {
    match as_str {
        Some(t) => t,
        None => match as_string {
            Some(t) => t,
            None => "unknown panic payload"@,
        },
    }
}

/// Chooses the message of a panic from what its payload held: a `&str`, else
/// a `String`, else neither.
pub fn panic_text_of(as_str: Option<String>, as_string: Option<String>) -> (r: String)
    ensures
        r@ == panic_text(opt_view(as_str), opt_view(as_string)),
{
    match as_str {
        Some(t) => t,
        None => match as_string {
            Some(t) => t,
            None => "unknown panic payload".to_owned(),
        },
    }
}

} // verus!
