//! What the build decides around each `typst` invocation: the version gate,
//! the temporary file a target compiles through, the page pieces read back
//! from an export, and the message a failed compile reports.

use vstd::prelude::*;
use crate::compiler::extract::{
    between, body_of, extract_all_styles, extract_between, extract_body, styles_from,
    ExtractedPage,
};
use crate::compiler::{label_of, lang_label, TEMP_PREFIX};
use crate::project::lang::LanguageTarget;
use crate::term::{strip_verbatim_for, verbatim_stripped, windows_paths};
use crate::text::{
    chars_of, copy_range, decimal, from_utf8_lossy, next_piece, next_word, parse_u64,
    parse_u64_exec, push_decimal, split, trim, trim_bounds, utf8_lossy, words,
};

verus! {

/// The oldest typst release that accepts every flag fy-docs passes:
/// `--pdf-standard 2.0` first shipped in Typst 0.14.
pub const MINIMUM_TYPST: (u64, u64, u64) = (0, 14, 0);

/// The version a `typst 0.15.1 (<hash>)` banner announces: the second word,
/// split at dots into major, minor and an optional patch (0 when absent or
/// unreadable).
pub open spec fn banner_version(banner: Seq<char>) -> Option<(u64, u64, u64)> {
    let ws = words(banner);
    if ws.len() < 2 {
        None
    } else {
        let parts = split(ws[1], '.');
        if parts.len() < 2 {
            None
        } else {
            match (parse_u64(parts[0]), parse_u64(parts[1])) {
                (Some(major), Some(minor)) => Some(
                    (
                        major,
                        minor,
                        if parts.len() > 2 {
                            match parse_u64(parts[2]) {
                                Some(patch) => patch,
                                None => 0,
                            }
                        } else {
                            0
                        },
                    ),
                ),
                _ => None,
            }
        }
    }
}

/// `a` is an older version than `b`, comparing major, minor, then patch.
pub open spec fn older(a: (u64, u64, u64), b: (u64, u64, u64)) -> bool {
    a.0 < b.0 || (a.0 == b.0 && (a.1 < b.1 || (a.1 == b.1 && a.2 < b.2)))
}

/// Decides `older`.
pub fn is_older(a: (u64, u64, u64), b: (u64, u64, u64)) -> (r: bool)
    ensures
        r == older(a, b),
{
    a.0 < b.0 || (a.0 == b.0 && (a.1 < b.1 || (a.1 == b.1 && a.2 < b.2)))
}

/// Parses the `typst 0.15.1 (<hash>)` version banner into (major, minor, patch).
pub fn typst_banner_version(banner: &str) -> (r: Option<(u64, u64, u64)>)
    ensures
        r == banner_version(banner@),
{
    let v = chars_of(banner);
    let (_a0, b0) = match next_word(v.as_slice(), 0) {
        None => return None,
        Some(w) => w,
    };
    let (a1, b1) = match next_word(v.as_slice(), b0) {
        None => {
            assert(words(banner@).len() == 1);
            return None;
        },
        Some(w) => w,
    };
    assert(words(banner@)[1] == v@.subrange(a1 as int, b1 as int));
    let word = copy_range(v.as_slice(), a1, b1);
    let (e0, more0) = next_piece(word.as_slice(), '.', 0);
    if !more0 {
        assert(split(word@, '.').len() == 1);
        return None;
    }
    let (e1, more1) = next_piece(word.as_slice(), '.', e0 + 1);
    let ghost parts = split(word@, '.');
    assert(parts[0] == word@.subrange(0, e0 as int));
    assert(parts[1] == word@.subrange(e0 + 1, e1 as int));
    let major = match parse_u64_exec(word.as_slice(), 0, e0) {
        None => return None,
        Some(m) => m,
    };
    let minor = match parse_u64_exec(word.as_slice(), e0 + 1, e1) {
        None => return None,
        Some(m) => m,
    };
    if !more1 {
        assert(parts.len() == 2);
        return Some((major, minor, 0));
    }
    let (e2, _more2) = next_piece(word.as_slice(), '.', e1 + 1);
    assert(parts.len() > 2);
    assert(parts[2] == word@.subrange(e1 + 1, e2 as int));
    let patch = match parse_u64_exec(word.as_slice(), e1 + 1, e2) {
        None => 0,
        Some(p) => p,
    };
    Some((major, minor, patch))
}

/// The refusal of a typst older than `MINIMUM_TYPST`.
pub open spec fn too_old_message(v: (u64, u64, u64)) -> Seq<char> {
    "typst "@ + decimal(v.0 as nat) + "."@ + decimal(v.1 as nat) + "."@ + decimal(v.2 as nat)
        + " is too old — fy-docs requires Typst 0.14 or later for `--pdf-standard 2.0`; upgrade at https://github.com/typst/typst/releases"@
}

/// Judges the output of `typst --version`: a banner announcing a release older
/// than `MINIMUM_TYPST` is refused; any other output passes, since an
/// unrecognized banner must not block a working install.
pub fn precheck_verdict(stdout: &[u8]) -> (r: Result<(), String>)
    ensures
        match banner_version(utf8_lossy(stdout@)) {
            Some(v) => if older(v, MINIMUM_TYPST) {
                r is Err && r->Err_0@ == too_old_message(v)
            } else {
                r is Ok
            },
            None => r is Ok,
        },
{
    let banner = from_utf8_lossy(stdout);
    match typst_banner_version(banner.as_str()) {
        Some(v) => {
            if is_older(v, MINIMUM_TYPST) {
                let mut m = "typst ".to_owned();
                push_decimal(&mut m, v.0);
                m.append(".");
                push_decimal(&mut m, v.1);
                m.append(".");
                push_decimal(&mut m, v.2);
                m.append(
                    " is too old — fy-docs requires Typst 0.14 or later for `--pdf-standard 2.0`; upgrade at https://github.com/typst/typst/releases",
                );
                Err(m)
            } else {
                Ok(())
            }
        },
        None => Ok(()),
    }
}

/// The name of the throwaway HTML file a target compiles through.
pub open spec fn temp_html_name_of(lang: Seq<char>, pid: u32) -> Seq<char> {
    TEMP_PREFIX@ + (if lang.len() == 0 {
        "root"@
    } else {
        lang
    }) + "_"@ + decimal(pid as nat) + ".html"@
}

/// Names the throwaway HTML file a target compiles through in process `pid`:
/// `_temp_<lang>_<pid>.html`, with `root` for the default target.
pub fn temp_html_name(lang: &str, pid: u32) -> (r: String)
    ensures
        r@ == temp_html_name_of(lang@, pid),
{
    let mut name = TEMP_PREFIX.to_owned();
    if lang.is_empty() {
        name.append("root");
    } else {
        name.append(lang);
    }
    name.append("_");
    push_decimal(&mut name, pid as u64);
    name.append(".html");
    name
}

/// The page pieces of an export: its `<title>` (the project name when it has
/// none), its styles, and its body, which it must have.
pub open spec fn page_of(html: Seq<char>, project_name: Seq<char>) -> Option<
    (Seq<char>, Seq<char>, Seq<char>),
> {
    match body_of(html) {
        None => None,
        Some(body) => Some(
            (
                match between(html, "<title>"@, "</title>"@) {
                    Some(t) => t,
                    None => project_name,
                },
                styles_from(html, 0),
                body,
            ),
        ),
    }
}

/// Reads the page pieces back from one typst HTML export.
pub fn assemble_page(html: &str, project_name: &str) -> (r: Result<ExtractedPage, String>)
    ensures
        match page_of(html@, project_name@) {
            Some(p) => r is Ok && r->Ok_0.title@ == p.0 && r->Ok_0.styles@ == p.1
                && r->Ok_0.body@ == p.2,
            None => r is Err && r->Err_0@ == "typst HTML export contains no <body>"@,
        },
{
    let title = match extract_between(html, "<title>", "</title>") {
        Some(t) => t,
        None => project_name.to_owned(),
    };
    let styles = extract_all_styles(html);
    match extract_body(html) {
        None => Err("typst HTML export contains no <body>".to_owned()),
        Some(body) => Ok(ExtractedPage { title, styles, body }),
    }
}

/// The context a failed export is reported under.
pub open spec fn export_failure_of(format: Seq<char>, target: LanguageTarget) -> Seq<char> {
    "typst "@ + format + " export failed for ["@ + label_of(target.lang@) + "] "@ + target.entry@
}

/// Names a failed export: `typst <format> export failed for [<label>] <entry>`.
pub fn export_failure(format: &str, target: &LanguageTarget) -> (r: String)
    ensures
        r@ == export_failure_of(format@, *target),
{
    let mut m = "typst ".to_owned();
    m.append(format);
    m.append(" export failed for [");
    m.append(lang_label(target));
    m.append("] ");
    m.append(target.entry.as_str());
    m
}

/// Path text as shown: with Windows' verbatim prefixes dropped when `windows`.
pub open spec fn shown(text: Seq<char>, windows: bool) -> Seq<char> {
    if windows {
        verbatim_stripped(text)
    } else {
        text
    }
}

/// What a failed compile reports: its stderr, or its stdout when stderr holds
/// nothing but whitespace.
pub open spec fn failure_text(stderr: Seq<char>, stdout: Seq<char>, windows: bool) -> Seq<char> {
    if trim(shown(stderr, windows)).len() == 0 {
        shown(stdout, windows)
    } else {
        shown(stderr, windows)
    }
}

/// The message of a compile that exited unsuccessfully: typst's stderr, or
/// its stdout when stderr is blank, decoded leniently and with Windows'
/// verbatim path prefixes dropped where paths are Windows paths.
pub fn failure_output(stderr: &[u8], stdout: &[u8]) -> (r: String)
    ensures
        r@ == failure_text(utf8_lossy(stderr@), utf8_lossy(stdout@), false) || r@ == failure_text(
            utf8_lossy(stderr@),
            utf8_lossy(stdout@),
            true,
        ),
{
    let windows = windows_paths();
    let err_text = from_utf8_lossy(stderr);
    let out_text = from_utf8_lossy(stdout);
    let err = strip_verbatim_for(err_text.as_str(), windows);
    let out = strip_verbatim_for(out_text.as_str(), windows);
    let ev = chars_of(err.as_str());
    let (a, b) = trim_bounds(ev.as_slice(), 0, ev.len());
    assert(ev@.subrange(0, ev@.len() as int) =~= ev@);
    if a == b {
        out
    } else {
        err
    }
}

} // verus!
