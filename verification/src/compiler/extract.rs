//! Tolerant decomposition of a typst HTML export: the pieces the page shell
//! needs plus the document's own language. Every extractor scans for the
//! shapes a real export produces instead of requiring a strict parse, so a
//! typst export format drift cannot break page assembly.

use vstd::prelude::*;
use crate::compiler::{label_of, lang_label};
use crate::project::lang::{normalize_lang, normalized, opt_str_view, LanguageTarget};
use crate::project::template_args::opt_view;
use crate::text::{
    matches_at, chars_of, chars_of_string, find, find_char, find_chars, find_from, is_whitespace,
    is_whitespace_exec, lemma_find_from, push_char, push_range, string_of_range,
};

verus! {

/// Page pieces extracted from one typst HTML export.
pub struct ExtractedPage {
    pub title: String,
    pub styles: String,
    pub body: String,
}

/// The text between the first `start` and the first `end` after it.
pub open spec fn between(h: Seq<char>, start: Seq<char>, end: Seq<char>) -> Option<Seq<char>> {
    match find(h, start) {
        None => None,
        Some(i) => match find_from(h, end, i + start.len()) {
            None => None,
            Some(j) => Some(h.subrange(i + start.len(), j)),
        },
    }
}

/// The text between the first `start` and the first `end` after it.
pub fn extract_between(haystack: &str, start: &str, end: &str) -> (r: Option<String>)
    ensures
        opt_view(r) == between(haystack@, start@, end@),
{
    let h = chars_of(haystack);
    let s = chars_of(start);
    let e = chars_of(end);
    match find_chars(h.as_slice(), s.as_slice(), 0) {
        None => None,
        Some(i) => {
            proof {
                lemma_find_from(h@, s@, 0);
                assert(matches_at(h@, s@, i as int));
                assert(i + s@.len() <= h.len());
            }
            let from = i + s.len();
            match find_chars(h.as_slice(), e.as_slice(), from) {
                None => None,
                Some(j) => {
                    proof {
                        lemma_find_from(h@, e@, from as int);
                    }
                    Some(string_of_range(h.as_slice(), from, j))
                },
            }
        },
    }
}

/// The inner text of the first `<body ...>` element: from the `>` that ends
/// its start tag to the next `</body>`.
pub open spec fn body_of(h: Seq<char>) -> Option<Seq<char>> {
    match find(h, "<body"@) {
        None => None,
        Some(tag) => match find_from(h, seq!['>'], tag) {
            None => None,
            Some(gt) => match find_from(h, "</body>"@, gt + 1) {
                None => None,
                Some(to) => Some(h.subrange(gt + 1, to)),
            },
        },
    }
}

/// Extracts the `<body>` inner HTML, tolerating attributes on the opening tag
/// (`<body lang="en">`) so a typst export format drift cannot break page
/// assembly.
pub fn extract_body(html: &str) -> (r: Option<String>)
    ensures
        opt_view(r) == body_of(html@),
{
    let h = chars_of(html);
    let open = chars_of("<body");
    let close = chars_of("</body>");
    match find_chars(h.as_slice(), open.as_slice(), 0) {
        None => None,
        Some(tag) => {
            proof {
                lemma_find_from(h@, open@, 0);
            }
            match find_char(h.as_slice(), '>', tag) {
                None => None,
                Some(gt) => {
                    proof {
                        lemma_find_from(h@, seq!['>'], tag as int);
                        assert(gt + 1 <= h.len());
                    }
                    match find_chars(h.as_slice(), close.as_slice(), gt + 1) {
                        None => None,
                        Some(to) => {
                            proof {
                                lemma_find_from(h@, close@, gt + 1);
                            }
                            Some(string_of_range(h.as_slice(), gt + 1, to))
                        },
                    }
                },
            }
        },
    }
}

/// A character that may follow `<style` in a real start tag: its end or the
/// whitespace before an attribute list.
pub open spec fn ends_tag_name(c: char) -> bool {
    c == '>' || c == ' ' || c == '\t' || c == '\n' || c == '\r'
}

/// The CSS of every `<style>` block of `h[pos..]`, each followed by a newline;
/// the scan stops at a start tag that never ends or a block never closed.
pub open spec fn styles_from(h: Seq<char>, pos: int) -> Seq<char>
    decreases h.len() + 1 - pos,
{
    if pos < 0 || pos > h.len() {
        Seq::empty()
    } else {
        match find_from(h, "<style"@, pos) {
            None => Seq::empty(),
            Some(p) => {
                proof {
                    reveal_strlit("<style");
                    lemma_find_from(h, "<style"@, pos);
                }
                let t = p + "<style"@.len();
                if !(t < h.len() && ends_tag_name(h[t])) {
                    styles_from(h, t)
                } else {
                    match find_from(h, seq!['>'], t) {
                        None => Seq::empty(),
                        Some(gt) => match find_from(h, "</style>"@, gt + 1) {
                            None => Seq::empty(),
                            Some(e) => {
                                proof {
                                    lemma_find_from(h, seq!['>'], t);
                                    lemma_find_from(h, "</style>"@, gt + 1);
                                }
                                h.subrange(gt + 1, e) + seq!['\n'] + styles_from(
                                    h,
                                    e + "</style>"@.len(),
                                )
                            },
                        },
                    }
                }
            },
        }
    }
}

/// Concatenates every `<style>` block's CSS from a typst HTML export. The
/// opening tag may carry attributes (`<style media="print">`), and a missed
/// block would silently drop a real stylesheet, so the scan tolerates them the
/// way [`extract_body`] tolerates them on `<body>`.
pub fn extract_all_styles(html: &str) -> (r: String)
    ensures
        r@ == styles_from(html@, 0),
{
    let h = chars_of(html);
    let open = chars_of("<style");
    let close = chars_of("</style>");
    proof {
        reveal_strlit("<style");
        reveal_strlit("</style>");
    }
    let mut styles = String::new();
    let mut pos: usize = 0;
    loop
        invariant
            pos <= h@.len(),
            h@ == html@,
            open@ == "<style"@,
            close@ == "</style>"@,
            open@.len() == 6,
            close@.len() == 8,
            styles@ + styles_from(h@, pos as int) == styles_from(h@, 0),
        decreases h@.len() + 1 - pos,
    {
        let p = match find_chars(h.as_slice(), open.as_slice(), pos) {
            None => {
                assert(styles@ + Seq::<char>::empty() =~= styles@);
                return styles;
            },
            Some(p) => p,
        };
        proof {
            lemma_find_from(h@, open@, pos as int);
            assert(p + 6 <= h.len());
        }
        let t = p + open.len();
        if !(t < h.len() && (h[t] == '>' || h[t] == ' ' || h[t] == '\t' || h[t] == '\n' || h[t]
            == '\r')) {
            pos = t;
        } else {
            let gt = match find_char(h.as_slice(), '>', t) {
                None => {
                    assert(styles@ + Seq::<char>::empty() =~= styles@);
                    return styles;
                },
                Some(gt) => gt,
            };
            proof {
                lemma_find_from(h@, seq!['>'], t as int);
                assert(gt + 1 <= h.len());
            }
            let e = match find_chars(h.as_slice(), close.as_slice(), gt + 1) {
                None => {
                    assert(styles@ + Seq::<char>::empty() =~= styles@);
                    return styles;
                },
                Some(e) => e,
            };
            proof {
                lemma_find_from(h@, close@, gt + 1);
                assert(e + 8 <= h.len());
            }
            let ghost before = styles@;
            push_range(&mut styles, h.as_slice(), gt + 1, e);
            push_char(&mut styles, '\n');
            let ghost piece = h@.subrange(gt + 1, e as int);
            assert(before + (piece + seq!['\n'] + styles_from(h@, e + close@.len())) =~= before
                + piece + seq!['\n'] + styles_from(h@, e + close@.len()));
            pos = e + close.len();
        }
    }
}

/// The index of the first non-whitespace character of `s` at or after `i`.
pub open spec fn skip_ws(s: Seq<char>, i: int) -> int
    decreases s.len() - i,
{
    if 0 <= i < s.len() && is_whitespace(s[i]) {
        skip_ws(s, i + 1)
    } else {
        i
    }
}

/// The quoted value of the first `lang="..."` attribute in `a[offset..]`
/// whose name starts on a whitespace boundary.
pub open spec fn lang_attribute_from(a: Seq<char>, offset: int) -> Option<Seq<char>>
    decreases a.len() + 1 - offset,
{
    if offset < 0 || offset > a.len() {
        None
    } else {
        match find_from(a, "lang"@, offset) {
            None => None,
            Some(at) => {
                proof {
                    reveal_strlit("lang");
                    lemma_find_from(a, "lang"@, offset);
                }
                let eq = at + 4;
                let w = skip_ws(a, eq + 1);
                if !(at > 0 && is_whitespace(a[at - 1])) || !(eq < a.len() && a[eq] == '=') || !(
                w < a.len() && a[w] == '"') {
                    lang_attribute_from(a, at + 4)
                } else {
                    match find_from(a, seq!['"'], w + 1) {
                        None => lang_attribute_from(a, at + 4),
                        Some(end) => Some(a.subrange(w + 1, end)),
                    }
                }
            },
        }
    }
}

/// The `lang` attribute of the root `<html ...>` start tag.
pub open spec fn root_lang(h: Seq<char>) -> Option<Seq<char>> {
    match find(h, "<html"@) {
        None => None,
        Some(i) => match find_from(h, seq!['>'], i + 5) {
            None => None,
            Some(gt) => lang_attribute_from(h.subrange(i + 5, gt), 0),
        },
    }
}

/// Reads the `lang` attribute of the root `<html>` start tag of a typst export.
/// Only that tag is scanned and an attribute name must start on a whitespace
/// boundary, so a `lang` deeper in the body and `xml:lang` are both ignored.
pub fn extract_root_lang(html: &str) -> (r: Option<String>)
    ensures
        opt_view(r) == root_lang(html@),
{
    let h = chars_of(html);
    let open = chars_of("<html");
    proof {
        reveal_strlit("<html");
    }
    let i = match find_chars(h.as_slice(), open.as_slice(), 0) {
        None => return None,
        Some(i) => i,
    };
    proof {
        lemma_find_from(h@, open@, 0);
        assert(i + open@.len() <= h.len());
    }
    let start = i + open.len();
    let gt = match find_char(h.as_slice(), '>', start) {
        None => return None,
        Some(gt) => gt,
    };
    proof {
        lemma_find_from(h@, seq!['>'], start as int);
    }
    let a = crate::text::copy_range(h.as_slice(), start, gt);
    let key = chars_of("lang");
    proof {
        reveal_strlit("lang");
    }
    let mut offset: usize = 0;
    loop
        invariant
            offset <= a@.len(),
            key@ == "lang"@,
            key@.len() == 4,
            root_lang(html@) == lang_attribute_from(a@, 0),
            lang_attribute_from(a@, offset as int) == lang_attribute_from(a@, 0),
        decreases a@.len() + 1 - offset,
    {
        let at = match find_chars(a.as_slice(), key.as_slice(), offset) {
            None => return None,
            Some(at) => at,
        };
        proof {
            lemma_find_from(a@, key@, offset as int);
        }
        let eq = at + 4;
        let mut w = eq;
        if eq < a.len() {
            w = eq + 1;
            while w < a.len() && is_whitespace_exec(a[w])
                invariant
                    eq + 1 <= w <= a@.len(),
                    skip_ws(a@, eq + 1) == skip_ws(a@, w as int),
                decreases a@.len() - w,
            {
                w = w + 1;
            }
        }
        if at > 0 && is_whitespace_exec(a[at - 1]) && eq < a.len() && a[eq] == '=' && w < a.len()
            && a[w] == '"' {
            match find_char(a.as_slice(), '"', w + 1) {
                None => {},
                Some(end) => {
                    proof {
                        lemma_find_from(a@, seq!['"'], w + 1);
                    }
                    return Some(string_of_range(a.as_slice(), w + 1, end));
                },
            }
        }
        offset = at + 4;
    }
}

/// The warning for a target whose exported language disagrees with the one
/// resolved from declarations.
pub open spec fn drift_note(target: LanguageTarget, exported: Seq<char>) -> Seq<char> {
    "[fy-docs] language mismatch for ["@ + label_of(target.lang@) + "]: typst typesets `"@
        + exported + "` but fy-docs reports `"@ + target.content_lang@
        + "` — the entry's `lang:` and its language directory disagree: "@ + target.entry@
}

/// The drift warning, if the export names a language and it differs from the
/// resolved one once both are normalized.
pub open spec fn drift(target: LanguageTarget, exported: Option<Seq<char>>) -> Option<Seq<char>> {
    match exported {
        None => None,
        Some(e) => if normalized(e) == normalized(target.content_lang@) {
            None
        } else {
            Some(drift_note(target, e))
        },
    }
}

/// Describes a target whose exported language disagrees with the one fy-docs
/// resolved from declarations. The two share a single root — the `lang:` the
/// template sets and the directory name — so a divergence means one of them is
/// stale. Case and separator variants name the same tag and stay quiet, and an
/// export without a root language offers nothing to compare.
pub fn language_drift(target: &LanguageTarget, exported: Option<&str>) -> (r: Option<String>)
    ensures
        opt_view(r) == drift(*target, opt_str_view(exported)),
{
    let exported = match exported {
        None => return None,
        Some(e) => e,
    };
    let a = normalize_lang(exported);
    let b = normalize_lang(target.content_lang.as_str());
    let av = chars_of_string(&a);
    if crate::text::eq_str(av.as_slice(), b.as_str()) {
        return None;
    }
    let mut note = "[fy-docs] language mismatch for [".to_owned();
    note.append(lang_label(target));
    note.append("]: typst typesets `");
    note.append(exported);
    note.append("` but fy-docs reports `");
    note.append(target.content_lang.as_str());
    note.append("` — the entry's `lang:` and its language directory disagree: ");
    note.append(target.entry.as_str());
    Some(note)
}

} // verus!
