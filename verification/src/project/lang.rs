//! Language identity: the per-language compile target and the BCP 47
//! toolkit that normalizes, formats, and labels language tags.

use vstd::prelude::*;
use crate::project::template_args::{main_typ_lang, template_argument};
use crate::text::{
    char_to_uppercase, char_uppercase, chars_of, lowercase, next_piece,
    replace_all, replace_str, split, split_from, string_of_range, to_lowercase, to_uppercase,
    trim, trim_bounds, uppercase, eq_str, all_ascii, ascii_to_lower,
};

verus! {

/// A target language document within a project.
#[derive(Debug, Clone, PartialEq, Eq)]
pub struct LanguageTarget {
    /// Language identifier, e.g. "zh-CN", "en", "zh-TW", or empty string for default.
    pub lang: String,
    /// This target's document language as a normalized BCP 47 tag. Resolved
    /// from declarations alone — the language directory, else the entry's
    /// `lang:` argument, else `en` — and used for the page's `<html lang>`.
    pub content_lang: String,
    /// Display name in language switcher, e.g. "简体中文", "English".
    pub display_name: String,
    /// Path to entry `main.typ` for this language.
    pub entry: String,
    /// Output html filename, e.g. "index.html" or "index_zh-CN.html".
    pub html_file_name: String,
    /// Release PDF filename.
    pub pdf_file_name: String,
}

/// A language tag made comparable: trimmed, lowercase, `_` written `-`.
pub open spec fn normalized(lang: Seq<char>) -> Seq<char> {
    replace_all(lowercase(trim(lang)), "_"@, "-"@)
}

/// The normalized form of an ASCII tag: trimmed, `A`-`Z` lowered, `_` written `-`.
pub open spec fn normalized_ascii(lang: Seq<char>) -> Seq<char> {
    replace_all(trim(lang).map_values(|c: char| ascii_to_lower(c)), "_"@, "-"@)
}

/// Normalizes a language tag for comparison: trimmed, lowercase, and with `_`
/// interchangeable with `-`, so `zh_CN` and `ZH-cn` both mean `zh-CN`.
pub fn normalize_lang(lang: &str) -> (r: String)
    ensures
        r@ == normalized(lang@),
        all_ascii(lang@) ==> r@ == normalized_ascii(lang@),
{
    let v = chars_of(lang);
    let (a, b) = trim_bounds(v.as_slice(), 0, v.len());
    assert(v@.subrange(0, v@.len() as int) =~= v@);
    let trimmed = string_of_range(v.as_slice(), a, b);
    assert(all_ascii(lang@) ==> all_ascii(trimmed@)) by {
        if all_ascii(lang@) {
            assert forall|i: int| 0 <= i < trimmed@.len() implies crate::text::is_ascii_char(
                #[trigger] trimmed@[i],
            ) by {
                assert(trimmed@[i] == v@[a + i]);
            }
        }
    }
    let lower = to_lowercase(trimmed.as_str());
    proof {
        reveal_strlit("_");
    }
    replace_str(lower.as_str(), "_", "-")
}

/// One subtag after the base, cased by length: two characters are a region
/// (`CN`), longer ones a script or variant in title case (`Hans`).
pub open spec fn formatted_subtag(subtag: Seq<char>) -> Seq<char> {
    if subtag.len() == 2 {
        uppercase(subtag)
    } else if subtag.len() == 0 {
        Seq::empty()
    } else {
        char_uppercase(subtag[0]) + subtag.drop_first()
    }
}

/// The subtags after the base, each written `-` and its formatted form.
pub open spec fn dashed_subtags(parts: Seq<Seq<char>>) -> Seq<char>
    decreases parts.len(),
{
    if parts.len() == 0 {
        Seq::empty()
    } else {
        seq!['-'] + formatted_subtag(parts[0]) + dashed_subtags(parts.drop_first())
    }
}

/// A tag in BCP 47 display shape: the base subtag as written, every following
/// subtag cased by length.
pub open spec fn formatted_lang(tag: Seq<char>) -> Seq<char> {
    split(tag, '-')[0] + dashed_subtags(split(tag, '-').drop_first())
}

fn format_subtag(v: &[char], from: usize, to: usize) -> (r: String)
    requires
        from <= to <= v.len(),
    ensures
        r@ == formatted_subtag(v@.subrange(from as int, to as int)),
{
    let piece = string_of_range(v, from, to);
    if to - from == 2 {
        to_uppercase(piece.as_str())
    } else if to == from {
        String::new()
    } else {
        let mut first = char_to_uppercase(v[from]);
        let rest = string_of_range(v, from + 1, to);
        first.append(rest.as_str());
        assert(v@.subrange(from as int, to as int).drop_first() =~= v@.subrange(
            from + 1,
            to as int,
        ));
        first
    }
}

/// Rewrites an unregistered tag into BCP 47 display shape: the base subtag
/// stays as written and every following subtag is cased by length. Guessing a
/// name would be worse than showing a correct code.
pub fn format_lang(tag: &str) -> (r: String)
    ensures
        r@ == formatted_lang(tag@),
{
    let v = chars_of(tag);
    let (end, more) = next_piece(v.as_slice(), '-', 0);
    let mut out = string_of_range(v.as_slice(), 0, end);
    let ghost parts = split(tag@, '-');
    assert(parts == seq![v@.subrange(0, end as int)] + (if more {
        split_from(v@, '-', end + 1)
    } else {
        Seq::empty()
    }));
    assert(parts[0] == v@.subrange(0, end as int));
    assert(parts.drop_first() =~= (if more {
        split_from(v@, '-', end + 1)
    } else {
        Seq::<Seq<char>>::empty()
    }));
    if !more {
        return out;
    }
    let mut i = end + 1;
    loop
        invariant
            i <= v.len(),
            v@ == tag@,
            formatted_lang(tag@) == out@ + dashed_subtags(split_from(v@, '-', i as int)),
        decreases v.len() - i,
    {
        let (e, m) = next_piece(v.as_slice(), '-', i);
        let ghost ps = split_from(v@, '-', i as int);
        assert(ps[0] == v@.subrange(i as int, e as int));
        assert(ps.drop_first() =~= (if m {
            split_from(v@, '-', e + 1)
        } else {
            Seq::<Seq<char>>::empty()
        }));
        crate::text::push_char(&mut out, '-');
        let sub = format_subtag(v.as_slice(), i, e);
        out.append(sub.as_str());
        if !m {
            assert(dashed_subtags(Seq::<Seq<char>>::empty()) == Seq::<char>::empty());
            assert(out@ =~= out@ + Seq::<char>::empty());
            return out;
        }
        i = e + 1;
    }
}

/// The endonym shown for a registered tag, or the tag's display shape.
pub open spec fn display_name(lang: Seq<char>) -> Seq<char> {
    let n = normalized(lang);
    if n == "zh"@ || n == "zh-cn"@ || n == "zh-hans"@ {
        "简体中文"@
    } else if n == "zh-tw"@ || n == "zh-hk"@ || n == "zh-hant"@ {
        "繁體中文"@
    } else if n == "en"@ || n == "en-us"@ || n == "en-gb"@ {
        "English"@
    } else if n == "ja"@ || n == "ja-jp"@ {
        "日本語"@
    } else if n == "de"@ || n == "de-de"@ {
        "Deutsch"@
    } else if n == "fr"@ || n == "fr-fr"@ {
        "Français"@
    } else if n == "ru"@ || n == "ru-ru"@ {
        "Русский"@
    } else if n == "es"@ || n == "es-es"@ {
        "Español"@
    } else {
        formatted_lang(n)
    }
}

/// Maps language codes to user-friendly native display labels.
pub fn lang_display_name(lang: &str) -> (r: String)
    ensures
        r@ == display_name(lang@),
{
    let n = normalize_lang(lang);
    let v = chars_of(n.as_str());
    let s = v.as_slice();
    if eq_str(s, "zh") || eq_str(s, "zh-cn") || eq_str(s, "zh-hans") {
        "简体中文".to_owned()
    } else if eq_str(s, "zh-tw") || eq_str(s, "zh-hk") || eq_str(s, "zh-hant") {
        "繁體中文".to_owned()
    } else if eq_str(s, "en") || eq_str(s, "en-us") || eq_str(s, "en-gb") {
        "English".to_owned()
    } else if eq_str(s, "ja") || eq_str(s, "ja-jp") {
        "日本語".to_owned()
    } else if eq_str(s, "de") || eq_str(s, "de-de") {
        "Deutsch".to_owned()
    } else if eq_str(s, "fr") || eq_str(s, "fr-fr") {
        "Français".to_owned()
    } else if eq_str(s, "ru") || eq_str(s, "ru-ru") {
        "Русский".to_owned()
    } else if eq_str(s, "es") || eq_str(s, "es-es") {
        "Español".to_owned()
    } else {
        format_lang(n.as_str())
    }
}

/// The language a target's declarations name: its directory, else (for the
/// default target) the `lang:` its entry declares, else nothing.
pub open spec fn declared_lang(dir_name: Seq<char>, entry_text: Option<Seq<char>>) -> Seq<char> {
    if dir_name.len() > 0 {
        dir_name
    } else {
        match entry_text {
            Some(text) => match template_argument(text, "lang"@) {
                Some(lang) => lang,
                None => Seq::empty(),
            },
            None => Seq::empty(),
        }
    }
}

/// A target's content language: the normalized declaration in display shape,
/// or `en` — the fy-spec template's own default — when nothing is declared.
pub open spec fn content_lang_of(dir_name: Seq<char>, entry_text: Option<Seq<char>>) -> Seq<char> {
    let n = normalized(declared_lang(dir_name, entry_text));
    if declared_lang(dir_name, entry_text).len() == 0 || n.len() == 0 {
        "en"@
    } else {
        formatted_lang(n)
    }
}

/// An optional borrowed string as its characters.
pub open spec fn opt_str_view(o: Option<&str>) -> Option<Seq<char>> {
    match o {
        Some(s) => Some(s@),
        None => None,
    }
}

/// Resolves a target's content language from declarations: its language
/// directory when it has one, otherwise the `lang:` its entry declares
/// (`entry_text` is the entry's text, `None` when it cannot be read),
/// otherwise `en`.
pub fn resolve_content_lang(dir_name: &str, entry_text: Option<&str>) -> (r: String)
    ensures
        r@ == content_lang_of(dir_name@, opt_str_view(entry_text)),
{
    let declared: String = if !dir_name.is_empty() {
        dir_name.to_owned()
    } else {
        match entry_text {
            Some(text) => match main_typ_lang(text) {
                Some(lang) => lang,
                None => String::new(),
            },
            None => String::new(),
        }
    };
    assert(declared@ == declared_lang(dir_name@, opt_str_view(entry_text)));
    let normalized_tag = normalize_lang(declared.as_str());
    proof {
        if declared@.len() == 0 {
            assert(trim(declared@) =~= declared@) by {
                reveal_with_fuel(crate::text::trim_start, 2);
                reveal_with_fuel(crate::text::trim_end, 2);
            }
            assert(normalized_tag@.len() == 0);
        }
    }
    if normalized_tag.as_str().is_empty() {
        "en".to_owned()
    } else {
        format_lang(normalized_tag.as_str())
    }
}


/// The page a target's HTML lands in: `index.html` for the default target.
pub open spec fn html_file_name_for(lang: Seq<char>) -> Seq<char> {
    if lang.len() == 0 {
        "index.html"@
    } else {
        "index_"@ + lang + ".html"@
    }
}

/// The release PDF name of a target of package `pkg` at `version`.
pub open spec fn pdf_file_name_for(lang: Seq<char>, pkg: Seq<char>, version: Seq<char>) -> Seq<
    char,
> {
    if lang.len() == 0 {
        pkg + "_v"@ + version + "_specification.pdf"@
    } else {
        pkg + "_v"@ + version + "_"@ + lang + "_specification.pdf"@
    }
}

/// A language target as plain text: what every contract speaks of.
pub struct TargetView {
    pub lang: Seq<char>,
    pub content_lang: Seq<char>,
    pub display_name: Seq<char>,
    pub entry: Seq<char>,
    pub html_file_name: Seq<char>,
    pub pdf_file_name: Seq<char>,
}

impl View for LanguageTarget {
    type V = TargetView;

    open spec fn view(&self) -> TargetView {
        TargetView {
            lang: self.lang@,
            content_lang: self.content_lang@,
            display_name: self.display_name@,
            entry: self.entry@,
            html_file_name: self.html_file_name@,
            pdf_file_name: self.pdf_file_name@,
        }
    }
}

/// The target that these declarations describe.
pub open spec fn declared_target(
    lang: Seq<char>,
    display_name: Seq<char>,
    entry: Seq<char>,
    pkg_name: Seq<char>,
    version: Seq<char>,
    entry_text: Option<Seq<char>>,
) -> TargetView {
    TargetView {
        lang,
        content_lang: content_lang_of(lang, entry_text),
        display_name,
        entry,
        html_file_name: html_file_name_for(lang),
        pdf_file_name: pdf_file_name_for(lang, pkg_name, version),
    }
}

impl LanguageTarget {
    /// Builds a target from its declarations: the language directory name
    /// (empty for the default target), the switcher label, the entry path and
    /// the entry's text (`None` when unreadable). The package name and
    /// resolved version shape both output file names, so the naming rules
    /// live in exactly this one place.
    pub fn new(
        lang: &str,
        display_name: &str,
        entry: String,
        pkg_name: &str,
        version: &str,
        entry_text: Option<&str>,
    ) -> (t: Self)
        ensures
            t@ == declared_target(
                lang@,
                display_name@,
                entry@,
                pkg_name@,
                version@,
                opt_str_view(entry_text),
            ),
    {
        let html_file_name = if lang.is_empty() {
            "index.html".to_owned()
        } else {
            let mut name = "index_".to_owned();
            name.append(lang);
            name.append(".html");
            name
        };
        let mut pdf_file_name = pkg_name.to_owned();
        pdf_file_name.append("_v");
        pdf_file_name.append(version);
        if !lang.is_empty() {
            pdf_file_name.append("_");
            pdf_file_name.append(lang);
        }
        pdf_file_name.append("_specification.pdf");
        LanguageTarget {
            lang: lang.to_owned(),
            content_lang: resolve_content_lang(lang, entry_text),
            display_name: display_name.to_owned(),
            entry,
            html_file_name,
            pdf_file_name,
        }
    }
}

} // verus!
