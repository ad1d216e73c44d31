//! The documentation project: its language targets, the language filter, the
//! typst compile root and the `.gitignore` rule.

pub mod cargo_meta;
pub mod imports;
pub mod lang;
pub mod template_args;

use vstd::prelude::*;
use crate::paths::{join_path, joined};
use crate::project::lang::{
    declared_target, display_name, lang_display_name, normalize_lang, normalized, opt_str_view,
    LanguageTarget, TargetView,
};
use crate::project::imports::strings_view;
use crate::project::template_args::{main_typ_version, opt_view, template_argument};
use crate::text::{
    chars_of, next_piece, split, lemma_lines_concat, lemma_lines_push_newline, lemma_single_line,
    lemma_trim_drop_ws_last, lines, lines_from, next_line, strip_cr, trim, trim_bounds, trim_end,
    trim_start,
};

verus! {

/// A documentation project: `<cwd>/docs/` plus everything needed to compile,
/// build, and serve single or multi-language specifications.
#[derive(Debug, Clone)]
pub struct Project {
    /// Package name (Cargo.toml `name`, else the directory name).
    pub name: String,
    /// Package version (Cargo.toml, else `version:` in main.typ, else 0.1.0).
    pub version: String,
    /// GitHub repository URL from Cargo.toml, when supplied.
    pub repository: Option<String>,
    /// All detected language targets (single-language or i18n).
    pub targets: Vec<LanguageTarget>,
    /// The `docs/` source directory.
    pub docs_dir: String,
    /// Typst compile root: the ancestor directory that satisfies every
    /// absolute `#import "/..."` used by the sources.
    pub root: String,
    /// Generated HTML output: `docs/target/`.
    pub target_dir: String,
    /// Versioned PDF directory: `docs/release/`.
    pub release_dir: String,
    /// Directories to watch for changes (the docs plus imported local packages).
    pub watch_dirs: Vec<String>,
}

impl Project {
    /// A minimal project rooted at `docs_dir` for tests: no targets, the
    /// docs directory itself under watch.
    pub fn for_tests(docs_dir: &str) -> (p: Self)
        ensures
            p.name@ == "test"@,
            p.version@ == "0.1.0"@,
            p.repository is None,
            p.targets@.len() == 0,
            p.docs_dir@ == docs_dir@,
            p.root@ == docs_dir@,
            p.target_dir@ == joined(docs_dir@, "target"@),
            p.release_dir@ == joined(docs_dir@, "release"@),
            p.watch_dirs@.len() == 1,
            p.watch_dirs@[0]@ == docs_dir@,
    {
        let mut watch_dirs: Vec<String> = Vec::new();
        watch_dirs.push(docs_dir.to_owned());
        Project {
            name: "test".to_owned(),
            version: "0.1.0".to_owned(),
            repository: None,
            targets: Vec::new(),
            docs_dir: docs_dir.to_owned(),
            root: docs_dir.to_owned(),
            target_dir: join_path(docs_dir, "target"),
            release_dir: join_path(docs_dir, "release"),
            watch_dirs,
        }
    }
}

/// The target is named by the normalized filter `filter`.
pub open spec fn names_lang(t: LanguageTarget, filter: Seq<char>) -> bool {
    t.lang@.len() > 0 && normalized(t.lang@) == filter
}

/// The target is kept under the normalized filter `filter`: it is named by it
/// or it is the default target.
pub open spec fn kept_by(t: LanguageTarget, filter: Seq<char>) -> bool {
    t.lang@.len() == 0 || normalized(t.lang@) == filter
}

/// The targets kept under the normalized filter, in their order.
pub open spec fn kept_targets(targets: Seq<LanguageTarget>, filter: Seq<char>) -> Seq<LanguageTarget>
    decreases targets.len(),
{
    if targets.len() == 0 {
        Seq::empty()
    } else if kept_by(targets.last(), filter) {
        kept_targets(targets.drop_last(), filter).push(targets.last())
    } else {
        kept_targets(targets.drop_last(), filter)
    }
}

/// The targets a language filter selects: all of them without a filter; with
/// one, nothing unless it names a language, and then that language plus the
/// default target.
pub open spec fn selection(targets: Seq<LanguageTarget>, filter: Option<Seq<char>>) -> Seq<
    LanguageTarget,
> {
    match filter {
        None => targets,
        Some(f) => if exists|i: int| 0 <= i < targets.len() && names_lang(
            #[trigger] targets[i],
            normalized(f),
        ) {
            kept_targets(targets, normalized(f))
        } else {
            Seq::empty()
        },
    }
}

/// A sequence of borrowed targets as the targets themselves.
pub open spec fn derefs(s: Seq<&LanguageTarget>) -> Seq<LanguageTarget> {
    Seq::new(s.len(), |i: int| *s[i])
}

/// `a` spells the same characters as `b`.
fn same_chars(a: &[char], b: &[char]) -> (r: bool)
    ensures
        r == (a@ == b@),
{
    if a.len() != b.len() {
        return false;
    }
    let mut i: usize = 0;
    while i < a.len()
        invariant
            i <= a.len() == b.len(),
            forall|k: int| 0 <= k < i ==> a@[k] == b@[k],
        decreases a.len() - i,
    {
        if a[i] != b[i] {
            return false;
        }
        i = i + 1;
    }
    assert(a@ =~= b@);
    true
}

impl Project {
    /// Selects targets matching an optional language filter.
    ///
    /// The `default` target (a root `main.typ`) rides along only when the
    /// filter matched at least one named language: a filter that matches
    /// nothing selects nothing, so the caller surfaces the typo instead of
    /// quietly building the default page.
    pub fn selected_targets(&self, lang_filter: Option<&str>) -> (r: Vec<&LanguageTarget>)
        ensures
            derefs(r@) == selection(
                self.targets@,
                match lang_filter {
                    Some(f) => Some(f@),
                    None => None,
                },
            ),
    {
        let ghost filter_view = match lang_filter {
            Some(f) => Some(f@),
            None => None,
        };
        let mut all: Vec<&LanguageTarget> = Vec::new();
        let filter = match lang_filter {
            None => {
                let mut i: usize = 0;
                while i < self.targets.len()
                    invariant
                        i <= self.targets@.len(),
                        all@.len() == i,
                        forall|k: int| 0 <= k < i ==> *all@[k] == self.targets@[k],
                    decreases self.targets.len() - i,
                {
                    all.push(&self.targets[i]);
                    i = i + 1;
                }
                assert(derefs(all@) =~= self.targets@);
                return all;
            },
            Some(f) => normalize_lang(f),
        };
        let fv = chars_of(filter.as_str());
        let mut matched = false;
        let mut i: usize = 0;
        while i < self.targets.len()
            invariant
                i <= self.targets@.len(),
                fv@ == filter@,
                matched <==> exists|j: int| 0 <= j < i && names_lang(#[trigger] self.targets@[j], fv@),
            decreases self.targets.len() - i,
        {
            let lv = chars_of(self.targets[i].lang.as_str());
            if lv.len() > 0 {
                let nv = normalize_lang(self.targets[i].lang.as_str());
                let nc = chars_of(nv.as_str());
                if same_chars(nc.as_slice(), fv.as_slice()) {
                    matched = true;
                }
            }
            i = i + 1;
        }
        if !matched {
            assert(derefs(all@) =~= Seq::<LanguageTarget>::empty());
            return all;
        }
        let mut i: usize = 0;
        while i < self.targets.len()
            invariant
                i <= self.targets@.len(),
                fv@ == filter@,
                all@.len() == kept_targets(self.targets@.take(i as int), fv@).len(),
                forall|k: int| 0 <= k < all@.len() ==> *all@[k] == kept_targets(self.targets@.take(i as int), fv@)[k],
            decreases self.targets.len() - i,
        {
            let t = &self.targets[i];
            let lv = chars_of(t.lang.as_str());
            let nv = normalize_lang(t.lang.as_str());
            let nc = chars_of(nv.as_str());
            assert(self.targets@.take(i + 1).drop_last() =~= self.targets@.take(i as int));
            if lv.len() == 0 || same_chars(nc.as_slice(), fv.as_slice()) {
                all.push(t);
            }
            i = i + 1;
        }
        assert(derefs(all@) =~= kept_targets(self.targets@.take(i as int), fv@));
        assert(self.targets@.take(self.targets@.len() as int) =~= self.targets@);
        all
    }
}


/// Case and separator variants of a language filter select the same targets.
pub proof fn lemma_filter_variants_select_alike(
    targets: Seq<LanguageTarget>,
    a: Seq<char>,
    b: Seq<char>,
)
    requires
        normalized(a) == normalized(b),
    ensures
        selection(targets, Some(a)) == selection(targets, Some(b)),
{
}

/// A filter that names no language selects nothing, not even the default
/// target, so a typo is surfaced instead of quietly building something else.
pub proof fn lemma_unmatched_filter_selects_nothing(targets: Seq<LanguageTarget>, f: Seq<char>)
    requires
        forall|i: int| 0 <= i < targets.len() ==> !names_lang(#[trigger] targets[i], normalized(f)),
    ensures
        selection(targets, Some(f)).len() == 0,
{
}

proof fn lemma_kept_targets(s: Seq<LanguageTarget>, f: Seq<char>)
    ensures
        forall|x: LanguageTarget| #[trigger] kept_targets(s, f).contains(x) <==> (s.contains(x) && kept_by(x, f)),
    decreases s.len(),
{
    if s.len() > 0 {
        lemma_kept_targets(s.drop_last(), f);
        let d = kept_targets(s.drop_last(), f);
        assert forall|x: LanguageTarget| #[trigger] kept_targets(s, f).contains(x) <==> (s.contains(x) && kept_by(x, f)) by {
            if s.contains(x) {
                let k = choose|k: int| 0 <= k < s.len() && s[k] == x;
                if k < s.len() - 1 {
                    assert(s.drop_last()[k] == x);
                }
            }
            if s.drop_last().contains(x) {
                let k = choose|k: int| 0 <= k < s.drop_last().len() && s.drop_last()[k] == x;
                assert(s[k] == x);
            }
            if kept_by(s.last(), f) {
                assert(kept_targets(s, f) == d.push(s.last()));
                if d.push(s.last()).contains(x) {
                    let k = choose|k: int| 0 <= k < d.push(s.last()).len() && d.push(s.last())[k] == x;
                    if k < d.len() {
                        assert(d[k] == x);
                    }
                }
                if d.contains(x) {
                    let k = choose|k: int| 0 <= k < d.len() && d[k] == x;
                    assert(d.push(s.last())[k] == x);
                }
                if x == s.last() {
                    assert(d.push(s.last())[d.len() as int] == x);
                }
            }
        }
    }
}

/// A filter that names a language selects exactly the targets it names
/// together with the default target: the default rides along, and nothing
/// else is built.
pub proof fn lemma_matched_filter_keeps_default(targets: Seq<LanguageTarget>, f: Seq<char>)
    requires
        exists|i: int| 0 <= i < targets.len() && names_lang(#[trigger] targets[i], normalized(f)),
    ensures
        forall|x: LanguageTarget| #[trigger] selection(targets, Some(f)).contains(x) <==> (targets.contains(x) && (x.lang@.len() == 0 || normalized(x.lang@) == normalized(f))),
{
    lemma_kept_targets(targets, normalized(f));
}

/// The directory an import pulls in, under the compile root: the root joined
/// with the import's first path component.
pub open spec fn import_dir_of(root: Seq<char>, import: Seq<char>) -> Seq<char> {
    joined(root, split(import, '/')[0])
}

/// The directory under the compile root that an absolute import pulls in,
/// to be watched with the docs.
pub fn import_dir(root: &str, import: &str) -> (r: String)
    ensures
        r@ == import_dir_of(root@, import@),
{
    let v = chars_of(import);
    let (end, _more) = next_piece(v.as_slice(), '/', 0);
    let top = crate::text::string_of_range(v.as_slice(), 0, end);
    join_path(root, top.as_str())
}

/// Adds a directory to those under watch unless it is already there.
pub fn add_watch_dir(dirs: &mut Vec<String>, dir: String)
    ensures
        strings_view(final(dirs)@) == if strings_view(old(dirs)@).contains(dir@) {
            strings_view(old(dirs)@)
        } else {
            strings_view(old(dirs)@).push(dir@)
        },
{
    let dv = chars_of(dir.as_str());
    let mut i: usize = 0;
    while i < dirs.len()
        invariant
            i <= dirs@.len(),
            dv@ == dir@,
            forall|k: int| 0 <= k < i ==> dirs@[k]@ != dir@,
        decreases dirs.len() - i,
    {
        if crate::text::eq_str(dv.as_slice(), dirs[i].as_str()) {
            assert(strings_view(dirs@)[i as int] == dir@);
            return;
        }
        i = i + 1;
    }
    assert(!strings_view(dirs@).contains(dir@)) by {
        assert forall|k: int| 0 <= k < strings_view(dirs@).len() implies strings_view(dirs@)[k] != dir@ by {
            assert(strings_view(dirs@)[k] == dirs@[k]@);
        }
    }
    let ghost before = strings_view(dirs@);
    dirs.push(dir);
    assert(strings_view(dirs@) =~= before.push(dirs@[dirs@.len() - 1]@));
}

/// Adding watched directories one by one never watches a directory twice.
pub proof fn lemma_watch_dirs_stay_distinct(dirs: Seq<Seq<char>>, dir: Seq<char>)
    requires
        dirs.no_duplicates(),
    ensures
        (if dirs.contains(dir) {
            dirs
        } else {
            dirs.push(dir)
        }).no_duplicates(),
{
    if !dirs.contains(dir) {
        assert forall|i: int, j: int| 0 <= i < j < dirs.push(dir).len() implies dirs.push(dir)[i]
            != dirs.push(dir)[j] by {
            if j == dirs.len() {
                assert(dirs.push(dir)[i] == dirs[i]);
            }
        }
    }
}

/// `a` comes no later than `b` in the order of their characters' code points
/// (which is the byte order of their UTF-8 encodings, the order of `str`).
pub open spec fn lex_le(a: Seq<char>, b: Seq<char>) -> bool
    decreases a.len(),
{
    if a.len() == 0 {
        true
    } else if b.len() == 0 {
        false
    } else if a[0] != b[0] {
        a[0] < b[0]
    } else {
        lex_le(a.drop_first(), b.drop_first())
    }
}

/// Any two texts are ordered one way or the other.
pub proof fn lemma_lex_total(a: Seq<char>, b: Seq<char>)
    ensures
        lex_le(a, b) || lex_le(b, a),
    decreases a.len(),
{
    if a.len() > 0 && b.len() > 0 && a[0] == b[0] {
        lemma_lex_total(a.drop_first(), b.drop_first());
    }
}

/// Texts ordered both ways are equal.
pub proof fn lemma_lex_antisymmetric(a: Seq<char>, b: Seq<char>)
    requires
        lex_le(a, b),
        lex_le(b, a),
    ensures
        a == b,
    decreases a.len(),
{
    if a.len() == 0 {
        assert(b.len() == 0);
        assert(a =~= b);
    } else {
        assert(a[0] == b[0]);
        lemma_lex_antisymmetric(a.drop_first(), b.drop_first());
        assert(a =~= seq![a[0]] + a.drop_first());
        assert(b =~= seq![b[0]] + b.drop_first());
    }
}

/// The order of texts is transitive.
pub proof fn lemma_lex_transitive(a: Seq<char>, b: Seq<char>, c: Seq<char>)
    requires
        lex_le(a, b),
        lex_le(b, c),
    ensures
        lex_le(a, c),
    decreases a.len(),
{
    if a.len() > 0 && a[0] == b[0] && b[0] == c[0] {
        lemma_lex_transitive(a.drop_first(), b.drop_first(), c.drop_first());
    }
}

/// Decides `lex_le`.
pub fn lex_le_exec(a: &[char], b: &[char]) -> (r: bool)
    ensures
        r == lex_le(a@, b@),
{
    let mut i: usize = 0;
    assert(a@.skip(0) =~= a@);
    assert(b@.skip(0) =~= b@);
    loop
        invariant
            i <= a.len(),
            i <= b.len(),
            lex_le(a@, b@) == lex_le(a@.skip(i as int), b@.skip(i as int)),
        decreases a.len() - i,
    {
        if i == a.len() {
            return true;
        }
        if i == b.len() {
            return false;
        }
        if a[i] != b[i] {
            return a[i] < b[i];
        }
        assert(a@.skip(i as int).drop_first() =~= a@.skip(i + 1));
        assert(b@.skip(i as int).drop_first() =~= b@.skip(i + 1));
        i = i + 1;
    }
}

/// Where a stable insertion puts `t` into `s`: after every target whose
/// language orders no later than its own.
pub open spec fn insert_position(s: Seq<TargetView>, t: TargetView) -> int
    decreases s.len(),
{
    if s.len() == 0 || lex_le(s.last().lang, t.lang) {
        s.len() as int
    } else {
        insert_position(s.drop_last(), t)
    }
}

/// `s` with `t` inserted at its stable position.
pub open spec fn insert_by_lang(s: Seq<TargetView>, t: TargetView) -> Seq<TargetView> {
    s.insert(insert_position(s, t), t)
}

/// `s` stably sorted by language, by insertion in order.
pub open spec fn sorted_by_lang(s: Seq<TargetView>) -> Seq<TargetView>
    decreases s.len(),
{
    if s.len() == 0 {
        Seq::empty()
    } else {
        insert_by_lang(sorted_by_lang(s.drop_last()), s.last())
    }
}

pub proof fn lemma_insert_position_bounds(s: Seq<TargetView>, t: TargetView)
    ensures
        0 <= insert_position(s, t) <= s.len(),
    decreases s.len(),
{
    if s.len() > 0 && !lex_le(s.last().lang, t.lang) {
        lemma_insert_position_bounds(s.drop_last(), t);
    }
}

/// Inserts `t` into `v` at its stable position by language.
fn insert_target(v: &mut Vec<LanguageTarget>, t: LanguageTarget)
    ensures
        final(v)@.map_values(|x: LanguageTarget| x@) == insert_by_lang(
            old(v)@.map_values(|x: LanguageTarget| x@),
            t@,
        ),
{
    let ghost views = v@.map_values(|x: LanguageTarget| x@);
    let tl = chars_of(t.lang.as_str());
    let mut j = v.len();
    assert(views.take(j as int) =~= views);
    while j > 0
        invariant
            j <= v@.len(),
            v@ == old(v)@,
            tl@ == t.lang@,
            views == v@.map_values(|x: LanguageTarget| x@),
            insert_position(views, t@) == insert_position(views.take(j as int), t@),
        ensures
            j <= v@.len(),
            v@ == old(v)@,
            views == v@.map_values(|x: LanguageTarget| x@),
            insert_position(views, t@) == j,
        decreases j,
    {
        let cl = chars_of(v[j - 1].lang.as_str());
        assert(views.take(j as int).last() == v@[j - 1]@);
        if lex_le_exec(cl.as_slice(), tl.as_slice()) {
            assert(insert_position(views.take(j as int), t@) == j as int);
            break;
        }
        if j == 1 {
            assert(views.take(0).len() == 0);
        }
        assert(views.take(j as int).drop_last() =~= views.take(j - 1));
        j = j - 1;
    }
    proof {
        lemma_insert_position_bounds(views, t@);
    }
    v.insert(j, t);
    assert(v@.map_values(|x: LanguageTarget| x@) =~= views.insert(j as int, t@));
}

/// A subdirectory of `docs/` as the project scan saw it.
pub struct LanguageDir {
    /// The directory's name.
    pub name: String,
    /// It holds a `main.typ` file.
    pub has_main: bool,
    /// The text of that `main.typ`, when it could be read.
    pub main_text: Option<String>,
}

/// Directories under `docs/` that hold generated output rather than sources,
/// so they can never be language targets.
pub open spec fn is_generated_dir(name: Seq<char>) -> bool {
    name == "target"@ || name == "release"@
}

/// A subdirectory that is a language: not generated output, with a `main.typ`.
pub open spec fn is_language_dir(d: LanguageDir) -> bool {
    !is_generated_dir(d.name@) && d.has_main
}

/// A target's version: the manifest hint, else the entry's `version:`
/// argument, else `0.1.0`.
pub open spec fn version_of(hint: Option<Seq<char>>, entry_text: Option<Seq<char>>) -> Seq<char> {
    match hint {
        Some(h) => h,
        None => match entry_text {
            Some(text) => match template_argument(text, "version"@) {
                Some(v) => v,
                None => "0.1.0"@,
            },
            None => "0.1.0"@,
        },
    }
}

/// Resolves a target's version in one place: the manifest hint, else the
/// entry's `version:` argument, else `0.1.0`.
pub fn resolve_version(version_hint: Option<&str>, entry_text: Option<&str>) -> (r: String)
    ensures
        r@ == version_of(opt_str_view(version_hint), opt_str_view(entry_text)),
        version_hint matches Some(h) ==> r@ == h@,
{
    match version_hint {
        Some(h) => h.to_owned(),
        None => match entry_text {
            Some(text) => match main_typ_version(text) {
                Some(v) => v,
                None => "0.1.0".to_owned(),
            },
            None => "0.1.0".to_owned(),
        },
    }
}

/// The manifest's version decides whenever there is one: whatever the entry
/// declares, a hint is the version. Without a hint, the entry's `version:`
/// argument is the version when it declares one, and `0.1.0` otherwise.
pub proof fn lemma_manifest_version_wins(
    hint: Seq<char>,
    entry_text: Option<Seq<char>>,
    text: Seq<char>,
)
    ensures
        version_of(Some(hint), entry_text) == hint,
        template_argument(text, "version"@) matches Some(v) ==> version_of(None, Some(text)) == v,
        template_argument(text, "version"@) is None ==> version_of(None, Some(text)) == "0.1.0"@,
        version_of(None, None) == "0.1.0"@,
{
}

/// The entry of the language directory `name`.
pub open spec fn language_entry(docs_dir: Seq<char>, name: Seq<char>) -> Seq<char> {
    joined(joined(docs_dir, name), "main.typ"@)
}

/// The target of a language directory.
pub open spec fn language_dir_target(
    d: LanguageDir,
    docs_dir: Seq<char>,
    pkg_name: Seq<char>,
    hint: Option<Seq<char>>,
) -> TargetView {
    declared_target(
        d.name@,
        display_name(d.name@),
        language_entry(docs_dir, d.name@),
        pkg_name,
        version_of(hint, opt_view(d.main_text)),
        opt_view(d.main_text),
    )
}

/// The language directories' targets, in scan order.
pub open spec fn language_dir_targets(
    dirs: Seq<LanguageDir>,
    docs_dir: Seq<char>,
    pkg_name: Seq<char>,
    hint: Option<Seq<char>>,
) -> Seq<TargetView>
    decreases dirs.len(),
{
    if dirs.len() == 0 {
        Seq::empty()
    } else if is_language_dir(dirs.last()) {
        language_dir_targets(dirs.drop_last(), docs_dir, pkg_name, hint).push(
            language_dir_target(dirs.last(), docs_dir, pkg_name, hint),
        )
    } else {
        language_dir_targets(dirs.drop_last(), docs_dir, pkg_name, hint)
    }
}

/// The default target of a root `main.typ`.
pub open spec fn default_target(
    docs_dir: Seq<char>,
    pkg_name: Seq<char>,
    hint: Option<Seq<char>>,
    root_text: Option<Seq<char>>,
) -> TargetView {
    declared_target(
        Seq::empty(),
        "Default"@,
        joined(docs_dir, "main.typ"@),
        pkg_name,
        version_of(hint, root_text),
        root_text,
    )
}

/// The message for a `docs/` holding no entry at all.
pub open spec fn no_entry_message(docs_dir: Seq<char>) -> Seq<char> {
    "`"@ + docs_dir + "` has no main.typ or language subdirectory (e.g. docs/zh-CN/main.typ)"@
}

/// The targets of a project, with its primary entry: the language
/// directories sorted by language, behind the default target when a root
/// `main.typ` exists; the primary entry is that root file, else the first
/// language's entry.
pub open spec fn language_targets(
    docs_dir: Seq<char>,
    pkg_name: Seq<char>,
    hint: Option<Seq<char>>,
    root_exists: bool,
    root_text: Option<Seq<char>>,
    dirs: Seq<LanguageDir>,
) -> Result<(Seq<TargetView>, Seq<char>), Seq<char>> {
    let subs = sorted_by_lang(language_dir_targets(dirs, docs_dir, pkg_name, hint));
    let root_main = joined(docs_dir, "main.typ"@);
    let default = default_target(docs_dir, pkg_name, hint, root_text);
    if subs.len() > 0 {
        if root_exists {
            Ok((seq![default] + subs, root_main))
        } else {
            Ok((subs, subs[0].entry))
        }
    } else if root_exists {
        Ok((seq![default], root_main))
    } else {
        Err(no_entry_message(docs_dir))
    }
}

/// The views of some targets.
pub open spec fn views(v: Seq<LanguageTarget>) -> Seq<TargetView> {
    v.map_values(|x: LanguageTarget| x@)
}

pub proof fn lemma_sorted_len(s: Seq<TargetView>)
    ensures
        sorted_by_lang(s).len() == s.len(),
    decreases s.len(),
{
    if s.len() > 0 {
        lemma_sorted_len(s.drop_last());
        lemma_insert_position_bounds(sorted_by_lang(s.drop_last()), s.last());
    }
}

/// The targets are in order of their languages.
pub open spec fn ordered_by_lang(s: Seq<TargetView>) -> bool {
    forall|i: int, j: int| 0 <= i < j < s.len() ==> lex_le(#[trigger] s[i].lang, #[trigger] s[j].lang)
}

proof fn lemma_insert_position(s: Seq<TargetView>, t: TargetView)
    requires
        ordered_by_lang(s),
    ensures
        0 <= insert_position(s, t) <= s.len(),
        forall|j: int| insert_position(s, t) <= j < s.len() ==> !lex_le(#[trigger] s[j].lang, t.lang),
        insert_position(s, t) > 0 ==> lex_le(s[insert_position(s, t) - 1].lang, t.lang),
    decreases s.len(),
{
    if s.len() > 0 && !lex_le(s.last().lang, t.lang) {
        let d = s.drop_last();
        assert(ordered_by_lang(d)) by {
            assert forall|i: int, j: int| 0 <= i < j < d.len() implies lex_le(#[trigger] d[i].lang, #[trigger] d[j].lang) by {
                assert(d[i] == s[i] && d[j] == s[j]);
            }
        }
        lemma_insert_position(d, t);
        let p = insert_position(d, t);
        assert forall|j: int| p <= j < s.len() implies !lex_le(#[trigger] s[j].lang, t.lang) by {
            if j < d.len() {
                assert(s[j] == d[j]);
            }
        }
        if p > 0 {
            assert(s[p - 1] == d[p - 1]);
        }
    }
}

/// Sorting the targets of a project by language orders them and keeps every
/// one of them: the result is in order of the languages and holds the same
/// targets, each as often, as the input.
pub proof fn lemma_sorted_by_lang(s: Seq<TargetView>)
    ensures
        ordered_by_lang(sorted_by_lang(s)),
        sorted_by_lang(s).to_multiset() == s.to_multiset(),
    decreases s.len(),
{
    if s.len() > 0 {
        let d = sorted_by_lang(s.drop_last());
        let t = s.last();
        lemma_sorted_by_lang(s.drop_last());
        lemma_insert_position(d, t);
        let p = insert_position(d, t);
        let r = d.insert(p, t);
        assert forall|i: int, j: int| 0 <= i < j < r.len() implies lex_le(#[trigger] r[i].lang, #[trigger] r[j].lang) by {
            if j < p {
                assert(r[i] == d[i] && r[j] == d[j]);
            } else if j == p {
                assert(r[i] == d[i]);
                if i < p - 1 {
                    lemma_lex_transitive(d[i].lang, d[p - 1].lang, t.lang);
                }
            } else if i > p {
                assert(r[i] == d[i - 1] && r[j] == d[j - 1]);
            } else if i == p {
                assert(r[j] == d[j - 1]);
                lemma_lex_total(d[j - 1].lang, t.lang);
            } else {
                assert(r[i] == d[i] && r[j] == d[j - 1]);
                if i < p - 1 {
                    lemma_lex_transitive(d[i].lang, d[p - 1].lang, t.lang);
                }
                lemma_lex_total(d[j - 1].lang, t.lang);
                lemma_lex_transitive(d[i].lang, t.lang, d[j - 1].lang);
            }
        }
        assert(sorted_by_lang(s) == r);
        vstd::seq_lib::to_multiset_insert(d, p, t);
        vstd::seq_lib::to_multiset_build(s.drop_last(), t);
        assert(s.drop_last().push(t) =~= s);
        assert(r.to_multiset() == s.drop_last().to_multiset().insert(t));
    } else {
        assert(sorted_by_lang(s) =~= s);
    }
}

/// Builds the language targets of `docs/` from what the scan found there:
/// whether a root `main.typ` exists and its text, and every subdirectory.
/// Generated output directories never count; every other subdirectory with a
/// `main.typ` is a language. Returns the targets and the primary entry.
pub fn detect_language_targets(
    docs_dir: &str,
    pkg_name: &str,
    version_hint: Option<&str>,
    root_main_exists: bool,
    root_main_text: Option<&str>,
    dirs: &[LanguageDir],
) -> (r: Result<(Vec<LanguageTarget>, String), String>)
    ensures
        match r {
            Ok((targets, primary)) => language_targets(
                docs_dir@,
                pkg_name@,
                opt_str_view(version_hint),
                root_main_exists,
                opt_str_view(root_main_text),
                dirs@,
            ) == Ok::<(Seq<TargetView>, Seq<char>), Seq<char>>((views(targets@), primary@)),
            Err(message) => language_targets(
                docs_dir@,
                pkg_name@,
                opt_str_view(version_hint),
                root_main_exists,
                opt_str_view(root_main_text),
                dirs@,
            ) == Err::<(Seq<TargetView>, Seq<char>), Seq<char>>(message@),
        },
{
    let ghost hint = opt_str_view(version_hint);
    let mut subs: Vec<LanguageTarget> = Vec::new();
    let mut i: usize = 0;
    while i < dirs.len()
        invariant
            i <= dirs@.len(),
            views(subs@) == sorted_by_lang(
                language_dir_targets(dirs@.take(i as int), docs_dir@, pkg_name@, hint),
            ),
            hint == opt_str_view(version_hint),
        decreases dirs.len() - i,
    {
        let d = &dirs[i];
        let name = chars_of(d.name.as_str());
        let generated = crate::text::eq_str(name.as_slice(), "target") || crate::text::eq_str(
            name.as_slice(),
            "release",
        );
        assert(dirs@.take(i + 1).drop_last() =~= dirs@.take(i as int));
        assert(dirs@.take(i + 1).last() == dirs@[i as int]);
        if !generated && d.has_main {
            let text: Option<&str> = match &d.main_text {
                Some(t) => Some(t.as_str()),
                None => None,
            };
            assert(opt_str_view(text) == opt_view(d.main_text));
            let version = resolve_version(version_hint, text);
            let display = lang_display_name(d.name.as_str());
            let dir = join_path(docs_dir, d.name.as_str());
            let entry = join_path(dir.as_str(), "main.typ");
            let t = LanguageTarget::new(
                d.name.as_str(),
                display.as_str(),
                entry,
                pkg_name,
                version.as_str(),
                text,
            );
            proof {
                assert(t@ == language_dir_target(dirs@[i as int], docs_dir@, pkg_name@, hint));
                let prev = language_dir_targets(dirs@.take(i as int), docs_dir@, pkg_name@, hint);
                assert(language_dir_targets(dirs@.take(i + 1), docs_dir@, pkg_name@, hint)
                    == prev.push(t@));
                assert(prev.push(t@).drop_last() =~= prev);
            }
            insert_target(&mut subs, t);
        }
        i = i + 1;
    }
    assert(dirs@.take(dirs@.len() as int) =~= dirs@);
    let ghost subs_views = views(subs@);
    proof {
        lemma_sorted_len(language_dir_targets(dirs@, docs_dir@, pkg_name@, hint));
    }
    if subs.len() == 0 && !root_main_exists {
        let mut message = "`".to_owned();
        message.append(docs_dir);
        message.append("` has no main.typ or language subdirectory (e.g. docs/zh-CN/main.typ)");
        return Err(message);
    }
    let root_main = join_path(docs_dir, "main.typ");
    if subs.len() > 0 && !root_main_exists {
        let primary = subs[0].entry.clone();
        return Ok((subs, primary));
    }
    let version = resolve_version(version_hint, root_main_text);
    let default = LanguageTarget::new(
        "",
        "Default",
        root_main.clone(),
        pkg_name,
        version.as_str(),
        root_main_text,
    );
    proof {
        reveal_strlit("");
        assert(""@ =~= Seq::<char>::empty());
        assert(default@ == default_target(docs_dir@, pkg_name@, hint, opt_str_view(root_main_text)));
    }
    let mut targets: Vec<LanguageTarget> = Vec::new();
    targets.push(default);
    let ghost first = views(targets@);
    assert(first =~= seq![default@]);
    targets.append(&mut subs);
    assert(views(targets@) =~= first + subs_views);
    proof {
        if subs_views.len() == 0 {
            assert(seq![default@] + subs_views =~= seq![default@]);
        }
    }
    Ok((targets, root_main))
}


/// Some line of `ls`, trimmed, is exactly `entry`.
pub open spec fn entry_in_lines(ls: Seq<Seq<char>>, entry: Seq<char>) -> bool
    decreases ls.len(),
{
    ls.len() > 0 && (trim(ls[0]) == entry || entry_in_lines(ls.drop_first(), entry))
}

/// `content` with the ignore rule `entry` appended on a line of its own,
/// unless a line already holds it.
pub open spec fn with_entry(content: Seq<char>, entry: Seq<char>) -> Seq<char> {
    if entry_in_lines(lines(content), entry) {
        content
    } else {
        (if content.len() > 0 && content.last() != '\n' {
            content.push('\n')
        } else {
            content
        }) + entry + seq!['\n']
    }
}

/// `content` with every entry ensured, in order.
pub open spec fn with_entries(content: Seq<char>, entries: Seq<Seq<char>>) -> Seq<char>
    decreases entries.len(),
{
    if entries.len() == 0 {
        content
    } else {
        with_entries(with_entry(content, entries[0]), entries.drop_first())
    }
}

proof fn lemma_entry_in_lines(ls: Seq<Seq<char>>, e: Seq<char>)
    ensures
        entry_in_lines(ls, e) == exists|i: int| 0 <= i < ls.len() && #[trigger] trim(ls[i]) == e,
    decreases ls.len(),
{
    if ls.len() > 0 {
        lemma_entry_in_lines(ls.drop_first(), e);
        if exists|i: int| 0 <= i < ls.len() && #[trigger] trim(ls[i]) == e {
            let i = choose|i: int| 0 <= i < ls.len() && #[trigger] trim(ls[i]) == e;
            if i > 0 {
                assert(trim(ls.drop_first()[i - 1]) == e);
            }
        }
        if exists|i: int| 0 <= i < ls.drop_first().len() && #[trigger] trim(ls.drop_first()[i]) == e {
            let i = choose|i: int| 0 <= i < ls.drop_first().len() && #[trigger] trim(ls.drop_first()[i]) == e;
            assert(trim(ls[i + 1]) == e);
        }
    }
}

/// An ignore rule fit for a line of its own: it is its own trim and holds no
/// line break.
pub open spec fn line_entry(e: Seq<char>) -> bool {
    trim(e) == e && forall|j: int| 0 <= j < e.len() ==> #[trigger] e[j] != '\n'
}

proof fn lemma_trim_start_shorter(s: Seq<char>)
    ensures
        trim_start(s).len() <= s.len(),
    decreases s.len(),
{
    if s.len() > 0 {
        lemma_trim_start_shorter(s.drop_first());
    }
}

proof fn lemma_trim_end_shorter(s: Seq<char>)
    ensures
        trim_end(s).len() <= s.len(),
    decreases s.len(),
{
    if s.len() > 0 {
        lemma_trim_end_shorter(s.drop_last());
    }
}

proof fn lemma_trim_shorter(s: Seq<char>)
    ensures
        trim(s).len() <= s.len(),
{
    lemma_trim_start_shorter(s);
    lemma_trim_end_shorter(trim_start(s));
}

proof fn lemma_line_entry_ends_clean(e: Seq<char>)
    requires
        line_entry(e),
    ensures
        strip_cr(e) == e,
{
    if e.len() > 0 && e.last() == '\r' {
        lemma_trim_drop_ws_last(e);
        lemma_trim_shorter(e.drop_last());
        assert(trim(e).len() < e.len());
    }
}

/// Ensuring an entry leaves it on a line of its own, and every rule already
/// on a line stays on one.
proof fn lemma_with_entry(c: Seq<char>, e: Seq<char>)
    requires
        line_entry(e),
    ensures
        entry_in_lines(lines(with_entry(c, e)), e),
        forall|x: Seq<char>|
            entry_in_lines(lines(c), x) ==> #[trigger] entry_in_lines(lines(with_entry(c, e)), x),
{
    if !entry_in_lines(lines(c), e) {
        let base = if c.len() > 0 && c.last() != '\n' {
            c.push('\n')
        } else {
            c
        };
        let tail = e.push('\n');
        assert(with_entry(c, e) =~= base + tail);
        lemma_line_entry_ends_clean(e);
        lemma_single_line(e);
        lemma_lines_concat(base, tail);
        let lb = lines(base);
        let lr = lines(base + tail);
        assert(lr =~= lb + seq![e]);
        lemma_entry_in_lines(lr, e);
        assert(trim(lr[lb.len() as int]) == e);
        if c.len() > 0 && c.last() != '\n' {
            lemma_lines_push_newline(c);
        }
        assert forall|x: Seq<char>| entry_in_lines(lines(c), x) implies #[trigger] entry_in_lines(
            lr,
            x,
        ) by {
            lemma_entry_in_lines(lines(c), x);
            lemma_entry_in_lines(lr, x);
            let lc = lines(c);
            let i = choose|i: int| 0 <= i < lc.len() && #[trigger] trim(lc[i]) == x;
            if c.len() > 0 && c.last() != '\n' && i == lc.len() - 1 {
                let l = lc[i];
                if l.len() > 0 && l.last() == '\r' {
                    lemma_trim_drop_ws_last(l);
                }
                assert(lb[i] == strip_cr(l));
                assert(trim(lr[i]) == x);
            } else {
                assert(lb[i] == lc[i]);
                assert(trim(lr[i]) == x);
            }
        }
    }
}

proof fn lemma_with_entries_present(c: Seq<char>, es: Seq<Seq<char>>)
    requires
        forall|k: int| 0 <= k < es.len() ==> line_entry(#[trigger] es[k]),
    ensures
        forall|k: int|
            0 <= k < es.len() ==> entry_in_lines(lines(with_entries(c, es)), #[trigger] es[k]),
        forall|x: Seq<char>|
            entry_in_lines(lines(c), x) ==> #[trigger] entry_in_lines(lines(with_entries(c, es)), x),
    decreases es.len(),
{
    if es.len() > 0 {
        let c1 = with_entry(c, es[0]);
        let rest = es.drop_first();
        assert(line_entry(es[0]));
        lemma_with_entry(c, es[0]);
        assert forall|k: int| 0 <= k < rest.len() implies line_entry(#[trigger] rest[k]) by {
            assert(rest[k] == es[k + 1]);
        }
        lemma_with_entries_present(c1, rest);
        assert(with_entries(c, es) == with_entries(c1, rest));
        assert(entry_in_lines(lines(c1), es[0]));
        assert(entry_in_lines(lines(with_entries(c1, rest)), es[0]));
        assert forall|k: int| 0 <= k < es.len() implies entry_in_lines(
            lines(with_entries(c, es)),
            #[trigger] es[k],
        ) by {
            if k > 0 {
                assert(es[k] == rest[k - 1]);
            }
        }
        assert forall|x: Seq<char>| entry_in_lines(lines(c), x) implies #[trigger] entry_in_lines(
            lines(with_entries(c, es)),
            x,
        ) by {
            assert(entry_in_lines(lines(c1), x));
        }
    }
}

proof fn lemma_with_entries_unchanged(c: Seq<char>, es: Seq<Seq<char>>)
    requires
        forall|k: int| 0 <= k < es.len() ==> entry_in_lines(lines(c), #[trigger] es[k]),
    ensures
        with_entries(c, es) == c,
    decreases es.len(),
{
    if es.len() > 0 {
        assert(entry_in_lines(lines(c), es[0]));
        let rest = es.drop_first();
        assert forall|k: int| 0 <= k < rest.len() implies entry_in_lines(lines(c), #[trigger] rest[k]) by {
            assert(rest[k] == es[k + 1]);
        }
        lemma_with_entries_unchanged(c, rest);
    }
}

/// Ignore rules are added once: after ensuring a list of rules, each is on a
/// line of its own, every rule already present stays, and ensuring the same
/// rules again changes nothing.
pub proof fn lemma_gitignore_entries_added_once(content: Seq<char>, entries: Seq<Seq<char>>)
    requires
        forall|k: int| 0 <= k < entries.len() ==> line_entry(#[trigger] entries[k]),
    ensures
        forall|k: int|
            0 <= k < entries.len() ==> entry_in_lines(
                lines(with_entries(content, entries)),
                #[trigger] entries[k],
            ),
        forall|x: Seq<char>|
            entry_in_lines(lines(content), x) ==> #[trigger] entry_in_lines(
                lines(with_entries(content, entries)),
                x,
            ),
        with_entries(with_entries(content, entries), entries) == with_entries(content, entries),
{
    lemma_with_entries_present(content, entries);
    lemma_with_entries_unchanged(with_entries(content, entries), entries);
}

/// The views of borrowed strings.
pub open spec fn strs_view(v: Seq<&str>) -> Seq<Seq<char>> {
    v.map_values(|s: &str| s@)
}

fn has_entry_line(content: &[char], entry: &[char]) -> (r: bool)
    ensures
        r == entry_in_lines(lines(content@), entry@),
{
    let mut i: usize = 0;
    while i < content.len()
        invariant
            i <= content.len(),
            entry_in_lines(lines(content@), entry@) == entry_in_lines(
                lines_from(content@, i as int),
                entry@,
            ),
        decreases content.len() - i,
    {
        let (end, next) = next_line(content, i);
        let ghost ls = lines_from(content@, i as int);
        assert(ls.drop_first() =~= lines_from(content@, next as int));
        let (a, b) = trim_bounds(content, i, end);
        if same_chars_range(content, a, b, entry) {
            return true;
        }
        i = next;
    }
    false
}

fn same_chars_range(v: &[char], a: usize, b: usize, w: &[char]) -> (r: bool)
    requires
        a <= b <= v.len(),
    ensures
        r == (v@.subrange(a as int, b as int) == w@),
{
    if b - a != w.len() {
        return false;
    }
    let mut k: usize = 0;
    while k < w.len()
        invariant
            k <= w.len() == b - a,
            b <= v.len(),
            forall|m: int| 0 <= m < k ==> v@[a + m] == w@[m],
        decreases w.len() - k,
    {
        if v[a + k] != w[k] {
            assert(v@.subrange(a as int, b as int)[k as int] != w@[k as int]);
            return false;
        }
        k = k + 1;
    }
    assert(v@.subrange(a as int, b as int) =~= w@);
    true
}

/// The `.gitignore` text after ensuring the given rules: `Some(new text)` when
/// a rule had to be appended, `None` when every rule already had its line.
/// Each missing rule goes on a line of its own after the existing text.
pub fn gitignore_with_entries(content: &str, entries: &[&str]) -> (r: Option<String>)
    ensures
        match r {
            Some(updated) => updated@ == with_entries(content@, strs_view(entries@))
                && updated@ != content@,
            None => with_entries(content@, strs_view(entries@)) == content@,
        },
{
    let ghost es = strs_view(entries@);
    let mut current = content.to_owned();
    let mut changed = false;
    let mut i: usize = 0;
    assert(es.skip(0) =~= es);
    while i < entries.len()
        invariant
            i <= entries.len(),
            es == strs_view(entries@),
            with_entries(content@, es) == with_entries(current@, es.skip(i as int)),
            changed <==> current@.len() > content@.len(),
            current@.len() >= content@.len(),
            !changed ==> current@ == content@,
        decreases entries.len() - i,
    {
        let entry = chars_of(entries[i]);
        let cv = chars_of(current.as_str());
        assert(es.skip(i as int)[0] == entries@[i as int]@);
        assert(with_entries(current@, es.skip(i as int)) == with_entries(
            with_entry(current@, es.skip(i as int)[0]),
            es.skip(i as int).drop_first(),
        ));
        assert(es.skip(i as int).drop_first() =~= es.skip(i + 1));
        let ghost before = current@;
        let ghost e = es.skip(i as int)[0];
        if !has_entry_line(cv.as_slice(), entry.as_slice()) {
            if cv.len() > 0 && cv[cv.len() - 1] != '\n' {
                crate::text::push_char(&mut current, '\n');
            }
            current.append(entries[i]);
            crate::text::push_char(&mut current, '\n');
            changed = true;
            assert(current@ =~= with_entry(before, e));
        } else {
            assert(current@ == with_entry(before, e));
        }
        i = i + 1;
    }
    assert(es.skip(entries.len() as int).len() == 0);
    if changed {
        Some(current)
    } else {
        None
    }
}

} // verus!
