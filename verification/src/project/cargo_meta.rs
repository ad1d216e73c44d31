//! Package metadata from `Cargo.toml`, honoring Cargo's
//! `field.workspace = true` inheritance for scalar fields.

use vstd::prelude::*;
use crate::project::lang::opt_str_view;
use crate::project::template_args::opt_view;
use crate::text::{chars_of, starts_with, starts_with_exec};
use std::str::FromStr;
use toml::{Table, Value};

verus! {

/// What the manifest says of the package.
#[derive(Debug, Clone)]
pub struct CargoMeta {
    pub name: Option<String>,
    pub version: Option<String>,
    /// A GitHub repository URL, when the manifest declares one.
    pub repository: Option<String>,
    /// The first `authors` entry, when declared directly in the manifest.
    pub author: Option<String>,
}

/// The package's name: the manifest's, else the directory's, else `project`.
pub fn package_name(name: Option<String>, dir_name: Option<String>) -> (r: String)
    ensures
        r@ == match name {
            Some(n) => n@,
            None => match dir_name {
                Some(d) => d@,
                None => "project"@,
            },
        },
{
    match name {
        Some(n) => n,
        None => match dir_name {
            Some(d) => d,
            None => "project".to_owned(),
        },
    }
}

/// A repository on GitHub: `https://github.com/` followed by a path that is
/// more than slashes.
pub open spec fn github_repository(url: Seq<char>) -> bool {
    let prefix = "https://github.com/"@;
    starts_with(url, prefix) && exists|i: int|
        prefix.len() <= i < url.len() && #[trigger] url[i] != '/'
}

/// Whether `url` names a repository on GitHub.
pub fn is_github_repository(url: &str) -> (r: bool)
    ensures
        r == github_repository(url@),
{
    let v = chars_of(url);
    let prefix = chars_of("https://github.com/");
    if !starts_with_exec(v.as_slice(), prefix.as_slice()) {
        return false;
    }
    let mut i = prefix.len();
    while i < v.len()
        invariant
            prefix@.len() <= i <= v@.len(),
            v@ == url@,
            prefix@ == "https://github.com/"@,
            starts_with(url@, "https://github.com/"@),
            forall|k: int| prefix@.len() <= k < i ==> #[trigger] v@[k] == '/',
        decreases v.len() - i,
    {
        if v[i] != '/' {
            return true;
        }
        i = i + 1;
    }
    false
}

/// Gathers the package metadata, keeping the repository only when it is on
/// GitHub.
pub fn cargo_meta(
    name: Option<String>,
    version: Option<String>,
    repository: Option<String>,
    author: Option<String>,
) -> (r: CargoMeta)
    ensures
        opt_view(r.name) == opt_view(name),
        opt_view(r.version) == opt_view(version),
        opt_view(r.author) == opt_view(author),
        opt_view(r.repository) == match repository {
            Some(u) => if github_repository(u@) {
                Some(u@)
            } else {
                None
            },
            None => None,
        },
{
    let repository = match repository {
        Some(u) => {
            if is_github_repository(u.as_str()) {
                Some(u)
            } else {
                None
            }
        },
        None => None,
    };
    CargoMeta { name, version, repository, author }
}

/// A TOML value as the metadata reads it where it stands: its text when it is
/// a string, its truth when it is a boolean.
#[derive(Debug)]
pub struct TomlScalar(pub Option<String>, pub Option<bool>);

/// A value of a top-level TOML table: read as a scalar, and, when it is a
/// table or an array, its entries or items read as scalars.
#[derive(Debug)]
pub struct TomlField(
    pub TomlScalar,
    pub Option<Vec<(String, TomlScalar)>>,
    pub Option<Vec<TomlScalar>>,
);

/// A parsed `Cargo.toml`: each top-level key, in the order the parser keeps
/// them, with the fields of its value when that value is a table.
#[derive(Debug)]
pub struct Manifest(pub Vec<(String, Option<Vec<(String, TomlField)>>)>);

/// A scalar as plain values.
pub struct ScalarView {
    pub text: Option<Seq<char>>,
    pub flag: Option<bool>,
}

/// A field as plain values.
pub struct FieldView {
    pub scalar: ScalarView,
    pub table: Option<Seq<(Seq<char>, ScalarView)>>,
    pub items: Option<Seq<ScalarView>>,
}

/// A parsed manifest as plain values.
pub type ManifestView = Seq<(Seq<char>, Option<Seq<(Seq<char>, FieldView)>>)>;

impl View for TomlScalar {
    type V = ScalarView;

    open spec fn view(&self) -> ScalarView {
        ScalarView { text: opt_view(self.0), flag: self.1 }
    }
}

/// Keyed entries with their keys as text and their values by their views.
pub open spec fn pairs_view<V: View>(s: Seq<(String, V)>) -> Seq<(Seq<char>, V::V)> {
    s.map_values(|e: (String, V)| (e.0@, e.1@))
}

/// The sections of a manifest, keyed, as plain values.
pub open spec fn pairs_view_opt(
    s: Seq<(String, Option<Vec<(String, TomlField)>>)>,
) -> ManifestView {
    s.map_values(
        |e: (String, Option<Vec<(String, TomlField)>>)|
            (
                e.0@,
                match e.1 {
                    Some(t) => Some(pairs_view(t@)),
                    None => None,
                },
            ),
    )
}

impl View for TomlField {
    type V = FieldView;

    open spec fn view(&self) -> FieldView {
        FieldView {
            scalar: self.0@,
            table: match self.1 {
                Some(t) => Some(pairs_view(t@)),
                None => None,
            },
            items: match self.2 {
                Some(a) => Some(a@.map_values(|x: TomlScalar| x@)),
                None => None,
            },
        }
    }
}

impl View for Manifest {
    type V = ManifestView;

    open spec fn view(&self) -> ManifestView {
        pairs_view_opt(self.0@)
    }
}

/// A manifest that may be missing, as plain values.
pub open spec fn opt_manifest(o: Option<Manifest>) -> Option<ManifestView> {
    match o {
        Some(m) => Some(m@),
        None => None,
    }
}

/// The document `toml::Table::from_str` parses from a manifest's text,
/// converted value for value; `None` where the text is not TOML.
pub uninterp spec fn toml_manifest(text: Seq<char>) -> Option<ManifestView>;

/// Sections that may be missing, as plain values.
pub open spec fn opt_sections(o: Option<Vec<(String, Option<Vec<(String, TomlField)>>)>>) -> Option<
    ManifestView,
> {
    match o {
        Some(s) => Some(pairs_view_opt(s@)),
        None => None,
    }
}

/// `toml::Table::from_str` on a manifest's text, with each top-level value
/// converted value for value by `toml::Value`'s own accessors (`as_str`,
/// `as_bool`, `as_table`, `as_array`) two tables deep. The contract claims only
/// that the result is a function of the text, named `toml_manifest`.
#[verifier::external_body]
fn parse_manifest(text: &str) -> (r: Option<Vec<(String, Option<Vec<(String, TomlField)>>)>>)
    ensures
        opt_sections(r) == toml_manifest(text@),
{
    let scalar = |v: &Value| TomlScalar(v.as_str().map(String::from), v.as_bool());
    let document = Table::from_str(text).ok()?;
    Some(document.iter().map(|(k, v)| (k.clone(), v.as_table().map(|t| t.iter().map(|(k, x)| (
        k.clone(),
        TomlField(
            scalar(x),
            x.as_table().map(|t| t.iter().map(|(k, y)| (k.clone(), scalar(y))).collect()),
            x.as_array().map(|a| a.iter().map(scalar).collect()),
        ),
    )).collect()))).collect())
}

/// A manifest read from its text: `None` where the text is not TOML.
pub fn read_manifest(text: &str) -> (r: Option<Manifest>)
    ensures
        opt_manifest(r) == toml_manifest(text@),
{
    match parse_manifest(text) {
        Some(sections) => Some(Manifest(sections)),
        None => None,
    }
}

/// The value of the first entry at or after `i` whose key is `key`.
pub open spec fn entry_from<V>(s: Seq<(Seq<char>, V)>, key: Seq<char>, i: int) -> Option<V>
    decreases s.len() - i,
{
    if i < 0 || i >= s.len() {
        None
    } else if s[i].0 == key {
        Some(s[i].1)
    } else {
        entry_from(s, key, i + 1)
    }
}

/// The value of the entry whose key is `key` (`Map::get`).
pub open spec fn entry<V>(s: Seq<(Seq<char>, V)>, key: Seq<char>) -> Option<V> {
    entry_from(s, key, 0)
}

/// The `[package]` table.
pub open spec fn package_table(m: ManifestView) -> Option<Seq<(Seq<char>, FieldView)>> {
    match entry(m, "package"@) {
        Some(Some(t)) => Some(t),
        _ => None,
    }
}

/// The string `[workspace.package]` gives `key`.
pub open spec fn workspace_value(m: ManifestView, key: Seq<char>) -> Option<Seq<char>> {
    match entry(m, "workspace"@) {
        Some(Some(ws)) => match entry(ws, "package"@) {
            Some(f) => match f.table {
                Some(p) => match entry(p, key) {
                    Some(x) => x.text,
                    None => None,
                },
                None => None,
            },
            None => None,
        },
        _ => None,
    }
}

/// The value of the first manifest at or after `i` whose `[workspace.package]`
/// gives `key` a string.
pub open spec fn inherited_from(ancestors: Seq<Option<ManifestView>>, key: Seq<char>, i: int) -> Option<
    Seq<char>,
>
    decreases ancestors.len() - i,
{
    if i < 0 || i >= ancestors.len() {
        None
    } else {
        match ancestors[i] {
            Some(m) => match workspace_value(m, key) {
                Some(v) => Some(v),
                None => inherited_from(ancestors, key, i + 1),
            },
            None => inherited_from(ancestors, key, i + 1),
        }
    }
}

/// The field is a table whose `workspace` key is `true`.
pub open spec fn inherits(f: FieldView) -> bool {
    match f.table {
        Some(t) => match entry(t, "workspace"@) {
            Some(x) => x.flag == Some(true),
            None => false,
        },
        None => false,
    }
}

/// A package field: its own string value, or for `key.workspace = true` the
/// value the nearest workspace manifest gives it, or nothing.
pub open spec fn package_field(
    package: Seq<(Seq<char>, FieldView)>,
    key: Seq<char>,
    ancestors: Seq<Option<ManifestView>>,
) -> Option<Seq<char>> {
    match entry(package, key) {
        Some(f) => match f.scalar.text {
            Some(v) => Some(v),
            None => if inherits(f) {
                inherited_from(ancestors, key, 0)
            } else {
                None
            },
        },
        None => None,
    }
}

/// The first `authors` entry, when it is a string.
pub open spec fn first_author(package: Seq<(Seq<char>, FieldView)>) -> Option<Seq<char>> {
    match entry(package, "authors"@) {
        Some(f) => match f.items {
            Some(items) => if items.len() > 0 {
                items[0].text
            } else {
                None
            },
            None => None,
        },
        None => None,
    }
}

/// The package metadata a manifest gives, as (name, version, repository,
/// first author): nothing without a `[package]` table, and the repository
/// only when it is on GitHub.
pub open spec fn meta_of(
    manifest: Option<ManifestView>,
    ancestors: Seq<Option<ManifestView>>,
) -> (Option<Seq<char>>, Option<Seq<char>>, Option<Seq<char>>, Option<Seq<char>>) {
    match manifest {
        Some(m) => match package_table(m) {
            Some(p) => (
                package_field(p, "name"@, ancestors),
                package_field(p, "version"@, ancestors),
                match package_field(p, "repository"@, ancestors) {
                    Some(u) => if github_repository(u) {
                        Some(u)
                    } else {
                        None
                    },
                    None => None,
                },
                first_author(p),
            ),
            None => (None, None, None, None),
        },
        None => (None, None, None, None),
    }
}

/// The metadata as plain values.
pub open spec fn meta_view(m: CargoMeta) -> (
    Option<Seq<char>>,
    Option<Seq<char>>,
    Option<Seq<char>>,
    Option<Seq<char>>,
) {
    (opt_view(m.name), opt_view(m.version), opt_view(m.repository), opt_view(m.author))
}

/// Some manifests, each by its view.
pub open spec fn manifests_view(s: Seq<Option<Manifest>>) -> Seq<Option<ManifestView>> {
    s.map_values(|o: Option<Manifest>| opt_manifest(o))
}

/// The value of the entry keyed `key` (`Map::get`).
fn lookup<'a, V: View>(entries: &'a Vec<(String, V)>, key: &str) -> (r: Option<&'a V>)
    ensures
        match r {
            Some(v) => entry(pairs_view(entries@), key@) == Some(v@),
            None => entry(pairs_view(entries@), key@) is None,
        },
{
    let ghost pv = pairs_view(entries@);
    let kv = chars_of(key);
    let mut i: usize = 0;
    while i < entries.len()
        invariant
            i <= entries@.len(),
            pv == pairs_view(entries@),
            kv@ == key@,
            entry(pv, key@) == entry_from(pv, key@, i as int),
        decreases entries.len() - i,
    {
        assert(pv[i as int] == (entries@[i as int].0@, entries@[i as int].1@));
        if crate::text::eq_str(kv.as_slice(), entries[i].0.as_str()) {
            return Some(&entries[i].1);
        }
        i = i + 1;
    }
    None
}

/// The fields of the top-level table keyed `key`, when its value is a table.
fn lookup_section<'a>(
    sections: &'a Vec<(String, Option<Vec<(String, TomlField)>>)>,
    key: &str,
) -> (r: Option<&'a Vec<(String, TomlField)>>)
    ensures
        match r {
            Some(t) => entry(pairs_view_opt(sections@), key@) == Some(Some(pairs_view(t@))),
            None => match entry(pairs_view_opt(sections@), key@) {
                Some(Some(_)) => false,
                _ => true,
            },
        },
{
    let ghost pv = pairs_view_opt(sections@);
    let kv = chars_of(key);
    let mut i: usize = 0;
    while i < sections.len()
        invariant
            i <= sections@.len(),
            pv == pairs_view_opt(sections@),
            kv@ == key@,
            entry(pv, key@) == entry_from(pv, key@, i as int),
        decreases sections.len() - i,
    {
        assert(pv[i as int].0 == sections@[i as int].0@);
        if crate::text::eq_str(kv.as_slice(), sections[i].0.as_str()) {
            return match &sections[i].1 {
                Some(t) => Some(t),
                None => None,
            };
        }
        i = i + 1;
    }
    None
}

/// The string `[workspace.package]` gives `key`.
fn workspace_value_of(m: &Manifest, key: &str) -> (r: Option<String>)
    ensures
        opt_view(r) == workspace_value(m@, key@),
{
    let sections = &m.0;
    assert(m@ == pairs_view_opt(sections@));
    match lookup_section(sections, "workspace") {
        Some(ws) => match lookup(ws, "package") {
            Some(f) => match &f.1 {
                Some(p) => match lookup(p, key) {
                    Some(x) => x.0.clone(),
                    None => None,
                },
                None => None,
            },
            None => None,
        },
        None => None,
    }
}

/// The value the nearest of `ancestors` whose `[workspace.package]` gives `key`
/// a string gives it.
fn inherited_value(ancestors: &[Option<Manifest>], key: &str) -> (r: Option<String>)
    ensures
        opt_view(r) == inherited_from(manifests_view(ancestors@), key@, 0),
{
    let ghost av = manifests_view(ancestors@);
    let mut i: usize = 0;
    while i < ancestors.len()
        invariant
            i <= ancestors@.len(),
            av == manifests_view(ancestors@),
            inherited_from(av, key@, 0) == inherited_from(av, key@, i as int),
        decreases ancestors.len() - i,
    {
        assert(av[i as int] == opt_manifest(ancestors@[i as int]));
        match &ancestors[i] {
            Some(m) => match workspace_value_of(m, key) {
                Some(v) => return Some(v),
                None => {},
            },
            None => {},
        }
        i = i + 1;
    }
    None
}

/// Whether a field is a table whose `workspace` key is `true`.
fn inherits_of(f: &TomlField) -> (r: bool)
    ensures
        r == inherits(f@),
{
    match &f.1 {
        Some(t) => match lookup(t, "workspace") {
            Some(x) => match x.1 {
                Some(b) => b,
                None => false,
            },
            None => false,
        },
        None => false,
    }
}

/// A package field, with workspace inheritance.
fn package_field_of(
    package: &Vec<(String, TomlField)>,
    key: &str,
    ancestors: &[Option<Manifest>],
) -> (r: Option<String>)
    ensures
        opt_view(r) == package_field(pairs_view(package@), key@, manifests_view(ancestors@)),
{
    match lookup(package, key) {
        Some(f) => match &f.0.0 {
            Some(v) => Some(v.clone()),
            None => if inherits_of(f) {
                inherited_value(ancestors, key)
            } else {
                None
            },
        },
        None => None,
    }
}

/// The first `authors` entry, when it is a string.
fn first_author_of(package: &Vec<(String, TomlField)>) -> (r: Option<String>)
    ensures
        opt_view(r) == first_author(pairs_view(package@)),
{
    match lookup(package, "authors") {
        Some(f) => match &f.2 {
            Some(items) => {
                if items.len() > 0 {
                    assert(items@.map_values(|x: TomlScalar| x@)[0] == items@[0]@);
                    items[0].0.clone()
                } else {
                    None
                }
            },
            None => None,
        },
        None => None,
    }
}

/// Reads the package metadata from a parsed manifest (`None` when it could not
/// be read or parsed), with `field.workspace = true` resolved against
/// `ancestors`, the manifests of the package's directory and each directory
/// above it, nearest first.
pub fn cargo_package_meta_of(manifest: Option<Manifest>, ancestors: &[Option<Manifest>]) -> (r:
    CargoMeta)
    ensures
        meta_view(r) == meta_of(opt_manifest(manifest), manifests_view(ancestors@)),
{
    let m = match manifest {
        Some(m) => m,
        None => return cargo_meta(None, None, None, None),
    };
    assert(m@ == pairs_view_opt(m.0@));
    let package = match lookup_section(&m.0, "package") {
        Some(p) => p,
        None => return cargo_meta(None, None, None, None),
    };
    cargo_meta(
        package_field_of(package, "name", ancestors),
        package_field_of(package, "version", ancestors),
        package_field_of(package, "repository", ancestors),
        first_author_of(package),
    )
}

/// A manifest's text parsed, where there is one.
pub open spec fn parsed(text: Option<Seq<char>>) -> Option<ManifestView> {
    match text {
        Some(t) => toml_manifest(t),
        None => None,
    }
}

/// Reads `[package]` metadata from the text of `Cargo.toml` (`None` when there
/// is no readable file), honoring Cargo's `field.workspace = true`
/// inheritance against the texts of the manifests in the package's directory
/// and each directory above it, nearest first.
pub fn cargo_package_meta(manifest_text: Option<&str>, ancestor_texts: &[Option<String>]) -> (r:
    CargoMeta)
    ensures
        meta_view(r) == meta_of(
            parsed(opt_str_view(manifest_text)),
            ancestor_texts@.map_values(|o: Option<String>| parsed(opt_view(o))),
        ),
{
    let manifest = match manifest_text {
        Some(t) => read_manifest(t),
        None => None,
    };
    let mut ancestors: Vec<Option<Manifest>> = Vec::new();
    let mut i: usize = 0;
    while i < ancestor_texts.len()
        invariant
            i <= ancestor_texts@.len(),
            manifests_view(ancestors@) == ancestor_texts@.take(i as int).map_values(
                |o: Option<String>| parsed(opt_view(o)),
            ),
        decreases ancestor_texts.len() - i,
    {
        let parsed_one = match &ancestor_texts[i] {
            Some(t) => read_manifest(t.as_str()),
            None => None,
        };
        let ghost before = manifests_view(ancestors@);
        ancestors.push(parsed_one);
        assert(manifests_view(ancestors@) =~= before.push(opt_manifest(parsed_one)));
        assert(ancestor_texts@.take(i + 1).map_values(|o: Option<String>| parsed(opt_view(o)))
            =~= ancestor_texts@.take(i as int).map_values(|o: Option<String>| parsed(opt_view(o))).push(
            parsed(opt_view(ancestor_texts@[i as int])),
        ));
        i = i + 1;
    }
    assert(ancestor_texts@.take(ancestor_texts@.len() as int) =~= ancestor_texts@);
    cargo_package_meta_of(manifest, ancestors.as_slice())
}

/// `ancestors[i]` is the nearest manifest whose `[workspace.package]` gives
/// `key` a string, and that string is `v`.
pub open spec fn nearest_workspace_value(
    ancestors: Seq<Option<ManifestView>>,
    key: Seq<char>,
    i: int,
    v: Seq<char>,
) -> bool {
    &&& 0 <= i < ancestors.len()
    &&& ancestors[i] matches Some(a) && workspace_value(a, key) == Some(v)
    &&& forall|j: int|
        0 <= j < i ==> match #[trigger] ancestors[j] {
            Some(a) => workspace_value(a, key) is None,
            None => true,
        }
}

/// The field `key` of a `[package]` table is written `key.workspace = true`:
/// not a string, but a table whose `workspace` entry is the boolean `true`.
pub open spec fn written_inherited(package: Seq<(Seq<char>, FieldView)>, key: Seq<char>) -> bool {
    match entry(package, key) {
        Some(f) => f.scalar.text is None && match f.table {
            Some(t) => match entry(t, "workspace"@) {
                Some(x) => x.flag == Some(true),
                None => false,
            },
            None => false,
        },
        None => false,
    }
}

/// The walk over the ancestors finds the nearest workspace value.
proof fn lemma_inherited_from_nearest(
    ancestors: Seq<Option<ManifestView>>,
    key: Seq<char>,
    i: int,
    v: Seq<char>,
    j: int,
)
    requires
        nearest_workspace_value(ancestors, key, i, v),
        0 <= j <= i,
    ensures
        inherited_from(ancestors, key, j) == Some(v),
    decreases i - j,
{
    if j < i {
        let _ = ancestors[j];
        lemma_inherited_from_nearest(ancestors, key, i, v, j + 1);
    }
}

/// Workspace inheritance reaches every package field alike: a field written
/// `key.workspace = true` takes the string that the nearest ancestor manifest's
/// `[workspace.package]` gives `key`. So the name and the version are that
/// string, and the repository is that string exactly when it is on GitHub.
pub proof fn lemma_workspace_fields_inherit(
    manifest: ManifestView,
    ancestors: Seq<Option<ManifestView>>,
    key: Seq<char>,
    i: int,
    v: Seq<char>,
)
    requires
        package_table(manifest) matches Some(p) && written_inherited(p, key),
        nearest_workspace_value(ancestors, key, i, v),
    ensures
        key == "name"@ ==> meta_of(Some(manifest), ancestors).0 == Some(v),
        key == "version"@ ==> meta_of(Some(manifest), ancestors).1 == Some(v),
        key == "repository"@ ==> meta_of(Some(manifest), ancestors).2 == (if github_repository(v) {
            Some(v)
        } else {
            None
        }),
{
    lemma_inherited_from_nearest(ancestors, key, i, v, 0);
}

/// A field written as a string is that string, whatever the workspace says;
/// the repository is kept exactly when it is on GitHub.
pub proof fn lemma_direct_fields_win(
    manifest: ManifestView,
    ancestors: Seq<Option<ManifestView>>,
    key: Seq<char>,
    v: Seq<char>,
)
    requires
        package_table(manifest) matches Some(p) && entry(p, key) matches Some(f) && f.scalar.text
            == Some(v),
    ensures
        key == "name"@ ==> meta_of(Some(manifest), ancestors).0 == Some(v),
        key == "version"@ ==> meta_of(Some(manifest), ancestors).1 == Some(v),
        key == "repository"@ ==> meta_of(Some(manifest), ancestors).2 == (if github_repository(v) {
            Some(v)
        } else {
            None
        }),
{
}

} // verus!
