//! The starter project `cargo fy-docs init` scaffolds: the entry `main.typ`
//! filled in from the package metadata.

use vstd::prelude::*;
use crate::project::cargo_meta::{package_name, CargoMeta};
use crate::project::template_args::opt_view;
use crate::text::{replace_all, replace_str};

verus! {

/// A starter entry with its `{{NAME}}`, `{{VERSION}}` and `{{AUTHOR}}`
/// placeholders filled in, in turn.
pub open spec fn starter_of(template: Seq<char>, name: Seq<char>, version: Seq<char>, author: Seq<char>) -> Seq<char> {
    replace_all(
        replace_all(replace_all(template, "{{NAME}}"@, name), "{{VERSION}}"@, version),
        "{{AUTHOR}}"@,
        author,
    )
}

/// Fills in the placeholders of the starter `main.typ` for a package.
pub fn fill_starter(template: &str, name: &str, version: &str, author: &str) -> (r: String)
    ensures
        r@ == starter_of(template@, name@, version@, author@),
{
    proof {
        reveal_strlit("{{NAME}}");
        reveal_strlit("{{VERSION}}");
        reveal_strlit("{{AUTHOR}}");
    }
    let s = replace_str(template, "{{NAME}}", name);
    let s = replace_str(s.as_str(), "{{VERSION}}", version);
    replace_str(s.as_str(), "{{AUTHOR}}", author)
}

/// A value, or a fallback when there is none.
pub open spec fn or_else(o: Option<Seq<char>>, fallback: Seq<char>) -> Seq<char> {
    match o {
        Some(v) => v,
        None => fallback,
    }
}

/// What the starter entry names: the package name (else the directory's
/// name, else `project`), its version (else `0.1.0`) and its first author
/// (else `TODO`).
pub fn starter_fields(meta: CargoMeta, dir_name: Option<String>) -> (r: (String, String, String))
    ensures
        r.0@ == or_else(opt_view(meta.name), or_else(opt_view(dir_name), "project"@)),
        r.1@ == or_else(opt_view(meta.version), "0.1.0"@),
        r.2@ == or_else(opt_view(meta.author), "TODO"@),
{
    let name = package_name(meta.name, dir_name);
    let version = match meta.version {
        Some(v) => v,
        None => "0.1.0".to_owned(),
    };
    let author = match meta.author {
        Some(a) => a,
        None => "TODO".to_owned(),
    };
    (name, version, author)
}

} // verus!
