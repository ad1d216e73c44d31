//! The shared template-argument parser: reads named arguments (`version:`,
//! `lang:`) out of an entry `main.typ`'s live code.

use vstd::prelude::*;
use crate::text::{
    copy_range, find_char, find_chars, find_from, lines, lines_from, next_line, string_of_range,
    is_ascii_alphanumeric, lemma_find_from,
};

verus! {

/// The part of a source line before its first `//` comment.
pub open spec fn code_part(line: Seq<char>) -> Seq<char> {
    match find_from(line, seq!['/', '/'], 0) {
        Some(cut) => line.take(cut),
        None => line,
    }
}

/// The key found at `at` in `code` starts a name: nothing word-like (an ASCII
/// letter or digit, `_` or `-`) stands right before it.
pub open spec fn boundary_before(code: Seq<char>, at: int) -> bool {
    at == 0 || !(is_ascii_alphanumeric(code[at - 1]) || code[at - 1] == '_' || code[at - 1] == '-')
}

/// The quoted value of the argument whose name `key` occurs at `at`: the name
/// starts on a boundary, is followed by `:`, and a `"..."` literal follows.
pub open spec fn argument_at(code: Seq<char>, key: Seq<char>, at: int) -> Option<Seq<char>> {
    let after = at + key.len();
    if boundary_before(code, at) && after < code.len() && code[after] == ':' {
        match find_from(code, seq!['"'], after + 1) {
            None => None,
            Some(open) => match find_from(code, seq!['"'], open + 1) {
                None => None,
                Some(close) => Some(code.subrange(open + 1, close)),
            },
        }
    } else {
        None
    }
}

/// The first well-formed argument `key` in `code` at or after `offset`;
/// occurrences that are not one are skipped.
pub open spec fn argument_from(code: Seq<char>, key: Seq<char>, offset: int) -> Option<Seq<char>>
    decreases code.len() + 1 - offset,
{
    if key.len() == 0 || offset < 0 || offset > code.len() {
        None
    } else {
        match find_from(code, key, offset) {
            None => None,
            Some(at) => {
                proof {
                    lemma_find_from(code, key, offset);
                }
                match argument_at(code, key, at) {
                    Some(value) => Some(value),
                    None => argument_from(code, key, at + key.len()),
                }
            },
        }
    }
}

/// The first argument `key` in the live code of the given lines.
pub open spec fn argument_in_lines(ls: Seq<Seq<char>>, key: Seq<char>) -> Option<Seq<char>>
    decreases ls.len(),
{
    if ls.len() == 0 {
        None
    } else {
        match argument_from(code_part(ls[0]), key, 0) {
            Some(value) => Some(value),
            None => argument_in_lines(ls.drop_first(), key),
        }
    }
}

/// The value of the template argument `key: "..."` in `text`, read from live
/// code only.
pub open spec fn template_argument(text: Seq<char>, key: Seq<char>) -> Option<Seq<char>> {
    argument_in_lines(lines(text), key)
}

/// An optional string as its characters.
pub open spec fn opt_view(o: Option<String>) -> Option<Seq<char>> {
    match o {
        Some(s) => Some(s@),
        None => None,
    }
}

fn argument_at_exec(code: &[char], key_len: usize, at: usize) -> (r: Option<String>)
    requires
        at + key_len <= code.len(),
    ensures
        opt_view(r) == argument_at(code@, Seq::new(key_len as nat, |i: int| ' '), at as int),
{
    let after = at + key_len;
    let boundary = at == 0 || !(('0' <= code[at - 1] && code[at - 1] <= '9') || ('a' <= code[at
        - 1] && code[at - 1] <= 'z') || ('A' <= code[at - 1] && code[at - 1] <= 'Z') || code[at
        - 1] == '_' || code[at - 1] == '-');
    if boundary && after < code.len() && code[after] == ':' {
        match find_char(code, '"', after + 1) {
            None => None,
            Some(open) => {
                proof {
                    lemma_find_from(code@, seq!['"'], after + 1);
                }
                match find_char(code, '"', open + 1) {
                    None => None,
                    Some(close) => {
                        proof {
                            lemma_find_from(code@, seq!['"'], open + 1);
                        }
                        Some(string_of_range(code, open + 1, close))
                    },
                }
            },
        }
    } else {
        None
    }
}

fn argument_from_exec(code: &[char], key: &[char]) -> (r: Option<String>)
    requires
        key.len() > 0,
    ensures
        opt_view(r) == argument_from(code@, key@, 0),
{
    let mut offset: usize = 0;
    loop
        invariant
            offset <= code.len(),
            key.len() > 0,
            argument_from(code@, key@, 0) == argument_from(code@, key@, offset as int),
        decreases code.len() - offset,
    {
        match find_chars(code, key, offset) {
            None => {
                return None;
            },
            Some(at) => {
                proof {
                    lemma_find_from(code@, key@, offset as int);
                    assert(argument_at(code@, key@, at as int) == argument_at(
                        code@,
                        Seq::new(key.len() as nat, |i: int| ' '),
                        at as int,
                    ));
                }
                let found = argument_at_exec(code, key.len(), at);
                if found.is_some() {
                    return found;
                }
                offset = at + key.len();
            },
        }
    }
}

/// Reads a named template argument (`version:`, `lang:`) from live code only.
/// A mention inside a comment must not become the value, an occurrence without
/// a quoted value is skipped rather than ending the search, and a name that
/// merely ends in the key (`sub-lang:`) is a different argument.
pub fn parse_template_argument(text: &str, key: &str) -> (r: Option<String>)
    requires
        key@.len() > 0,
    ensures
        opt_view(r) == template_argument(text@, key@),
{
    let v = crate::text::chars_of(text);
    let kv = crate::text::chars_of(key);
    let comment = vec!['/', '/'];
    assert(comment@ == seq!['/', '/']);
    let mut i: usize = 0;
    while i < v.len()
        invariant
            i <= v.len(),
            v@ == text@,
            kv@ == key@,
            kv@.len() > 0,
            comment@ == seq!['/', '/'],
            template_argument(text@, key@) == argument_in_lines(lines_from(v@, i as int), key@),
        decreases v.len() - i,
    {
        let (end, next) = next_line(v.as_slice(), i);
        let line = copy_range(v.as_slice(), i, end);
        let cut = match find_chars(line.as_slice(), comment.as_slice(), 0) {
            Some(c) => {
                proof {
                    lemma_find_from(line@, seq!['/', '/'], 0);
                }
                c
            },
            None => line.len(),
        };
        let code = copy_range(line.as_slice(), 0, cut);
        assert(code@ == code_part(line@)) by {
            assert(line@.subrange(0, line@.len() as int) =~= line@);
        }
        let ghost ls = lines_from(v@, i as int);
        assert(ls[0] == line@);
        assert(ls.drop_first() =~= lines_from(v@, next as int));
        let found = argument_from_exec(code.as_slice(), kv.as_slice());
        if found.is_some() {
            return found;
        }
        i = next;
    }
    None
}

/// The `version: "..."` argument of a document template's entry text.
pub fn main_typ_version(entry_text: &str) -> (r: Option<String>)
    ensures
        opt_view(r) == template_argument(entry_text@, "version"@),
{
    proof {
        reveal_strlit("version");
    }
    parse_template_argument(entry_text, "version")
}

/// The `lang: "..."` argument of a document template's entry text: the
/// entry's own declaration of its content language.
pub fn main_typ_lang(entry_text: &str) -> (r: Option<String>)
    ensures
        opt_view(r) == template_argument(entry_text@, "lang"@),
{
    proof {
        reveal_strlit("lang");
    }
    parse_template_argument(entry_text, "lang")
}

} // verus!
