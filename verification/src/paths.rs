//! Paths as text: joining, components, prefixes and extensions, with the
//! meaning `std::path` gives them on Unix, where `/` separates components.
//! On Windows `\` separates components too: the `_on` functions read a path
//! with every `\` taken as `/` there, and drive or UNC prefixes are compared
//! as the leading components they are written as.

use vstd::prelude::*;
use crate::project::imports::strings_view;
use crate::text::{chars_of, chars_of_string, copy_range, eq_str, next_piece, split, split_from, string_of_range};

verus! {

/// `base` joined with `rel` (`Path::join`): an absolute `rel` replaces `base`,
/// an empty `base` adds nothing, otherwise one `/` separates the two.
pub open spec fn joined(base: Seq<char>, rel: Seq<char>) -> Seq<char> {
    if rel.len() > 0 && rel[0] == '/' {
        rel
    } else if base.len() == 0 {
        rel
    } else if base.last() == '/' {
        base + rel
    } else {
        base + seq!['/'] + rel
    }
}

/// Joins two paths the way `Path::join` does on Unix.
pub fn join_path(base: &str, rel: &str) -> (r: String)
    ensures
        r@ == joined(base@, rel@),
{
    let bv = chars_of(base);
    let rv = chars_of(rel);
    if rv.len() > 0 && rv[0] == '/' {
        return rel.to_owned();
    }
    if bv.len() == 0 {
        return rel.to_owned();
    }
    let mut r = base.to_owned();
    if bv[bv.len() - 1] != '/' {
        crate::text::push_char(&mut r, '/');
    }
    r.append(rel);
    r
}

/// A piece between separators that names a component: neither empty nor `.`.
pub open spec fn names_component(piece: Seq<char>) -> bool {
    piece.len() > 0 && piece != seq!['.']
}

/// The pieces that name components, in order.
pub open spec fn kept_pieces(pieces: Seq<Seq<char>>) -> Seq<Seq<char>>
    decreases pieces.len(),
{
    if pieces.len() == 0 {
        Seq::empty()
    } else if names_component(pieces[0]) {
        seq![pieces[0]] + kept_pieces(pieces.drop_first())
    } else {
        kept_pieces(pieces.drop_first())
    }
}

/// The components of a path (`Path::components` on Unix), each written as
/// text: a leading `/` is the root `/`, a leading `.` alone before a separator
/// is the current directory `.`, and the rest are the pieces between `/`
/// that are neither empty nor `.` (so `..` stands for the parent directory).
pub open spec fn components(p: Seq<char>) -> Seq<Seq<char>> {
    if p.len() > 0 && p[0] == '/' {
        seq![seq!['/']] + kept_pieces(split(p.drop_first(), '/'))
    } else if p.len() > 0 && p[0] == '.' && (p.len() == 1 || p[1] == '/') {
        seq![seq!['.']] + kept_pieces(split(p.drop_first(), '/'))
    } else {
        kept_pieces(split(p, '/'))
    }
}

/// `path` lies inside `dir`: the components of `dir` begin those of `path`
/// (`Path::strip_prefix` succeeds).
pub open spec fn under(path: Seq<char>, dir: Seq<char>) -> bool {
    let a = components(path);
    let b = components(dir);
    b.len() <= a.len() && a.take(b.len() as int) == b
}

/// The last component of a path when it is a name (`Path::file_name`).
pub open spec fn file_name(p: Seq<char>) -> Option<Seq<char>> {
    let c = components(p);
    if c.len() > 0 && c.last() != seq!['/'] && c.last() != seq!['.'] && c.last() != seq!['.', '.'] {
        Some(c.last())
    } else {
        None
    }
}

/// The position of the last `c` in `s`.
pub open spec fn rfind_char(s: Seq<char>, c: char) -> Option<int>
    decreases s.len(),
{
    if s.len() == 0 {
        None
    } else if s.last() == c {
        Some(s.len() - 1)
    } else {
        rfind_char(s.drop_last(), c)
    }
}

/// The extension of a file name: what follows its last `.`, unless that dot
/// is the first character or there is none (`Path::extension`).
pub open spec fn extension_of(name: Seq<char>) -> Option<Seq<char>> {
    match rfind_char(name, '.') {
        None => None,
        Some(k) => if k == 0 || name == seq!['.', '.'] {
            None
        } else {
            Some(name.skip(k + 1))
        },
    }
}

/// The extension of a path's file name (`Path::extension`).
pub open spec fn path_extension(p: Seq<char>) -> Option<Seq<char>> {
    match file_name(p) {
        Some(n) => extension_of(n),
        None => None,
    }
}

/// The component names among the pieces of `v[start..]` split at `/`.
fn kept_pieces_of(v: &[char], start: usize) -> (r: Vec<String>)
    requires
        start <= v.len(),
    ensures
        strings_view(r@) == kept_pieces(split_from(v@, '/', start as int)),
{
    let mut out: Vec<String> = Vec::new();
    let mut i = start;
    loop
        invariant
            start <= i <= v.len(),
            strings_view(out@) + kept_pieces(split_from(v@, '/', i as int)) == kept_pieces(
                split_from(v@, '/', start as int),
            ),
        decreases v.len() - i,
    {
        let (end, more) = next_piece(v, '/', i);
        let ghost piece = v@.subrange(i as int, end as int);
        let ghost rest: Seq<Seq<char>> = if more {
            split_from(v@, '/', end + 1)
        } else {
            Seq::empty()
        };
        assert((seq![piece] + rest).drop_first() =~= rest);
        assert((seq![piece] + rest)[0] == piece);
        let ghost before = strings_view(out@);
        let keep = end > i && !(end == i + 1 && v[i] == '.');
        assert(keep == names_component(piece)) by {
            if end == i + 1 {
                assert(piece.len() == 1);
                assert(piece[0] == v@[i as int]);
                if v[i as int] == '.' {
                    assert(piece =~= seq!['.']);
                }
            }
            if end > i + 1 {
                assert(piece.len() != seq!['.'].len());
            }
        }
        if keep {
            out.push(string_of_range(v, i, end));
            assert(strings_view(out@) =~= before.push(piece));
            assert(before.push(piece) + kept_pieces(rest) =~= before + (seq![piece] + kept_pieces(
                rest,
            )));
        }
        if !more {
            let ghost e: Seq<Seq<char>> = Seq::empty();
            assert(kept_pieces(e) =~= e);
            assert(strings_view(out@) + e =~= strings_view(out@));
            return out;
        }
        i = end + 1;
    }
}

/// The components of a path, as `Path::components` yields them on Unix.
pub fn path_components(p: &str) -> (r: Vec<String>)
    ensures
        strings_view(r@) == components(p@),
{
    let v = chars_of(p);
    if v.len() > 0 && (v[0] == '/' || (v[0] == '.' && (v.len() == 1 || v[1] == '/'))) {
        let w = copy_range(v.as_slice(), 1, v.len());
        assert(w@ =~= p@.drop_first());
        let rest = kept_pieces_of(w.as_slice(), 0);
        let mut out: Vec<String> = Vec::new();
        proof {
            reveal_strlit("/");
            reveal_strlit(".");
        }
        if v[0] == '/' {
            out.push("/".to_owned());
        } else {
            out.push(".".to_owned());
        }
        let ghost head = strings_view(out@);
        let ghost first: Seq<char> = if v[0] == '/' {
            seq!['/']
        } else {
            seq!['.']
        };
        assert("/"@ =~= seq!['/']);
        assert("."@ =~= seq!['.']);
        assert(head =~= seq![first]);
        let mut k: usize = 0;
        while k < rest.len()
            invariant
                k <= rest@.len(),
                head.len() == 1,
                strings_view(out@) == head + strings_view(rest@).take(k as int),
            decreases rest.len() - k,
        {
            out.push(rest[k].clone());
            assert(strings_view(rest@).take(k + 1) =~= strings_view(rest@).take(k as int).push(
                rest@[k as int]@,
            ));
            assert(strings_view(out@) =~= (head + strings_view(rest@).take(k as int)).push(
                rest@[k as int]@,
            ));
            k = k + 1;
        }
        assert(strings_view(rest@).take(rest@.len() as int) =~= strings_view(rest@));
        out
    } else {
        kept_pieces_of(v.as_slice(), 0)
    }
}

/// `a` and `b` hold the same text.
fn same_string(a: &String, b: &String) -> (r: bool)
    ensures
        r == (a@ == b@),
{
    let av = chars_of_string(a);
    eq_str(av.as_slice(), b.as_str())
}

/// Whether `path` lies inside `dir`, component by component
/// (`Path::strip_prefix(dir).is_ok()`).
pub fn is_under(path: &str, dir: &str) -> (r: bool)
    ensures
        r == under(path@, dir@),
{
    let a = path_components(path);
    let b = path_components(dir);
    let ghost av = strings_view(a@);
    let ghost bv = strings_view(b@);
    if b.len() > a.len() {
        return false;
    }
    let mut i: usize = 0;
    while i < b.len()
        invariant
            i <= b@.len() <= a@.len(),
            av == strings_view(a@),
            bv == strings_view(b@),
            av == components(path@),
            bv == components(dir@),
            forall|k: int| 0 <= k < i ==> av[k] == bv[k],
        decreases b.len() - i,
    {
        if !same_string(&a[i], &b[i]) {
            assert(av.take(bv.len() as int)[i as int] != bv[i as int]);
            return false;
        }
        i = i + 1;
    }
    assert(av.take(bv.len() as int) =~= bv);
    true
}

/// The extension of a path's file name, as `Path::extension` gives it.
pub fn extension(p: &str) -> (r: Option<String>)
    ensures
        match r {
            Some(e) => path_extension(p@) == Some(e@),
            None => path_extension(p@) is None,
        },
{
    let c = path_components(p);
    let ghost cv = strings_view(c@);
    if c.len() == 0 {
        return None;
    }
    let last = chars_of_string(&c[c.len() - 1]);
    assert(cv == components(p@));
    assert(cv.len() == c@.len());
    assert(last@ == cv.last());
    proof {
        reveal_strlit("/");
        reveal_strlit(".");
        reveal_strlit("..");
        assert("/"@ =~= seq!['/']);
        assert("."@ =~= seq!['.']);
        assert(".."@ =~= seq!['.', '.']);
    }
    if eq_str(last.as_slice(), "/") || eq_str(last.as_slice(), ".") || eq_str(last.as_slice(), "..") {
        assert(file_name(p@) is None);
        return None;
    }
    assert(file_name(p@) == Some(last@));
    let mut k = last.len();
    assert(last@.take(k as int) =~= last@);
    while k > 0 && last[k - 1] != '.'
        invariant
            k <= last@.len(),
            rfind_char(last@, '.') == rfind_char(last@.take(k as int), '.'),
        decreases k,
    {
        assert(last@.take(k as int).drop_last() =~= last@.take(k - 1));
        k = k - 1;
    }
    if k == 0 {
        assert(last@.take(0) =~= Seq::<char>::empty());
        return None;
    }
    assert(last@.take(k as int).last() == '.');
    assert(rfind_char(last@, '.') == Some(k - 1));
    if k - 1 == 0 {
        return None;
    }
    Some(string_of_range(last.as_slice(), k, last.len()))
}

/// `p` as separators are read where `windows` holds: there `\` separates
/// components as `/` does, so every `\` is written `/`; elsewhere `p` itself.
pub open spec fn unified(p: Seq<char>, windows: bool) -> Seq<char> {
    if windows {
        p.map_values(|c: char| if c == '\\' { '/' } else { c })
    } else {
        p
    }
}

/// `path` lies inside `dir`, with separators read as on Windows when
/// `windows` holds.
pub open spec fn under_on(path: Seq<char>, dir: Seq<char>, windows: bool) -> bool {
    under(unified(path, windows), unified(dir, windows))
}

/// The extension of a path's file name, with separators read as on Windows
/// when `windows` holds.
pub open spec fn path_extension_on(p: Seq<char>, windows: bool) -> Option<Seq<char>> {
    path_extension(unified(p, windows))
}

/// Writes every `\` of `p` as `/` when `windows` holds.
pub fn unify_separators(p: &str, windows: bool) -> (r: String)
    ensures
        r@ == unified(p@, windows),
{
    if !windows {
        return p.to_owned();
    }
    let v = chars_of(p);
    let mut out = String::new();
    let mut i: usize = 0;
    while i < v.len()
        invariant
            i <= v@.len(),
            v@ == p@,
            out@ == unified(p@, true).take(i as int),
        decreases v.len() - i,
    {
        let c = if v[i] == '\\' {
            '/'
        } else {
            v[i]
        };
        let ghost before = out@;
        crate::text::push_char(&mut out, c);
        assert(unified(p@, true).take(i + 1) =~= before.push(c));
        i = i + 1;
    }
    assert(unified(p@, true).take(v@.len() as int) =~= unified(p@, true));
    out
}

/// Whether `path` lies inside `dir`, with separators read as on Windows when
/// `windows` holds.
pub fn is_under_on(path: &str, dir: &str, windows: bool) -> (r: bool)
    ensures
        r == under_on(path@, dir@, windows),
{
    let p = unify_separators(path, windows);
    let d = unify_separators(dir, windows);
    is_under(p.as_str(), d.as_str())
}

/// The extension of a path's file name, with separators read as on Windows
/// when `windows` holds.
pub fn extension_on(p: &str, windows: bool) -> (r: Option<String>)
    ensures
        match r {
            Some(e) => path_extension_on(p@, windows) == Some(e@),
            None => path_extension_on(p@, windows) is None,
        },
{
    let u = unify_separators(p, windows);
    extension(u.as_str())
}

} // verus!
