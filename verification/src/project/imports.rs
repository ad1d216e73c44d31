//! The typst compile root: the absolute-import scan and the choice of the
//! ancestor directory satisfying every import.

use vstd::prelude::*;
use crate::project::{lemma_lex_antisymmetric, lemma_lex_total, lemma_lex_transitive, lex_le};
use crate::text::{
    chars_of, find_char, find_chars, find_from, lemma_find_from, lines, lines_from, next_line,
    copy_range, string_of_range, contains, join,
};

verus! {

/// The views of some strings.
pub open spec fn strings_view(v: Seq<String>) -> Seq<Seq<char>> {
    v.map_values(|s: String| s@)
}

/// A quoted text naming a root-relative typst file: `/...typ`.
pub open spec fn is_absolute_typ(text: Seq<char>) -> bool {
    text.len() > 0 && text[0] == '/' && text.len() >= 5 && text.subrange(
        text.len() - 4,
        text.len() as int,
    ) == seq!['.', 't', 'y', 'p']
}

/// The root-relative `.typ` paths quoted in `c[i..]`, up to a `//` comment or
/// an unterminated quote.
pub open spec fn quoted_typs_from(c: Seq<char>, i: int) -> Seq<Seq<char>>
    decreases c.len() - i,
{
    if i < 0 || i >= c.len() {
        Seq::empty()
    } else if c[i] == '/' && i + 1 < c.len() && c[i + 1] == '/' {
        Seq::empty()
    } else if c[i] == '"' || c[i] == '\'' {
        match find_from(c, seq![c[i]], i + 1) {
            None => Seq::empty(),
            Some(j) => {
                proof {
                    lemma_find_from(c, seq![c[i]], i + 1);
                }
                let text = c.subrange(i + 1, j);
                (if is_absolute_typ(text) {
                    seq![text.drop_first()]
                } else {
                    Seq::empty()
                }) + quoted_typs_from(c, j + 1)
            },
        }
    } else {
        quoted_typs_from(c, i + 1)
    }
}

/// The root-relative `.typ` paths quoted on a source line.
pub open spec fn quoted_typs(line: Seq<char>) -> Seq<Seq<char>> {
    quoted_typs_from(line, 0)
}

/// Extracts the root-relative `.typ` paths quoted on a single source line.
/// Both quote styles are recognized and everything after `//` is a comment, so
/// a commented-out `#import` cannot drag root detection to the wrong ancestor.
pub fn quoted_absolute_typs(line: &str) -> (r: Vec<String>)
    ensures
        strings_view(r@) == quoted_typs(line@),
{
    let c = chars_of(line);
    let mut found: Vec<String> = Vec::new();
    let mut i: usize = 0;
    while i < c.len()
        invariant
            i <= c.len(),
            c@ == line@,
            quoted_typs(line@) == strings_view(found@) + quoted_typs_from(c@, i as int),
        decreases c.len() - i,
    {
        if c[i] == '/' && i + 1 < c.len() && c[i + 1] == '/' {
            assert(strings_view(found@) + Seq::<Seq<char>>::empty() =~= strings_view(found@));
            return found;
        }
        if c[i] == '"' || c[i] == '\'' {
            let quote = c[i];
            match find_char(c.as_slice(), quote, i + 1) {
                None => {
                    assert(strings_view(found@) + Seq::<Seq<char>>::empty() =~= strings_view(
                        found@,
                    ));
                    return found;
                },
                Some(j) => {
                    proof {
                        lemma_find_from(c@, seq![quote], i + 1);
                    }
                    let ghost text = c@.subrange(i + 1, j as int);
                    let ghost before = strings_view(found@);
                    let is_abs = j - (i + 1) >= 5 && c[i + 1] == '/' && c[j - 4] == '.' && c[j - 3]
                        == 't' && c[j - 2] == 'y' && c[j - 1] == 'p';
                    proof {
                        if is_abs {
                            assert(text.subrange(text.len() - 4, text.len() as int) =~= seq![
                                '.',
                                't',
                                'y',
                                'p',
                            ]);
                        } else if text.len() >= 5 && text[0] == '/' {
                            assert(text.subrange(text.len() - 4, text.len() as int)[0] == c@[j
                                - 4]);
                            assert(text.subrange(text.len() - 4, text.len() as int)[1] == c@[j
                                - 3]);
                            assert(text.subrange(text.len() - 4, text.len() as int)[2] == c@[j
                                - 2]);
                            assert(text.subrange(text.len() - 4, text.len() as int)[3] == c@[j
                                - 1]);
                        }
                    }
                    if is_abs {
                        found.push(string_of_range(c.as_slice(), i + 2, j));
                        assert(text.drop_first() =~= c@.subrange(i + 2, j as int));
                        assert(strings_view(found@) =~= before.push(text.drop_first()));
                        assert(before + (seq![text.drop_first()] + quoted_typs_from(c@, j + 1))
                            =~= before.push(text.drop_first()) + quoted_typs_from(c@, j + 1));
                    } else {
                        assert(Seq::<Seq<char>>::empty() + quoted_typs_from(c@, j + 1)
                            =~= quoted_typs_from(c@, j + 1));
                    }
                    i = j + 1;
                },
            }
        } else {
            i = i + 1;
        }
    }
    assert(strings_view(found@) + Seq::<Seq<char>>::empty() =~= strings_view(found@));
    found
}

/// The absolute imports of the given source lines: the quoted `.typ` paths
/// of every line that mentions `import`.
pub open spec fn imports_in_lines(ls: Seq<Seq<char>>) -> Seq<Seq<char>>
    decreases ls.len(),
{
    if ls.len() == 0 {
        Seq::empty()
    } else {
        (if contains(ls[0], "import"@) {
            quoted_typs(ls[0])
        } else {
            Seq::empty()
        }) + imports_in_lines(ls.drop_first())
    }
}

/// The absolute import paths (`#import "/pkg/lib.typ"`) of one `.typ`
/// source, as root-relative paths, in order of appearance.
pub fn imports_in_source(text: &str) -> (r: Vec<String>)
    ensures
        strings_view(r@) == imports_in_lines(lines(text@)),
{
    let v = chars_of(text);
    let import = chars_of("import");
    let mut found: Vec<String> = Vec::new();
    let mut i: usize = 0;
    while i < v.len()
        invariant
            i <= v.len(),
            v@ == text@,
            import@ == "import"@,
            imports_in_lines(lines(text@)) == strings_view(found@) + imports_in_lines(
                lines_from(v@, i as int),
            ),
        decreases v.len() - i,
    {
        let (end, next) = next_line(v.as_slice(), i);
        let line_chars = copy_range(v.as_slice(), i, end);
        let ghost ls = lines_from(v@, i as int);
        assert(ls[0] == line_chars@);
        assert(ls.drop_first() =~= lines_from(v@, next as int));
        let ghost before = strings_view(found@);
        if find_chars(line_chars.as_slice(), import.as_slice(), 0).is_some() {
            let line = string_of_range(line_chars.as_slice(), 0, line_chars.len());
            assert(line_chars@.subrange(0, line_chars@.len() as int) =~= line_chars@);
            let mut more = quoted_absolute_typs(line.as_str());
            let ghost added = strings_view(more@);
            found.append(&mut more);
            assert(strings_view(found@) =~= before + added);
            assert(before + (added + imports_in_lines(lines_from(v@, next as int))) =~= (before
                + added) + imports_in_lines(lines_from(v@, next as int)));
        } else {
            assert(Seq::<Seq<char>>::empty() + imports_in_lines(lines_from(v@, next as int))
                =~= imports_in_lines(lines_from(v@, next as int)));
        }
        i = next;
    }
    assert(strings_view(found@) + Seq::<Seq<char>>::empty() =~= strings_view(found@));
    found
}


/// Where `x` goes among the sorted `s`: after everything ordered no later.
pub open spec fn sorted_position(s: Seq<Seq<char>>, x: Seq<char>) -> int
    decreases s.len(),
{
    if s.len() == 0 || lex_le(s.last(), x) {
        s.len() as int
    } else {
        sorted_position(s.drop_last(), x)
    }
}

/// `s` with `x` inserted in order, unless it is already there.
pub open spec fn insert_unique(s: Seq<Seq<char>>, x: Seq<char>) -> Seq<Seq<char>> {
    if s.contains(x) {
        s
    } else {
        s.insert(sorted_position(s, x), x)
    }
}

/// The distinct strings of `s` in order (`sort` then `dedup`).
pub open spec fn sorted_unique(s: Seq<Seq<char>>) -> Seq<Seq<char>>
    decreases s.len(),
{
    if s.len() == 0 {
        Seq::empty()
    } else {
        insert_unique(sorted_unique(s.drop_last()), s.last())
    }
}

pub proof fn lemma_sorted_position_bounds(s: Seq<Seq<char>>, x: Seq<char>)
    ensures
        0 <= sorted_position(s, x) <= s.len(),
    decreases s.len(),
{
    if s.len() > 0 && !lex_le(s.last(), x) {
        lemma_sorted_position_bounds(s.drop_last(), x);
    }
}

/// Strictly in order: each text orders before every later one, and none
/// occurs twice.
pub open spec fn strictly_ordered(s: Seq<Seq<char>>) -> bool {
    forall|i: int, j: int| 0 <= i < j < s.len() ==> lex_le(#[trigger] s[i], #[trigger] s[j]) && s[i] != s[j]
}

proof fn lemma_sorted_position(s: Seq<Seq<char>>, x: Seq<char>)
    requires
        strictly_ordered(s),
    ensures
        0 <= sorted_position(s, x) <= s.len(),
        forall|j: int| sorted_position(s, x) <= j < s.len() ==> !lex_le(#[trigger] s[j], x),
        sorted_position(s, x) > 0 ==> lex_le(s[sorted_position(s, x) - 1], x),
    decreases s.len(),
{
    if s.len() > 0 && !lex_le(s.last(), x) {
        let d = s.drop_last();
        assert(strictly_ordered(d)) by {
            assert forall|i: int, j: int| 0 <= i < j < d.len() implies lex_le(#[trigger] d[i], #[trigger] d[j]) && d[i] != d[j] by {
                assert(d[i] == s[i] && d[j] == s[j]);
            }
        }
        lemma_sorted_position(d, x);
        let p = sorted_position(d, x);
        assert forall|j: int| p <= j < s.len() implies !lex_le(#[trigger] s[j], x) by {
            if j < d.len() {
                assert(s[j] == d[j]);
            }
        }
        if p > 0 {
            assert(s[p - 1] == d[p - 1]);
        }
    }
}

/// Sorting and deduplicating the imports leaves them strictly in order and
/// loses none: a path is in the result exactly when it is in the input.
pub proof fn lemma_sorted_unique(s: Seq<Seq<char>>)
    ensures
        strictly_ordered(sorted_unique(s)),
        forall|x: Seq<char>| #[trigger] sorted_unique(s).contains(x) <==> s.contains(x),
    decreases s.len(),
{
    if s.len() > 0 {
        let d = sorted_unique(s.drop_last());
        let x = s.last();
        lemma_sorted_unique(s.drop_last());
        assert forall|y: Seq<char>| #[trigger] s.contains(y) <==> (s.drop_last().contains(y) || y == x) by {
            if s.contains(y) {
                let k = choose|k: int| 0 <= k < s.len() && s[k] == y;
                if k < s.len() - 1 {
                    assert(s.drop_last()[k] == y);
                }
            }
            if s.drop_last().contains(y) {
                let k = choose|k: int| 0 <= k < s.drop_last().len() && s.drop_last()[k] == y;
                assert(s[k] == y);
            }
        }
        if !d.contains(x) {
            lemma_sorted_position(d, x);
            let p = sorted_position(d, x);
            let r = d.insert(p, x);
            assert forall|i: int, j: int| 0 <= i < j < r.len() implies lex_le(#[trigger] r[i], #[trigger] r[j]) && r[i] != r[j] by {
                if j < p {
                    assert(r[i] == d[i] && r[j] == d[j]);
                } else if j == p {
                    assert(r[i] == d[i]);
                    if i < p - 1 {
                        lemma_lex_transitive(d[i], d[p - 1], x);
                    }
                    assert(d.contains(d[i]));
                } else if i > p {
                    assert(r[i] == d[i - 1] && r[j] == d[j - 1]);
                } else if i == p {
                    assert(r[j] == d[j - 1]);
                    lemma_lex_total(d[j - 1], x);
                    assert(d.contains(d[j - 1]));
                } else {
                    assert(r[i] == d[i] && r[j] == d[j - 1]);
                    if i < p - 1 {
                        lemma_lex_transitive(d[i], d[p - 1], x);
                    }
                    lemma_lex_total(d[j - 1], x);
                    lemma_lex_transitive(d[i], x, d[j - 1]);
                    if d[i] == d[j - 1] {
                        lemma_lex_antisymmetric(x, d[j - 1]);
                    }
                }
            }
            assert forall|y: Seq<char>| #[trigger] r.contains(y) <==> (d.contains(y) || y == x) by {
                if r.contains(y) {
                    let k = choose|k: int| 0 <= k < r.len() && r[k] == y;
                    if k < p {
                        assert(d[k] == y);
                    } else if k > p {
                        assert(d[k - 1] == y);
                    }
                }
                if d.contains(y) {
                    let k = choose|k: int| 0 <= k < d.len() && d[k] == y;
                    if k < p {
                        assert(r[k] == y);
                    } else {
                        assert(r[k + 1] == y);
                    }
                }
                if y == x {
                    assert(r[p] == x);
                }
            }
        }
    }
}

fn same_string(a: &String, b: &String) -> (r: bool)
    ensures
        r == (a@ == b@),
{
    let av = chars_of(a.as_str());
    let bv = chars_of(b.as_str());
    if av.len() != bv.len() {
        return false;
    }
    let mut i: usize = 0;
    while i < av.len()
        invariant
            i <= av.len() == bv.len(),
            av@ == a@,
            bv@ == b@,
            forall|k: int| 0 <= k < i ==> av@[k] == bv@[k],
        decreases av.len() - i,
    {
        if av[i] != bv[i] {
            return false;
        }
        i = i + 1;
    }
    assert(av@ =~= bv@);
    true
}

/// Sorts import paths and drops duplicates, as `sort` then `dedup` leave them.
pub fn sort_unique(items: Vec<String>) -> (r: Vec<String>)
    ensures
        strings_view(r@) == sorted_unique(strings_view(items@)),
{
    let ghost input = strings_view(items@);
    let mut out: Vec<String> = Vec::new();
    let mut items = items;
    let mut taken: usize = 0;
    let n = items.len();
    while items.len() > 0
        invariant
            taken + items@.len() == n,
            input.len() == n,
            strings_view(items@) == input.skip(taken as int),
            strings_view(out@) == sorted_unique(input.take(taken as int)),
        decreases items.len(),
    {
        let ghost before_items = items@;
        let x = items.remove(0);
        let ghost prev = strings_view(out@);
        assert(input.take(taken + 1).drop_last() =~= input.take(taken as int));
        assert(before_items[0] == x);
        assert(strings_view(before_items)[0] == x@);
        assert(input.take(taken + 1).last() == x@);
        let mut present = false;
        let mut k: usize = 0;
        while k < out.len()
            invariant
                k <= out@.len(),
                prev == strings_view(out@),
                present <==> exists|m: int| 0 <= m < k && prev[m] == x@,
            decreases out.len() - k,
        {
            assert(prev[k as int] == out@[k as int]@);
            if same_string(&out[k], &x) {
                present = true;
            }
            k = k + 1;
        }
        if !present {
            let xv = chars_of(x.as_str());
            let mut j = out.len();
            assert(prev.take(j as int) =~= prev);
            while j > 0
                invariant
                    j <= out@.len(),
                    prev == strings_view(out@),
                    xv@ == x@,
                    sorted_position(prev, x@) == sorted_position(prev.take(j as int), x@),
                ensures
                    j <= out@.len(),
                    prev == strings_view(out@),
                    sorted_position(prev, x@) == j,
                decreases j,
            {
                let cv = chars_of(out[j - 1].as_str());
                assert(prev.take(j as int).last() == out@[j - 1]@);
                if crate::project::lex_le_exec(cv.as_slice(), xv.as_slice()) {
                    assert(sorted_position(prev.take(j as int), x@) == j as int);
                    break;
                }
                if j == 1 {
                    assert(prev.take(0).len() == 0);
                }
                assert(prev.take(j as int).drop_last() =~= prev.take(j - 1));
                j = j - 1;
            }
            proof {
                lemma_sorted_position_bounds(prev, x@);
            }
            out.insert(j, x);
            assert(strings_view(out@) =~= prev.insert(j as int, x@));
        } else {
            assert(prev.contains(x@));
        }
        assert(items@ =~= before_items.drop_first());
        assert(strings_view(items@) =~= strings_view(before_items).drop_first());
        assert(input.skip(taken as int).drop_first() =~= input.skip(taken + 1));
        taken = taken + 1;
    }
    assert(input.take(n as int) =~= input);
    out
}

/// The position of the first candidate under which every import exists.
pub open spec fn first_satisfied(candidates: Seq<(String, bool)>) -> Option<int>
    decreases candidates.len(),
{
    if candidates.len() == 0 {
        None
    } else if candidates[0].1 {
        Some(0)
    } else {
        match first_satisfied(candidates.drop_first()) {
            Some(i) => Some(i + 1),
            None => None,
        }
    }
}

/// The message for imports that no ancestor satisfies.
pub open spec fn unsatisfied_message(start: Seq<char>, imports: Seq<Seq<char>>) -> Seq<char> {
    "absolute imports not satisfied by any ancestor of "@ + start + " (imports: "@ + join(
        imports,
        ", "@,
    ) + ")"@
}

/// The compile root: `start` itself without imports, else the closest
/// candidate (`start` and its ancestors, nearest first, each with whether
/// every import exists under it) that satisfies them.
pub open spec fn root_choice(
    start: Seq<char>,
    candidates: Seq<(String, bool)>,
    imports: Seq<Seq<char>>,
) -> Result<Seq<char>, Seq<char>> {
    if imports.len() == 0 {
        Ok(start)
    } else {
        match first_satisfied(candidates) {
            Some(i) => Ok(candidates[i].0@),
            None => Err(unsatisfied_message(start, imports)),
        }
    }
}

/// The first satisfied candidate is found where it stands.
proof fn lemma_first_satisfied_at(candidates: Seq<(String, bool)>, i: int)
    requires
        0 <= i < candidates.len(),
        candidates[i].1,
        forall|j: int| 0 <= j < i ==> !(#[trigger] candidates[j]).1,
    ensures
        first_satisfied(candidates) == Some(i),
    decreases i,
{
    if i > 0 {
        let rest = candidates.drop_first();
        assert(!candidates[0].1);
        assert forall|j: int| 0 <= j < i - 1 implies !(#[trigger] rest[j]).1 by {
            assert(rest[j] == candidates[j + 1]);
        }
        lemma_first_satisfied_at(rest, i - 1);
    }
}

/// No satisfied candidate is found when there is none.
proof fn lemma_none_satisfied(candidates: Seq<(String, bool)>)
    requires
        forall|j: int| 0 <= j < candidates.len() ==> !(#[trigger] candidates[j]).1,
    ensures
        first_satisfied(candidates) is None,
    decreases candidates.len(),
{
    if candidates.len() > 0 {
        let rest = candidates.drop_first();
        assert(!candidates[0].1);
        assert forall|j: int| 0 <= j < rest.len() implies !(#[trigger] rest[j]).1 by {
            assert(rest[j] == candidates[j + 1]);
        }
        lemma_none_satisfied(rest);
    }
}

/// The compile root is the nearest directory that satisfies the imports,
/// counting from the start directory itself: with imports, the first
/// candidate whose flag says every import exists under it is the root (so a
/// start directory that satisfies them is the root), and the imports are
/// refused only when no candidate satisfies them; without imports the start
/// directory is the root.
pub proof fn lemma_root_is_nearest_satisfying(
    start: Seq<char>,
    candidates: Seq<(String, bool)>,
    imports: Seq<Seq<char>>,
    i: int,
)
    ensures
        imports.len() == 0 ==> root_choice(start, candidates, imports) == Ok::<
            Seq<char>,
            Seq<char>,
        >(start),
        imports.len() > 0 && 0 <= i < candidates.len() && candidates[i].1 && (forall|j: int|
            0 <= j < i ==> !(#[trigger] candidates[j]).1) ==> root_choice(
            start,
            candidates,
            imports,
        ) == Ok::<Seq<char>, Seq<char>>(candidates[i].0@),
        imports.len() > 0 && (forall|j: int|
            0 <= j < candidates.len() ==> !(#[trigger] candidates[j]).1) ==> root_choice(
            start,
            candidates,
            imports,
        ) is Err,
{
    if 0 <= i < candidates.len() && candidates[i].1 && (forall|j: int|
        0 <= j < i ==> !(#[trigger] candidates[j]).1) {
        lemma_first_satisfied_at(candidates, i);
    }
    if forall|j: int| 0 <= j < candidates.len() ==> !(#[trigger] candidates[j]).1 {
        lemma_none_satisfied(candidates);
    }
}

/// Picks the typst compile root among `start` and its ancestors
/// (`candidates`, nearest first, each paired with whether every import
/// exists under it). No imports → `start` itself.
pub fn detect_root(start: &str, candidates: &[(String, bool)], imports: &[String]) -> (r: Result<
    String,
    String,
>)
    ensures
        match r {
            Ok(root) => root_choice(start@, candidates@, strings_view(imports@)) == Ok::<
                Seq<char>,
                Seq<char>,
            >(root@),
            Err(message) => root_choice(start@, candidates@, strings_view(imports@)) == Err::<
                Seq<char>,
                Seq<char>,
            >(message@),
        },
{
    assert(strings_view(imports@).len() == imports@.len());
    if imports.len() == 0 {
        return Ok(start.to_owned());
    }
    let mut i: usize = 0;
    assert(candidates@.skip(0) =~= candidates@);
    while i < candidates.len()
        invariant
            i <= candidates@.len(),
            strings_view(imports@).len() > 0,
            first_satisfied(candidates@) == match first_satisfied(candidates@.skip(i as int)) {
                Some(k) => Some(k + i),
                None => None,
            },
        decreases candidates.len() - i,
    {
        assert(candidates@.skip(i as int).drop_first() =~= candidates@.skip(i + 1));
        assert(candidates@.skip(i as int)[0] == candidates@[i as int]);
        if candidates[i].1 {
            assert(first_satisfied(candidates@.skip(i as int)) == Some(0int));
            let root = candidates[i].0.clone();
            return Ok(root);
        }
        i = i + 1;
    }
    let mut message = "absolute imports not satisfied by any ancestor of ".to_owned();
    message.append(start);
    message.append(" (imports: ");
    let listed = crate::text::join_strings(imports, ", ");
    message.append(listed.as_str());
    message.append(")");
    Err(message)
}

} // verus!
