//! Character-level string toolkit shared by every module: conversions between
//! `str`/`String` and character vectors, searching, splitting, trimming and
//! replacing, each with the mathematical meaning it is proved against.

use vstd::prelude::*;

verus! {

// ---------------------------------------------------------------------------
// Searching
// ---------------------------------------------------------------------------

/// `pat` occurs in `hay` starting at position `i`.
pub open spec fn matches_at(hay: Seq<char>, pat: Seq<char>, i: int) -> bool {
    0 <= i && i + pat.len() <= hay.len() && hay.subrange(i, i + pat.len()) == pat
}

/// The first position `>= i` at which `pat` occurs in `hay`.
pub open spec fn find_from(hay: Seq<char>, pat: Seq<char>, i: int) -> Option<int>
    decreases hay.len() + 1 - i,
{
    if i < 0 || i + pat.len() > hay.len() {
        None
    } else if matches_at(hay, pat, i) {
        Some(i)
    } else {
        find_from(hay, pat, i + 1)
    }
}

/// The first position at which `pat` occurs in `hay` (`str::find`).
pub open spec fn find(hay: Seq<char>, pat: Seq<char>) -> Option<int> {
    find_from(hay, pat, 0)
}

/// `pat` occurs somewhere in `hay` (`str::contains`).
pub open spec fn contains(hay: Seq<char>, pat: Seq<char>) -> bool {
    find(hay, pat) is Some
}

/// `s` begins with `p` (`str::starts_with`).
pub open spec fn starts_with(s: Seq<char>, p: Seq<char>) -> bool {
    p.len() <= s.len() && s.take(p.len() as int) == p
}

/// `s` ends with `p` (`str::ends_with`).
pub open spec fn ends_with(s: Seq<char>, p: Seq<char>) -> bool {
    p.len() <= s.len() && s.skip(s.len() - p.len()) == p
}

/// A position as a mathematical integer.
pub open spec fn opt_int(o: Option<usize>) -> Option<int> {
    match o {
        Some(k) => Some(k as int),
        None => None,
    }
}

/// What a search from `i` finds: the first match, and no match before it.
pub proof fn lemma_find_from(hay: Seq<char>, pat: Seq<char>, i: int)
    requires
        0 <= i,
    ensures
        match find_from(hay, pat, i) {
            Some(k) => i <= k && matches_at(hay, pat, k) && forall|j: int|
                i <= j < k ==> !#[trigger] matches_at(hay, pat, j),
            None => forall|j: int| i <= j ==> !#[trigger] matches_at(hay, pat, j),
        },
    decreases hay.len() + 1 - i,
{
    if i + pat.len() > hay.len() {
    } else if matches_at(hay, pat, i) {
    } else {
        lemma_find_from(hay, pat, i + 1);
    }
}

/// A search from `i` agrees with a search from `j <= i` when nothing matches
/// in between.
pub proof fn lemma_find_from_skip(hay: Seq<char>, pat: Seq<char>, j: int, i: int)
    requires
        0 <= j <= i,
        forall|k: int| j <= k < i ==> !#[trigger] matches_at(hay, pat, k),
    ensures
        find_from(hay, pat, j) == find_from(hay, pat, i),
    decreases i - j,
{
    if j < i {
        if j + pat.len() > hay.len() {
            lemma_find_from(hay, pat, i);
        } else {
            assert(!matches_at(hay, pat, j));
            lemma_find_from_skip(hay, pat, j + 1, i);
        }
    }
}

/// Does `pat` occur in `hay` at `i`?
pub fn matches_at_exec(hay: &[char], pat: &[char], i: usize) -> (r: bool)
    ensures
        r == matches_at(hay@, pat@, i as int),
{
    if pat.len() > hay.len() || i > hay.len() - pat.len() {
        return false;
    }
    let mut k: usize = 0;
    while k < pat.len()
        invariant
            k <= pat.len(),
            i + pat.len() <= hay.len(),
            forall|m: int| 0 <= m < k ==> hay@[i + m] == pat@[m],
        decreases pat.len() - k,
    {
        if hay[i + k] != pat[k] {
            assert(hay@.subrange(i as int, i + pat.len())[k as int] != pat@[k as int]);
            return false;
        }
        k = k + 1;
    }
    assert(hay@.subrange(i as int, i + pat.len()) =~= pat@);
    true
}

/// Whether `v` begins with `p`.
pub fn starts_with_exec(v: &[char], p: &[char]) -> (r: bool)
    ensures
        r == starts_with(v@, p@),
{
    if p.len() > v.len() {
        return false;
    }
    let r = matches_at_exec(v, p, 0);
    assert(v@.take(p@.len() as int) =~= v@.subrange(0, p@.len() as int));
    r
}

/// The first position `>= from` at which `pat` occurs in `hay`.
pub fn find_chars(hay: &[char], pat: &[char], from: usize) -> (r: Option<usize>)
    ensures
        opt_int(r) == find_from(hay@, pat@, from as int),
{
    if pat.len() > hay.len() || from > hay.len() - pat.len() {
        return None;
    }
    let mut i = from;
    loop
        invariant
            from <= i <= hay.len() - pat.len(),
            pat.len() <= hay.len(),
            find_from(hay@, pat@, from as int) == find_from(hay@, pat@, i as int),
        decreases hay.len() - pat.len() - i,
    {
        if matches_at_exec(hay, pat, i) {
            return Some(i);
        }
        if i == hay.len() - pat.len() {
            assert(find_from(hay@, pat@, i + 1) is None);
            return None;
        }
        i = i + 1;
    }
}

/// The first position `>= from` at which the character `c` occurs.
pub fn find_char(hay: &[char], c: char, from: usize) -> (r: Option<usize>)
    ensures
        opt_int(r) == find_from(hay@, seq![c], from as int),
{
    let mut i = from;
    while i < hay.len()
        invariant
            from <= i,
            i <= hay.len() || from > hay.len(),
            find_from(hay@, seq![c], from as int) == find_from(hay@, seq![c], i as int),
        decreases hay.len() - i,
    {
        if hay[i] == c {
            assert(hay@.subrange(i as int, i + 1) =~= seq![c]);
            return Some(i);
        }
        assert(hay@.subrange(i as int, i + 1)[0] != c);
        i = i + 1;
    }
    None
}


/// A copy of `v[from..to]`.
pub fn copy_range(v: &[char], from: usize, to: usize) -> (r: Vec<char>)
    requires
        from <= to <= v.len(),
    ensures
        r@ == v@.subrange(from as int, to as int),
{
    let mut r: Vec<char> = Vec::new();
    let mut i = from;
    while i < to
        invariant
            from <= i <= to <= v.len(),
            r@ == v@.subrange(from as int, i as int),
        decreases to - i,
    {
        r.push(v[i]);
        assert(v@.subrange(from as int, i + 1) =~= v@.subrange(from as int, i as int).push(
            v@[i as int],
        ));
        i = i + 1;
    }
    r
}

// ---------------------------------------------------------------------------
// Conversions
// ---------------------------------------------------------------------------

/// Appends one character to a string: `String::push`. The contract claims
/// that the string afterwards holds its former characters followed by `c`.
#[verifier::external_body]
pub(crate) fn push_char(s: &mut String, c: char)
    ensures
        final(s)@ == old(s)@.push(c),
{
    s.push(c);
}

/// The characters of `s`, in order.
pub fn chars_of(s: &str) -> (v: Vec<char>)
    ensures
        v@ == s@,
{
    let mut v: Vec<char> = Vec::new();
    for c in it: s.chars()
        invariant
            v@ == it.seq().take(it.index()),
            it.seq() == s@,
    {
        v.push(c);
    }
    v
}

/// Appends `v[from..to]` to `s`.
pub fn push_range(s: &mut String, v: &[char], from: usize, to: usize)
    requires
        from <= to <= v.len(),
    ensures
        final(s)@ == old(s)@ + v@.subrange(from as int, to as int),
{
    let mut i = from;
    while i < to
        invariant
            from <= i <= to <= v.len(),
            s@ == old(s)@ + v@.subrange(from as int, i as int),
        decreases to - i,
    {
        push_char(s, v[i]);
        assert(v@.subrange(from as int, i + 1) =~= v@.subrange(from as int, i as int).push(
            v@[i as int],
        ));
        i = i + 1;
    }
}

/// The string made of the characters `v[from..to]`.
pub fn string_of_range(v: &[char], from: usize, to: usize) -> (s: String)
    requires
        from <= to <= v.len(),
    ensures
        s@ == v@.subrange(from as int, to as int),
{
    let mut s = String::new();
    push_range(&mut s, v, from, to);
    s
}

/// The string made of the characters of `v`.
pub fn string_of(v: &[char]) -> (s: String)
    ensures
        s@ == v@,
{
    let s = string_of_range(v, 0, v.len());
    assert(v@.subrange(0, v@.len() as int) =~= v@);
    s
}

/// `a` spells exactly the literal `b`.
pub fn eq_str(a: &[char], b: &str) -> (r: bool)
    ensures
        r == (a@ == b@),
{
    let bv = chars_of(b);
    if a.len() != bv.len() {
        return false;
    }
    let mut i: usize = 0;
    while i < a.len()
        invariant
            i <= a.len(),
            a.len() == bv.len(),
            bv@ == b@,
            forall|k: int| 0 <= k < i ==> a@[k] == bv@[k],
        decreases a.len() - i,
    {
        if a[i] != bv[i] {
            return false;
        }
        i = i + 1;
    }
    assert(a@ =~= bv@);
    true
}

/// The characters of a `String`.
pub fn chars_of_string(s: &String) -> (v: Vec<char>)
    ensures
        v@ == s@,
{
    chars_of(s.as_str())
}


// ---------------------------------------------------------------------------
// Character classes
// ---------------------------------------------------------------------------

/// Unicode `White_Space` (`char::is_whitespace`).
pub open spec fn is_whitespace(c: char) -> bool {
    ||| ('\t' <= c && c <= '\r')
    ||| c == ' '
    ||| c == '\u{85}'
    ||| c == '\u{a0}'
    ||| c == '\u{1680}'
    ||| ('\u{2000}' <= c && c <= '\u{200a}')
    ||| c == '\u{2028}'
    ||| c == '\u{2029}'
    ||| c == '\u{202f}'
    ||| c == '\u{205f}'
    ||| c == '\u{3000}'
}

/// `char::is_whitespace`, decided by the Unicode `White_Space` list.
pub fn is_whitespace_exec(c: char) -> (r: bool)
    ensures
        r == is_whitespace(c),
{
    ('\t' <= c && c <= '\r') || c == ' ' || c == '\u{85}' || c == '\u{a0}' || c == '\u{1680}' || (
    '\u{2000}' <= c && c <= '\u{200a}') || c == '\u{2028}' || c == '\u{2029}' || c == '\u{202f}'
        || c == '\u{205f}' || c == '\u{3000}'
}

/// An ASCII letter or digit (`u8::is_ascii_alphanumeric`).
pub open spec fn is_ascii_alphanumeric(c: char) -> bool {
    ('0' <= c && c <= '9') || ('a' <= c && c <= 'z') || ('A' <= c && c <= 'Z')
}

/// An ASCII decimal digit.
pub open spec fn is_ascii_digit(c: char) -> bool {
    '0' <= c && c <= '9'
}

// ---------------------------------------------------------------------------
// Trimming
// ---------------------------------------------------------------------------

/// `s` without its leading whitespace (`str::trim_start`).
pub open spec fn trim_start(s: Seq<char>) -> Seq<char>
    decreases s.len(),
{
    if s.len() > 0 && is_whitespace(s[0]) {
        trim_start(s.drop_first())
    } else {
        s
    }
}

/// `s` without its trailing whitespace (`str::trim_end`).
pub open spec fn trim_end(s: Seq<char>) -> Seq<char>
    decreases s.len(),
{
    if s.len() > 0 && is_whitespace(s.last()) {
        trim_end(s.drop_last())
    } else {
        s
    }
}

/// `s` without leading and trailing whitespace (`str::trim`).
pub open spec fn trim(s: Seq<char>) -> Seq<char> {
    trim_end(trim_start(s))
}

/// The bounds of the leading-whitespace-free part of `v[from..to]`.
pub fn trim_start_bound(v: &[char], from: usize, to: usize) -> (a: usize)
    requires
        from <= to <= v.len(),
    ensures
        from <= a <= to,
        trim_start(v@.subrange(from as int, to as int)) == v@.subrange(a as int, to as int),
{
    let mut a = from;
    while a < to && is_whitespace_exec(v[a])
        invariant
            from <= a <= to <= v.len(),
            trim_start(v@.subrange(from as int, to as int)) == trim_start(
                v@.subrange(a as int, to as int),
            ),
        decreases to - a,
    {
        assert(v@.subrange(a as int, to as int).drop_first() =~= v@.subrange(a + 1, to as int));
        a = a + 1;
    }
    a
}

/// The bounds of the whitespace-free part of `v[from..to]` (`str::trim`).
pub fn trim_bounds(v: &[char], from: usize, to: usize) -> (r: (usize, usize))
    requires
        from <= to <= v.len(),
    ensures
        from <= r.0 <= r.1 <= to,
        trim(v@.subrange(from as int, to as int)) == v@.subrange(r.0 as int, r.1 as int),
{
    let a = trim_start_bound(v, from, to);
    let mut b = to;
    while b > a && is_whitespace_exec(v[b - 1])
        invariant
            from <= a <= b <= to <= v.len(),
            trim_end(v@.subrange(a as int, to as int)) == trim_end(
                v@.subrange(a as int, b as int),
            ),
        decreases b - a,
    {
        assert(v@.subrange(a as int, b as int).drop_last() =~= v@.subrange(a as int, b - 1));
        b = b - 1;
    }
    (a, b)
}

// ---------------------------------------------------------------------------
// Lines, pieces and words
// ---------------------------------------------------------------------------

/// `s` without one trailing carriage return.
pub open spec fn strip_cr(s: Seq<char>) -> Seq<char> {
    if s.len() > 0 && s.last() == '\r' {
        s.drop_last()
    } else {
        s
    }
}

/// The lines of `s[i..]` (`str::lines`): split after each `\n`, the `\n`
/// and one `\r` before it dropped, no empty line after a final `\n`.
pub open spec fn lines_from(s: Seq<char>, i: int) -> Seq<Seq<char>>
    decreases s.len() - i,
{
    if i < 0 || i >= s.len() {
        Seq::empty()
    } else {
        match find_from(s, seq!['\n'], i) {
            None => seq![s.subrange(i, s.len() as int)],
            Some(k) => {
                proof {
                    lemma_find_from(s, seq!['\n'], i);
                }
                seq![strip_cr(s.subrange(i, k))] + lines_from(s, k + 1)
            },
        }
    }
}

/// The lines of `s` (`str::lines`).
pub open spec fn lines(s: Seq<char>) -> Seq<Seq<char>> {
    lines_from(s, 0)
}

/// The first line of `v[i..]`: it spans `v[i..r.0]`, the next starts at `r.1`.
pub fn next_line(v: &[char], i: usize) -> (r: (usize, usize))
    requires
        i < v.len(),
    ensures
        i <= r.0 <= r.1 <= v.len(),
        i < r.1,
        lines_from(v@, i as int) == seq![v@.subrange(i as int, r.0 as int)] + lines_from(
            v@,
            r.1 as int,
        ),
{
    match find_char(v, '\n', i) {
        None => {
            let ghost e: Seq<Seq<char>> = Seq::empty();
            assert(lines_from(v@, v.len() as int) == e);
            assert(seq![v@.subrange(i as int, v.len() as int)] =~= seq![
                v@.subrange(i as int, v.len() as int),
            ] + e);
            (v.len(), v.len())
        },
        Some(k) => {
            proof {
                lemma_find_from(v@, seq!['\n'], i as int);
            }
            if k > i && v[k - 1] == '\r' {
                assert(v@.subrange(i as int, k as int).drop_last() =~= v@.subrange(
                    i as int,
                    k - 1,
                ));
                (k - 1, k + 1)
            } else {
                (k, k + 1)
            }
        },
    }
}

/// A match that fits inside `base` does not see what follows it.
pub proof fn lemma_matches_prefix(base: Seq<char>, t: Seq<char>, pat: Seq<char>, j: int)
    requires
        0 <= j,
        j + pat.len() <= base.len(),
    ensures
        matches_at(base + t, pat, j) == matches_at(base, pat, j),
{
    assert((base + t).subrange(j, j + pat.len()) =~= base.subrange(j, j + pat.len()));
}

/// A search that finds a match inside `base` finds the same one in `base + t`.
pub proof fn lemma_find_in_prefix(base: Seq<char>, t: Seq<char>, pat: Seq<char>, i: int)
    requires
        0 <= i,
        find_from(base, pat, i) is Some,
    ensures
        find_from(base + t, pat, i) == find_from(base, pat, i),
    decreases base.len() + 1 - i,
{
    lemma_matches_prefix(base, t, pat, i);
    if !matches_at(base, pat, i) {
        lemma_find_in_prefix(base, t, pat, i + 1);
    }
}

/// A search in `p + t` past `p` is a search in `t`, shifted.
pub proof fn lemma_find_shift(p: Seq<char>, t: Seq<char>, pat: Seq<char>, j: int)
    requires
        0 <= j,
    ensures
        find_from(p + t, pat, p.len() + j) == match find_from(t, pat, j) {
            Some(k) => Some(p.len() + k),
            None => None,
        },
    decreases t.len() + 1 - j,
{
    if j + pat.len() <= t.len() {
        assert((p + t).subrange(p.len() + j, p.len() + j + pat.len()) =~= t.subrange(
            j,
            j + pat.len(),
        ));
        if !matches_at(t, pat, j) {
            lemma_find_shift(p, t, pat, j + 1);
        }
    }
}

/// The lines of `p + t` past `p` are the lines of `t`.
pub proof fn lemma_lines_shift(p: Seq<char>, t: Seq<char>, j: int)
    requires
        0 <= j,
    ensures
        lines_from(p + t, p.len() + j) == lines_from(t, j),
    decreases t.len() - j,
{
    if j < t.len() {
        lemma_find_shift(p, t, seq!['\n'], j);
        lemma_find_from(t, seq!['\n'], j);
        match find_from(t, seq!['\n'], j) {
            Some(k) => {
                assert((p + t).subrange(p.len() + j, p.len() + k) =~= t.subrange(j, k));
                lemma_lines_shift(p, t, k + 1);
            },
            None => {
                assert((p + t).subrange(p.len() + j, (p + t).len() as int) =~= t.subrange(
                    j,
                    t.len() as int,
                ));
            },
        }
    }
}

proof fn lemma_lines_concat_from(base: Seq<char>, t: Seq<char>, i: int)
    requires
        0 <= i <= base.len(),
        base.len() == 0 || base.last() == '\n',
    ensures
        lines_from(base + t, i) == lines_from(base, i) + lines_from(t, 0),
    decreases base.len() - i,
{
    if i == base.len() {
        lemma_lines_shift(base, t, 0);
        assert(lines_from(base, i) + lines_from(t, 0) =~= lines_from(t, 0));
    } else {
        let nl = seq!['\n'];
        assert(base.subrange(base.len() - 1, base.len() as int) =~= nl);
        assert(matches_at(base, nl, base.len() - 1));
        lemma_find_from(base, nl, i);
        lemma_find_in_prefix(base, t, nl, i);
        let k = find_from(base, nl, i)->0;
        assert((base + t).subrange(i, k) =~= base.subrange(i, k));
        lemma_lines_concat_from(base, t, k + 1);
        let a = seq![strip_cr(base.subrange(i, k))];
        assert(a + (lines_from(base, k + 1) + lines_from(t, 0)) =~= (a + lines_from(base, k + 1))
            + lines_from(t, 0));
    }
}

/// Text that ends a line (or is empty) keeps its lines when more follows.
pub proof fn lemma_lines_concat(base: Seq<char>, t: Seq<char>)
    requires
        base.len() == 0 || base.last() == '\n',
    ensures
        lines(base + t) == lines(base) + lines(t),
{
    lemma_lines_concat_from(base, t, 0);
}

/// A text without a line break, ended by one, is that one line.
pub proof fn lemma_single_line(e: Seq<char>)
    requires
        forall|j: int| 0 <= j < e.len() ==> #[trigger] e[j] != '\n',
        strip_cr(e) == e,
    ensures
        lines(e.push('\n')) == seq![e],
{
    let c = e.push('\n');
    let nl = seq!['\n'];
    assert forall|j: int| 0 <= j < e.len() implies !#[trigger] matches_at(c, nl, j) by {
        if matches_at(c, nl, j) {
            assert(c.subrange(j, j + 1)[0] == c[j]);
        }
    }
    lemma_find_from_skip(c, nl, 0, e.len() as int);
    assert(c.subrange(e.len() as int, e.len() + 1 as int) =~= nl);
    assert(c.subrange(0, e.len() as int) =~= e);
    assert(lines_from(c, e.len() + 1 as int) =~= Seq::<Seq<char>>::empty());
    assert(seq![e] + Seq::<Seq<char>>::empty() =~= seq![e]);
}

proof fn lemma_lines_push_newline_from(c: Seq<char>, i: int)
    requires
        0 <= i < c.len(),
        c.last() != '\n',
    ensures
        lines_from(c, i).len() > 0,
        lines_from(c.push('\n'), i) == lines_from(c, i).drop_last().push(
            strip_cr(lines_from(c, i).last()),
        ),
    decreases c.len() - i,
{
    let nl = seq!['\n'];
    let c2 = c.push('\n');
    assert(c2 =~= c + nl);
    lemma_find_from(c, nl, i);
    match find_from(c, nl, i) {
        Some(k) => {
            assert(c.subrange(k, k + 1)[0] == c[k]);
            assert(k < c.len() - 1);
            lemma_find_in_prefix(c, nl, nl, i);
            assert(c2.subrange(i, k) =~= c.subrange(i, k));
            lemma_lines_push_newline_from(c, k + 1);
            let a = seq![strip_cr(c.subrange(i, k))];
            let r = lines_from(c, k + 1);
            assert((a + r).drop_last().push(strip_cr((a + r).last())) =~= a + r.drop_last().push(
                strip_cr(r.last()),
            ));
        },
        None => {
            assert forall|j: int| i <= j < c.len() implies !#[trigger] matches_at(c2, nl, j) by {
                lemma_matches_prefix(c, nl, nl, j);
            }
            lemma_find_from_skip(c2, nl, i, c.len() as int);
            assert(c2.subrange(c.len() as int, c.len() + 1 as int) =~= nl);
            assert(c2.subrange(i, c.len() as int) =~= c.subrange(i, c.len() as int));
            assert(lines_from(c2, c.len() + 1 as int) =~= Seq::<Seq<char>>::empty());
            let l = c.subrange(i, c.len() as int);
            assert(seq![strip_cr(l)] + Seq::<Seq<char>>::empty() =~= seq![l].drop_last().push(
                strip_cr(l),
            ));
        },
    }
}

/// Ending a text's last line with a line break changes only that line, which
/// loses a trailing carriage return.
pub proof fn lemma_lines_push_newline(c: Seq<char>)
    requires
        c.len() > 0,
        c.last() != '\n',
    ensures
        lines(c).len() > 0,
        lines(c.push('\n')) == lines(c).drop_last().push(strip_cr(lines(c).last())),
{
    lemma_lines_push_newline_from(c, 0);
}

proof fn lemma_trim_start_drop_ws_last(s: Seq<char>)
    requires
        s.len() > 0,
        is_whitespace(s.last()),
    ensures
        (trim_start(s).len() == 0 && trim_start(s.drop_last()).len() == 0) || (trim_start(s).len() > 0
            && trim_start(s).last() == s.last() && trim_start(s).drop_last() == trim_start(
            s.drop_last(),
        )),
    decreases s.len(),
{
    if s.len() == 1 {
        assert(s[0] == s.last());
        assert(s.drop_first().len() == 0);
        assert(s.drop_last().len() == 0);
        assert(trim_start(s) == trim_start(s.drop_first()));
    } else if is_whitespace(s[0]) {
        assert(s.drop_first().last() == s.last());
        lemma_trim_start_drop_ws_last(s.drop_first());
        assert(s.drop_last()[0] == s[0]);
        assert(s.drop_last().drop_first() =~= s.drop_first().drop_last());
        assert(trim_start(s) == trim_start(s.drop_first()));
        assert(trim_start(s.drop_last()) == trim_start(s.drop_last().drop_first()));
    } else {
        assert(s.drop_last()[0] == s[0]);
        assert(trim_start(s) == s);
        assert(trim_start(s.drop_last()) == s.drop_last());
    }
}

/// A trailing whitespace character never matters to `trim`.
pub proof fn lemma_trim_drop_ws_last(s: Seq<char>)
    requires
        s.len() > 0,
        is_whitespace(s.last()),
    ensures
        trim(s) == trim(s.drop_last()),
{
    lemma_trim_start_drop_ws_last(s);
}

/// The pieces of `s[i..]` between occurrences of `c` (`str::split`).
pub open spec fn split_from(s: Seq<char>, c: char, i: int) -> Seq<Seq<char>>
    decreases s.len() + 1 - i,
{
    if i < 0 || i > s.len() {
        Seq::empty()
    } else {
        match find_from(s, seq![c], i) {
            None => seq![s.subrange(i, s.len() as int)],
            Some(k) => {
                proof {
                    lemma_find_from(s, seq![c], i);
                }
                seq![s.subrange(i, k)] + split_from(s, c, k + 1)
            },
        }
    }
}

/// The pieces of `s` between occurrences of `c` (`str::split`).
pub open spec fn split(s: Seq<char>, c: char) -> Seq<Seq<char>> {
    split_from(s, c, 0)
}

/// The first piece of `v[i..]` up to `c`: it spans `v[i..r.0]`; `r.1` says
/// whether another piece follows at `r.0 + 1`.
pub fn next_piece(v: &[char], c: char, i: usize) -> (r: (usize, bool))
    requires
        i <= v.len(),
    ensures
        i <= r.0 <= v.len(),
        r.1 ==> r.0 < v.len(),
        split_from(v@, c, i as int) == seq![v@.subrange(i as int, r.0 as int)] + (if r.1 {
            split_from(v@, c, r.0 + 1)
        } else {
            Seq::empty()
        }),
{
    match find_char(v, c, i) {
        None => {
            let ghost e: Seq<Seq<char>> = Seq::empty();
            assert(seq![v@.subrange(i as int, v.len() as int)] =~= seq![
                v@.subrange(i as int, v.len() as int),
            ] + e);
            (v.len(), false)
        },
        Some(k) => {
            proof {
                lemma_find_from(v@, seq![c], i as int);
            }
            (k, true)
        },
    }
}

/// Where the word starting at `i` ends: the next whitespace or the end.
pub open spec fn word_end(s: Seq<char>, i: int) -> int
    decreases s.len() - i,
{
    if i < 0 || i >= s.len() || is_whitespace(s[i]) {
        i
    } else {
        word_end(s, i + 1)
    }
}

pub proof fn lemma_word_end(s: Seq<char>, i: int)
    requires
        0 <= i <= s.len(),
    ensures
        i <= word_end(s, i) <= s.len(),
        forall|j: int| i <= j < word_end(s, i) ==> !is_whitespace(#[trigger] s[j]),
        word_end(s, i) < s.len() ==> is_whitespace(s[word_end(s, i)]),
    decreases s.len() - i,
{
    if i < s.len() && !is_whitespace(s[i]) {
        lemma_word_end(s, i + 1);
    }
}

/// The whitespace-separated words of `s[i..]` (`str::split_whitespace`).
pub open spec fn words_from(s: Seq<char>, i: int) -> Seq<Seq<char>>
    decreases s.len() - i,
{
    if i < 0 || i >= s.len() {
        Seq::empty()
    } else if is_whitespace(s[i]) {
        words_from(s, i + 1)
    } else {
        proof {
            lemma_word_end(s, i + 1);
        }
        seq![s.subrange(i, word_end(s, i))] + words_from(s, word_end(s, i))
    }
}

/// The whitespace-separated words of `s` (`str::split_whitespace`).
pub open spec fn words(s: Seq<char>) -> Seq<Seq<char>> {
    words_from(s, 0)
}

/// The first word of `v[i..]`, as the bounds `v[r.0..r.1]`, if any.
pub fn next_word(v: &[char], i: usize) -> (r: Option<(usize, usize)>)
    requires
        i <= v.len(),
    ensures
        match r {
            None => words_from(v@, i as int) == Seq::<Seq<char>>::empty(),
            Some((a, b)) => i <= a < b <= v.len() && words_from(v@, i as int) == seq![
                v@.subrange(a as int, b as int),
            ] + words_from(v@, b as int),
        },
{
    let mut a = i;
    while a < v.len() && is_whitespace_exec(v[a])
        invariant
            i <= a <= v.len(),
            words_from(v@, i as int) == words_from(v@, a as int),
        decreases v.len() - a,
    {
        a = a + 1;
    }
    if a == v.len() {
        return None;
    }
    let mut b = a + 1;
    while b < v.len() && !is_whitespace_exec(v[b])
        invariant
            a < b <= v.len(),
            word_end(v@, a as int) == word_end(v@, b as int),
        decreases v.len() - b,
    {
        b = b + 1;
    }
    Some((a, b))
}

// ---------------------------------------------------------------------------
// Joining and replacing
// ---------------------------------------------------------------------------

/// The pieces of `parts` with `sep` between each two (`[T]::join`).
pub open spec fn join(parts: Seq<Seq<char>>, sep: Seq<char>) -> Seq<char>
    decreases parts.len(),
{
    if parts.len() == 0 {
        Seq::empty()
    } else if parts.len() == 1 {
        parts[0]
    } else {
        join(parts.drop_last(), sep) + sep + parts.last()
    }
}


/// Joins strings with a separator (`[String]::join`).
pub fn join_strings(parts: &[String], sep: &str) -> (r: String)
    ensures
        r@ == join(parts@.map_values(|p: String| p@), sep@),
{
    let ghost ps = parts@.map_values(|p: String| p@);
    let mut out = String::new();
    let mut i: usize = 0;
    while i < parts.len()
        invariant
            i <= parts.len(),
            ps == parts@.map_values(|p: String| p@),
            out@ == join(ps.take(i as int), sep@),
        decreases parts.len() - i,
    {
        if i > 0 {
            out.append(sep);
        }
        out.append(parts[i].as_str());
        assert(ps.take(i + 1).drop_last() =~= ps.take(i as int));
        if i == 0 {
            assert(ps.take(1) =~= seq![ps[0]]);
        }
        i = i + 1;
    }
    assert(ps.take(parts.len() as int) =~= ps);
    out
}

/// `s[i..]` with every non-overlapping occurrence of `pat`, scanned from the
/// left, replaced by `rep` (`str::replace`).
pub open spec fn replace_from(s: Seq<char>, pat: Seq<char>, rep: Seq<char>, i: int) -> Seq<char>
    decreases s.len() + 1 - i,
{
    if i < 0 || i > s.len() || pat.len() == 0 {
        Seq::empty()
    } else {
        match find_from(s, pat, i) {
            None => s.subrange(i, s.len() as int),
            Some(k) => {
                proof {
                    lemma_find_from(s, pat, i);
                }
                s.subrange(i, k) + rep + replace_from(s, pat, rep, k + pat.len())
            },
        }
    }
}

/// `s` with every occurrence of `pat` replaced by `rep` (`str::replace`).
pub open spec fn replace_all(s: Seq<char>, pat: Seq<char>, rep: Seq<char>) -> Seq<char> {
    replace_from(s, pat, rep, 0)
}

/// `s` with every occurrence of the non-empty `pat` replaced by `rep`.
pub fn replace_str(s: &str, pat: &str, rep: &str) -> (r: String)
    requires
        pat@.len() > 0,
    ensures
        r@ == replace_all(s@, pat@, rep@),
{
    let sv = chars_of(s);
    let pv = chars_of(pat);
    let mut out = String::new();
    let mut i: usize = 0;
    loop
        invariant
            i <= sv.len(),
            pv@.len() > 0,
            sv@ == s@,
            pv@ == pat@,
            out@ + replace_from(sv@, pv@, rep@, i as int) == replace_all(s@, pat@, rep@),
        decreases sv.len() - i,
    {
        match find_chars(sv.as_slice(), pv.as_slice(), i) {
            None => {
                push_range(&mut out, sv.as_slice(), i, sv.len());
                return out;
            },
            Some(k) => {
                proof {
                    lemma_find_from(sv@, pv@, i as int);
                }
                push_range(&mut out, sv.as_slice(), i, k);
                out.append(rep);
                i = k + pv.len();
            },
        }
    }
}


// ---------------------------------------------------------------------------
// Numbers
// ---------------------------------------------------------------------------

/// The decimal digit character for `d < 10`.
pub open spec fn digit_char(d: nat) -> char {
    ((d + 48) as u8) as char
}

/// The decimal notation of `n`, without leading zeros (`u64::to_string`).
pub open spec fn decimal(n: nat) -> Seq<char>
    decreases n,
{
    if n < 10 {
        seq![digit_char(n)]
    } else {
        decimal(n / 10).push(digit_char(n % 10))
    }
}

/// Appends the decimal notation of `n` to `s`.
pub fn push_decimal(s: &mut String, n: u64)
    ensures
        final(s)@ == old(s)@ + decimal(n as nat),
    decreases n,
{
    if n >= 10 {
        push_decimal(s, n / 10);
    }
    let d: u8 = (n % 10) as u8;
    push_char(s, (48u8 + d) as char);
    proof {
        if n >= 10 {
            assert(decimal(n as nat) == decimal((n / 10) as nat).push(digit_char((n % 10) as nat)));
        }
    }
}

/// The value of a run of decimal digits.
pub open spec fn digits_value(s: Seq<char>) -> nat
    decreases s.len(),
{
    if s.len() == 0 {
        0
    } else {
        digits_value(s.drop_last()) * 10 + ((s.last() as nat) - 48) as nat
    }
}

/// Every character of `s` is a decimal digit.
pub open spec fn all_digits(s: Seq<char>) -> bool {
    forall|i: int| 0 <= i < s.len() ==> is_ascii_digit(#[trigger] s[i])
}

/// `u64::from_str`: an optional `+`, then at least one decimal digit, and a
/// value that fits.
pub open spec fn parse_u64(s: Seq<char>) -> Option<u64> {
    let d = if s.len() > 0 && s[0] == '+' {
        s.drop_first()
    } else {
        s
    };
    if d.len() > 0 && all_digits(d) && digits_value(d) <= u64::MAX {
        Some(digits_value(d) as u64)
    } else {
        None
    }
}

/// A longer run of digits is worth at least as much as its prefix.
pub proof fn lemma_digits_value_monotone(s: Seq<char>, i: int)
    requires
        0 <= i <= s.len(),
        all_digits(s),
    ensures
        digits_value(s.take(i)) <= digits_value(s),
    decreases s.len() - i,
{
    if i < s.len() {
        lemma_digits_value_monotone(s, i + 1);
        assert(s.take(i + 1).drop_last() =~= s.take(i));
        assert(s.take(i + 1).last() == s[i]);
        assert(is_ascii_digit(s[i]));
    } else {
        assert(s.take(i) =~= s);
    }
}

/// Parses `v[from..to]` as `u64::from_str` does.
pub fn parse_u64_exec(v: &[char], from: usize, to: usize) -> (r: Option<u64>)
    requires
        from <= to <= v.len(),
    ensures
        r == parse_u64(v@.subrange(from as int, to as int)),
{
    let ghost s = v@.subrange(from as int, to as int);
    let mut start = from;
    if from < to && v[from] == '+' {
        start = from + 1;
    }
    let ghost d = v@.subrange(start as int, to as int);
    assert(d =~= (if s.len() > 0 && s[0] == '+' { s.drop_first() } else { s }));
    if start == to {
        return None;
    }
    let mut acc: u64 = 0;
    let mut i = start;
    while i < to
        invariant
            start <= i <= to <= v.len(),
            d == v@.subrange(start as int, to as int),
            s == v@.subrange(from as int, to as int),
            d == (if s.len() > 0 && s[0] == '+' { s.drop_first() } else { s }),
            d.len() > 0,
            all_digits(d.take(i - start)),
            acc as nat == digits_value(d.take(i - start)),
        decreases to - i,
    {
        let c = v[i];
        assert(d[i - start] == c);
        if !('0' <= c && c <= '9') {
            assert(!is_ascii_digit(d[i - start]));
            assert(!all_digits(d));
            return None;
        }
        assert(d.take(i + 1 - start).drop_last() =~= d.take(i - start));
        assert(all_digits(d.take(i + 1 - start)));
        let digit = (c as u32 - 48) as u64;
        match acc.checked_mul(10) {
            None => {
                proof {
                    assert(digits_value(d.take(i + 1 - start)) > u64::MAX);
                    if all_digits(d) {
                        lemma_digits_value_monotone(d, i + 1 - start);
                    }
                }
                return None;
            },
            Some(m) => match m.checked_add(digit) {
                None => {
                    proof {
                        assert(digits_value(d.take(i + 1 - start)) > u64::MAX);
                        if all_digits(d) {
                            lemma_digits_value_monotone(d, i + 1 - start);
                        }
                    }
                    return None;
                },
                Some(n) => {
                    acc = n;
                },
            },
        }
        i = i + 1;
    }
    assert(d.take(to - start) =~= d);
    Some(acc)
}

// ---------------------------------------------------------------------------
// Case mapping and decoding, provided by std
// ---------------------------------------------------------------------------

/// The Unicode lowercase mapping of a string, as `str::to_lowercase` computes it.
pub uninterp spec fn lowercase(s: Seq<char>) -> Seq<char>;

/// The Unicode uppercase mapping of a string, as `str::to_uppercase` computes it.
pub uninterp spec fn uppercase(s: Seq<char>) -> Seq<char>;

/// The Unicode uppercase mapping of one character, as `char::to_uppercase` yields it.
pub uninterp spec fn char_uppercase(c: char) -> Seq<char>;

/// The text `String::from_utf8_lossy` decodes from some bytes.
pub uninterp spec fn utf8_lossy(b: Seq<u8>) -> Seq<char>;

/// A character of the ASCII range (below U+0080).
pub open spec fn is_ascii_char(c: char) -> bool {
    c <= '\u{7f}'
}

/// Every character of `s` is ASCII.
pub open spec fn all_ascii(s: Seq<char>) -> bool {
    forall|i: int| 0 <= i < s.len() ==> is_ascii_char(#[trigger] s[i])
}

/// ASCII `A`-`Z` mapped to `a`-`z`; every other character kept.
pub open spec fn ascii_to_lower(c: char) -> char {
    if 'A' <= c && c <= 'Z' {
        ((c as u32) + 32) as char
    } else {
        c
    }
}

/// ASCII `a`-`z` mapped to `A`-`Z`; every other character kept.
pub open spec fn ascii_to_upper(c: char) -> char {
    if 'a' <= c && c <= 'z' {
        ((c as u32) - 32) as char
    } else {
        c
    }
}

/// `str::to_lowercase`. The contract claims that the result is the
/// (deterministic) Unicode lowercase mapping of the argument, named
/// `lowercase`, and that on ASCII text that mapping takes `A`-`Z` to `a`-`z`
/// and keeps every other character (so empty text stays empty); beyond ASCII
/// the mapping is left unsaid.
#[verifier::external_body]
pub(crate) fn to_lowercase(s: &str) -> (r: String)
    ensures
        r@ == lowercase(s@),
        all_ascii(s@) ==> r@ == s@.map_values(|c: char| ascii_to_lower(c)),
{
    s.to_lowercase()
}

/// `str::to_uppercase`. The contract claims that the result is the
/// (deterministic) Unicode uppercase mapping of the argument, named
/// `uppercase`, and that on ASCII text that mapping takes `a`-`z` to `A`-`Z`
/// and keeps every other character; beyond ASCII the mapping is left unsaid.
#[verifier::external_body]
pub(crate) fn to_uppercase(s: &str) -> (r: String)
    ensures
        r@ == uppercase(s@),
        all_ascii(s@) ==> r@ == s@.map_values(|c: char| ascii_to_upper(c)),
{
    s.to_uppercase()
}

/// `char::to_uppercase`, collected into a string. The contract claims that the
/// characters are the (deterministic) uppercase mapping of `c`, named
/// `char_uppercase`, and that an ASCII character maps to its single ASCII
/// uppercase; beyond ASCII the mapping is left unsaid.
#[verifier::external_body]
pub(crate) fn char_to_uppercase(c: char) -> (r: String)
    ensures
        r@ == char_uppercase(c),
        is_ascii_char(c) ==> r@ == seq![ascii_to_upper(c)],
{
    c.to_uppercase().collect()
}

/// `String::from_utf8_lossy`. The contract claims that the text is a function
/// of the bytes alone, and that valid UTF-8 decodes to exactly its characters;
/// what replaces invalid sequences is left unsaid.
#[verifier::external_body]
pub(crate) fn from_utf8_lossy(b: &[u8]) -> (r: String)
    ensures
        r@ == utf8_lossy(b@),
        vstd::utf8::valid_utf8(b@) ==> r@ == vstd::utf8::decode_utf8(b@),
{
    String::from_utf8_lossy(b).into_owned()
}

} // verus!
