//! Shapes the stderr a *successful* typst compile wrote into the lines
//! fy-docs forwards.

use vstd::prelude::*;
use crate::project::imports::strings_view;
use crate::project::template_args::opt_view;
use crate::term::{strip_verbatim, verbatim_stripped};
use crate::text::{
    chars_of, chars_of_string, from_utf8_lossy, join, join_strings, lines, lines_from,
    lowercase, matches_at_exec, next_line, push_char, starts_with, string_of_range,
    to_lowercase, trim, trim_bounds, utf8_lossy,
};

verus! {

/// The diagnostics cut into blocks at each line that starts a new warning,
/// independent of the blank-line separators typst happens to emit; lines
/// before the first warning form a block of their own.
pub open spec fn warning_blocks(ls: Seq<Seq<char>>) -> Seq<Seq<char>>
    decreases ls.len(),
{
    if ls.len() == 0 {
        Seq::empty()
    } else {
        let b = warning_blocks(ls.drop_last());
        let l = ls.last();
        if b.len() == 0 || starts_with(l, "warning:"@) {
            b.push(l)
        } else {
            b.drop_last().push(b.last() + seq!['\n'] + l)
        }
    }
}

/// The family a typst "unknown font family" warning names, lowercased.
pub open spec fn font_of(block: Seq<char>) -> Option<Seq<char>> {
    let ls = lines(block);
    if ls.len() == 0 {
        None
    } else {
        let line = trim(ls[0]);
        if !starts_with(line, "warning:"@) {
            None
        } else {
            let message = trim(line.skip("warning:"@.len() as int));
            if !starts_with(message, "unknown font family:"@) {
                None
            } else {
                let family = trim(message.skip("unknown font family:"@.len() as int));
                if family.len() == 0 {
                    None
                } else {
                    Some(lowercase(family))
                }
            }
        }
    }
}

/// The blocks sorted into the distinct missing font families, in order of
/// first mention, and the other non-blank blocks, trimmed, in order.
pub open spec fn sort_blocks(blocks: Seq<Seq<char>>) -> (Seq<Seq<char>>, Seq<Seq<char>>)
    decreases blocks.len(),
{
    if blocks.len() == 0 {
        (Seq::empty(), Seq::empty())
    } else {
        let (missing, kept) = sort_blocks(blocks.drop_last());
        let b = trim(blocks.last());
        if b.len() == 0 {
            (missing, kept)
        } else {
            match font_of(b) {
                Some(f) => (
                    if missing.contains(f) {
                        missing
                    } else {
                        missing.push(f)
                    },
                    kept,
                ),
                None => (missing, kept.push(b)),
            }
        }
    }
}

/// A block that is forwarded as it stands: not blank, and not a warning about
/// an unknown font family.
pub open spec fn forwarded_block(b: Seq<char>) -> bool {
    b.len() > 0 && font_of(b) is None
}

/// Nothing but font warnings is folded away: the blocks forwarded verbatim are
/// exactly the blocks, trimmed, that are neither blank nor a font warning, all
/// of them and in their order.
pub proof fn lemma_kept_blocks_are_the_non_font_blocks(blocks: Seq<Seq<char>>)
    ensures
        sort_blocks(blocks).1 == blocks.map_values(|b: Seq<char>| trim(b)).filter(
            |b: Seq<char>| forwarded_block(b),
        ),
    decreases blocks.len(),
{
    reveal(Seq::filter);
    if blocks.len() > 0 {
        lemma_kept_blocks_are_the_non_font_blocks(blocks.drop_last());
        let t = blocks.map_values(|b: Seq<char>| trim(b));
        assert(t.drop_last() =~= blocks.drop_last().map_values(|b: Seq<char>| trim(b)));
        assert(t.last() == trim(blocks.last()));
    }
}

/// Each block on a line of its own, each preceded by a newline.
pub open spec fn on_new_lines(blocks: Seq<Seq<char>>) -> Seq<char>
    decreases blocks.len(),
{
    if blocks.len() == 0 {
        Seq::empty()
    } else {
        on_new_lines(blocks.drop_last()) + seq!['\n'] + blocks.last()
    }
}

/// The note forwarding the warnings of `text`: the kept blocks verbatim, then
/// one line naming every unavailable font family once; nothing when there is
/// nothing to say.
pub open spec fn warning_note(text: Seq<char>) -> Option<Seq<char>> {
    let (missing, kept) = sort_blocks(warning_blocks(lines(trim(text))));
    if kept.len() == 0 && missing.len() == 0 {
        None
    } else {
        Some(
            "[fy-docs] typst reported warnings:"@ + on_new_lines(kept) + if missing.len() > 0 {
                "\nwarning: font families unavailable, fallback applied: "@ + join(
                    missing,
                    ", "@,
                )
            } else {
                Seq::empty()
            },
        )
    }
}

/// Splits diagnostics into blocks at each line that starts a new warning,
/// independent of the blank-line separators typst happens to emit.
pub fn split_warning_blocks(text: &str) -> (r: Vec<String>)
    ensures
        strings_view(r@) == warning_blocks(lines(text@)),
{
    let v = chars_of(text);
    let prefix = chars_of("warning:");
    let mut done: Vec<String> = Vec::new();
    let mut cur = String::new();
    let mut has_cur = false;
    let ghost mut processed: Seq<Seq<char>> = Seq::empty();
    let mut i: usize = 0;
    while i < v.len()
        invariant
            i <= v@.len(),
            prefix@ == "warning:"@,
            lines(text@) == processed + lines_from(v@, i as int),
            v@ == text@,
            has_cur == (processed.len() > 0),
            warning_blocks(processed) == (if has_cur {
                strings_view(done@).push(cur@)
            } else {
                strings_view(done@)
            }),
        decreases v@.len() - i,
    {
        let (a, b) = next_line(v.as_slice(), i);
        let ghost l = v@.subrange(i as int, a as int);
        let starts = a - i >= prefix.len() && matches_at_exec(v.as_slice(), prefix.as_slice(), i);
        assert(starts == starts_with(l, "warning:"@)) by {
            if a - i >= prefix@.len() {
                assert(l.take(prefix@.len() as int) =~= v@.subrange(
                    i as int,
                    i + prefix@.len(),
                ));
            }
        }
        let ghost old_blocks = warning_blocks(processed);
        let ghost old_done = strings_view(done@);
        let ghost old_cur = cur@;
        proof {
            assert(processed.push(l).drop_last() =~= processed);
            assert(processed.push(l).last() == l);
        }
        if !has_cur || starts {
            if has_cur {
                done.push(cur);
                assert(strings_view(done@) =~= old_done.push(old_cur));
            }
            cur = string_of_range(v.as_slice(), i, a);
            has_cur = true;
            assert(warning_blocks(processed.push(l)) =~= strings_view(done@).push(cur@));
        } else {
            push_char(&mut cur, '\n');
            crate::text::push_range(&mut cur, v.as_slice(), i, a);
            assert(old_blocks.drop_last() =~= old_done);
            assert(old_blocks.last() == old_cur);
            assert(cur@ =~= old_cur + seq!['\n'] + l);
            assert(warning_blocks(processed.push(l)) =~= strings_view(done@).push(cur@));
        }
        proof {
            assert(processed.push(l) + lines_from(v@, b as int) =~= processed + (seq![l]
                + lines_from(v@, b as int)));
            processed = processed.push(l);
        }
        i = b;
    }
    assert(lines_from(v@, i as int) =~= Seq::<Seq<char>>::empty());
    assert(processed + Seq::<Seq<char>>::empty() =~= processed);
    if has_cur {
        let ghost d = strings_view(done@);
        done.push(cur);
        assert(strings_view(done@) =~= d.push(cur@));
    }
    done
}

/// Whether `v[x..y]` begins with `p`, and where the rest begins.
fn begins_with(v: &[char], x: usize, y: usize, p: &[char]) -> (r: bool)
    requires
        x <= y <= v.len(),
    ensures
        r == starts_with(v@.subrange(x as int, y as int), p@),
{
    if y - x < p.len() {
        return false;
    }
    let r = matches_at_exec(v, p, x);
    assert(v@.subrange(x as int, y as int).take(p@.len() as int) =~= v@.subrange(
        x as int,
        x + p@.len(),
    ));
    r
}

/// Extracts the family name from a typst "unknown font family" warning.
pub fn unmatched_font(block: &str) -> (r: Option<String>)
    ensures
        opt_view(r) == font_of(block@),
{
    let v = chars_of(block);
    if v.len() == 0 {
        assert(lines(block@) =~= Seq::<Seq<char>>::empty());
        return None;
    }
    let (a, _b) = next_line(v.as_slice(), 0);
    let ghost first = v@.subrange(0, a as int);
    assert(lines(block@)[0] == first);
    let (x, y) = trim_bounds(v.as_slice(), 0, a);
    let warn = chars_of("warning:");
    let unknown = chars_of("unknown font family:");
    if !begins_with(v.as_slice(), x, y, warn.as_slice()) {
        return None;
    }
    let x1 = x + warn.len();
    assert(v@.subrange(x as int, y as int).skip("warning:"@.len() as int) =~= v@.subrange(
        x1 as int,
        y as int,
    ));
    let (x2, y2) = trim_bounds(v.as_slice(), x1, y);
    if !begins_with(v.as_slice(), x2, y2, unknown.as_slice()) {
        return None;
    }
    let x3 = x2 + unknown.len();
    assert(v@.subrange(x2 as int, y2 as int).skip("unknown font family:"@.len() as int)
        =~= v@.subrange(x3 as int, y2 as int));
    let (x4, y4) = trim_bounds(v.as_slice(), x3, y2);
    if x4 == y4 {
        return None;
    }
    let family = string_of_range(v.as_slice(), x4, y4);
    Some(to_lowercase(family.as_str()))
}

/// `needle` is one of `items`.
fn contains_string(items: &Vec<String>, needle: &String) -> (r: bool)
    ensures
        r == strings_view(items@).contains(needle@),
{
    let nv = chars_of_string(needle);
    let mut i: usize = 0;
    while i < items.len()
        invariant
            i <= items@.len(),
            nv@ == needle@,
            forall|k: int| 0 <= k < i ==> items@[k]@ != needle@,
        decreases items.len() - i,
    {
        let iv = chars_of_string(&items[i]);
        if crate::text::eq_str(nv.as_slice(), items[i].as_str()) {
            assert(strings_view(items@)[i as int] == needle@);
            return true;
        }
        i = i + 1;
    }
    assert forall|k: int| 0 <= k < strings_view(items@).len() implies strings_view(items@)[k]
        != needle@ by {
        assert(strings_view(items@)[k] == items@[k]@);
    }
    false
}

/// The note forwarding the warnings of `text`, before any path rewriting.
pub fn warning_note_of(text: &str) -> (r: Option<String>)
    ensures
        opt_view(r) == warning_note(text@),
{
    let v = chars_of(text);
    let (a, b) = trim_bounds(v.as_slice(), 0, v.len());
    assert(v@.subrange(0, v@.len() as int) =~= v@);
    let trimmed = string_of_range(v.as_slice(), a, b);
    let blocks = split_warning_blocks(trimmed.as_str());
    let ghost bs = strings_view(blocks@);
    let mut missing: Vec<String> = Vec::new();
    let mut kept: Vec<String> = Vec::new();
    let mut i: usize = 0;
    while i < blocks.len()
        invariant
            i <= blocks@.len(),
            bs == strings_view(blocks@),
            sort_blocks(bs.take(i as int)) == (strings_view(missing@), strings_view(kept@)),
        decreases blocks.len() - i,
    {
        let bv = chars_of_string(&blocks[i]);
        let (x, y) = trim_bounds(bv.as_slice(), 0, bv.len());
        assert(bv@.subrange(0, bv@.len() as int) =~= bv@);
        assert(bs.take(i + 1).drop_last() =~= bs.take(i as int));
        assert(bs.take(i + 1).last() == blocks@[i as int]@);
        let ghost m0 = strings_view(missing@);
        let ghost k0 = strings_view(kept@);
        if x < y {
            let block = string_of_range(bv.as_slice(), x, y);
            match unmatched_font(block.as_str()) {
                Some(family) => {
                    if !contains_string(&missing, &family) {
                        missing.push(family);
                        assert(strings_view(missing@) =~= m0.push(missing@[missing@.len() - 1]@));
                    }
                },
                None => {
                    kept.push(block);
                    assert(strings_view(kept@) =~= k0.push(kept@[kept@.len() - 1]@));
                },
            }
        }
        i = i + 1;
    }
    assert(bs.take(blocks@.len() as int) =~= bs);
    if kept.len() == 0 && missing.len() == 0 {
        return None;
    }
    let mut note = "[fy-docs] typst reported warnings:".to_owned();
    let ghost head = note@;
    let ghost ks = strings_view(kept@);
    let mut k: usize = 0;
    while k < kept.len()
        invariant
            k <= kept@.len(),
            ks == strings_view(kept@),
            note@ == head + on_new_lines(ks.take(k as int)),
        decreases kept.len() - k,
    {
        push_char(&mut note, '\n');
        note.append(kept[k].as_str());
        assert(ks.take(k + 1).drop_last() =~= ks.take(k as int));
        k = k + 1;
    }
    assert(ks.take(kept@.len() as int) =~= ks);
    if missing.len() > 0 {
        note.append("\nwarning: font families unavailable, fallback applied: ");
        let names = join_strings(missing.as_slice(), ", ");
        assert(missing@.map_values(|p: String| p@) =~= strings_view(missing@));
        note.append(names.as_str());
    } else {
        assert(note@ + Seq::<char>::empty() =~= note@);
    }
    Some(note)
}

/// Each unavailable font family is named once: the families a note lists are
/// distinct, however often typst repeated the warning.
pub proof fn lemma_families_named_once(blocks: Seq<Seq<char>>)
    ensures
        sort_blocks(blocks).0.no_duplicates(),
    decreases blocks.len(),
{
    if blocks.len() > 0 {
        lemma_families_named_once(blocks.drop_last());
        let missing = sort_blocks(blocks.drop_last()).0;
        let b = trim(blocks.last());
        if b.len() > 0 {
            if let Some(f) = font_of(b) {
                if !missing.contains(f) {
                    assert forall|i: int, j: int|
                        0 <= i < j < missing.push(f).len() implies missing.push(f)[i]
                        != missing.push(f)[j] by {
                        if j == missing.len() {
                            assert(missing[i] == missing.push(f)[i]);
                        }
                    }
                }
            }
        }
    }
}

/// Builds the line forwarding typst's stderr from a *successful* compile.
/// Warnings change the artifact without failing it (substituted fonts,
/// directives dropped by HTML export), so dropping them would hide real
/// regressions behind a green build.
///
/// Absent font families are the one exception: a fallback chain deliberately
/// lists candidates for several operating systems, and typst re-reports every
/// unavailable one at each style site, so the repeats add nothing beyond the
/// distinct names. They collapse into a single line; everything else is
/// forwarded verbatim. On Windows the verbatim path prefixes are dropped.
pub fn format_warnings(stderr: &[u8]) -> (r: Option<String>)
    ensures
        match warning_note(utf8_lossy(stderr@)) {
            None => r is None,
            Some(n) => r is Some && (r->0@ == n || r->0@ == verbatim_stripped(n)),
        },
{
    let text = from_utf8_lossy(stderr);
    match warning_note_of(text.as_str()) {
        None => None,
        Some(note) => Some(strip_verbatim(note.as_str())),
    }
}

} // verus!
