//! Finding a string in cue text.
//!
//! Case is folded per character, which is what a subtitle search wants: it
//! makes Latin queries case-insensitive and leaves Japanese — where the notion
//! doesn't apply — untouched. Positions are byte ranges into the *original*
//! text (never into a lowercased copy, whose byte offsets would not line up),
//! so callers can slice with them safely.

use std::ops::Range;
use vstd::prelude::*;
use crate::unicode::{
    byte_len, byte_offset, char_len, chars_of, lemma_byte_offset_mono, lemma_byte_offset_step,
    lowercase, push_char, str_byte_len, to_lowercase,
};

verus! {

/// The case-folded form of `s`: each character's lowercase mapping, in order.
pub open spec fn fold(s: Seq<char>) -> Seq<char>
    decreases s.len(),
{
    if s.len() == 0 {
        Seq::empty()
    } else {
        fold(s.drop_last()) + lowercase(s.last())
    }
}

/// `needle` (already folded) occurs in `t` from character `p` up to character `j`.
pub open spec fn occurs_at(t: Seq<char>, p: int, needle: Seq<char>, j: int) -> bool {
    0 <= p <= j <= t.len() && fold(t.subrange(p, j)) == needle
}

/// The first end `j >= from` of an occurrence of `needle` that starts at `p`.
pub open spec fn end_from(t: Seq<char>, p: int, needle: Seq<char>, from: int) -> Option<int>
    decreases t.len() + 1 - from,
{
    if from < p || from > t.len() {
        None
    } else if occurs_at(t, p, needle, from) {
        Some(from)
    } else {
        end_from(t, p, needle, from + 1)
    }
}

/// The end of the shortest occurrence of `needle` starting at character `p`.
pub open spec fn match_end(t: Seq<char>, p: int, needle: Seq<char>) -> Option<int> {
    end_from(t, p, needle, p)
}

/// Leftmost, non-overlapping occurrences of `needle` in `t` from character `p`
/// on, as character ranges.
pub open spec fn hits_from(t: Seq<char>, needle: Seq<char>, p: int) -> Seq<(int, int)>
    decreases (if p < t.len() { t.len() - p } else { 0 }),
{
    if p < 0 || p >= t.len() {
        Seq::empty()
    } else {
        match match_end(t, p, needle) {
            Some(e) => seq![(p, e)] + hits_from(t, needle, if e > p { e } else { p + 1 }),
            None => hits_from(t, needle, p + 1),
        }
    }
}

/// Every occurrence of `needle` in `text`, ignoring case, as character ranges.
/// Nothing when the needle folds to nothing.
pub open spec fn search_hits(text: Seq<char>, needle: Seq<char>) -> Seq<(int, int)> {
    if fold(needle).len() == 0 {
        Seq::empty()
    } else {
        hits_from(text, fold(needle), 0)
    }
}

/// `t` with the ranges `hits` (in order, from character `at` on) replaced by `with`.
pub open spec fn splice(t: Seq<char>, hits: Seq<(int, int)>, with: Seq<char>, at: int) -> Seq<
    char,
>
    decreases hits.len(),
{
    if hits.len() == 0 {
        t.subrange(at, t.len() as int)
    } else {
        t.subrange(at, hits[0].0) + with + splice(t, hits.drop_first(), with, hits[0].1)
    }
}

/// Ranges that lie in order inside `[from, len]`, each ending no earlier than it starts.
pub open spec fn ordered(hits: Seq<(int, int)>, from: int, len: int) -> bool
    decreases hits.len(),
{
    hits.len() == 0 || (from <= hits[0].0 <= hits[0].1 <= len && ordered(
        hits.drop_first(),
        hits[0].1,
        len,
    ))
}

proof fn lemma_fold_concat(a: Seq<char>, b: Seq<char>)
    ensures
        fold(a + b) == fold(a) + fold(b),
    decreases b.len(),
{
    if b.len() == 0 {
        assert(a + b =~= a);
        assert(fold(a) + fold(b) =~= fold(a));
    } else {
        lemma_fold_concat(a, b.drop_last());
        assert((a + b).drop_last() =~= a + b.drop_last());
        assert(fold(a) + fold(b) =~= fold(a) + fold(b.drop_last()) + lowercase(b.last()));
    }
}

proof fn lemma_fold_step(t: Seq<char>, p: int, i: int)
    requires
        0 <= p <= i < t.len(),
    ensures
        fold(t.subrange(p, i + 1)) == fold(t.subrange(p, i)) + lowercase(t[i]),
{
    assert(t.subrange(p, i + 1).drop_last() =~= t.subrange(p, i));
}

proof fn lemma_end_from_none(t: Seq<char>, p: int, needle: Seq<char>, from: int)
    requires
        forall|j: int| from <= j <= t.len() ==> !occurs_at(t, p, needle, j),
    ensures
        end_from(t, p, needle, from) is None,
    decreases t.len() + 1 - from,
{
    if from >= p && from <= t.len() {
        lemma_end_from_none(t, p, needle, from + 1);
    }
}

proof fn lemma_end_from_bounds(t: Seq<char>, p: int, needle: Seq<char>, from: int)
    ensures
        end_from(t, p, needle, from) matches Some(e) ==> from <= e <= t.len() && p <= e
            && occurs_at(t, p, needle, e),
    decreases t.len() + 1 - from,
{
    if from >= p && from <= t.len() && !occurs_at(t, p, needle, from) {
        lemma_end_from_bounds(t, p, needle, from + 1);
    }
}

/// Once the folded text from `p` has parted ways with `needle` at character
/// `i`, no later end matches.
proof fn lemma_mismatch(
    t: Seq<char>,
    p: int,
    i: int,
    lower: Seq<char>,
    m: int,
    needle: Seq<char>,
    k: int,
)
    requires
        0 <= p <= i < t.len(),
        lower == lowercase(t[i]),
        0 <= m < lower.len(),
        0 <= k,
        fold(t.subrange(p, i)) + lower.take(m) == needle.take(k),
        k <= needle.len(),
        k == needle.len() || needle[k] != lower[m],
    ensures
        forall|j: int| i + 1 <= j <= t.len() ==> !occurs_at(t, p, needle, j),
{
    assert forall|j: int| i + 1 <= j <= t.len() implies !occurs_at(t, p, needle, j) by {
        lemma_fold_step(t, p, i);
        assert(t.subrange(p, j) =~= t.subrange(p, i + 1) + t.subrange(i + 1, j));
        lemma_fold_concat(t.subrange(p, i + 1), t.subrange(i + 1, j));
        let f = fold(t.subrange(p, j));
        let head = fold(t.subrange(p, i));
        assert(needle.take(k).len() == k);
        assert(head.len() + m == k);
        assert(f[k] == lower[m]);
        if f == needle {
            assert(f.len() > k);
            assert(needle[k] == lower[m]);
        }
    }
}

/// The end (character index and byte offset) of an occurrence of `needle`
/// starting at character `pos`, if one starts there.
fn match_at(t: &Vec<char>, pos: usize, pos_byte: usize, needle: &Vec<char>) -> (r: Option<
    (usize, usize),
>)
    requires
        pos <= t.len(),
        pos_byte == byte_offset(t@, pos as int),
        byte_len(t@) <= usize::MAX,
    ensures
        match r {
            Some((e, eb)) => match_end(t@, pos as int, needle@) == Some(e as int) && eb
                == byte_offset(t@, e as int),
            None => match_end(t@, pos as int, needle@) is None,
        },
{
    let ghost tv = t@;
    let ghost nv = needle@;
    let mut k: usize = 0;
    let mut i: usize = pos;
    let mut ib: usize = pos_byte;
    proof {
        assert(tv.subrange(pos as int, pos as int) =~= Seq::<char>::empty());
        assert(nv.take(0) =~= Seq::<char>::empty());
    }
    while i < t.len()
        invariant
            tv == t@,
            nv == needle@,
            pos <= i <= t.len(),
            ib == byte_offset(tv, i as int),
            byte_len(tv) <= usize::MAX,
            k <= needle.len(),
            fold(tv.subrange(pos as int, i as int)) == nv.take(k as int),
            end_from(tv, pos as int, nv, pos as int) == end_from(tv, pos as int, nv, i as int),
        decreases t.len() - i,
    {
        if k == needle.len() {
            proof {
                assert(nv.take(k as int) =~= nv);
            }
            return Some((i, ib));
        }
        let c = t[i];
        let lower = to_lowercase(c);
        let mut m: usize = 0;
        proof {
            assert(lower@.take(0) =~= Seq::<char>::empty());
            assert(fold(tv.subrange(pos as int, i as int)) + lower@.take(0) =~= nv.take(k as int));
            assert(nv.take(k as int).len() == k);
        }
        while m < lower.len()
            invariant
                tv == t@,
                nv == needle@,
                pos <= i < t.len(),
                c == tv[i as int],
                lower@ == lowercase(c),
                m <= lower.len(),
                k <= needle.len(),
                fold(tv.subrange(pos as int, i as int)) + lower@.take(m as int) == nv.take(
                    k as int,
                ),
                ib == byte_offset(tv, i as int),
                byte_len(tv) <= usize::MAX,
                end_from(tv, pos as int, nv, pos as int) == end_from(tv, pos as int, nv, i as int),
                fold(tv.subrange(pos as int, i as int)).len() < nv.len(),
            decreases lower.len() - m,
        {
            if k >= needle.len() || needle[k] != lower[m] {
                proof {
                    lemma_mismatch(tv, pos as int, i as int, lower@, m as int, nv, k as int);
                    assert(!occurs_at(tv, pos as int, nv, i as int)) by {
                        assert(nv.take(k as int).len() == k);
                        assert(fold(tv.subrange(pos as int, i as int)).len() <= k);
                        if fold(tv.subrange(pos as int, i as int)) == nv {
                            assert(nv.len() <= k);
                        }
                    }
                    lemma_end_from_none(tv, pos as int, nv, i as int);
                }
                return None;
            }
            proof {
                assert(lower@.take(m as int + 1) =~= lower@.take(m as int).push(lower@[m as int]));
                assert(nv.take(k as int + 1) =~= nv.take(k as int).push(nv[k as int]));
                assert(fold(tv.subrange(pos as int, i as int)) + lower@.take(m as int + 1)
                    =~= (fold(tv.subrange(pos as int, i as int)) + lower@.take(m as int)).push(
                    lower@[m as int],
                ));
            }
            k += 1;
            m += 1;
        }
        proof {
            assert(lower@.take(m as int) =~= lower@);
            lemma_fold_step(tv, pos as int, i as int);
            lemma_byte_offset_step(tv, i as int);
            lemma_byte_offset_mono(tv, i as int + 1, tv.len() as int);
            assert(tv.take(tv.len() as int) =~= tv);
            // The text folded up to `i` was a proper prefix of the needle.
            assert(!occurs_at(tv, pos as int, nv, i as int));
        }
        ib += char_len(c);
        i += 1;
    }
    if k == needle.len() {
        proof {
            assert(nv.take(k as int) =~= nv);
        }
        Some((i, ib))
    } else {
        proof {
            assert(!occurs_at(tv, pos as int, nv, i as int));
            assert(end_from(tv, pos as int, nv, i as int + 1) is None);
        }
        None
    }
}


/// The character ranges of the hits a scan has collected.
pub open spec fn char_ranges(v: Seq<(usize, usize, usize, usize)>) -> Seq<(int, int)> {
    v.map_values(|h: (usize, usize, usize, usize)| (h.0 as int, h.1 as int))
}

proof fn lemma_hits_ordered(t: Seq<char>, needle: Seq<char>, p: int)
    requires
        0 <= p,
    ensures
        ordered(hits_from(t, needle, p), p, t.len() as int),
    decreases (if p < t.len() { t.len() - p } else { 0 }),
{
    if p < t.len() {
        lemma_end_from_bounds(t, p, needle, p);
        match match_end(t, p, needle) {
            Some(e) => {
                let next = if e > p { e } else { p + 1 };
                lemma_hits_ordered(t, needle, next);
                let h = hits_from(t, needle, p);
                assert(h.drop_first() =~= hits_from(t, needle, next));
                let rest = hits_from(t, needle, next);
                if rest.len() > 0 {
                    assert(ordered(rest, e, t.len() as int));
                }
            },
            None => {
                lemma_hits_ordered(t, needle, p + 1);
                let rest = hits_from(t, needle, p + 1);
                if rest.len() > 0 {
                    assert(ordered(rest, p, t.len() as int));
                }
            },
        }
    }
}

/// Non-overlapping occurrences of the (non-empty, folded) `needle`, left to
/// right: `(char start, char end, byte start, byte end)` of each.
fn scan(t: &Vec<char>, needle: &Vec<char>) -> (r: Vec<(usize, usize, usize, usize)>)
    requires
        needle@.len() > 0,
        byte_len(t@) <= usize::MAX,
    ensures
        char_ranges(r@) == hits_from(t@, needle@, 0),
        forall|i: int|
            0 <= i < r@.len() ==> {
                &&& r@[i].2 == byte_offset(t@, r@[i].0 as int)
                &&& r@[i].3 == byte_offset(t@, r@[i].1 as int)
            },
{
    let ghost tv = t@;
    let ghost nv = needle@;
    let mut out: Vec<(usize, usize, usize, usize)> = Vec::new();
    let mut pos: usize = 0;
    let mut pb: usize = 0;
    proof {
        assert(tv.take(0) =~= Seq::<char>::empty());
        assert(char_ranges(out@) =~= Seq::<(int, int)>::empty());
        assert(hits_from(tv, nv, 0) =~= char_ranges(out@) + hits_from(tv, nv, 0));
    }
    while pos < t.len()
        invariant
            tv == t@,
            nv == needle@,
            nv.len() > 0,
            byte_len(tv) <= usize::MAX,
            pos <= t.len(),
            pb == byte_offset(tv, pos as int),
            hits_from(tv, nv, 0) == char_ranges(out@) + hits_from(tv, nv, pos as int),
            forall|i: int|
                0 <= i < out@.len() ==> {
                    &&& out@[i].2 == byte_offset(tv, out@[i].0 as int)
                    &&& out@[i].3 == byte_offset(tv, out@[i].1 as int)
                },
        decreases t.len() - pos,
    {
        match match_at(t, pos, pb, needle) {
            Some((end, eb)) => {
                proof {
                    lemma_end_from_bounds(tv, pos as int, nv, pos as int);
                    assert(tv.subrange(pos as int, pos as int) =~= Seq::<char>::empty());
                    assert(fold(Seq::<char>::empty()) =~= Seq::<char>::empty());
                    assert(end > pos);
                    let old_out = char_ranges(out@);
                    assert(char_ranges(out@.push((pos, end, pb, eb))) =~= old_out.push(
                        (pos as int, end as int),
                    ));
                    assert(hits_from(tv, nv, pos as int) == seq![(pos as int, end as int)]
                        + hits_from(tv, nv, end as int));
                    assert(old_out + hits_from(tv, nv, pos as int) =~= old_out.push(
                        (pos as int, end as int),
                    ) + hits_from(tv, nv, end as int));
                }
                out.push((pos, end, pb, eb));
                pos = end;
                pb = eb;
            },
            None => {
                proof {
                    lemma_byte_offset_step(tv, pos as int);
                    lemma_byte_offset_mono(tv, pos as int + 1, tv.len() as int);
                    assert(tv.take(tv.len() as int) =~= tv);
                }
                pb = pb + char_len(t[pos]);
                pos = pos + 1;
            },
        }
    }
    proof {
        assert(char_ranges(out@) + hits_from(tv, nv, pos as int) =~= char_ranges(out@));
    }
    out
}

/// The lowercased characters of `needle`, ready for [`scan`].
fn folded(needle: &str) -> (r: Vec<char>)
    ensures
        r@ == fold(needle@),
{
    let nc = chars_of(needle);
    let mut r: Vec<char> = Vec::new();
    let mut i: usize = 0;
    proof {
        assert(nc@.take(0) =~= Seq::<char>::empty());
    }
    while i < nc.len()
        invariant
            i <= nc.len(),
            nc@ == needle@,
            r@ == fold(nc@.take(i as int)),
        decreases nc.len() - i,
    {
        let mut lower = to_lowercase(nc[i]);
        proof {
            assert(nc@.take(i as int + 1).drop_last() =~= nc@.take(i as int));
        }
        r.append(&mut lower);
        i += 1;
    }
    proof {
        assert(nc@.take(i as int) =~= nc@);
    }
    r
}

/// Whether `text` contains `needle`, ignoring case.
pub fn contains(text: &str, needle: &str) -> (r: bool)
    ensures
        r == (search_hits(text@, needle@).len() > 0),
{
    let needle = folded(needle);
    if needle.len() == 0 {
        return false;
    }
    let t = chars_of(text);
    let _len = str_byte_len(text);
    let hits = scan(&t, &needle);
    proof {
        assert(char_ranges(hits@).len() == hits@.len());
    }
    hits.len() > 0
}

/// Byte ranges of every occurrence of `needle` in `text`, ignoring case.
/// Empty when `needle` is empty, so an unset search highlights nothing.
pub fn matches(text: &str, needle: &str) -> (r: Vec<Range<usize>>)
    ensures
        r@.len() == search_hits(text@, needle@).len(),
        forall|i: int|
            0 <= i < r@.len() ==> {
                &&& r@[i].start == byte_offset(text@, search_hits(text@, needle@)[i].0)
                &&& r@[i].end == byte_offset(text@, search_hits(text@, needle@)[i].1)
            },
{
    let needle = folded(needle);
    if needle.len() == 0 {
        return Vec::new();
    }
    let t = chars_of(text);
    let _len = str_byte_len(text);
    let hits = scan(&t, &needle);
    let ghost h = search_hits(text@, needle@);
    let mut out: Vec<Range<usize>> = Vec::new();
    let mut i: usize = 0;
    while i < hits.len()
        invariant
            i <= hits.len(),
            out@.len() == i,
            t@ == text@,
            char_ranges(hits@) == hits_from(t@, needle@, 0),
            forall|j: int|
                0 <= j < hits@.len() ==> {
                    &&& hits@[j].2 == byte_offset(t@, hits@[j].0 as int)
                    &&& hits@[j].3 == byte_offset(t@, hits@[j].1 as int)
                },
            forall|j: int|
                0 <= j < i ==> {
                    &&& out@[j].start == byte_offset(t@, char_ranges(hits@)[j].0)
                    &&& out@[j].end == byte_offset(t@, char_ranges(hits@)[j].1)
                },
        decreases hits.len() - i,
    {
        let (_, _, bs, be) = hits[i];
        out.push(bs..be);
        i += 1;
    }
    out
}

/// Appends the characters `t[from..to]` to `out`.
fn push_chars(out: &mut String, t: &Vec<char>, from: usize, to: usize)
    requires
        from <= to <= t.len(),
    ensures
        final(out)@ == old(out)@ + t@.subrange(from as int, to as int),
{
    let mut j = from;
    while j < to
        invariant
            from <= j <= to <= t.len(),
            out@ == old(out)@ + t@.subrange(from as int, j as int),
        decreases to - j,
    {
        push_char(out, t[j]);
        proof {
            assert(t@.subrange(from as int, j as int + 1) =~= t@.subrange(from as int, j as int).push(t@[j as int]));
        }
        j += 1;
    }
}

/// `text` with every occurrence of `needle` replaced by `with`, and how many
/// there were. The replacement goes in verbatim — case is folded to *find* a
/// word, never to re-case what takes its place.
pub fn replace_all(text: &str, needle: &str, with: &str) -> (r: (String, usize))
    ensures
        r.0@ == splice(text@, search_hits(text@, needle@), with@, 0),
        r.1 == search_hits(text@, needle@).len(),
{
    let folded_needle = folded(needle);
    let t = chars_of(text);
    if folded_needle.len() == 0 {
        proof {
            assert(t@.subrange(0, t@.len() as int) =~= t@);
        }
        return (text.to_owned(), 0);
    }
    let _len = str_byte_len(text);
    let hits = scan(&t, &folded_needle);
    let ghost hs = char_ranges(hits@);
    proof {
        lemma_hits_ordered(t@, folded_needle@, 0);
    }
    if hits.len() == 0 {
        proof {
            assert(t@.subrange(0, t@.len() as int) =~= t@);
        }
        return (text.to_owned(), 0);
    }
    let wc = chars_of(with);
    let mut out = String::new();
    let mut at: usize = 0;
    let mut i: usize = 0;
    proof {
        assert(hs.skip(0) =~= hs);
        assert(out@ + splice(t@, hs.skip(0), wc@, 0) =~= splice(t@, hs, wc@, 0));
    }
    while i < hits.len()
        invariant
            i <= hits.len(),
            hs == char_ranges(hits@),
            wc@ == with@,
            at <= t.len(),
            ordered(hs.skip(i as int), at as int, t@.len() as int),
            splice(t@, hs, wc@, 0) == out@ + splice(t@, hs.skip(i as int), wc@, at as int),
        decreases hits.len() - i,
    {
        let (s, e, _, _) = hits[i];
        proof {
            assert(hs.skip(i as int)[0] == (s as int, e as int));
            assert(hs.skip(i as int).drop_first() =~= hs.skip(i as int + 1));
        }
        let ghost before = out@;
        push_chars(&mut out, &t, at, s);
        push_chars(&mut out, &wc, 0, wc.len());
        proof {
            assert(wc@.subrange(0, wc@.len() as int) =~= wc@);
            assert(before + splice(t@, hs.skip(i as int), wc@, at as int) =~= out@ + splice(
                t@,
                hs.skip(i as int + 1),
                wc@,
                e as int,
            ));
        }
        at = e;
        i += 1;
    }
    push_chars(&mut out, &t, at, t.len());
    proof {
        assert(hs.skip(i as int) =~= Seq::<(int, int)>::empty());
    }
    (out, hits.len())
}


proof fn lemma_end_from_none_means_no_occurrence(t: Seq<char>, p: int, needle: Seq<char>, from: int)
    requires
        p <= from,
        end_from(t, p, needle, from) is None,
    ensures
        forall|j: int| from <= j ==> !occurs_at(t, p, needle, j),
    decreases t.len() + 1 - from,
{
    if from <= t.len() {
        lemma_end_from_none_means_no_occurrence(t, p, needle, from + 1);
    }
}

proof fn lemma_hits_nonempty(t: Seq<char>, needle: Seq<char>, p: int)
    requires
        0 <= p,
        needle.len() > 0,
    ensures
        hits_from(t, needle, p).len() > 0 <==> exists|q: int, j: int|
            p <= q && #[trigger] occurs_at(t, q, needle, j),
    decreases (if p < t.len() { t.len() - p } else { 0 }),
{
    if p >= t.len() {
        assert forall|q: int, j: int| p <= q implies !#[trigger] occurs_at(t, q, needle, j) by {
            if occurs_at(t, q, needle, j) {
                assert(t.subrange(q, j) =~= Seq::<char>::empty());
                assert(fold(Seq::<char>::empty()) =~= Seq::<char>::empty());
            }
        }
    } else {
        lemma_end_from_bounds(t, p, needle, p);
        match match_end(t, p, needle) {
            Some(e) => {
                assert(occurs_at(t, p, needle, e));
            },
            None => {
                lemma_hits_nonempty(t, needle, p + 1);
                lemma_end_from_none_means_no_occurrence(t, p, needle, p);
                assert((exists|q: int, j: int| p <= q && #[trigger] occurs_at(t, q, needle, j))
                    ==> (exists|q: int, j: int| p + 1 <= q && #[trigger] occurs_at(t, q, needle, j)));
            },
        }
    }
}

proof fn lemma_hits_are_occurrences(t: Seq<char>, needle: Seq<char>, p: int)
    requires
        0 <= p,
        needle.len() > 0,
    ensures
        forall|i: int|
            0 <= i < hits_from(t, needle, p).len() ==> {
                let h = #[trigger] hits_from(t, needle, p)[i];
                &&& p <= h.0 < h.1 <= t.len()
                &&& fold(t.subrange(h.0, h.1)) == needle
            },
    decreases (if p < t.len() { t.len() - p } else { 0 }),
{
    if p < t.len() {
        lemma_end_from_bounds(t, p, needle, p);
        match match_end(t, p, needle) {
            Some(e) => {
                assert(t.subrange(p, p) =~= Seq::<char>::empty());
                assert(fold(Seq::<char>::empty()) =~= Seq::<char>::empty());
                assert(e != p);
                lemma_hits_are_occurrences(t, needle, e);
                let h = hits_from(t, needle, p);
                let rest = hits_from(t, needle, e);
                assert(h == seq![(p, e)] + rest);
                assert forall|i: int| 0 <= i < h.len() implies {
                    let x = #[trigger] h[i];
                    &&& p <= x.0 < x.1 <= t.len()
                    &&& fold(t.subrange(x.0, x.1)) == needle
                } by {
                    if i > 0 {
                        assert(h[i] == rest[i - 1]);
                    }
                }
            },
            None => {
                lemma_hits_are_occurrences(t, needle, p + 1);
                assert(hits_from(t, needle, p) == hits_from(t, needle, p + 1));
            },
        }
    }
}

/// A search finds something exactly when the folded needle occurs somewhere in
/// the folded text: `contains` neither misses an occurrence nor invents one.
pub proof fn law_found_iff_occurs(text: Seq<char>, needle: Seq<char>)
    requires
        fold(needle).len() > 0,
    ensures
        search_hits(text, needle).len() > 0 <==> exists|q: int, j: int|
            #[trigger] occurs_at(text, q, fold(needle), j),
{
    lemma_hits_nonempty(text, fold(needle), 0);
    assert forall|q: int, j: int| #[trigger] occurs_at(text, q, fold(needle), j) implies 0 <= q by {}
}

/// Every match is a real occurrence: a non-empty stretch of the text that folds
/// to the folded needle. The matches come left to right without overlapping,
/// and all of them lie inside the text.
pub proof fn law_matches_are_occurrences(text: Seq<char>, needle: Seq<char>)
    ensures
        ordered(search_hits(text, needle), 0, text.len() as int),
        forall|i: int|
            0 <= i < search_hits(text, needle).len() ==> {
                let h = #[trigger] search_hits(text, needle)[i];
                &&& 0 <= h.0 < h.1 <= text.len()
                &&& fold(text.subrange(h.0, h.1)) == fold(needle)
            },
{
    if fold(needle).len() > 0 {
        lemma_hits_ordered(text, fold(needle), 0);
        lemma_hits_are_occurrences(text, fold(needle), 0);
    }
}

/// A replacement that finds nothing gives back the text exactly as it was.
pub proof fn law_no_match_keeps_text(text: Seq<char>, needle: Seq<char>, with: Seq<char>)
    requires
        search_hits(text, needle).len() == 0,
    ensures
        splice(text, search_hits(text, needle), with, 0) == text,
{
    assert(text.subrange(0, text.len() as int) =~= text);
}

} // verus!
