//! Helpers shared across the editor: display widths, the `.orig` sidecar name,
//! line wrapping, and the clock formats cues, chapters and ffmpeg use.

use std::ops::Range;
use vstd::prelude::*;
use crate::unicode::{
    byte_len, byte_offset, byte_offsets, char_cells, char_width, chars_of, is_blank, is_whitespace,
    push_char, str_byte_len, str_cells, string_of_range,
};

verus! {

/// How many terminal cells `s` occupies (CJK characters take two): a wrapper
/// around `UnicodeWidthStr::width` of the `unicode-width` crate. Its source
/// sums the characters from the end, and gives an empty string no cells and
/// each printable ASCII character one; the rest of its rules are left to the
/// name `str_cells`.
#[verifier::external_body]
pub fn display_width(s: &str) -> (w: usize)
    ensures
        w == str_cells(s@),
        s@.len() == 0 ==> w == 0,
        (forall|i: int| 0 <= i < s@.len() ==> 0x20 <= #[trigger] (s@[i] as u32) < 0x7f) ==> w == s@.len(),
{
    unicode_width::UnicodeWidthStr::width(s)
}

} // verus!

verus! {

/// Cells a character adds to a line: its display width, or nothing for a
/// control character.
pub open spec fn cells(c: char) -> int {
    match char_cells(c) {
        Some(w) => w as int,
        None => 0,
    }
}

/// Where the wrapper stands after some characters: the finished lines
/// (character ranges), where the current line starts, how many cells it holds,
/// and the character index just past the last blank on it, if any.
pub type WrapState = (Seq<(int, int)>, int, int, Option<int>);

/// The cells the characters `t[a..b]` take, one after another.
pub open spec fn span_cells(t: Seq<char>, a: int, b: int) -> int
    decreases b - a,
{
    if b <= a {
        0
    } else {
        span_cells(t, a, b - 1) + cells(t[b - 1])
    }
}

/// The cells `display_width` gives the characters `t[a..b]` taken as one
/// string, none for an empty stretch.
pub open spec fn run_cells(t: Seq<char>, a: int, b: int) -> int {
    if a < b {
        str_cells(t.subrange(a, b)) as int
    } else {
        0
    }
}

/// The display width of `t` adds up character by character: every stretch of
/// it takes as many cells as its characters one after another.
pub open spec fn widths_add_up(t: Seq<char>) -> bool {
    forall|a: int, b: int| 0 <= a < b <= t.len() ==> #[trigger] run_cells(t, a, b) == span_cells(t, a, b)
}

/// The wrapper's state after it has taken character `i` of `t` into account.
/// A character that would overflow the line ends it after its last blank
/// (or before the character, when it has none); what is carried over to the
/// new line is measured with `display_width`, and if it still cannot take the
/// character, it too ends as a line of its own.
pub open spec fn wrap_step(t: Seq<char>, width: int, s: WrapState, i: int) -> WrapState {
    let (lines, start, col, blank) = s;
    let c = t[i];
    let cw = cells(c);
    let (lines1, start1, col1, blank1) = if col + cw > width && i > start {
        let brk = match blank {
            Some(b) => if start < b < i {
                b
            } else {
                i
            },
            None => i,
        };
        let carried = run_cells(t, brk, i);
        if carried + cw > width && i > brk {
            (lines.push((start, brk)).push((brk, i)), i, 0, None::<int>)
        } else {
            (lines.push((start, brk)), brk, carried, None::<int>)
        }
    } else {
        (lines, start, col, blank)
    };
    (lines1, start1, col1 + cw, if is_blank(c) { Some(i + 1) } else { blank1 })
}

/// The wrapper's state after the first `n` characters of `t`.
pub open spec fn wrap_run(t: Seq<char>, width: int, n: int) -> WrapState
    decreases n,
{
    if n <= 0 {
        (Seq::empty(), 0, 0, None)
    } else {
        wrap_step(t, width, wrap_run(t, width, n - 1), n - 1)
    }
}

/// The lines (character ranges) `t` wraps into at `width` columns: break after
/// a blank when the line has one, mid-run otherwise, and never leave a line
/// without a character.
pub open spec fn wrap_lines(t: Seq<char>, width: int) -> Seq<(int, int)> {
    let w = if width < 1 { 1 } else { width };
    let s = wrap_run(t, w, t.len() as int);
    s.0.push((s.1, t.len() as int))
}

/// `lines` cover `[from, to)` end to end, each holding at least one character.
pub open spec fn tiles(lines: Seq<(int, int)>, from: int, to: int) -> bool {
    &&& lines.len() == 0 ==> from == to
    &&& lines.len() > 0 ==> lines[0].0 == from && lines.last().1 == to
    &&& forall|k: int| 0 <= k < lines.len() ==> #[trigger] lines[k].0 < lines[k].1
    &&& forall|k: int| 0 <= k < lines.len() - 1 ==> #[trigger] lines[k].1 == lines[k + 1].0
}

/// The characters' cells are never negative.
proof fn lemma_cells_nonneg(c: char)
    ensures
        cells(c) >= 0,
{
}

/// Cells add up over adjacent stretches, and a longer stretch takes no fewer.
proof fn lemma_span(t: Seq<char>, a: int, m: int, b: int)
    requires
        a <= m <= b,
    ensures
        span_cells(t, a, b) == span_cells(t, a, m) + span_cells(t, m, b),
        span_cells(t, m, b) >= 0,
        span_cells(t, a, m) >= 0,
    decreases b - a,
{
    if b > m {
        lemma_span(t, a, m, b - 1);
        lemma_cells_nonneg(t[b - 1]);
    } else {
        assert(span_cells(t, m, b) == 0);
    }
    if m > a {
        lemma_span_nonneg(t, a, m);
    }
}

proof fn lemma_span_nonneg(t: Seq<char>, a: int, b: int)
    ensures
        span_cells(t, a, b) >= 0,
    decreases b - a,
{
    if b > a {
        lemma_span_nonneg(t, a, b - 1);
        lemma_cells_nonneg(t[b - 1]);
    }
}

/// A line fits `width` when its characters take no more cells, or it holds
/// a single character.
pub open spec fn line_fits(t: Seq<char>, width: int, l: (int, int)) -> bool {
    span_cells(t, l.0, l.1) <= width || l.1 - l.0 == 1
}

proof fn lemma_wrap_run_tiles(t: Seq<char>, width: int, n: int)
    requires
        0 <= n <= t.len(),
    ensures
        tiles(wrap_run(t, width, n).0, 0, wrap_run(t, width, n).1),
        0 <= wrap_run(t, width, n).1 <= n,
        wrap_run(t, width, n).3 matches Some(b) ==> b <= n,
        widths_add_up(t) ==> wrap_run(t, width, n).2 == span_cells(t, wrap_run(t, width, n).1, n),
        width >= 1 && widths_add_up(t) ==> (wrap_run(t, width, n).2 <= width || n - wrap_run(t, width, n).1 == 1),
        width >= 1 && widths_add_up(t) ==> forall|k: int|
            0 <= k < wrap_run(t, width, n).0.len() ==> line_fits(t, width, #[trigger] wrap_run(t, width, n).0[k]),
    decreases n,
{
    if n > 0 {
        lemma_wrap_run_tiles(t, width, n - 1);
        let s = wrap_run(t, width, n - 1);
        let s2 = wrap_run(t, width, n);
        let i = n - 1;
        let (lines, start, col, blank) = s;
        let cw = cells(t[i]);
        lemma_cells_nonneg(t[i]);
        lemma_span(t, start, i, n);
        if col + cw > width && i > start {
            let brk = match blank {
                Some(b) => if start < b < i {
                    b
                } else {
                    i
                },
                None => i,
            };
            lemma_span(t, start, brk, i);
            lemma_span(t, brk, i, n);
            let carried = run_cells(t, brk, i);
            if widths_add_up(t) && brk < i {
                assert(run_cells(t, brk, i) == span_cells(t, brk, i));
            }
            if carried + cw > width && i > brk {
                let ls = lines.push((start, brk)).push((brk, i));
                assert(s2.0 == ls);
                assert forall|k: int| 0 <= k < ls.len() - 1 implies #[trigger] ls[k].1 == ls[k + 1].0 by {
                    if k < ls.len() - 3 {
                        assert(ls[k] == lines[k] && ls[k + 1] == lines[k + 1]);
                    } else if k == ls.len() - 3 {
                        assert(ls[k] == lines[k]);
                    }
                }
                assert forall|k: int| 0 <= k < ls.len() implies #[trigger] ls[k].0 < ls[k].1 by {
                    if k < ls.len() - 2 {
                        assert(ls[k] == lines[k]);
                    }
                }
                if width >= 1 && widths_add_up(t) {
                    assert forall|k: int| 0 <= k < ls.len() implies line_fits(t, width, #[trigger] ls[k]) by {
                        if k < ls.len() - 2 {
                            assert(ls[k] == lines[k]);
                        }
                    }
                }
                assert(span_cells(t, i, n) == cw) by {
                    lemma_span(t, i, i, n);
                }
            } else {
                let ls = lines.push((start, brk));
                assert(s2.0 == ls);
                assert forall|k: int| 0 <= k < ls.len() - 1 implies #[trigger] ls[k].1 == ls[k + 1].0 by {
                    if k < ls.len() - 2 {
                        assert(ls[k] == lines[k] && ls[k + 1] == lines[k + 1]);
                    }
                }
                assert forall|k: int| 0 <= k < ls.len() implies #[trigger] ls[k].0 < ls[k].1 by {
                    if k < ls.len() - 1 {
                        assert(ls[k] == lines[k]);
                    }
                }
                if width >= 1 && widths_add_up(t) {
                    assert forall|k: int| 0 <= k < ls.len() implies line_fits(t, width, #[trigger] ls[k]) by {
                        if k < ls.len() - 1 {
                            assert(ls[k] == lines[k]);
                        }
                    }
                }
            }
        }
    }
}

/// The wrapped lines tile the whole text: the first starts at 0, the last ends
/// at its end, each begins where the one before it ended, and none is empty —
/// unless the text is, in which case there is the one empty line.
pub proof fn law_wrap_tiles(t: Seq<char>, width: int)
    ensures
        wrap_lines(t, width).len() >= 1,
        wrap_lines(t, width)[0].0 == 0,
        wrap_lines(t, width).last().1 == t.len(),
        forall|k: int|
            0 <= k < wrap_lines(t, width).len() - 1 ==> #[trigger] wrap_lines(t, width)[k].1
                == wrap_lines(t, width)[k + 1].0,
        t.len() > 0 ==> forall|k: int|
            0 <= k < wrap_lines(t, width).len() ==> #[trigger] wrap_lines(t, width)[k].0
                < wrap_lines(t, width)[k].1,
        t.len() == 0 ==> wrap_lines(t, width) == seq![(0int, 0int)],
{
    let w = if width < 1 { 1 } else { width };
    lemma_wrap_run_tiles(t, w, t.len() as int);
    let s = wrap_run(t, w, t.len() as int);
    let ls = wrap_lines(t, width);
    assert(ls == s.0.push((s.1, t.len() as int)));
    if t.len() > 0 {
        lemma_last_line_nonempty(t, w, t.len() as int);
    }
    assert forall|k: int| 0 <= k < ls.len() - 1 implies #[trigger] ls[k].1 == ls[k + 1].0 by {
        if k < ls.len() - 2 {
            assert(ls[k] == s.0[k] && ls[k + 1] == s.0[k + 1]);
        }
    }
    if t.len() > 0 {
        assert forall|k: int| 0 <= k < ls.len() implies #[trigger] ls[k].0 < ls[k].1 by {
            if k < ls.len() - 1 {
                assert(ls[k] == s.0[k]);
            }
        }
    } else {
        assert(ls =~= seq![(0int, 0int)]);
    }
}

/// Where the text's display width adds up character by character, every
/// wrapped line fits the width (taken as at least one column):
/// `display_width` gives it no more cells than that, unless it is a single
/// character wider than the width.
pub proof fn law_wrap_fits(t: Seq<char>, width: int)
    requires
        widths_add_up(t),
    ensures
        forall|k: int|
            0 <= k < wrap_lines(t, width).len() ==> {
                let l = #[trigger] wrap_lines(t, width)[k];
                run_cells(t, l.0, l.1) <= (if width < 1 { 1 } else { width }) || l.1 - l.0 == 1
            },
{
    let w = if width < 1 { 1 } else { width };
    lemma_wrap_run_tiles(t, w, t.len() as int);
    lemma_wrap_lines_inside(t, width);
    let s = wrap_run(t, w, t.len() as int);
    let ls = wrap_lines(t, width);
    assert(ls == s.0.push((s.1, t.len() as int)));
    assert forall|k: int| 0 <= k < ls.len() implies run_cells(t, ls[k].0, ls[k].1) <= w || ls[k].1 - ls[k].0
        == 1 by {
        if k < ls.len() - 1 {
            assert(ls[k] == s.0[k]);
        }
        assert(line_fits(t, w, ls[k]));
        if ls[k].0 < ls[k].1 {
            assert(run_cells(t, ls[k].0, ls[k].1) == span_cells(t, ls[k].0, ls[k].1));
        }
    }
}

/// After at least one character, the current line holds at least one.
proof fn lemma_last_line_nonempty(t: Seq<char>, width: int, n: int)
    requires
        0 < n <= t.len(),
    ensures
        wrap_run(t, width, n).1 < n,
    decreases n,
{
    if n > 1 {
        lemma_last_line_nonempty(t, width, n - 1);
    }
    lemma_wrap_run_tiles(t, width, n - 1);
}

} // verus!

verus! {

/// Ranges that follow one another end to end stay between the first start and
/// the last end.
pub proof fn lemma_chain_bounds(ls: Seq<(int, int)>)
    requires
        ls.len() >= 1,
        forall|k: int| 0 <= k < ls.len() ==> #[trigger] ls[k].0 <= ls[k].1,
        forall|k: int| 0 <= k < ls.len() - 1 ==> #[trigger] ls[k].1 == ls[k + 1].0,
    ensures
        forall|k: int| 0 <= k < ls.len() ==> ls[0].0 <= #[trigger] ls[k].0 <= ls[k].1 <= ls.last().1,
    decreases ls.len(),
{
    if ls.len() > 1 {
        let rest = ls.drop_first();
        assert forall|k: int| 0 <= k < rest.len() implies #[trigger] rest[k].0 <= rest[k].1 by {
            assert(rest[k] == ls[k + 1]);
        }
        assert forall|k: int| 0 <= k < rest.len() - 1 implies #[trigger] rest[k].1 == rest[k + 1].0 by {
            assert(rest[k] == ls[k + 1] && rest[k + 1] == ls[k + 2]);
        }
        lemma_chain_bounds(rest);
        assert forall|k: int| 0 <= k < ls.len() implies ls[0].0 <= #[trigger] ls[k].0 <= ls[k].1
            <= ls.last().1 by {
            assert(rest[0] == ls[1]);
            assert(rest.last() == ls.last());
            assert(ls[0].1 == ls[1].0);
            if k > 0 {
                assert(ls[k] == rest[k - 1]);
            }
        }
    }
}

/// Every wrapped line lies inside the text.
pub proof fn lemma_wrap_lines_inside(t: Seq<char>, width: int)
    ensures
        forall|k: int|
            0 <= k < wrap_lines(t, width).len() ==> 0 <= #[trigger] wrap_lines(t, width)[k].0
                <= wrap_lines(t, width)[k].1 <= t.len(),
{
    law_wrap_tiles(t, width);
    let ls = wrap_lines(t, width);
    if t.len() > 0 {
        lemma_chain_bounds(ls);
    }
}

/// Character ranges as plain integers.
pub open spec fn ranges_view(v: Seq<(usize, usize)>) -> Seq<(int, int)> {
    v.map_values(|r: (usize, usize)| (r.0 as int, r.1 as int))
}

/// An optional index as a plain integer.
pub open spec fn opt_view(o: Option<usize>) -> Option<int> {
    match o {
        Some(b) => Some(b as int),
        None => None,
    }
}

/// Wrap the characters `t` to `width` columns, as character ranges.
pub fn wrap_chars(t: &Vec<char>, width: usize) -> (r: Vec<(usize, usize)>)
    ensures
        ranges_view(r@) == wrap_lines(t@, width as int),
{
    let w: usize = if width < 1 {
        1
    } else {
        width
    };
    let ghost wi = w as int;
    let mut lines: Vec<(usize, usize)> = Vec::new();
    let mut start: usize = 0;
    let mut col: u128 = 0;
    let mut blank: Option<usize> = None;
    let mut i: usize = 0;
    proof {
        assert(ranges_view(lines@) =~= Seq::<(int, int)>::empty());
    }
    while i < t.len()
        invariant
            i <= t.len(),
            wi == w as int,
            (ranges_view(lines@), start as int, col as int, opt_view(blank)) == wrap_run(
                t@,
                wi,
                i as int,
            ),
            col <= usize::MAX + 3 * i,
            start <= i,
        decreases t.len() - i,
    {
        proof {
            lemma_wrap_run_tiles(t@, wi, i as int);
        }
        let c = t[i];
        let cw: usize = match char_width(c) {
            Some(x) => x,
            None => 0,
        };
        let ghost old_lines = ranges_view(lines@);
        if col + cw as u128 > w as u128 && i > start {
            let brk = match blank {
                Some(b) => if start < b && b < i {
                    b
                } else {
                    i
                },
                None => i,
            };
            proof {
                assert(ranges_view(lines@.push((start, brk))) =~= ranges_view(lines@).push(
                    (start as int, brk as int),
                ));
            }
            lines.push((start, brk));
            start = brk;
            blank = None;
            let carried: u128 = if start < i {
                let run = string_of_range(t, start, i);
                display_width(run.as_str()) as u128
            } else {
                0
            };
            if carried + cw as u128 > w as u128 && i > start {
                proof {
                    assert(ranges_view(lines@.push((start, i))) =~= ranges_view(lines@).push(
                        (start as int, i as int),
                    ));
                }
                lines.push((start, i));
                start = i;
                col = 0;
            } else {
                col = carried;
            }
        }
        col = col + cw as u128;
        if is_whitespace(c) {
            blank = Some(i + 1);
        }
        i += 1;
    }
    proof {
        assert(ranges_view(lines@.push((start, t.len()))) =~= ranges_view(lines@).push(
            (start as int, t@.len() as int),
        ));
    }
    lines.push((start, t.len()));
    lines
}

/// Wrap `text` to `width` columns, breaking after a blank when the line has one
/// (so words stay whole) and mid-run otherwise. The blank stays on the line it
/// ended, and no byte is ever dropped: the ranges tile the whole string, which
/// is what lets the caller map a cursor offset onto a line.
pub fn wrap(text: &str, width: usize) -> (r: Vec<Range<usize>>)
    ensures
        r@.len() == wrap_lines(text@, width as int).len(),
        forall|k: int|
            0 <= k < r@.len() ==> {
                &&& r@[k].start == byte_offset(text@, wrap_lines(text@, width as int)[k].0)
                &&& r@[k].end == byte_offset(text@, wrap_lines(text@, width as int)[k].1)
            },
{
    let t = chars_of(text);
    let _len = str_byte_len(text);
    let offs = byte_offsets(&t);
    let lines = wrap_chars(&t, width);
    proof {
        lemma_wrap_lines_inside(t@, width as int);
        assert forall|k: int| 0 <= k < lines@.len() implies lines@[k].0 <= t.len() && lines@[k].1
            <= t.len() by {
            assert(ranges_view(lines@)[k] == (lines@[k].0 as int, lines@[k].1 as int));
        }
    }
    byte_ranges(&lines, &offs, t.len())
}

/// Character ranges turned into byte ranges through the offsets table `offs`.
pub fn byte_ranges(lines: &Vec<(usize, usize)>, offs: &Vec<usize>, n: usize) -> (r: Vec<
    Range<usize>,
>)
    requires
        offs@.len() == n + 1,
        forall|k: int| 0 <= k < lines@.len() ==> lines@[k].0 <= n && lines@[k].1 <= n,
    ensures
        r@.len() == lines@.len(),
        forall|k: int|
            0 <= k < r@.len() ==> {
                &&& r@[k].start == offs@[lines@[k].0 as int]
                &&& r@[k].end == offs@[lines@[k].1 as int]
            },
{
    let mut r: Vec<Range<usize>> = Vec::new();
    let mut k: usize = 0;
    while k < lines.len()
        invariant
            k <= lines.len(),
            r@.len() == k,
            offs@.len() == n + 1,
            forall|j: int| 0 <= j < lines@.len() ==> lines@[j].0 <= n && lines@[j].1 <= n,
            forall|j: int|
                0 <= j < k ==> {
                    &&& r@[j].start == offs@[lines@[j].0 as int]
                    &&& r@[j].end == offs@[lines@[j].1 as int]
                },
        decreases lines.len() - k,
    {
        let (a, b) = lines[k];
        r.push(offs[a]..offs[b]);
        k += 1;
    }
    r
}

} // verus!

verus! {

/// The character for a decimal digit.
pub open spec fn digit(d: int) -> char {
    ((d + 48) as u32) as char
}

/// `n` written in decimal, no leading zeros.
pub open spec fn decimal(n: nat) -> Seq<char>
    decreases n,
{
    if n < 10 {
        seq![digit(n as int)]
    } else {
        decimal(n / 10) + seq![digit((n % 10) as int)]
    }
}

/// `n` in decimal, padded with leading zeros to at least `w` digits.
pub open spec fn padded(n: nat, w: nat) -> Seq<char>
    decreases w,
{
    if decimal(n).len() >= w {
        decimal(n)
    } else {
        seq!['0'] + padded(n, (w - 1) as nat)
    }
}

/// `n` takes one digit below ten and more from ten on.
pub proof fn lemma_decimal_len(n: nat)
    ensures
        n < 10 <==> decimal(n).len() < 2,
        decimal(n).len() >= 1,
    decreases n,
{
    lemma_decimal_nonempty(n);
    if n >= 10 {
        lemma_decimal_nonempty(n / 10);
    }
}

proof fn lemma_decimal_nonempty(n: nat)
    ensures
        decimal(n).len() >= 1,
        decimal(n).len() <= 20 || n >= 10,
    decreases n,
{
    if n >= 10 {
        lemma_decimal_nonempty(n / 10);
    }
}

pub(crate) fn digit_char(d: u64) -> (c: char)
    requires
        d < 10,
    ensures
        c == digit(d as int),
{
    let c: char = if d == 0 {
        '0'
    } else if d == 1 {
        '1'
    } else if d == 2 {
        '2'
    } else if d == 3 {
        '3'
    } else if d == 4 {
        '4'
    } else if d == 5 {
        '5'
    } else if d == 6 {
        '6'
    } else if d == 7 {
        '7'
    } else if d == 8 {
        '8'
    } else {
        '9'
    };
    c
}

/// Appends `n` in decimal, padded with zeros to at least `w` digits.
pub fn push_padded(out: &mut String, n: u64, w: usize)
    ensures
        final(out)@ == old(out)@ + padded(n as nat, w as nat),
{
    let mut digits: Vec<char> = Vec::new();
    let mut m = n;
    proof {
        assert(decimal(n as nat) =~= decimal(m as nat) + digits@.reverse());
    }
    // Peel digits off the low end; `digits` holds them lowest first.
    loop
        invariant_except_break
            decimal(n as nat) =~= decimal(m as nat) + digits@.reverse(),
        ensures
            decimal(n as nat) =~= digits@.reverse(),
        decreases m,
    {
        let d = m % 10;
        let ghost old_m = m;
        let ghost old_digits = digits@;
        digits.push(digit_char(d));
        if m < 10 {
            proof {
                assert(decimal(old_m as nat) =~= seq![digit(d as int)]);
                assert(digits@.reverse() =~= seq![digit(d as int)] + old_digits.reverse());
            }
            break;
        }
        m = m / 10;
        proof {
            assert(decimal(old_m as nat) =~= decimal(m as nat) + seq![digit(d as int)]);
            assert(digits@.reverse() =~= seq![digit(d as int)] + old_digits.reverse());
        }
    }
    proof {
        assert(decimal(n as nat) =~= digits@.reverse());
    }
    let ghost start = out@;
    let mut zeros: usize = 0;
    while zeros + digits.len() < w
        invariant
            out@ == start + Seq::new(zeros as nat, |_i: int| '0'),
            decimal(n as nat) =~= digits@.reverse(),
            zeros + digits@.len() <= w || zeros == 0,
        decreases w - zeros,
    {
        push_char(out, '0');
        zeros += 1;
        proof {
            assert(out@ =~= start + Seq::new(zeros as nat, |_i: int| '0'));
        }
    }
    let mut k = digits.len();
    while k > 0
        invariant
            k <= digits@.len(),
            out@ == start + Seq::new(zeros as nat, |_i: int| '0') + digits@.reverse().take(
                (digits@.len() - k) as int,
            ),
        decreases k,
    {
        k -= 1;
        push_char(out, digits[k]);
        proof {
            assert(digits@.reverse().take((digits@.len() - k) as int) =~= digits@.reverse().take(
                (digits@.len() - k - 1) as int,
            ).push(digits@[k as int]));
        }
    }
    proof {
        assert(digits@.reverse().take(digits@.len() as int) =~= digits@.reverse());
        lemma_padded(n as nat, w as nat, zeros as nat);
    }
}

proof fn lemma_padded(n: nat, w: nat, zeros: nat)
    requires
        zeros + decimal(n).len() >= w,
        zeros == 0 || zeros + decimal(n).len() == w,
    ensures
        padded(n, w) =~= Seq::new(zeros, |_i: int| '0') + decimal(n),
    decreases w,
{
    if decimal(n).len() >= w {
        if zeros > 0 {
            lemma_decimal_nonempty(n);
        }
        assert(zeros == 0);
        assert(Seq::new(0, |_i: int| '0') + decimal(n) =~= decimal(n));
    } else {
        assert(zeros > 0);
        lemma_padded(n, (w - 1) as nat, (zeros - 1) as nat);
        assert(Seq::new(zeros, |_i: int| '0') + decimal(n) =~= seq!['0'] + (Seq::new(
            (zeros - 1) as nat,
            |_i: int| '0',
        ) + decimal(n)));
    }
}


/// `M:SS`, or `H:MM:SS` from an hour on, of `ms` milliseconds rounded to the
/// nearest second (halves up).
pub open spec fn clock_text(ms: nat) -> Seq<char> {
    let total = ms / 1000 + if ms % 1000 >= 500 { 1nat } else { 0nat };
    let s = total % 60;
    let m = (total / 60) % 60;
    let h = total / 3600;
    if h > 0 {
        decimal(h) + seq![':'] + padded(m, 2) + seq![':'] + padded(s, 2)
    } else {
        decimal(m) + seq![':'] + padded(s, 2)
    }
}

/// `HH:MM:SS.mmm` of `ms` milliseconds (WebVTT-style, always with hours).
pub open spec fn timestamp_text(ms: nat) -> Seq<char> {
    let total_s = ms / 1000;
    padded(total_s / 3600, 2) + seq![':'] + padded((total_s / 60) % 60, 2) + seq![':'] + padded(
        total_s % 60,
        2,
    ) + seq!['.'] + padded(ms % 1000, 3)
}

/// Seconds with three decimals, the way ffmpeg's `-ss`/`-to` take them.
pub open spec fn seconds_text(ms: nat) -> Seq<char> {
    decimal(ms / 1000) + seq!['.'] + padded(ms % 1000, 3)
}

/// A speed given in hundredths, written compactly: `1x`, `0.5x`, `1.25x`.
pub open spec fn speed_text(hundredths: nat) -> Seq<char> {
    let whole = decimal(hundredths / 100);
    let frac = hundredths % 100;
    if frac == 0 {
        whole + seq!['x']
    } else if frac % 10 == 0 {
        whole + seq!['.', digit((frac / 10) as int), 'x']
    } else {
        whole + seq!['.'] + padded(frac, 2) + seq!['x']
    }
}

/// Format `ms` milliseconds as `HH:MM:SS.mmm` (WebVTT-style, always with hours).
pub fn fmt_timestamp(ms: u64) -> (r: String)
    ensures
        r@ == timestamp_text(ms as nat),
{
    let total_s = ms / 1000;
    let mut out = String::new();
    push_padded(&mut out, total_s / 3600, 2);
    push_char(&mut out, ':');
    push_padded(&mut out, (total_s / 60) % 60, 2);
    push_char(&mut out, ':');
    push_padded(&mut out, total_s % 60, 2);
    push_char(&mut out, '.');
    push_padded(&mut out, ms % 1000, 3);
    out
}

/// Compact `M:SS` / `H:MM:SS` for status bars and chapter files.
pub fn fmt_clock(ms: u64) -> (r: String)
    ensures
        r@ == clock_text(ms as nat),
{
    let total = ms / 1000 + if ms % 1000 >= 500 {
        1
    } else {
        0
    };
    let s = total % 60;
    let m = (total / 60) % 60;
    let h = total / 3600;
    let mut out = String::new();
    if h > 0 {
        push_padded(&mut out, h, 0);
        push_char(&mut out, ':');
        push_padded(&mut out, m, 2);
    } else {
        push_padded(&mut out, m, 0);
    }
    push_char(&mut out, ':');
    push_padded(&mut out, s, 2);
    proof {
        lemma_padded_zero(h as nat);
        lemma_padded_zero(m as nat);
    }
    out
}

pub proof fn lemma_padded_zero(n: nat)
    ensures
        padded(n, 0) == decimal(n),
{
}

/// Format `ms` milliseconds the way ffmpeg's `-ss`/`-to` accept (plain seconds
/// with milliseconds).
pub fn fmt_ffmpeg_time(ms: u64) -> (r: String)
    ensures
        r@ == seconds_text(ms as nat),
{
    let mut out = String::new();
    push_padded(&mut out, ms / 1000, 0);
    push_char(&mut out, '.');
    push_padded(&mut out, ms % 1000, 3);
    proof {
        lemma_padded_zero((ms / 1000) as nat);
    }
    out
}

/// Format a playback speed, given in hundredths, compactly: `1x`, `0.5x`, `1.5x`.
pub fn fmt_speed(hundredths: u64) -> (r: String)
    ensures
        r@ == speed_text(hundredths as nat),
{
    let mut out = String::new();
    push_padded(&mut out, hundredths / 100, 0);
    let frac = hundredths % 100;
    if frac != 0 {
        push_char(&mut out, '.');
        if frac % 10 == 0 {
            push_char(&mut out, digit_char(frac / 10));
        } else {
            push_padded(&mut out, frac, 2);
        }
    }
    push_char(&mut out, 'x');
    proof {
        lemma_padded_zero((hundredths / 100) as nat);
    }
    out
}

/// The `.orig` sidecar path for a file (e.g. `subs.vtt` -> `subs.vtt.orig`).
/// Appends rather than replacing the extension so the source extension stays
/// visible and two files with the same stem can't collide.
pub fn orig_path(path: &str) -> (r: String)
    ensures
        r@ == path@ + seq!['.', 'o', 'r', 'i', 'g'],
{
    let mut out = path.to_owned();
    push_char(&mut out, '.');
    push_char(&mut out, 'o');
    push_char(&mut out, 'r');
    push_char(&mut out, 'i');
    push_char(&mut out, 'g');
    proof {
        assert(out@ =~= path@ + seq!['.', 'o', 'r', 'i', 'g']);
    }
    out
}

} // verus!
