//! What a list pane shows: which of its rows are on screen, the row being
//! edited with its cursor cell, and the caption under the picture.

use std::ops::Range;
use vstd::prelude::*;
use crate::textinput::{input_lines, line_of, TextInput};
use crate::search::search_hits;
use crate::unicode::{
    byte_len, byte_offset, byte_offsets, chars_of, lemma_byte_offset_mono, str_byte_len, str_cells, string_of_range,
};
use crate::util::{display_width, lemma_wrap_lines_inside, ranges_view, wrap_chars, wrap_lines};
use crate::vtt::{lines_of, text_lines};

verus! {

/// A line of a list pane: list row `i`, or line `k` of the row being edited.
#[derive(Clone, Copy, Debug, PartialEq, Eq, Structural)]
pub enum RowLine {
    Row(usize),
    Edit(usize),
}

/// Every line of a list of `count` rows whose row `sel` is replaced, when an
/// edit is open, by the `b` lines of the editor.
pub open spec fn list_lines(count: int, sel: int, edit: Option<int>) -> Seq<RowLine> {
    let block = match edit {
        Some(b) => Seq::new(b as nat, |k: int| RowLine::Edit(k as usize)),
        None => seq![RowLine::Row(sel as usize)],
    };
    Seq::new(sel as nat, |i: int| RowLine::Row(i as usize)) + block + Seq::new(
        (count - sel - 1) as nat,
        |i: int| RowLine::Row((sel + 1 + i) as usize),
    )
}

/// The first line of the list on screen. Without an edit the selection sits in
/// the middle of the pane where it can; with one, the edited row's first line
/// is pinned to the top, and the window follows the cursor down past the
/// bottom of the pane.
pub open spec fn window_start(count: int, sel: int, edit: Option<(int, int)>, height: int) -> int {
    let bh = match edit {
        Some((b, _)) => if b < 1 {
            1
        } else {
            b
        },
        None => 1,
    };
    let total = count - 1 + bh;
    let max_start = if total > height {
        total - height
    } else {
        0
    };
    match edit {
        Some((_, c)) => {
            let pinned = if sel < max_start {
                sel
            } else {
                max_start
            };
            let scrolled = if sel + c + 1 > height {
                sel + c + 1 - height
            } else {
                0
            };
            if pinned < scrolled {
                scrolled
            } else {
                pinned
            }
        },
        None => {
            let back = if sel > (height - 1) / 2 {
                sel - (height - 1) / 2
            } else {
                0
            };
            if back < max_start {
                back
            } else {
                max_start
            }
        },
    }
}

/// The lines a pane `height` lines tall shows of a list of `count` rows with
/// row `selected` selected (clamped to the list), where `edit` is the length
/// of the open editor's block and the line its cursor is on.
pub open spec fn window(count: int, selected: int, edit: Option<(int, int)>, height: int) -> Seq<
    RowLine,
> {
    if count <= 0 || height <= 0 {
        Seq::empty()
    } else {
        let sel = if selected < count - 1 {
            selected
        } else {
            count - 1
        };
        let all = list_lines(
            count,
            sel,
            match edit {
                Some((b, _)) => Some(b),
                None => None,
            },
        );
        let s = window_start(count, sel, edit, height);
        if s >= all.len() {
            Seq::empty()
        } else if s + height < all.len() {
            all.subrange(s, s + height)
        } else {
            all.subrange(s, all.len() as int)
        }
    }
}

/// The first `n` lines of `all` seen through a window of `h` lines from `s`.
pub open spec fn seen(all: Seq<RowLine>, s: int, h: int, n: int) -> Seq<RowLine> {
    if s >= n {
        Seq::empty()
    } else if s + h < n {
        all.subrange(s, s + h)
    } else {
        all.subrange(s, n)
    }
}

proof fn lemma_seen_step(all: Seq<RowLine>, s: int, h: int, n: int)
    requires
        0 <= s,
        h > 0,
        0 <= n < all.len(),
    ensures
        seen(all, s, h, n).len() <= h,
        (n >= s && seen(all, s, h, n).len() < h) ==> seen(all, s, h, n + 1) == seen(all, s, h, n).push(all[n]),
        !(n >= s && seen(all, s, h, n).len() < h) ==> seen(all, s, h, n + 1) == seen(all, s, h, n),
{
    if n >= s && seen(all, s, h, n).len() < h {
        assert(seen(all, s, h, n + 1) =~= seen(all, s, h, n).push(all[n]));
    } else if n >= s {
        assert(seen(all, s, h, n + 1) =~= seen(all, s, h, n));
    }
}

/// Window a list of `count` rows into a pane `height` lines tall, keeping the
/// selection visible. Rows are one line each except the one being edited,
/// whose `edit = (lines, cursor line)` block takes its place — so the list
/// scrolls by *line*, and a long cue can be edited to its end.
pub fn windowed_rows(count: usize, selected: usize, edit: Option<(usize, usize)>, height: usize) -> (r:
    Vec<RowLine>)
    ensures
        r@ == window(
            count as int,
            selected as int,
            match edit {
                Some((b, c)) => Some((b as int, c as int)),
                None => None,
            },
            height as int,
        ),
{
    if count == 0 || height == 0 {
        return Vec::new();
    }
    let sel = if selected < count - 1 {
        selected
    } else {
        count - 1
    };
    let ghost eg = match edit {
        Some((b, c)) => Some((b as int, c as int)),
        None => None::<(int, int)>,
    };
    let ghost all = list_lines(
        count as int,
        sel as int,
        match edit {
            Some((b, _)) => Some(b as int),
            None => None,
        },
    );
    // Where the window starts, reckoned in u128 so nothing can overflow.
    let bh: u128 = match edit {
        Some((b, _)) => if b < 1 {
            1
        } else {
            b as u128
        },
        None => 1,
    };
    let total: u128 = count as u128 - 1 + bh;
    let h = height as u128;
    let max_start: u128 = if total > h {
        total - h
    } else {
        0
    };
    let s: u128 = match edit {
        Some((_, c)) => {
            let pinned = if (sel as u128) < max_start {
                sel as u128
            } else {
                max_start
            };
            let scrolled = if sel as u128 + c as u128 + 1 > h {
                sel as u128 + c as u128 + 1 - h
            } else {
                0
            };
            if pinned < scrolled {
                scrolled
            } else {
                pinned
            }
        },
        None => {
            let half = (h - 1) / 2;
            let back = if sel as u128 > half {
                sel as u128 - half
            } else {
                0
            };
            if back < max_start {
                back
            } else {
                max_start
            }
        },
    };
    proof {
        assert(s == window_start(count as int, sel as int, eg, height as int));
    }
    let mut out: Vec<RowLine> = Vec::new();
    let mut line: u128 = 0;
    let mut i: usize = 0;
    // Walk the list's lines in order, keeping those from `s` on, `height` at most.
    while i < count
        invariant
            i <= count,
            sel < count,
            count > 0,
            height > 0,
            h == height as u128,
            all == list_lines(
                count as int,
                sel as int,
                match edit {
                    Some((b, _)) => Some(b as int),
                    None => None,
                },
            ),
            line == (if i <= sel {
                i as int
            } else {
                sel + match edit {
                    Some((b, _)) => b as int,
                    None => 1,
                } + (i - sel - 1)
            }),
            line <= all.len(),
            out@ == seen(all, s as int, height as int, line as int),
        decreases count - i,
    {
        if i == sel && edit.is_some() {
            let b = match edit {
                Some((b, _)) => b,
                None => 0,
            };
            let mut k: usize = 0;
            while k < b
                invariant
                    k <= b,
                    i == sel,
                    sel < count,
                    height > 0,
                    h == height as u128,
                    edit == Some((b, edit.unwrap().1)),
                    all == list_lines(count as int, sel as int, Some(b as int)),
                    line == sel,
                    line + b <= all.len(),
                    out@ == seen(all, s as int, height as int, line + k),
                decreases b - k,
            {
                proof {
                    assert(all[sel + k] == RowLine::Edit(k));
                    lemma_seen_step(all, s as int, height as int, line + k);
                }
                if line + k as u128 >= s && (out.len() as u128) < h {
                    out.push(RowLine::Edit(k));
                }
                k += 1;
            }
            line = line + b as u128;
        } else {
            proof {
                assert(all[line as int] == RowLine::Row(i));
                lemma_seen_step(all, s as int, height as int, line as int);
            }
            if line >= s && (out.len() as u128) < h {
                out.push(RowLine::Row(i));
            }
            line = line + 1;
        }
        i += 1;
    }
    proof {
        assert(line == all.len());
        assert(out@ =~= window(count as int, selected as int, eg, height as int));
    }
    out
}

/// A run of text drawn the same way; `cursor` marks the inverted cell.
pub struct Span {
    pub text: String,
    pub cursor: bool,
}

/// A span as text and whether it is the cursor cell.
pub open spec fn span_view(s: Span) -> (Seq<char>, bool) {
    (s.text@, s.cursor)
}

/// Spans as text and cursor flags.
pub open spec fn spans_view(v: Seq<Span>) -> Seq<(Seq<char>, bool)> {
    v.map_values(|s: Span| span_view(s))
}

/// The spans for characters `i..j` of `t` with the cursor at character `k`
/// when there is one there: the cell it is on is drawn inverted, and a cursor
/// just past the last character gets a blank cell of its own.
pub open spec fn spans_of(t: Seq<char>, i: int, j: int, k: Option<int>) -> Seq<(Seq<char>, bool)> {
    match k {
        Some(k) => if k < j {
            seq![(t.subrange(i, k), false), (seq![t[k]], true), (t.subrange(k + 1, j), false)]
        } else {
            seq![(t.subrange(i, k), false), (seq![' '], true)]
        },
        None => seq![(t.subrange(i, j), false)],
    }
}

/// Byte `b` of `s` falls between two characters.
pub open spec fn is_boundary(s: Seq<char>, b: int) -> bool {
    exists|i: int| 0 <= i <= s.len() && byte_offset(s, i) == b
}

/// The character index at byte `b` of `s`.
pub open spec fn char_at_byte(s: Seq<char>, b: int) -> int {
    choose|i: int| 0 <= i <= s.len() && byte_offset(s, i) == b
}

proof fn lemma_char_at_byte(s: Seq<char>, i: int)
    requires
        0 <= i <= s.len(),
    ensures
        is_boundary(s, byte_offset(s, i) as int),
        char_at_byte(s, byte_offset(s, i) as int) == i,
{
    let b = byte_offset(s, i) as int;
    assert(0 <= i <= s.len() && byte_offset(s, i) == b);
    let j = char_at_byte(s, b);
    if j < i {
        lemma_byte_offset_mono(s, j, i);
    } else if j > i {
        lemma_byte_offset_mono(s, i, j);
    }
}

/// The character index of byte `b`, read off the offsets table `offs`.
fn index_of_byte(offs: &Vec<usize>, t: Ghost<Seq<char>>, b: usize) -> (r: usize)
    requires
        offs@.len() == t@.len() + 1,
        forall|i: int| 0 <= i <= t@.len() ==> offs@[i] == byte_offset(t@, i),
        is_boundary(t@, b as int),
    ensures
        r <= t@.len(),
        byte_offset(t@, r as int) == b,
        r == char_at_byte(t@, b as int),
{
    let ghost w = char_at_byte(t@, b as int);
    proof {
        lemma_char_at_byte(t@, w);
    }
    let mut i: usize = 0;
    while i < offs.len()
        invariant
            i <= offs@.len(),
            offs@.len() == t@.len() + 1,
            forall|j: int| 0 <= j <= t@.len() ==> offs@[j] == byte_offset(t@, j),
            0 <= w <= t@.len(),
            byte_offset(t@, w) == b,
            char_at_byte(t@, b as int) == w,
            i <= w,
        decreases offs@.len() - i,
    {
        if offs[i] == b {
            proof {
                lemma_char_at_byte(t@, i as int);
            }
            return i;
        }
        proof {
            if i == w {
                assert(false);
            }
        }
        i += 1;
    }
    proof {
        assert(false);
    }
    0
}

/// Spans for characters `i..j` of `t`, with the cursor at `k` when given.
fn spans_for(t: &Vec<char>, i: usize, j: usize, k: Option<usize>) -> (r: Vec<Span>)
    requires
        i <= j <= t.len(),
        k matches Some(k) ==> i <= k <= j,
    ensures
        spans_view(r@) == spans_of(
            t@,
            i as int,
            j as int,
            match k {
                Some(k) => Some(k as int),
                None => None,
            },
        ),
{
    let mut r: Vec<Span> = Vec::new();
    match k {
        Some(k) => {
            r.push(Span { text: string_of_range(t, i, k), cursor: false });
            if k < j {
                r.push(Span { text: string_of_range(t, k, k + 1), cursor: true });
                r.push(Span { text: string_of_range(t, k + 1, j), cursor: false });
                proof {
                    assert(t@.subrange(k as int, k + 1) =~= seq![t@[k as int]]);
                }
            } else {
                let mut blank = String::new();
                crate::unicode::push_char(&mut blank, ' ');
                proof {
                    assert(blank@ =~= seq![' ']);
                }
                r.push(Span { text: blank, cursor: true });
            }
        },
        None => {
            r.push(Span { text: string_of_range(t, i, j), cursor: false });
        },
    }
    proof {
        assert(spans_view(r@) =~= spans_of(
            t@,
            i as int,
            j as int,
            match k {
                Some(k) => Some(k as int),
                None => None,
            },
        ));
    }
    r
}

/// Spans for `text[range]`, with the cell at byte `cursor` drawn inverted when
/// the cursor falls in that slice. A cursor sitting just past the last
/// character gets a blank cell to live in, so it is visible at end of line.
pub fn cursor_spans(text: &str, range: Range<usize>, cursor: Option<usize>) -> (r: Vec<Span>)
    requires
        range.start <= range.end,
        is_boundary(text@, range.start as int),
        is_boundary(text@, range.end as int),
        cursor matches Some(c) ==> (range.start <= c <= range.end ==> is_boundary(text@, c as int)),
    ensures
        spans_view(r@) == spans_of(
            text@,
            char_at_byte(text@, range.start as int),
            char_at_byte(text@, range.end as int),
            match cursor {
                Some(c) => if range.start <= c <= range.end {
                    Some(char_at_byte(text@, c as int))
                } else {
                    None
                },
                None => None,
            },
        ),
{
    let _len = crate::unicode::str_byte_len(text);
    let t = chars_of(text);
    let offs = byte_offsets(&t);
    let i = index_of_byte(&offs, Ghost(t@), range.start);
    let j = index_of_byte(&offs, Ghost(t@), range.end);
    proof {
        if i > j {
            lemma_byte_offset_mono(t@, j as int, i as int);
        }
    }
    let k = match cursor {
        Some(c) => if range.start <= c && c <= range.end {
            let k = index_of_byte(&offs, Ghost(t@), c);
            proof {
                if k < i {
                    lemma_byte_offset_mono(t@, k as int, i as int);
                }
                if k > j {
                    lemma_byte_offset_mono(t@, j as int, k as int);
                }
            }
            Some(k)
        } else {
            None
        },
        None => None,
    };
    spans_for(&t, i, j, k)
}

/// `n` blanks.
pub open spec fn blanks(n: nat) -> Seq<char> {
    Seq::new(n, |_i: int| ' ')
}

/// The rows the editor of `t` (cursor at character `c`) takes in a list pane
/// `width` cells wide under the label `prefix`: the label heads the first row
/// and further rows are indented by its width.
pub open spec fn edit_rows_of(prefix: Seq<char>, t: Seq<char>, c: int, width: int) -> Seq<
    Seq<(Seq<char>, bool)>,
> {
    let indent = str_cells(prefix) as int;
    let w = if width > indent {
        width - indent
    } else {
        0
    };
    let ls = input_lines(t, c, w);
    Seq::new(ls.len(), |k: int| edit_row(prefix, t, c, ls, k))
}

/// Row `k` of the editor whose lines are `ls`: its head (the label, or blanks
/// as wide as it), then the spans of its characters.
pub open spec fn edit_row(prefix: Seq<char>, t: Seq<char>, c: int, ls: Seq<(int, int)>, k: int) -> Seq<
    (Seq<char>, bool),
> {
    let head = if k == 0 {
        prefix
    } else {
        blanks(str_cells(prefix) as nat)
    };
    seq![(head, false)] + spans_of(
        t,
        ls[k].0,
        ls[k].1,
        if k == line_of(ls, c, 0) {
            Some(c)
        } else {
            None
        },
    )
}

/// Render `input` as the rows of a list: `prefix` labels the first row, and the
/// text wraps onto as many further rows as it needs, indented to line up under
/// itself. Returns the rows and which one holds the cursor.
pub fn edit_rows(prefix: &str, input: &TextInput, width: usize) -> (r: (Vec<Vec<Span>>, usize))
    ensures
        r.0@.len() == edit_rows_of(prefix@, input@.0, input@.1, width as int).len(),
        forall|k: int|
            0 <= k < r.0@.len() ==> spans_view(#[trigger] r.0@[k]@) == edit_rows_of(
                prefix@,
                input@.0,
                input@.1,
                width as int,
            )[k],
        r.1 == line_of(
            input_lines(
                input@.0,
                input@.1,
                if width > str_cells(prefix@) {
                    width - str_cells(prefix@)
                } else {
                    0
                },
            ),
            input@.1,
            0,
        ),
{
    let indent = display_width(prefix);
    let w = width.saturating_sub(indent);
    let wrapped = input.wrap(w);
    let text = input.text();
    let _len = crate::unicode::str_byte_len(text.as_str());
    let t = chars_of(text.as_str());
    let offs = byte_offsets(&t);
    let cur = input.cursor();
    let ghost ls = input_lines(input@.0, input@.1, w as int);
    let ghost c = input@.1;
    let ghost want = edit_rows_of(prefix@, input@.0, input@.1, width as int);
    proof {
        crate::textinput::lemma_input_lines_inside(input@.0, input@.1, w as int);
        crate::textinput::law_cursor_on_its_line(input@.0, input@.1, w as int);
        lemma_char_at_byte(t@, c);
    }
    let mut rows: Vec<Vec<Span>> = Vec::new();
    let mut k: usize = 0;
    while k < wrapped.lines.len()
        invariant
            k <= wrapped.lines@.len(),
            wrapped.lines@.len() == ls.len(),
            t@ == input@.0,
            ls == input_lines(input@.0, input@.1, w as int),
            w == (if width > str_cells(prefix@) { width - str_cells(prefix@) } else { 0 }),
            indent == str_cells(prefix@),
            forall|m: int|
                0 <= m < ls.len() ==> 0 <= #[trigger] ls[m].0 <= ls[m].1 <= t@.len(),
            forall|m: int|
                0 <= m < ls.len() ==> {
                    &&& wrapped.lines@[m].start == byte_offset(t@, ls[m].0)
                    &&& wrapped.lines@[m].end == byte_offset(t@, ls[m].1)
                },
            c == input@.1,
            wrapped.cursor_line == line_of(ls, c, 0),
            0 <= line_of(ls, c, 0) < ls.len(),
            ls[line_of(ls, c, 0)].0 <= c <= ls[line_of(ls, c, 0)].1,
            cur == byte_offset(t@, c),
            is_boundary(t@, cur as int),
            char_at_byte(t@, cur as int) == c,
            0 <= c <= t@.len(),
            offs@.len() == t@.len() + 1,
            forall|i: int| 0 <= i <= t@.len() ==> offs@[i] == byte_offset(t@, i),
            want == edit_rows_of(prefix@, input@.0, input@.1, width as int),
            rows@.len() == k,
            forall|m: int| 0 <= m < k ==> spans_view(#[trigger] rows@[m]@) == want[m],
        decreases wrapped.lines@.len() - k,
    {
        let rs = wrapped.lines[k].start;
        let re = wrapped.lines[k].end;
        proof {
            lemma_char_at_byte(t@, ls[k as int].0);
            lemma_char_at_byte(t@, ls[k as int].1);
        }
        let a = index_of_byte(&offs, Ghost(t@), rs);
        let b = index_of_byte(&offs, Ghost(t@), re);
        let head = if k == 0 {
            let mut s = String::new();
            crate::unicode::push_str(&mut s, prefix);
            s
        } else {
            let mut s = String::new();
            let mut n: usize = 0;
            while n < indent
                invariant
                    n <= indent,
                    s@ == blanks(n as nat),
                decreases indent - n,
            {
                crate::unicode::push_char(&mut s, ' ');
                n += 1;
                proof {
                    assert(s@ =~= blanks(n as nat));
                }
            }
            s
        };
        let ghost hv: Seq<char> = if k == 0 { prefix@ } else { blanks(indent as nat) };
        proof {
            assert(head@ =~= hv);
        }
        let kc = if k == wrapped.cursor_line {
            Some(index_of_byte(&offs, Ghost(t@), cur))
        } else {
            None
        };
        let spans = spans_for(&t, a, b, kc);
        let mut row: Vec<Span> = Vec::new();
        row.push(Span { text: head, cursor: false });
        let ghost before = row@;
        let ghost sv = spans@;
        let mut spans = spans;
        row.append(&mut spans);
        proof {
            assert(row@ =~= before + sv);
            assert(spans_view(row@) =~= seq![span_view(before[0])] + spans_view(sv));
            assert(spans_view(row@) =~= seq![(hv, false)] + spans_of(
                t@,
                ls[k as int].0,
                ls[k as int].1,
                if k == line_of(ls, c, 0) { Some(c) } else { None },
            ));
            assert(want.len() == ls.len());
            assert(want[k as int] == edit_row(prefix@, t@, c, ls, k as int));
            assert(want[k as int] =~= seq![(hv, false)] + spans_of(
                t@,
                ls[k as int].0,
                ls[k as int].1,
                if k == line_of(ls, c, 0) { Some(c) } else { None },
            ));
            assert(spans_view(row@) == want[k as int]);
        }
        rows.push(row);
        k += 1;
    }
    (rows, wrapped.cursor_line)
}

/// The lines the `parts` wrap into at `width` columns, one after another.
pub open spec fn wrapped_parts(parts: Seq<Seq<char>>, width: int) -> Seq<Seq<char>>
    decreases parts.len(),
{
    if parts.len() == 0 {
        Seq::empty()
    } else {
        let p = parts.last();
        wrapped_parts(parts.drop_last(), width) + wrap_lines(p, width).map_values(
            |r: (int, int)| p.subrange(r.0, r.1),
        )
    }
}

/// `s` trimmed from the end until two more cells fit in `width`.
pub open spec fn fit_for_ellipsis(s: Seq<char>, width: int) -> Seq<char>
    decreases s.len(),
{
    if s.len() > 0 && str_cells(s) + 2 > width {
        fit_for_ellipsis(s.drop_last(), width)
    } else {
        s
    }
}

/// The caption of a cue with text `text` in a strip `width` cells wide and
/// `height` rows tall: its own lines, each wrapped; when that is more than the
/// strip holds, the rows that fit, the last one ending in an ellipsis.
pub open spec fn caption_of(text: Seq<char>, width: int, height: int) -> Seq<Seq<char>> {
    let lines = wrapped_parts(text_lines(text), width);
    if lines.len() > height && height > 0 {
        let kept = lines.take(height);
        kept.update(height - 1, fit_for_ellipsis(kept[height - 1], width) + seq!['…'])
    } else if lines.len() > height {
        Seq::empty()
    } else {
        lines
    }
}

/// The caption rows for a cue's text: its own line breaks are kept, what is
/// still too wide is wrapped, and a cue too long even for the strip ends in an
/// ellipsis, so a clipped caption never passes for a whole one.
pub fn caption(text: &str, width: usize, height: usize) -> (r: Vec<String>)
    ensures
        r@.map_values(|s: String| s@) == caption_of(text@, width as int, height as int),
{
    let parts = lines_of(text);
    let ghost pv = parts@.map_values(|s: String| s@);
    let mut lines: Vec<String> = Vec::new();
    let mut i: usize = 0;
    proof {
        assert(pv.take(0) =~= Seq::<Seq<char>>::empty());
    }
    while i < parts.len()
        invariant
            i <= parts@.len(),
            pv == parts@.map_values(|s: String| s@),
            lines@.map_values(|s: String| s@) == wrapped_parts(pv.take(i as int), width as int),
        decreases parts@.len() - i,
    {
        let p = chars_of(parts[i].as_str());
        let ranges = wrap_chars(&p, width);
        let ghost before = lines@.map_values(|s: String| s@);
        let ghost wl = wrap_lines(p@, width as int);
        proof {
            lemma_wrap_lines_inside(p@, width as int);
        }
        let mut k: usize = 0;
        while k < ranges.len()
            invariant
                k <= ranges@.len(),
                ranges_view(ranges@) == wl,
                wl == wrap_lines(p@, width as int),
                forall|m: int| 0 <= m < wl.len() ==> 0 <= #[trigger] wl[m].0 <= wl[m].1 <= p@.len(),
                lines@.map_values(|s: String| s@) == before + wl.take(k as int).map_values(
                    |r: (int, int)| p@.subrange(r.0, r.1),
                ),
            decreases ranges@.len() - k,
        {
            let (a, b) = ranges[k];
            proof {
                assert(wl[k as int] == (a as int, b as int));
            }
            let piece = string_of_range(&p, a, b);
            let ghost old_lines = lines@;
            let ghost done = wl.take(k as int).map_values(|r: (int, int)| p@.subrange(r.0, r.1));
            lines.push(piece);
            proof {
                assert(lines@.map_values(|s: String| s@) =~= old_lines.map_values(|s: String| s@).push(
                    piece@,
                ));
                assert(wl.take(k + 1).map_values(|r: (int, int)| p@.subrange(r.0, r.1)) =~= done.push(
                    piece@,
                ));
                assert(lines@.map_values(|s: String| s@) =~= before + wl.take(k + 1).map_values(
                    |r: (int, int)| p@.subrange(r.0, r.1),
                ));
            }
            k += 1;
        }
        proof {
            assert(wl.take(k as int) =~= wl);
            assert(pv.take(i + 1).drop_last() =~= pv.take(i as int));
            assert(pv.take(i + 1).last() == p@);
        }
        i += 1;
    }
    proof {
        assert(pv.take(i as int) =~= pv);
    }
    let n = lines.len();
    if n > height {
        let ghost all = lines@.map_values(|s: String| s@);
        lines.truncate(height);
        proof {
            assert(lines@.map_values(|s: String| s@) =~= all.take(height as int));
        }
        if height > 0 {
            let ghost kept = all.take(height as int);
            let ghost lastv = kept[height - 1];
            let last = lines.pop().unwrap();
            proof {
                assert(lines@.map_values(|s: String| s@) =~= kept.drop_last());
            }
            let mut cs = chars_of(last.as_str());
            loop
                invariant
                    fit_for_ellipsis(cs@, width as int) == fit_for_ellipsis(lastv, width as int),
                ensures
                    cs@ == fit_for_ellipsis(lastv, width as int),
                decreases cs@.len(),
            {
                if cs.len() == 0 {
                    break;
                }
                let shown = string_of_range(&cs, 0, cs.len());
                proof {
                    assert(cs@.subrange(0, cs@.len() as int) =~= cs@);
                }
                if (display_width(shown.as_str()) as u128) + 2 <= width as u128 {
                    break;
                }
                cs.pop();
            }
            cs.push('…');
            let clipped = string_of_range(&cs, 0, cs.len());
            proof {
                assert(cs@.subrange(0, cs@.len() as int) =~= cs@);
            }
            let ghost rest = lines@.map_values(|s: String| s@);
            proof {
                assert(rest =~= kept.drop_last());
                assert(clipped@ == fit_for_ellipsis(kept[height - 1], width as int) + seq!['…']);
            }
            lines.push(clipped);
            proof {
                assert(lines@.map_values(|s: String| s@) =~= rest.push(clipped@));
                assert(lines@.map_values(|s: String| s@) =~= kept.update(
                    height - 1,
                    fit_for_ellipsis(kept[height - 1], width as int) + seq!['…'],
                ));
            }
        }
    }
    lines
}

/// `s` right-aligned in two cells (it is never empty).
pub open spec fn right2(s: Seq<char>) -> Seq<char> {
    if s.len() < 2 {
        seq![' '] + s
    } else {
        s
    }
}

/// The selection marker a list row starts with.
pub open spec fn marker(selected: bool) -> Seq<char> {
    if selected {
        "▶"@
    } else {
        " "@
    }
}

/// Appends the marker and the ordinal of row `i`, right-aligned in two cells.
fn push_head(s: &mut String, i: usize, selected: bool)
    ensures
        final(s)@ == old(s)@ + marker(selected) + right2(crate::util::decimal((i + 1) as nat)),
{
    if selected {
        crate::unicode::push_str(s, "▶");
    } else {
        crate::unicode::push_str(s, " ");
    }
    let ghost before = s@;
    if i < 9 {
        crate::unicode::push_char(s, ' ');
    }
    crate::app::push_ordinal(s, i);
    proof {
        crate::util::lemma_decimal_len((i + 1) as nat);
    }
}

/// The fixed part of a cue row: marker, ordinal and the cue's timings.
pub fn cue_prefix(i: usize, start: u64, end: u64, selected: bool) -> (r: String)
    ensures
        r@ == marker(selected) + right2(crate::util::decimal((i + 1) as nat)) + " "@
            + crate::util::timestamp_text(start as nat) + "→"@ + crate::util::timestamp_text(end as nat)
            + "  "@,
{
    let mut s = String::new();
    push_head(&mut s, i, selected);
    crate::unicode::push_str(&mut s, " ");
    let a = crate::util::fmt_timestamp(start);
    crate::unicode::push_str(&mut s, a.as_str());
    crate::unicode::push_str(&mut s, "→");
    let b = crate::util::fmt_timestamp(end);
    crate::unicode::push_str(&mut s, b.as_str());
    crate::unicode::push_str(&mut s, "  ");
    s
}

/// The fixed part of a chapter row: marker, ordinal and the chapter's time.
pub fn chapter_prefix(i: usize, time: u64, selected: bool) -> (r: String)
    ensures
        r@ == marker(selected) + right2(crate::util::decimal((i + 1) as nat)) + " "@
            + crate::util::clock_text(time as nat) + "  "@,
{
    let mut s = String::new();
    push_head(&mut s, i, selected);
    crate::unicode::push_str(&mut s, " ");
    let a = crate::util::fmt_clock(time);
    crate::unicode::push_str(&mut s, a.as_str());
    crate::unicode::push_str(&mut s, "  ");
    s
}

/// The selected row is always on screen: however long the list and however
/// short the pane, with no editor open the window shows the selected row
/// (clamped to the list).
pub proof fn law_selection_visible(count: int, selected: int, height: int)
    requires
        0 < count <= usize::MAX,
        0 <= selected,
        height > 0,
    ensures
        ({
            let sel = if selected < count - 1 {
                selected
            } else {
                count - 1
            };
            window(count, selected, None, height).contains(RowLine::Row(sel as usize))
        }),
{
    let sel = if selected < count - 1 {
        selected
    } else {
        count - 1
    };
    let all = list_lines(count, sel, None);
    let s = window_start(count, sel, None, height);
    assert(all.len() == count);
    assert(all[sel] == RowLine::Row(sel as usize));
    assert(0 <= s <= sel < s + height);
    let w = window(count, selected, None, height);
    assert(w[sel - s] == all[sel]);
}

/// The editor's cursor line is always on screen: with an editor of `b` lines
/// open on the selected row and its cursor on line `c`, the window shows that
/// line, however long the text and however short the pane.
pub proof fn law_edit_cursor_visible(count: int, selected: int, b: int, c: int, height: int)
    requires
        0 < count <= usize::MAX,
        0 <= selected,
        0 <= c < b <= usize::MAX,
        height > 0,
    ensures
        window(count, selected, Some((b, c)), height).contains(RowLine::Edit(c as usize)),
{
    let sel = if selected < count - 1 {
        selected
    } else {
        count - 1
    };
    let all = list_lines(count, sel, Some(b));
    let s = window_start(count, sel, Some((b, c)), height);
    assert(all.len() == count - 1 + b);
    assert(all[sel + c] == RowLine::Edit(c as usize));
    assert(0 <= s <= sel + c < s + height);
    let w = window(count, selected, Some((b, c)), height);
    assert(w[sel + c - s] == all[sel + c]);
}

/// The byte ranges of the search hits of `needle` in `text`.
pub open spec fn hit_bytes(text: Seq<char>, needle: Seq<char>) -> Seq<(int, int)> {
    search_hits(text, needle).map_values(
        |h: (int, int)| (byte_offset(text, h.0) as int, byte_offset(text, h.1) as int),
    )
}

/// A text of `len` bytes from byte `at` on, cut around the hits `hits` (byte
/// ranges, in order): before each hit the plain stretch up to it, when there
/// is one, then the hit itself, highlighted; after the last hit the plain
/// rest, when there is any.
pub open spec fn pieces_from(hits: Seq<(int, int)>, at: int, len: int) -> Seq<(int, int, bool)>
    decreases hits.len(),
{
    if hits.len() == 0 {
        if at < len {
            seq![(at, len, false)]
        } else {
            seq![]
        }
    } else {
        let h = hits[0];
        let before = if h.0 > at {
            seq![(at, h.0, false)]
        } else {
            seq![]
        };
        before + seq![(h.0, h.1, true)] + pieces_from(hits.drop_first(), h.1, len)
    }
}

/// Pieces as plain integers.
pub open spec fn pieces_view(v: Seq<(usize, usize, bool)>) -> Seq<(int, int, bool)> {
    v.map_values(|p: (usize, usize, bool)| (p.0 as int, p.1 as int, p.2))
}

/// `text` cut into the pieces a cue row draws, as byte ranges: every match of
/// the search `needle` highlighted (`true`), the stretches between them
/// plain. With no search, the whole text is one plain piece.
pub fn highlight_pieces(text: &str, needle: &str) -> (r: Vec<(usize, usize, bool)>)
    ensures
        pieces_view(r@) == pieces_from(hit_bytes(text@, needle@), 0, byte_len(text@) as int),
{
    let hits = crate::search::matches(text, needle);
    let len = str_byte_len(text);
    let ghost hv = hit_bytes(text@, needle@);
    proof {
        assert(hv.len() == hits@.len());
        assert forall|j: int| 0 <= j < hits@.len() implies hv[j] == (
            #[trigger] hits@[j].start as int,
            hits@[j].end as int,
        ) by {}
    }
    let mut out: Vec<(usize, usize, bool)> = Vec::new();
    let mut at: usize = 0;
    let mut i: usize = 0;
    proof {
        assert(hv.skip(0) =~= hv);
        assert(pieces_view(out@) =~= Seq::<(int, int, bool)>::empty());
    }
    while i < hits.len()
        invariant
            i <= hits@.len(),
            hv.len() == hits@.len(),
            len == byte_len(text@),
            hv == hit_bytes(text@, needle@),
            forall|j: int| 0 <= j < hits@.len() ==> hv[j] == (#[trigger] hits@[j].start as int, hits@[j].end as int),
            pieces_view(out@) + pieces_from(hv.skip(i as int), at as int, len as int) == pieces_from(
                hv,
                0,
                len as int,
            ),
        decreases hits@.len() - i,
    {
        let s = hits[i].start;
        let e = hits[i].end;
        let ghost rest = hv.skip(i as int);
        let ghost prev = pieces_view(out@);
        proof {
            assert(rest[0] == hv[i as int]);
            assert(rest.drop_first() =~= hv.skip(i + 1));
        }
        if s > at {
            out.push((at, s, false));
        }
        out.push((s, e, true));
        proof {
            let before = if s > at {
                seq![(at as int, s as int, false)]
            } else {
                Seq::<(int, int, bool)>::empty()
            };
            assert(pieces_view(out@) =~= prev + before + seq![(s as int, e as int, true)]);
            assert(pieces_from(rest, at as int, len as int) == before + seq![(s as int, e as int, true)]
                + pieces_from(hv.skip(i + 1), e as int, len as int));
            assert(pieces_view(out@) + pieces_from(hv.skip(i + 1), e as int, len as int) =~= prev
                + pieces_from(rest, at as int, len as int));
        }
        at = e;
        i += 1;
    }
    let ghost prev = pieces_view(out@);
    proof {
        assert(hv.skip(i as int) =~= Seq::<(int, int)>::empty());
    }
    if at < len {
        out.push((at, len, false));
    }
    proof {
        assert(pieces_view(out@) =~= prev + pieces_from(hv.skip(i as int), at as int, len as int));
    }
    out
}

} // verus!
