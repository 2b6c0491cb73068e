//! Named chapter markers, stored alongside the video as `<stem>.chapter.txt`.
//!
//! Chapters are *points*: each has a start time and a title and runs until the
//! next chapter. The on-disk format is the YouTube-style one line per chapter,
//! `M:SS Title` (or `H:MM:SS Title` past an hour) — human-editable and widely
//! understood. Chapters are kept sorted by time. Times are whole milliseconds.

use vstd::prelude::*;
use crate::text::{
    all_digits, digits_only, digits_value, find_blank, find_char, index_of, is_digit,
    lemma_index_of_bounds, read_digits, split, trim, trim_end, trim_range, trim_start,
};
use crate::unicode::{chars_of, is_blank, push_char, push_str, string_of_range};
use crate::util::{clock_text, decimal, digit, fmt_clock, padded};

verus! {

/// One chapter: where it starts (milliseconds) and its title.
pub struct Chapter {
    pub time: u64,
    pub title: String,
}

impl View for Chapter {
    type V = (int, Seq<char>);

    open spec fn view(&self) -> (int, Seq<char>) {
        (self.time as int, self.title@)
    }
}

/// The chapters of a video, in time order.
pub struct Chapters {
    chapters: Vec<Chapter>,
}

/// Entries in time order (ties in any order).
pub open spec fn sorted(s: Seq<(int, Seq<char>)>) -> bool {
    forall|i: int, j: int| 0 <= i < j < s.len() ==> s[i].0 <= s[j].0
}

/// The first index from `i` on whose time is after `t`: where a chapter at `t`
/// goes, after every chapter at or before it.
pub open spec fn insert_index(s: Seq<(int, Seq<char>)>, t: int, i: int) -> int
    decreases s.len() - i,
{
    if i < 0 || i >= s.len() {
        s.len() as int
    } else if s[i].0 > t {
        i
    } else {
        insert_index(s, t, i + 1)
    }
}

/// The last chapter among the first `n` that starts at or before `t`.
pub open spec fn last_at_or_before(s: Seq<(int, Seq<char>)>, t: int, n: int) -> Option<int>
    decreases n,
{
    if n <= 0 || n > s.len() {
        None
    } else if s[n - 1].0 <= t {
        Some(n - 1)
    } else {
        last_at_or_before(s, t, n - 1)
    }
}

/// The chapter running at `t`: the last one that starts at or before it.
pub open spec fn active_at(s: Seq<(int, Seq<char>)>, t: int) -> Option<int> {
    last_at_or_before(s, t, s.len() as int)
}

/// The chapters starting strictly inside `(start, end)`, from index `i` on,
/// rebased so that `start` becomes 0.
pub open spec fn inside(s: Seq<(int, Seq<char>)>, start: int, end: int, i: int) -> Seq<
    (int, Seq<char>),
>
    decreases s.len() - i,
{
    if i < 0 || i >= s.len() {
        Seq::empty()
    } else if start < s[i].0 < end {
        seq![(s[i].0 - start, s[i].1)] + inside(s, start, end, i + 1)
    } else {
        inside(s, start, end, i + 1)
    }
}

/// The chapters of a clip spanning `[start, end)`: the chapter running at
/// `start` carried over as the clip's `0:00` chapter, then every chapter
/// inside the span at its rebased time.
pub open spec fn clip_of(s: Seq<(int, Seq<char>)>, start: int, end: int) -> Seq<(int, Seq<char>)> {
    clip_head(s, start) + inside(s, start, end, 0)
}

/// The chapter running at `start`, moved to 0:00, if there is one.
pub open spec fn clip_head(s: Seq<(int, Seq<char>)>, start: int) -> Seq<(int, Seq<char>)> {
    match active_at(s, start) {
        Some(i) => seq![(0int, s[i].1)],
        None => Seq::empty(),
    }
}

impl View for Chapters {
    type V = Seq<(int, Seq<char>)>;

    closed spec fn view(&self) -> Seq<(int, Seq<char>)> {
        self.chapters@.map_values(|c: Chapter| c@)
    }
}

impl Chapters {
    /// A chapter list holds no more chapters than a `usize` counts.
    pub proof fn lemma_len_fits(&self)
        ensures
            self@.len() <= usize::MAX,
    {
        assert(self@.len() == self.chapters@.len());
        assert(self.chapters@.len() == self.chapters.len());
    }

    #[verifier::type_invariant]
    spec fn in_order(self) -> bool {
        sorted(self@)
    }

    /// No chapters.
    pub fn empty() -> (r: Self)
        ensures
            r@ == Seq::<(int, Seq<char>)>::empty(),
    {
        let r = Chapters { chapters: Vec::new() };
        proof {
            assert(r@ =~= Seq::<(int, Seq<char>)>::empty());
        }
        r
    }

    /// How many chapters there are.
    pub fn len(&self) -> (n: usize)
        ensures
            n == self@.len(),
    {
        self.chapters.len()
    }

    /// Whether there are no chapters.
    pub fn is_empty(&self) -> (b: bool)
        ensures
            b == (self@.len() == 0),
    {
        self.chapters.len() == 0
    }

    /// The chapters in order — for rendering.
    pub fn rows(&self) -> (r: &[Chapter])
        ensures
            r@.map_values(|c: Chapter| c@) == self@,
    {
        self.chapters.as_slice()
    }

    /// When chapter `n` starts, if there is one.
    pub fn time(&self, n: usize) -> (r: Option<u64>)
        ensures
            r == (if n < self@.len() {
                Some(self@[n as int].0 as u64)
            } else {
                None::<u64>
            }),
    {
        if n < self.chapters.len() {
            Some(self.chapters[n].time)
        } else {
            None
        }
    }

    /// The chapter active at `playhead` (the last one whose time <= playhead).
    pub fn active(&self, playhead: u64) -> (r: Option<usize>)
        ensures
            r == (match active_at(self@, playhead as int) {
                Some(i) => Some(i as usize),
                None => None::<usize>,
            }),
    {
        let mut n = self.chapters.len();
        while n > 0
            invariant
                n <= self@.len(),
                self@.len() == self.chapters@.len(),
                last_at_or_before(self@, playhead as int, n as int) == active_at(self@, playhead as int),
            decreases n,
        {
            if self.chapters[n - 1].time <= playhead {
                return Some(n - 1);
            }
            n -= 1;
        }
        None
    }

    /// Rename chapter `n`; nothing happens when there is no such chapter.
    pub fn set_title(&mut self, n: usize, title: &str)
        ensures
            final(self)@ == (if n < old(self)@.len() {
                old(self)@.update(n as int, (old(self)@[n as int].0, title@))
            } else {
                old(self)@
            }),
    {
        proof {
            use_type_invariant(&*self);
        }
        if n < self.chapters.len() {
            let time = self.chapters[n].time;
            let ghost before = self@;
            let mut v: Vec<Chapter> = Vec::new();
            std::mem::swap(&mut v, &mut self.chapters);
            v.set(n, Chapter { time, title: title.to_owned() });
            proof {
                assert(v@.map_values(|c: Chapter| c@) =~= before.update(n as int, (before[n as int].0, title@)));
            }
            self.chapters = v;
            proof {
                assert(self@ =~= before.update(n as int, (before[n as int].0, title@)));
            }
        }
    }

    /// Insert a chapter, keeping the list sorted by time; returns its index,
    /// which is after every chapter at or before `time`.
    pub fn add(&mut self, time: u64, title: &str) -> (idx: usize)
        ensures
            idx == insert_index(old(self)@, time as int, 0),
            final(self)@ == old(self)@.insert(idx as int, (time as int, title@)),
    {
        proof {
            use_type_invariant(&*self);
        }
        let ghost before = self@;
        let mut idx: usize = 0;
        while idx < self.chapters.len() && self.chapters[idx].time <= time
            invariant
                idx <= self@.len(),
                self@ == before,
                self@.len() == self.chapters@.len(),
                insert_index(before, time as int, idx as int) == insert_index(before, time as int, 0),
                forall|j: int| 0 <= j < idx ==> before[j].0 <= time,
            decreases self@.len() - idx,
        {
            idx += 1;
        }
        proof {
            assert(idx < before.len() ==> before[idx as int].0 > time);
            let after = before.insert(idx as int, (time as int, title@));
            assert forall|i: int, j: int| 0 <= i < j < after.len() implies after[i].0 <= after[j].0 by {
                if j < idx {
                } else if j == idx {
                } else if i == idx {
                    assert(after[j] == before[j - 1]);
                    assert(before[idx as int].0 <= before[j - 1].0);
                } else if i < idx {
                    assert(after[j] == before[j - 1]);
                } else {
                    assert(after[j] == before[j - 1] && after[i] == before[i - 1]);
                }
            }
        }
        let mut v: Vec<Chapter> = Vec::new();
        std::mem::swap(&mut v, &mut self.chapters);
        v.insert(idx, Chapter { time, title: title.to_owned() });
        proof {
            assert(v@.map_values(|c: Chapter| c@) =~= before.insert(idx as int, (time as int, title@)));
        }
        self.chapters = v;
        proof {
            assert(self@ =~= before.insert(idx as int, (time as int, title@)));
        }
        idx
    }

    /// Remove chapter `n`; nothing happens when there is no such chapter.
    pub fn delete(&mut self, n: usize)
        ensures
            final(self)@ == (if n < old(self)@.len() {
                old(self)@.remove(n as int)
            } else {
                old(self)@
            }),
    {
        proof {
            use_type_invariant(&*self);
        }
        if n < self.chapters.len() {
            let ghost before = self@;
            proof {
                let after = before.remove(n as int);
                assert forall|i: int, j: int| 0 <= i < j < after.len() implies after[i].0 <= after[j].0 by {
                    if i < n && j >= n {
                        assert(after[j] == before[j + 1]);
                    } else if i >= n {
                        assert(after[j] == before[j + 1] && after[i] == before[i + 1]);
                    }
                }
            }
            let mut v: Vec<Chapter> = Vec::new();
            std::mem::swap(&mut v, &mut self.chapters);
            v.remove(n);
            proof {
                assert(v@.map_values(|c: Chapter| c@) =~= before.remove(n as int));
            }
            self.chapters = v;
            proof {
                assert(self@ =~= before.remove(n as int));
            }
        }
    }

    /// Produce the chapters for a clip spanning `[start, end)` (milliseconds),
    /// rebased so the clip begins at 0. The chapter active at `start` is carried
    /// over as the clip's `0:00` chapter; later chapters inside the range keep
    /// their (rebased) times.
    pub fn cut(&self, start: u64, end: u64) -> (r: Chapters)
        ensures
            r@ == clip_of(self@, start as int, end as int),
    {
        proof {
            use_type_invariant(self);
        }
        let ghost s = self@;
        let mut out: Vec<Chapter> = Vec::new();
        let ghost mut head: Seq<(int, Seq<char>)> = Seq::empty();
        proof {
            lemma_last_at_or_before(s, start as int, s.len() as int);
        }
        let _count = self.chapters.len();
        let act = self.active(start);
        match act {
            Some(i) => {
                out.push(Chapter { time: 0, title: self.chapters[i].title.clone() });
                proof {
                    head = seq![(0int, s[i as int].1)];
                }
            },
            None => {},
        }
        proof {
            match active_at(s, start as int) {
                Some(k) => {
                    assert(0 <= k < s.len());
                    assert(act == Some(k as usize));
                    assert(head == seq![(0int, s[k].1)]);
                },
                None => {
                    assert(act is None);
                    assert(head == Seq::<(int, Seq<char>)>::empty());
                },
            }
            assert(head == clip_head(s, start as int));
        }
        proof {
            assert(out@.map_values(|c: Chapter| c@) =~= head);
        }
        let mut i: usize = 0;
        while i < self.chapters.len()
            invariant
                i <= s.len(),
                s == self@,
                s.len() == self.chapters@.len(),
                head == clip_head(s, start as int),
                head + inside(s, start as int, end as int, 0) == out@.map_values(|c: Chapter| c@)
                    + inside(s, start as int, end as int, i as int),
            decreases s.len() - i,
        {
            let t = self.chapters[i].time;
            if start < t && t < end {
                let ghost before = out@.map_values(|c: Chapter| c@);
                out.push(Chapter { time: t - start, title: self.chapters[i].title.clone() });
                proof {
                    assert(out@.map_values(|c: Chapter| c@) =~= before.push(
                        (t - start, s[i as int].1),
                    ));
                    assert(before + inside(s, start as int, end as int, i as int) =~= before.push(
                        (t - start, s[i as int].1),
                    ) + inside(s, start as int, end as int, i + 1));
                }
            }
            i += 1;
        }
        proof {
            assert(out@.map_values(|c: Chapter| c@) + inside(s, start as int, end as int, i as int)
                =~= out@.map_values(|c: Chapter| c@));
            lemma_clip_sorted(s, start as int, end as int);
        }
        let r = Chapters { chapters: out };
        r
    }
}

/// Chapters inside a span keep their order, and none of them lands at or
/// before the span's start.
proof fn lemma_inside_sorted(s: Seq<(int, Seq<char>)>, start: int, end: int, i: int)
    requires
        sorted(s),
        0 <= i,
    ensures
        sorted(inside(s, start, end, i)),
        forall|k: int|
            0 <= k < inside(s, start, end, i).len() ==> #[trigger] inside(s, start, end, i)[k].0 > 0,
        forall|k: int|
            0 <= k < inside(s, start, end, i).len() && i < s.len() ==> #[trigger] inside(
                s,
                start,
                end,
                i,
            )[k].0 >= s[i].0 - start,
    decreases s.len() - i,
{
    if i < s.len() {
        lemma_inside_sorted(s, start, end, i + 1);
        let rest = inside(s, start, end, i + 1);
        if i + 1 < s.len() {
            assert(s[i].0 <= s[i + 1].0);
        }
        if start < s[i].0 < end {
            let all = inside(s, start, end, i);
            assert(all == seq![(s[i].0 - start, s[i].1)] + rest);
            assert forall|a: int, b: int| 0 <= a < b < all.len() implies all[a].0 <= all[b].0 by {
                if a == 0 {
                    assert(all[b] == rest[b - 1]);
                } else {
                    assert(all[b] == rest[b - 1] && all[a] == rest[a - 1]);
                }
            }
            assert forall|k: int| 0 <= k < all.len() implies #[trigger] all[k].0 > 0 && all[k].0
                >= s[i].0 - start by {
                if k > 0 {
                    assert(all[k] == rest[k - 1]);
                }
            }
        }
    }
}

/// A clip's chapters are in time order.
proof fn lemma_clip_sorted(s: Seq<(int, Seq<char>)>, start: int, end: int)
    requires
        sorted(s),
    ensures
        sorted(clip_of(s, start, end)),
{
    lemma_inside_sorted(s, start, end, 0);
    let rest = inside(s, start, end, 0);
    let c = clip_of(s, start, end);
    match active_at(s, start) {
        Some(k) => {
            assert forall|a: int, b: int| 0 <= a < b < c.len() implies c[a].0 <= c[b].0 by {
                if a == 0 {
                    assert(c[b] == rest[b - 1]);
                } else {
                    assert(c[b] == rest[b - 1] && c[a] == rest[a - 1]);
                }
            }
        },
        None => {
            assert(c =~= rest);
        },
    }
}


proof fn lemma_last_at_or_before(s: Seq<(int, Seq<char>)>, t: int, n: int)
    requires
        0 <= n <= s.len(),
    ensures
        last_at_or_before(s, t, n) matches Some(k) ==> 0 <= k < n && s[k].0 <= t && forall|j: int|
            k < j < n ==> s[j].0 > t,
        last_at_or_before(s, t, n) is None ==> forall|j: int| 0 <= j < n ==> s[j].0 > t,
    decreases n,
{
    if n > 0 && s[n - 1].0 > t {
        lemma_last_at_or_before(s, t, n - 1);
    }
}

/// The active chapter is the one covering the playhead: it starts at or before
/// it, and the next one (if any) starts after it. There is none exactly when
/// the playhead is before the first chapter (or there are no chapters).
pub proof fn law_active_covers(s: Seq<(int, Seq<char>)>, t: int)
    requires
        sorted(s),
    ensures
        active_at(s, t) matches Some(k) ==> 0 <= k < s.len() && s[k].0 <= t && (k + 1 < s.len()
            ==> s[k + 1].0 > t),
        active_at(s, t) is None <==> (s.len() == 0 || s[0].0 > t),
{
    lemma_last_at_or_before(s, t, s.len() as int);
}

/// Adding a chapter puts it after every chapter at or before its time and
/// before every later one, so the list stays in time order.
pub proof fn law_add_keeps_order(s: Seq<(int, Seq<char>)>, t: int, title: Seq<char>)
    requires
        sorted(s),
    ensures
        0 <= insert_index(s, t, 0) <= s.len(),
        forall|j: int| 0 <= j < insert_index(s, t, 0) ==> s[j].0 <= t,
        forall|j: int| insert_index(s, t, 0) <= j < s.len() ==> s[j].0 > t,
        sorted(s.insert(insert_index(s, t, 0), (t, title))),
{
    lemma_insert_index(s, t, 0);
    let idx = insert_index(s, t, 0);
    let after = s.insert(idx, (t, title));
    assert forall|i: int, j: int| 0 <= i < j < after.len() implies after[i].0 <= after[j].0 by {
        if j > idx {
            assert(after[j] == s[j - 1]);
        }
        if i > idx {
            assert(after[i] == s[i - 1]);
        }
    }
}

/// Where a chapter goes lies within the list, sorted or not.
pub proof fn lemma_insert_index_within(s: Seq<(int, Seq<char>)>, t: int, i: int)
    requires
        0 <= i <= s.len(),
    ensures
        i <= insert_index(s, t, i) <= s.len(),
    decreases s.len() - i,
{
    if i < s.len() && s[i].0 <= t {
        lemma_insert_index_within(s, t, i + 1);
    }
}

proof fn lemma_insert_index(s: Seq<(int, Seq<char>)>, t: int, i: int)
    requires
        sorted(s),
        0 <= i <= s.len(),
        forall|j: int| 0 <= j < i ==> s[j].0 <= t,
    ensures
        i <= insert_index(s, t, i) <= s.len(),
        forall|j: int| 0 <= j < insert_index(s, t, i) ==> s[j].0 <= t,
        forall|j: int| insert_index(s, t, i) <= j < s.len() ==> s[j].0 > t,
    decreases s.len() - i,
{
    if i < s.len() && s[i].0 <= t {
        lemma_insert_index(s, t, i + 1);
    }
}

/// Deleting the chapter just added, at the index adding it returned, gives
/// back the chapters as they were.
pub proof fn law_delete_undoes_add(s: Seq<(int, Seq<char>)>, t: int, title: Seq<char>)
    requires
        sorted(s),
    ensures
        ({
            let k = insert_index(s, t, 0);
            &&& k < s.insert(k, (t, title)).len()
            &&& s.insert(k, (t, title)).remove(k) == s
        }),
{
    law_add_keeps_order(s, t, title);
    let k = insert_index(s, t, 0);
    assert(s.insert(k, (t, title)).remove(k) =~= s);
}

/// A clip's chapters are in time order, start with the chapter that was
/// running at the clip's start (at 0:00) when there was one, and after it hold
/// exactly the chapters strictly inside the clip, rebased.
pub proof fn law_clip_in_order(s: Seq<(int, Seq<char>)>, start: int, end: int)
    requires
        sorted(s),
    ensures
        sorted(clip_of(s, start, end)),
        active_at(s, start) matches Some(k) ==> clip_of(s, start, end)[0] == (0int, s[k].1),
        forall|k: int|
            0 <= k < inside(s, start, end, 0).len() ==> 0 < #[trigger] inside(s, start, end, 0)[k].0
                < end - start,
{
    lemma_clip_sorted(s, start, end);
    lemma_inside_bounds(s, start, end, 0);
}

proof fn lemma_inside_bounds(s: Seq<(int, Seq<char>)>, start: int, end: int, i: int)
    requires
        0 <= i,
    ensures
        forall|k: int|
            0 <= k < inside(s, start, end, i).len() ==> 0 < #[trigger] inside(s, start, end, i)[k].0
                < end - start,
    decreases s.len() - i,
{
    if i < s.len() {
        lemma_inside_bounds(s, start, end, i + 1);
        let rest = inside(s, start, end, i + 1);
        let all = inside(s, start, end, i);
        if start < s[i].0 < end {
            assert forall|k: int| 0 <= k < all.len() implies 0 < #[trigger] all[k].0 < end - start by {
                if k > 0 {
                    assert(all[k] == rest[k - 1]);
                }
            }
        }
    }
}

} // verus!

verus! {

/// Milliseconds in the fraction digits `frac`: the first three, zero-padded.
pub open spec fn millis(frac: Seq<char>) -> nat {
    digits_value((frac + seq!['0', '0', '0']).take(3))
}

/// One `:`-separated part of a timestamp, in milliseconds: an optional `+`,
/// digits, and optionally `.` and more digits, with at least one digit in all.
/// Fractions below a millisecond are dropped. `None` when the part is not of
/// that form or its value does not fit in 64 bits.
pub open spec fn part_ms(p: Seq<char>) -> Option<nat> {
    let q = if p.len() > 0 && p[0] == '+' { p.drop_first() } else { p };
    let dot = index_of(q, '.', 0);
    let whole = q.take(dot);
    let frac = if dot < q.len() { q.skip(dot + 1) } else { Seq::empty() };
    if all_digits(whole) && all_digits(frac) && whole.len() + frac.len() > 0
        && digits_value(whole) * 1000 + millis(frac) <= u64::MAX {
        Some(digits_value(whole) * 1000 + millis(frac))
    } else {
        None
    }
}

/// The first `n` parts read as minutes-and-seconds digits: each part sixty
/// times the previous. `None` when a part is invalid or the running total
/// does not fit in 64 bits.
pub open spec fn parts_ms(parts: Seq<Seq<char>>, n: int) -> Option<nat>
    decreases n,
{
    if n <= 0 {
        Some(0)
    } else {
        match (parts_ms(parts, n - 1), part_ms(parts[n - 1])) {
            (Some(a), Some(v)) => if a * 60 + v <= u64::MAX {
                Some(a * 60 + v)
            } else {
                None
            },
            _ => None,
        }
    }
}

/// A YouTube-style timestamp token (`SS`, `M:SS`, or `H:MM:SS`, each part
/// optionally fractional) in milliseconds; `None` if it isn't a timestamp.
pub open spec fn clock_ms(token: Seq<char>) -> Option<nat> {
    let parts = split(token, ':');
    if parts.len() > 3 {
        None
    } else {
        parts_ms(parts, parts.len() as int)
    }
}

/// One line of a chapter file: a timestamp token, then the title. Blank lines
/// and lines that don't begin with a timestamp give nothing.
pub open spec fn chapter_line(line: Seq<char>) -> Option<(int, Seq<char>)> {
    let l = trim(line);
    let b = first_blank(l, 0);
    let title = if b < l.len() { trim(l.skip(b + 1)) } else { Seq::empty() };
    if l.len() == 0 {
        None
    } else {
        match clock_ms(l.take(b)) {
            Some(ms) => Some((ms as int, title)),
            None => None,
        }
    }
}

/// The index of the first blank in `s` at or after `i`, or `s.len()`.
pub open spec fn first_blank(s: Seq<char>, i: int) -> int
    decreases s.len() - i,
{
    if i < 0 || i >= s.len() {
        s.len() as int
    } else if is_blank(s[i]) {
        i
    } else {
        first_blank(s, i + 1)
    }
}

/// The chapters of the first `n` lines, each inserted after every chapter at
/// or before its time: a stable sort of the lines that hold a chapter.
pub open spec fn chapters_of_lines(lines: Seq<Seq<char>>, n: int) -> Seq<(int, Seq<char>)>
    decreases n,
{
    if n <= 0 {
        Seq::empty()
    } else {
        let acc = chapters_of_lines(lines, n - 1);
        match chapter_line(lines[n - 1]) {
            Some(c) => acc.insert(insert_index(acc, c.0, 0), c),
            None => acc,
        }
    }
}

/// The chapters a chapter file's text holds, in time order.
pub open spec fn chapters_of_text(text: Seq<char>) -> Seq<(int, Seq<char>)> {
    let lines = split(text, '\n');
    chapters_of_lines(lines, lines.len() as int)
}

/// One chapter as a line of the file: `M:SS Title`.
pub open spec fn chapter_text(c: (int, Seq<char>)) -> Seq<char> {
    clock_text(c.0 as nat) + seq![' '] + c.1 + seq!['\n']
}

/// The first `n` chapters as the file's text.
pub open spec fn chapters_text(s: Seq<(int, Seq<char>)>, n: int) -> Seq<char>
    decreases n,
{
    if n <= 0 || n > s.len() {
        Seq::empty()
    } else {
        chapters_text(s, n - 1) + chapter_text(s[n - 1])
    }
}

/// Read one `:`-separated part of a timestamp from `t[from..to]`.
pub(crate) fn read_part(t: &Vec<char>, from: usize, to: usize) -> (r: Option<u64>)
    requires
        from <= to <= t.len(),
    ensures
        r == (match part_ms(t@.subrange(from as int, to as int)) {
            Some(v) => Some(v as u64),
            None => None::<u64>,
        }),
{
    let ghost p = t@.subrange(from as int, to as int);
    let a = if from < to && t[from] == '+' {
        from + 1
    } else {
        from
    };
    let ghost q = t@.subrange(a as int, to as int);
    proof {
        assert(q =~= (if p.len() > 0 && p[0] == '+' { p.drop_first() } else { p }));
    }
    let dot = find_char(t, a, to, '.');
    let ghost whole = q.take(dot - a);
    let ghost frac = if dot < to { q.skip(dot - a + 1) } else { Seq::<char>::empty() };
    proof {
        assert(whole =~= t@.subrange(a as int, dot as int));
    }
    let fstart = if dot < to {
        dot + 1
    } else {
        to
    };
    proof {
        assert(frac =~= t@.subrange(fstart as int, to as int));
    }
    if !digits_only(t, fstart, to) || (dot - a) + (to - fstart) == 0 {
        return None;
    }
    let w = match read_digits(t, a, dot) {
        Some(w) => w,
        None => {
            return None;
        },
    };
    // The first three fraction digits, zero-padded.
    let mut ms: u64 = 0;
    let mut k: usize = 0;
    let ghost padded_frac = frac + seq!['0', '0', '0'];
    proof {
        assert(padded_frac.take(0) =~= Seq::<char>::empty());
    }
    while k < 3
        invariant
            k <= 3,
            fstart <= to <= t.len(),
            frac =~= t@.subrange(fstart as int, to as int),
            padded_frac == frac + seq!['0', '0', '0'],
            all_digits(frac),
            ms == digits_value(padded_frac.take(k as int)),
            ms < 1000,
            ms <= 10 * k * 100,
            k == 0 ==> ms == 0,
            k == 1 ==> ms < 10,
            k == 2 ==> ms < 100,
        decreases 3 - k,
    {
        let d: u64 = if k < to - fstart {
            proof {
                assert(is_digit(frac[k as int]));
                assert(padded_frac[k as int] == t@[fstart + k]);
            }
            (t[fstart + k] as u32 - 48) as u64
        } else {
            proof {
                assert(padded_frac[k as int] == '0');
            }
            0
        };
        proof {
            assert(padded_frac.take(k + 1).drop_last() =~= padded_frac.take(k as int));
        }
        ms = ms * 10 + d;
        k += 1;
    }
    if w > (u64::MAX - ms) / 1000 {
        proof {
            assert(w * 1000 + ms > u64::MAX) by (nonlinear_arith)
                requires
                    w > (u64::MAX - ms) / 1000,
                    ms < 1000,
            ;
        }
        return None;
    }
    proof {
        assert(w * 1000 + ms <= u64::MAX) by (nonlinear_arith)
            requires
                w <= (u64::MAX - ms) / 1000,
                ms < 1000,
        ;
    }
    Some(w * 1000 + ms)
}


proof fn lemma_parts_none_stays(parts: Seq<Seq<char>>, n: int, m: int)
    requires
        0 <= n <= m,
        parts_ms(parts, n) is None,
    ensures
        parts_ms(parts, m) is None,
    decreases m - n,
{
    if n < m {
        lemma_parts_none_stays(parts, n, m - 1);
    }
}

/// `split` takes the piece before the first separator, then splits the rest.
proof fn lemma_split_step(s: Seq<char>, sep: char)
    ensures
        index_of(s, sep, 0) >= s.len() ==> split(s, sep) == seq![s],
        index_of(s, sep, 0) < s.len() ==> split(s, sep) == seq![s.take(index_of(s, sep, 0))]
            + split(s.skip(index_of(s, sep, 0) + 1), sep),
        split(s, sep).len() >= 1,
        split(s, sep)[0] == s.take(index_of(s, sep, 0)) || index_of(s, sep, 0) >= s.len(),
{
    lemma_index_of_bounds(s, sep, 0);
    if index_of(s, sep, 0) >= s.len() {
        assert(index_of(s, sep, 0) == s.len());
        assert(s.take(s.len() as int) =~= s);
    }
}

/// Read a timestamp token from `t[from..to]`, in milliseconds.
fn read_clock(t: &Vec<char>, from: usize, to: usize) -> (r: Option<u64>)
    requires
        from <= to <= t.len(),
    ensures
        r == (match clock_ms(t@.subrange(from as int, to as int)) {
            Some(v) => Some(v as u64),
            None => None::<u64>,
        }),
{
    let ghost s = t@.subrange(from as int, to as int);
    let ghost parts = split(s, ':');
    let mut start = from;
    let mut total: u64 = 0;
    let mut count: usize = 0;
    proof {
        assert(parts.skip(0) =~= parts);
    }
    loop
        invariant
            from <= start <= to <= t.len(),
            s == t@.subrange(from as int, to as int),
            parts == split(s, ':'),
            count <= 3,
            parts.skip(count as int) == split(t@.subrange(start as int, to as int), ':'),
            count <= parts.len(),
            parts_ms(parts, count as int) == Some(total as nat),
        decreases to - start,
    {
        let ghost rem = t@.subrange(start as int, to as int);
        let end = find_char(t, start, to, ':');
        proof {
            lemma_split_step(rem, ':');
            lemma_index_of_bounds(rem, ':', 0);
            assert(parts.skip(count as int).len() >= 1);
            assert(parts[count as int] == parts.skip(count as int)[0]);
            assert(rem.take(end - start) =~= t@.subrange(start as int, end as int));
            if end == to {
                assert(rem =~= t@.subrange(start as int, end as int));
            }
            assert(parts[count as int] == t@.subrange(start as int, end as int));
        }
        if count == 3 {
            return None;
        }
        let v = match read_part(t, start, end) {
            Some(v) => v,
            None => {
                proof {
                    lemma_parts_none_stays(parts, count + 1, parts.len() as int);
                }
                return None;
            },
        };
        if total > (u64::MAX - v) / 60 {
            proof {
                assert(total * 60 + v > u64::MAX) by (nonlinear_arith)
                    requires
                        total > (u64::MAX - v) / 60,
                ;
                lemma_parts_none_stays(parts, count + 1, parts.len() as int);
            }
            return None;
        }
        proof {
            assert(total * 60 + v <= u64::MAX) by (nonlinear_arith)
                requires
                    total <= (u64::MAX - v) / 60,
            ;
        }
        total = total * 60 + v;
        count += 1;
        if end == to {
            proof {
                assert(parts.skip(count - 1).len() == 1);
            }
            return Some(total);
        }
        proof {
            assert(rem.skip(end - start + 1) =~= t@.subrange(end + 1, to as int));
            assert(parts.skip(count as int) =~= parts.skip(count - 1).drop_first());
        }
        start = end + 1;
    }
}

pub proof fn lemma_first_blank(s: Seq<char>, i: int, r: int)
    requires
        0 <= i <= r <= s.len(),
        forall|j: int| i <= j < r ==> !is_blank(s[j]),
        r < s.len() ==> is_blank(s[r]),
    ensures
        first_blank(s, i) == r,
    decreases r - i,
{
    if i < r {
        lemma_first_blank(s, i + 1, r);
    }
}

/// Read one line `t[from..to]` of a chapter file.
fn read_chapter_line(t: &Vec<char>, from: usize, to: usize) -> (r: Option<(u64, String)>)
    requires
        from <= to <= t.len(),
    ensures
        match r {
            Some((ms, title)) => chapter_line(t@.subrange(from as int, to as int)) == Some(
                (ms as int, title@),
            ),
            None => chapter_line(t@.subrange(from as int, to as int)) is None,
        },
{
    let ghost line = t@.subrange(from as int, to as int);
    let (a, b) = trim_range(t, from, to);
    let ghost l = t@.subrange(a as int, b as int);
    if a == b {
        return None;
    }
    let blank = find_blank(t, a, b);
    proof {
        lemma_first_blank(l, 0, blank - a);
        assert(l.take(blank - a) =~= t@.subrange(a as int, blank as int));
    }
    let title = if blank < b {
        let (c, d) = trim_range(t, blank + 1, b);
        proof {
            assert(l.skip(blank - a + 1) =~= t@.subrange(blank + 1, b as int));
        }
        string_of_range(t, c, d)
    } else {
        String::new()
    };
    match read_clock(t, a, blank) {
        Some(ms) => Some((ms, title)),
        None => None,
    }
}

impl Chapters {
    /// Read the chapters of a `.chapter.txt` file's text. Blank lines and lines
    /// that don't begin with a timestamp are ignored (so a stray header or
    /// comment won't fail the load); the rest are sorted by time, lines with
    /// the same time keeping their order.
    pub fn parse(text: &str) -> (r: Chapters)
        ensures
            r@ == chapters_of_text(text@),
    {
        let t = chars_of(text);
        let ghost lines = split(t@, '\n');
        let mut out = Chapters::empty();
        let mut start: usize = 0;
        let ghost mut count: int = 0;
        proof {
            assert(lines.skip(0) =~= lines);
            assert(t@.subrange(0, t@.len() as int) =~= t@);
        }
        loop
            invariant
                start <= t.len(),
                t@ == text@,
                lines == split(t@, '\n'),
                0 <= count <= lines.len(),
                lines.skip(count) == split(t@.subrange(start as int, t@.len() as int), '\n'),
                out@ == chapters_of_lines(lines, count),
            decreases t.len() - start,
        {
            let ghost rem = t@.subrange(start as int, t@.len() as int);
            let end = find_char(&t, start, t.len(), '\n');
            proof {
                lemma_split_step(rem, '\n');
                lemma_index_of_bounds(rem, '\n', 0);
                assert(lines.skip(count).len() >= 1);
                assert(lines[count] == lines.skip(count)[0]);
                assert(rem.take(end - start) =~= t@.subrange(start as int, end as int));
                if end == t.len() {
                    assert(rem =~= t@.subrange(start as int, end as int));
                }
                assert(lines[count] == t@.subrange(start as int, end as int));
            }
            match read_chapter_line(&t, start, end) {
                Some((ms, title)) => {
                    out.add(ms, title.as_str());
                },
                None => {},
            }
            proof {
                count = count + 1;
            }
            if end == t.len() {
                proof {
                    assert(lines.skip(count - 1).len() == 1);
                }
                return out;
            }
            proof {
                assert(rem.skip(end - start + 1) =~= t@.subrange(end + 1, t@.len() as int));
                assert(lines.skip(count) =~= lines.skip(count - 1).drop_first());
            }
            start = end + 1;
        }
    }

    /// The chapters as a `.chapter.txt` file: one `M:SS Title` line each.
    pub fn to_text(&self) -> (r: String)
        ensures
            r@ == chapters_text(self@, self@.len() as int),
    {
        let mut out = String::new();
        let mut i: usize = 0;
        while i < self.chapters.len()
            invariant
                i <= self@.len(),
                self@.len() == self.chapters@.len(),
                out@ == chapters_text(self@, i as int),
            decreases self@.len() - i,
        {
            let c = &self.chapters[i];
            let clock = fmt_clock(c.time);
            push_str(&mut out, clock.as_str());
            push_char(&mut out, ' ');
            push_str(&mut out, c.title.as_str());
            push_char(&mut out, '\n');
            proof {
                assert(self@[i as int] == c@);
                assert(out@ =~= chapters_text(self@, i as int) + chapter_text(self@[i as int]));
            }
            i += 1;
        }
        out
    }
}

} // verus!

verus! {

/// `d` written as a digit reads back as `d`.
proof fn lemma_digit(d: int)
    requires
        0 <= d < 10,
    ensures
        is_digit(digit(d)),
        (digit(d) as u32) - 48 == d,
        !is_blank(digit(d)),
        digit(d) != ':' && digit(d) != '.' && digit(d) != '\n' && digit(d) != '+',
{
    reveal(is_blank);
}

/// A number written in decimal is all digits and reads back as itself.
proof fn lemma_decimal_reads_back(n: nat)
    ensures
        all_digits(decimal(n)),
        digits_value(decimal(n)) == n,
        decimal(n).len() >= 1,
    decreases n,
{
    if n < 10 {
        lemma_digit(n as int);
        let d = decimal(n);
        assert(d.drop_last() =~= Seq::<char>::empty());
        assert(digits_value(d.drop_last()) == 0);
        assert(d.last() == digit(n as int));
        assert(digits_value(d) == digits_value(d.drop_last()) * 10 + ((d.last() as u32) - 48) as nat);
    } else {
        lemma_decimal_reads_back(n / 10);
        lemma_digit((n % 10) as int);
        let d = decimal(n);
        assert(d.drop_last() =~= decimal(n / 10));
        assert(d.last() == digit((n % 10) as int));
        assert(digits_value(d) == digits_value(d.drop_last()) * 10 + ((d.last() as u32) - 48) as nat);
        assert forall|i: int| 0 <= i < d.len() implies is_digit(#[trigger] d[i]) by {
            if i < d.len() - 1 {
                assert(d[i] == decimal(n / 10)[i]);
            }
        }
    }
}

/// A leading zero does not change what digits read as.
proof fn lemma_leading_zero(s: Seq<char>)
    ensures
        digits_value(seq!['0'] + s) == digits_value(s),
    decreases s.len(),
{
    let z = seq!['0'] + s;
    if s.len() == 0 {
        assert(z.drop_last() =~= Seq::<char>::empty());
        assert(digits_value(z.drop_last()) == 0);
        assert(z.last() == '0');
        assert(('0' as u32) == 48);
        assert(digits_value(z) == digits_value(z.drop_last()) * 10 + ((z.last() as u32) - 48) as nat);
    } else {
        lemma_leading_zero(s.drop_last());
        assert(z.drop_last() =~= seq!['0'] + s.drop_last());
        assert(z.last() == s.last());
    }
}

/// A zero-padded number is all digits and reads back as itself.
proof fn lemma_padded_reads_back(n: nat, w: nat)
    ensures
        all_digits(padded(n, w)),
        digits_value(padded(n, w)) == n,
        padded(n, w).len() >= 1,
    decreases w,
{
    lemma_decimal_reads_back(n);
    if decimal(n).len() < w {
        lemma_padded_reads_back(n, (w - 1) as nat);
        lemma_leading_zero(padded(n, (w - 1) as nat));
        let p = padded(n, w);
        let q = padded(n, (w - 1) as nat);
        assert(p == seq!['0'] + q);
        assert forall|i: int| 0 <= i < p.len() implies is_digit(#[trigger] p[i]) by {
            if i > 0 {
                assert(p[i] == q[i - 1]);
            }
        }
    }
}


/// `c` nowhere in `s`.
pub open spec fn lacks(s: Seq<char>, c: char) -> bool {
    forall|j: int| 0 <= j < s.len() ==> s[j] != c
}

/// The first `c` in `s` from `i` on is at `k`.
proof fn lemma_index_at(s: Seq<char>, c: char, i: int, k: int)
    requires
        0 <= i <= k <= s.len(),
        forall|j: int| i <= j < k ==> s[j] != c,
        k < s.len() ==> s[k] == c,
    ensures
        index_of(s, c, i) == k,
    decreases k - i,
{
    if i < k {
        lemma_index_at(s, c, i + 1, k);
    }
}

/// Text without the separator is one piece.
proof fn lemma_split_plain(s: Seq<char>, sep: char)
    requires
        lacks(s, sep),
    ensures
        split(s, sep) == seq![s],
{
    lemma_index_at(s, sep, 0, s.len() as int);
}

/// Cutting at a separator: the pieces on either side, one after the other.
proof fn lemma_split_join(a: Seq<char>, b: Seq<char>, sep: char)
    ensures
        split(a + seq![sep] + b, sep) == split(a, sep) + split(b, sep),
    decreases a.len(),
{
    let x = a + seq![sep] + b;
    lemma_index_of_bounds(a, sep, 0);
    let i = index_of(a, sep, 0);
    if i >= a.len() {
        lemma_index_at(x, sep, 0, a.len() as int);
        lemma_split_plain(a, sep);
        assert(x.take(a.len() as int) =~= a);
        assert(x.skip(a.len() as int + 1) =~= b);
    } else {
        lemma_index_at(x, sep, 0, i);
        assert(x.take(i) =~= a.take(i));
        assert(x.skip(i + 1) =~= a.skip(i + 1) + seq![sep] + b);
        lemma_split_join(a.skip(i + 1), b, sep);
        assert(split(a, sep) == seq![a.take(i)] + split(a.skip(i + 1), sep));
    }
}

/// A digit or a colon: what a clock is written with.
spec fn clock_char(c: char) -> bool {
    is_digit(c) || c == ':'
}

proof fn lemma_clock_char(c: char)
    requires
        clock_char(c),
    ensures
        !is_blank(c),
        c != '\n',
        c != '.',
        c != '+',
{
    reveal(is_blank);
}

/// Digits of a part read as a whole number of seconds.
proof fn lemma_part_reads_back(p: Seq<char>, v: nat)
    requires
        all_digits(p),
        p.len() >= 1,
        digits_value(p) == v,
        v * 1000 <= u64::MAX,
    ensures
        part_ms(p) == Some(v * 1000),
{
    assert(is_digit(p[0]));
    assert forall|j: int| 0 <= j < p.len() implies p[j] != '.' by {
        assert(is_digit(p[j]));
    }
    lemma_index_at(p, '.', 0, p.len() as int);
    assert(p.take(p.len() as int) =~= p);
    lemma_leading_zero(Seq::<char>::empty());
    assert(seq!['0'] + Seq::<char>::empty() =~= seq!['0']);
    lemma_leading_zero(seq!['0']);
    assert(seq!['0'] + seq!['0'] =~= seq!['0', '0']);
    lemma_leading_zero(seq!['0', '0']);
    assert(seq!['0'] + seq!['0', '0'] =~= seq!['0', '0', '0']);
    assert((Seq::<char>::empty() + seq!['0', '0', '0']).take(3) =~= seq!['0', '0', '0']);
    assert(millis(Seq::<char>::empty()) == 0);
}

/// Every character of a number written in digits is a digit, and none is a
/// colon.
proof fn lemma_digits_chars(d: Seq<char>)
    requires
        all_digits(d),
    ensures
        lacks(d, ':'),
        forall|j: int| 0 <= j < d.len() ==> clock_char(#[trigger] d[j]),
{
    assert forall|j: int| 0 <= j < d.len() implies d[j] != ':' && clock_char(d[j]) by {
        assert(is_digit(d[j]));
    }
}

/// A clock at a whole second reads back as the time it shows.
proof fn lemma_clock_reads_back(t: nat)
    requires
        t % 1000 == 0,
        t <= u64::MAX,
    ensures
        clock_ms(clock_text(t)) == Some(t),
        clock_text(t).len() >= 1,
        is_digit(clock_text(t)[0]),
        is_digit(clock_text(t).last()),
        forall|j: int| 0 <= j < clock_text(t).len() ==> clock_char(#[trigger] clock_text(t)[j]),
{
    let total = t / 1000;
    let sec = total % 60;
    let m = (total / 60) % 60;
    let h = total / 3600;
    assert(total == h * 3600 + m * 60 + sec);
    assert(t == total * 1000);
    let text = clock_text(t);
    let ps = padded(sec, 2);
    lemma_padded_reads_back(sec, 2);
    lemma_digits_chars(ps);
    lemma_split_plain(ps, ':');
    lemma_part_reads_back(ps, sec);
    assert(is_digit(ps.last()));
    if h > 0 {
        let dh = decimal(h);
        let pm = padded(m, 2);
        lemma_decimal_reads_back(h);
        lemma_padded_reads_back(m, 2);
        lemma_digits_chars(dh);
        lemma_digits_chars(pm);
        lemma_split_plain(dh, ':');
        lemma_split_plain(pm, ':');
        assert(text =~= dh + seq![':'] + (pm + seq![':'] + ps));
        lemma_split_join(dh, pm + seq![':'] + ps, ':');
        lemma_split_join(pm, ps, ':');
        let parts = split(text, ':');
        assert(parts =~= seq![dh, pm, ps]);
        lemma_part_reads_back(dh, h);
        lemma_part_reads_back(pm, m);
        assert(parts_ms(parts, 0) == Some(0nat));
        assert(parts_ms(parts, 1) == Some(h * 1000));
        assert(parts_ms(parts, 2) == Some(h * 60000 + m * 1000));
        assert(parts_ms(parts, 3) == Some(t));
        assert(is_digit(dh[0]));
        assert forall|j: int| 0 <= j < text.len() implies clock_char(#[trigger] text[j]) by {
            if j < dh.len() {
                assert(text[j] == dh[j]);
            } else if j > dh.len() && j < dh.len() + 1 + pm.len() {
                assert(text[j] == pm[j - dh.len() - 1]);
            } else if j > dh.len() + 1 + pm.len() {
                assert(text[j] == ps[j - dh.len() - 2 - pm.len()]);
            }
        }
    } else {
        let dm = decimal(m);
        lemma_decimal_reads_back(m);
        lemma_digits_chars(dm);
        lemma_split_plain(dm, ':');
        assert(text =~= dm + seq![':'] + ps);
        lemma_split_join(dm, ps, ':');
        let parts = split(text, ':');
        assert(parts =~= seq![dm, ps]);
        lemma_part_reads_back(dm, m);
        assert(parts_ms(parts, 0) == Some(0nat));
        assert(parts_ms(parts, 1) == Some(m * 1000));
        assert(parts_ms(parts, 2) == Some(t));
        assert(is_digit(dm[0]));
        assert forall|j: int| 0 <= j < text.len() implies clock_char(#[trigger] text[j]) by {
            if j < dm.len() {
                assert(text[j] == dm[j]);
            } else if j > dm.len() {
                assert(text[j] == ps[j - dm.len() - 1]);
            }
        }
    }
}

/// A title that neither starts nor ends with a blank.
pub open spec fn no_edge_blanks(title: Seq<char>) -> bool {
    title.len() == 0 || (!is_blank(title[0]) && !is_blank(title.last()))
}

/// A chapter's line of the file, without its line break.
pub open spec fn line_text(c: (int, Seq<char>)) -> Seq<char> {
    clock_text(c.0 as nat) + seq![' '] + c.1
}

/// A chapter's line reads back as the chapter, when it starts on a whole
/// second and its title has no blank at either end.
proof fn lemma_line_reads_back(t: nat, title: Seq<char>)
    requires
        t % 1000 == 0,
        t <= u64::MAX,
        no_edge_blanks(title),
    ensures
        chapter_line(line_text((t as int, title))) == Some((t as int, title)),
{
    let clock = clock_text(t);
    lemma_clock_reads_back(t);
    let line = line_text((t as int, title));
    assert(line == clock + seq![' '] + title);
    lemma_clock_char(clock[0]);
    lemma_clock_char(clock.last());
    assert(line[0] == clock[0]);
    assert(trim_start(line) == line);
    assert(is_blank(' ')) by {
        reveal(is_blank);
    }
    let l = trim(line);
    if title.len() == 0 {
        assert(line.drop_last() =~= clock);
        assert(trim_end(line) == trim_end(clock));
        assert(trim_end(clock) == clock);
        assert(l == clock);
        assert forall|j: int| 0 <= j < clock.len() implies !is_blank(clock[j]) by {
            lemma_clock_char(clock[j]);
        }
        lemma_first_blank(l, 0, l.len() as int);
        assert(l.take(l.len() as int) =~= clock);
    } else {
        assert(line.last() == title.last());
        assert(trim_end(line) == line);
        assert(l == line);
        assert forall|j: int| 0 <= j < clock.len() implies !is_blank(l[j]) by {
            assert(l[j] == clock[j]);
            lemma_clock_char(clock[j]);
        }
        lemma_first_blank(l, 0, clock.len() as int);
        assert(l.take(clock.len() as int) =~= clock);
        assert(l.skip(clock.len() as int + 1) =~= title);
        assert(trim_start(title) == title);
        assert(trim_end(title) == title);
    }
}

/// The lines of the first `n` chapters of `s`.
pub open spec fn lines_text(s: Seq<(int, Seq<char>)>, n: int) -> Seq<Seq<char>> {
    Seq::new(n as nat, |i: int| line_text(s[i]))
}

/// Cutting the text of the first `n` chapters, followed by `rest`, at line
/// breaks gives their lines, then the pieces of `rest`.
proof fn lemma_split_text(s: Seq<(int, Seq<char>)>, n: int, rest: Seq<char>)
    requires
        0 <= n <= s.len(),
        forall|i: int| 0 <= i < n ==> lacks(#[trigger] line_text(s[i]), '\n'),
    ensures
        split(chapters_text(s, n) + rest, '\n') == lines_text(s, n) + split(rest, '\n'),
    decreases n,
{
    if n == 0 {
        assert(chapters_text(s, 0) + rest =~= rest);
        assert(lines_text(s, 0) + split(rest, '\n') =~= split(rest, '\n'));
    } else {
        let l = line_text(s[n - 1]);
        assert(chapter_text(s[n - 1]) =~= l + seq!['\n']);
        let rest2 = l + seq!['\n'] + rest;
        assert(chapters_text(s, n) + rest =~= chapters_text(s, n - 1) + rest2);
        lemma_split_text(s, n - 1, rest2);
        assert(lacks(l, '\n'));
        lemma_split_join(l, rest, '\n');
        lemma_split_plain(l, '\n');
        assert(lines_text(s, n - 1) + (seq![l] + split(rest, '\n')) =~= lines_text(s, n) + split(
            rest,
            '\n',
        ));
    }
}

/// A chapter at or after every entry from `i` on goes at the end.
proof fn lemma_insert_at_end(acc: Seq<(int, Seq<char>)>, t: int, i: int)
    requires
        0 <= i,
        forall|j: int| i <= j < acc.len() ==> acc[j].0 <= t,
    ensures
        insert_index(acc, t, i) == acc.len(),
    decreases acc.len() - i,
{
    if i < acc.len() {
        lemma_insert_at_end(acc, t, i + 1);
    }
}

/// Lines that each read back as the next chapter of a sorted list rebuild it.
proof fn lemma_read_lines(s: Seq<(int, Seq<char>)>, lines: Seq<Seq<char>>, k: int)
    requires
        sorted(s),
        0 <= k <= s.len(),
        lines.len() >= s.len(),
        forall|i: int| 0 <= i < s.len() ==> chapter_line(#[trigger] lines[i]) == Some(s[i]),
    ensures
        chapters_of_lines(lines, k) == s.take(k),
    decreases k,
{
    if k > 0 {
        lemma_read_lines(s, lines, k - 1);
        let acc = s.take(k - 1);
        assert(chapter_line(lines[k - 1]) == Some(s[k - 1]));
        lemma_insert_at_end(acc, s[k - 1].0, 0);
        assert(acc.insert(acc.len() as int, s[k - 1]) =~= s.take(k));
    }
}

/// Chapters saved to a chapter file read back as the same chapters, when
/// each starts on a whole second and its title is one line with no blank at
/// either end.
pub proof fn law_save_load_round_trip(s: Seq<(int, Seq<char>)>)
    requires
        sorted(s),
        forall|i: int| 0 <= i < s.len() ==> 0 <= #[trigger] s[i].0 <= u64::MAX && s[i].0 % 1000 == 0,
        forall|i: int| 0 <= i < s.len() ==> lacks(#[trigger] s[i].1, '\n') && no_edge_blanks(s[i].1),
    ensures
        chapters_of_text(chapters_text(s, s.len() as int)) == s,
{
    let n = s.len() as int;
    assert forall|i: int| 0 <= i < n implies lacks(#[trigger] line_text(s[i]), '\n') by {
        let c = s[i];
        lemma_clock_reads_back(c.0 as nat);
        let clock = clock_text(c.0 as nat);
        let l = line_text(c);
        assert forall|j: int| 0 <= j < l.len() implies l[j] != '\n' by {
            if j < clock.len() {
                assert(l[j] == clock[j]);
                lemma_clock_char(clock[j]);
            } else if j > clock.len() {
                assert(l[j] == c.1[j - clock.len() - 1]);
            }
        }
    }
    let text = chapters_text(s, n);
    lemma_split_text(s, n, Seq::empty());
    assert(text + Seq::<char>::empty() =~= text);
    lemma_split_plain(Seq::<char>::empty(), '\n');
    let lines = split(text, '\n');
    assert(lines == lines_text(s, n) + seq![Seq::<char>::empty()]);
    assert forall|i: int| 0 <= i < n implies chapter_line(#[trigger] lines[i]) == Some(s[i]) by {
        assert(lines[i] == line_text(s[i]));
        lemma_line_reads_back(s[i].0 as nat, s[i].1);
    }
    lemma_read_lines(s, lines, n);
    assert(s.take(n) =~= s);
    assert(lines[n] == Seq::<char>::empty());
    assert(trim(Seq::<char>::empty()) == Seq::<char>::empty());
    assert(chapter_line(lines[n]) is None);
    assert(chapters_of_lines(lines, n + 1) == chapters_of_lines(lines, n));
}

/// A time in ms rounded to the nearest whole second, halves up: the time a
/// chapter file keeps.
pub open spec fn round_to_second(t: int) -> int {
    (t / 1000 + if t % 1000 >= 500 { 1int } else { 0int }) * 1000
}

/// The chapters with each time rounded to the nearest whole second.
pub open spec fn rounded(s: Seq<(int, Seq<char>)>) -> Seq<(int, Seq<char>)> {
    s.map_values(|c: (int, Seq<char>)| (round_to_second(c.0), c.1))
}

proof fn lemma_round_to_second(t: int)
    requires
        0 <= t,
    ensures
        round_to_second(t) % 1000 == 0,
        round_to_second(t) >= 0,
        clock_text(t as nat) == clock_text(round_to_second(t) as nat),
{
    let q = t / 1000 + if t % 1000 >= 500 { 1int } else { 0int };
    assert(q >= 0);
    vstd::arithmetic::div_mod::lemma_mod_multiples_basic(q, 1000);
    vstd::arithmetic::div_mod::lemma_div_multiples_vanish(q, 1000);
    assert((q * 1000) / 1000 == q);
    assert((q * 1000) % 1000 == 0);
    assert(round_to_second(t) == q * 1000);
}

proof fn lemma_round_ordered(a: int, b: int)
    requires
        0 <= a <= b,
    ensures
        round_to_second(a) <= round_to_second(b),
{
    vstd::arithmetic::div_mod::lemma_div_is_ordered(a, b, 1000);
    vstd::arithmetic::div_mod::lemma_fundamental_div_mod(a, 1000);
    vstd::arithmetic::div_mod::lemma_fundamental_div_mod(b, 1000);
    let qa = a / 1000;
    let qb = b / 1000;
    if qa == qb {
        assert(a % 1000 <= b % 1000);
    } else {
        assert(qa + 1 <= qb);
        assert((qa + 1) * 1000 <= qb * 1000);
    }
}

proof fn lemma_chapters_text_rounds(s: Seq<(int, Seq<char>)>, n: int)
    requires
        forall|i: int| 0 <= i < s.len() ==> 0 <= #[trigger] s[i].0,
    ensures
        chapters_text(s, n) == chapters_text(rounded(s), n),
    decreases n,
{
    if 0 < n <= s.len() {
        lemma_chapters_text_rounds(s, n - 1);
        lemma_round_to_second(s[n - 1].0);
        assert(rounded(s)[n - 1] == (round_to_second(s[n - 1].0), s[n - 1].1));
    }
}

/// Chapters saved to a chapter file read back in the same order with the
/// same titles and each time rounded to the nearest whole second (halves
/// up), when each title is one line with no blank at either end.
pub proof fn law_save_load_rounds(s: Seq<(int, Seq<char>)>)
    requires
        sorted(s),
        forall|i: int| 0 <= i < s.len() ==> 0 <= #[trigger] s[i].0 && round_to_second(s[i].0) <= u64::MAX,
        forall|i: int| 0 <= i < s.len() ==> lacks(#[trigger] s[i].1, '\n') && no_edge_blanks(s[i].1),
    ensures
        chapters_of_text(chapters_text(s, s.len() as int)) == rounded(s),
{
    let r = rounded(s);
    lemma_chapters_text_rounds(s, s.len() as int);
    assert forall|i: int, j: int| 0 <= i < j < r.len() implies r[i].0 <= r[j].0 by {
        lemma_round_ordered(s[i].0, s[j].0);
    }
    assert forall|i: int| 0 <= i < r.len() implies 0 <= #[trigger] r[i].0 <= u64::MAX && r[i].0 % 1000 == 0 by {
        lemma_round_to_second(s[i].0);
    }
    assert forall|i: int| 0 <= i < r.len() implies lacks(#[trigger] r[i].1, '\n') && no_edge_blanks(r[i].1) by {
        assert(r[i].1 == s[i].1);
    }
    law_save_load_round_trip(r);
}

} // verus!
