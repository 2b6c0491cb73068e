//! A one-line text input with a cursor: the editing primitive behind the cue
//! editor, the chapter-title editor and the export-name prompt.
//!
//! The cursor sits between two characters, so inserting into the middle of a
//! multi-byte sentence — which subtitles usually are — is safe; outside the
//! input it is reported as a byte offset into the text. For display the input
//! wraps to a given number of columns; wrapping is measured in terminal cells,
//! so CJK text (two cells per character) lands where it looks like it should.

use std::ops::Range;
use vstd::prelude::*;
use crate::keymap::{KeyCode, KeyEvent};
use crate::unicode::{
    byte_len, byte_offset, byte_offsets, chars_of, is_blank, is_whitespace, lemma_byte_len_concat,
    lemma_len_le_byte_len,
    str_byte_len, str_cells, string_of, string_of_range, utf8_len,
};
use crate::util::{display_width, lemma_wrap_lines_inside, law_wrap_tiles, ranges_view, wrap_chars, wrap_lines};

verus! {

/// Back from `i` over blanks.
pub open spec fn skip_blanks_back(t: Seq<char>, i: int) -> int
    decreases i,
{
    if 0 < i <= t.len() && is_blank(t[i - 1]) {
        skip_blanks_back(t, i - 1)
    } else {
        i
    }
}

/// Back from `i` over non-blanks.
pub open spec fn skip_word_back(t: Seq<char>, i: int) -> int
    decreases i,
{
    if 0 < i <= t.len() && !is_blank(t[i - 1]) {
        skip_word_back(t, i - 1)
    } else {
        i
    }
}

/// Forward from `i` over blanks.
pub open spec fn skip_blanks_fwd(t: Seq<char>, i: int) -> int
    decreases t.len() - i,
{
    if 0 <= i < t.len() && is_blank(t[i]) {
        skip_blanks_fwd(t, i + 1)
    } else {
        i
    }
}

/// Forward from `i` over non-blanks.
pub open spec fn skip_word_fwd(t: Seq<char>, i: int) -> int
    decreases t.len() - i,
{
    if 0 <= i < t.len() && !is_blank(t[i]) {
        skip_word_fwd(t, i + 1)
    } else {
        i
    }
}

/// Start of the word before character `c`: skip any blanks, then the word.
/// Scripts without spaces (Japanese) have one word per run, which is what
/// makes this a "jump to the beginning" key there.
pub open spec fn word_start(t: Seq<char>, c: int) -> int {
    skip_word_back(t, skip_blanks_back(t, c))
}

/// End of the word after character `c` (mirror of [`word_start`]).
pub open spec fn word_end(t: Seq<char>, c: int) -> int {
    skip_word_fwd(t, skip_blanks_fwd(t, c))
}

/// `t` without the characters `[from, to)`.
pub open spec fn cut_out(t: Seq<char>, from: int, to: int) -> Seq<char> {
    t.take(from) + t.skip(to)
}

/// What one key press does to the text `t` and the cursor `c` (a character
/// index). Enter and Esc belong to the caller and change nothing here; so does
/// a Control or Alt chord that has no binding, rather than typing its letter.
pub open spec fn key_effect(t: Seq<char>, c: int, key: KeyEvent) -> (Seq<char>, int) {
    let ctrl = key.ctrl;
    let alt = key.alt;
    let left = if c > 0 { c - 1 } else { c };
    let right = if c < t.len() { c + 1 } else { c };
    let backspace = if c > 0 { (cut_out(t, c - 1, c), c - 1) } else { (t, c) };
    let delete = if c < t.len() { (cut_out(t, c, c + 1), c) } else { (t, c) };
    match key.code {
        KeyCode::Char(ch) => {
            if ctrl && ch == 'a' {
                (t, 0)
            } else if ctrl && ch == 'e' {
                (t, t.len() as int)
            } else if ctrl && ch == 'b' {
                (t, left)
            } else if ctrl && ch == 'f' {
                (t, right)
            } else if alt && ch == 'b' {
                (t, word_start(t, c))
            } else if alt && ch == 'f' {
                (t, word_end(t, c))
            } else if ctrl && ch == 'h' {
                backspace
            } else if ctrl && ch == 'd' {
                delete
            } else if ctrl && ch == 'k' {
                (t.take(c), c)
            } else if ctrl && ch == 'u' {
                (Seq::empty(), 0)
            } else if ctrl && ch == 'w' {
                (cut_out(t, word_start(t, c), c), word_start(t, c))
            } else if ctrl || alt {
                (t, c)
            } else {
                (t.take(c).push(ch) + t.skip(c), c + 1)
            }
        },
        KeyCode::Left => if ctrl || alt {
            (t, word_start(t, c))
        } else {
            (t, left)
        },
        KeyCode::Right => if ctrl || alt {
            (t, word_end(t, c))
        } else {
            (t, right)
        },
        KeyCode::Home => (t, 0),
        KeyCode::End => (t, t.len() as int),
        KeyCode::Backspace => backspace,
        KeyCode::Delete => delete,
        _ => (t, c),
    }
}

/// The line being edited: its characters and a cursor between two of them.
#[derive(Debug)]
pub struct TextInput {
    text: Vec<char>,
    /// Character index of the cursor: never past the end.
    cursor: usize,
}

/// A [`TextInput`] laid out over a fixed number of columns.
pub struct Wrapped {
    /// Byte ranges of the visual lines. Contiguous and covering the whole text,
    /// so every byte belongs to exactly one line; never empty.
    pub lines: Vec<Range<usize>>,
    /// Index into `lines` of the line the cursor sits on.
    pub cursor_line: usize,
}

impl View for TextInput {
    type V = (Seq<char>, int);

    closed spec fn view(&self) -> (Seq<char>, int) {
        (self.text@, self.cursor as int)
    }
}

impl TextInput {
    #[verifier::type_invariant]
    spec fn well_formed(self) -> bool {
        &&& self.cursor <= self.text.len()
        &&& byte_len(self.text@) <= usize::MAX
    }

    /// An empty input.
    pub fn new() -> (r: Self)
        ensures
            r@.0 == Seq::<char>::empty(),
            r@.1 == 0,
    {
        TextInput { text: Vec::new(), cursor: 0 }
    }

    /// Start editing `text`, cursor at its end (where typing continues it).
    pub fn with_text(text: &str) -> (r: Self)
        ensures
            r@.0 == text@,
            r@.1 == text@.len(),
    {
        let _len = str_byte_len(text);
        let chars = chars_of(text);
        let cursor = chars.len();
        TextInput { text: chars, cursor }
    }

    /// The text being edited.
    pub fn text(&self) -> (s: String)
        ensures
            s@ == self@.0,
    {
        string_of(self.text.as_slice())
    }

    /// The cursor, as a byte offset into [`Self::text`].
    pub fn cursor(&self) -> (b: usize)
        ensures
            b == byte_offset(self@.0, self@.1),
            0 <= self@.1 <= self@.0.len(),
            byte_len(self@.0) <= usize::MAX,
    {
        proof {
            use_type_invariant(self);
        }
        let offs = byte_offsets(&self.text);
        offs[self.cursor]
    }

    /// Whether the text has room for one more character's bytes, which
    /// [`Self::handle_key`] needs.
    pub fn has_room(&self) -> (b: bool)
        ensures
            b == (byte_len(self@.0) + 4 <= usize::MAX),
    {
        proof {
            use_type_invariant(self);
        }
        let offs = byte_offsets(&self.text);
        proof {
            assert(self.text@.take(self.text@.len() as int) =~= self.text@);
        }
        offs[self.text.len()] <= usize::MAX - 4
    }

    /// Take the text out, leaving the input empty.
    pub fn take(&mut self) -> (s: String)
        ensures
            s@ == old(self)@.0,
            final(self)@.0 == Seq::<char>::empty(),
            final(self)@.1 == 0,
    {
        let s = string_of(self.text.as_slice());
        *self = TextInput { text: Vec::new(), cursor: 0 };
        s
    }

    /// Empty the input.
    pub fn clear(&mut self)
        ensures
            final(self)@.0 == Seq::<char>::empty(),
            final(self)@.1 == 0,
    {
        *self = TextInput { text: Vec::new(), cursor: 0 };
    }
}


proof fn lemma_skips_bounded(t: Seq<char>, i: int)
    requires
        0 <= i <= t.len(),
    ensures
        0 <= skip_blanks_back(t, i) <= i,
        0 <= skip_word_back(t, i) <= i,
        i <= skip_blanks_fwd(t, i) <= t.len(),
        i <= skip_word_fwd(t, i) <= t.len(),
    decreases t.len() + i,
{
    if i > 0 {
        lemma_skips_bounded_back(t, i);
    }
    lemma_skips_bounded_fwd(t, i);
}

proof fn lemma_skips_bounded_back(t: Seq<char>, i: int)
    requires
        0 <= i <= t.len(),
    ensures
        0 <= skip_blanks_back(t, i) <= i,
        0 <= skip_word_back(t, i) <= i,
    decreases i,
{
    if i > 0 {
        lemma_skips_bounded_back(t, i - 1);
    }
}

proof fn lemma_skips_bounded_fwd(t: Seq<char>, i: int)
    requires
        0 <= i <= t.len(),
    ensures
        i <= skip_blanks_fwd(t, i) <= t.len(),
        i <= skip_word_fwd(t, i) <= t.len(),
    decreases t.len() - i,
{
    if i < t.len() {
        lemma_skips_bounded_fwd(t, i + 1);
    }
}

/// Where the word motions land stays inside the text, on the right side of the cursor.
pub proof fn law_word_motions_stay_inside(t: Seq<char>, c: int)
    requires
        0 <= c <= t.len(),
    ensures
        0 <= word_start(t, c) <= c,
        c <= word_end(t, c) <= t.len(),
{
    lemma_skips_bounded(t, c);
    lemma_skips_bounded(t, skip_blanks_back(t, c));
    lemma_skips_bounded(t, skip_blanks_fwd(t, c));
}

proof fn lemma_cut_shrinks(t: Seq<char>, a: int, b: int)
    requires
        0 <= a <= b <= t.len(),
    ensures
        byte_len(cut_out(t, a, b)) <= byte_len(t),
{
    lemma_byte_len_concat(t.take(a), t.skip(b));
    lemma_byte_len_concat(t.take(b), t.skip(b));
    lemma_byte_len_concat(t.take(a), t.subrange(a, b));
    assert(t.take(b) =~= t.take(a) + t.subrange(a, b));
    assert(t =~= t.take(b) + t.skip(b));
}

proof fn lemma_insert_grows(t: Seq<char>, c: int, ch: char)
    requires
        0 <= c <= t.len(),
    ensures
        byte_len(t.take(c).push(ch) + t.skip(c)) == byte_len(t) + utf8_len(ch),
{
    lemma_byte_len_concat(t.take(c).push(ch), t.skip(c));
    lemma_byte_len_concat(t.take(c), t.skip(c));
    assert(t.take(c).push(ch).drop_last() =~= t.take(c));
    assert(t =~= t.take(c) + t.skip(c));
}

/// `t[from..to]` as a new vector.
fn copy_range(t: &Vec<char>, from: usize, to: usize) -> (r: Vec<char>)
    requires
        from <= to <= t.len(),
    ensures
        r@ == t@.subrange(from as int, to as int),
{
    let mut r: Vec<char> = Vec::new();
    let mut j = from;
    while j < to
        invariant
            from <= j <= to <= t.len(),
            r@ == t@.subrange(from as int, j as int),
        decreases to - j,
    {
        r.push(t[j]);
        proof {
            assert(t@.subrange(from as int, j as int + 1) =~= t@.subrange(from as int, j as int).push(t@[j as int]));
        }
        j += 1;
    }
    r
}

/// `t` without the characters `[from, to)`.
fn cut_range(t: &Vec<char>, from: usize, to: usize) -> (r: Vec<char>)
    requires
        from <= to <= t.len(),
    ensures
        r@ == cut_out(t@, from as int, to as int),
{
    let mut r = copy_range(t, 0, from);
    let mut tail = copy_range(t, to, t.len());
    r.append(&mut tail);
    proof {
        assert(t@.subrange(0, from as int) =~= t@.take(from as int));
        assert(t@.subrange(to as int, t@.len() as int) =~= t@.skip(to as int));
    }
    r
}

/// Start of the word before character `c` of `t`.
fn find_word_start(t: &Vec<char>, c: usize) -> (r: usize)
    requires
        c <= t.len(),
    ensures
        r == word_start(t@, c as int),
        r <= c,
{
    let mut i = c;
    while i > 0 && is_whitespace(t[i - 1])
        invariant
            i <= c <= t.len(),
            skip_blanks_back(t@, i as int) == skip_blanks_back(t@, c as int),
        decreases i,
    {
        i -= 1;
    }
    let ghost mid = i;
    while i > 0 && !is_whitespace(t[i - 1])
        invariant
            i <= mid <= c <= t.len(),
            mid == skip_blanks_back(t@, c as int),
            skip_word_back(t@, i as int) == skip_word_back(t@, mid as int),
        decreases i,
    {
        i -= 1;
    }
    i
}

/// End of the word after character `c` of `t`.
fn find_word_end(t: &Vec<char>, c: usize) -> (r: usize)
    requires
        c <= t.len(),
    ensures
        r == word_end(t@, c as int),
        c <= r <= t.len(),
{
    let mut i = c;
    while i < t.len() && is_whitespace(t[i])
        invariant
            c <= i <= t.len(),
            skip_blanks_fwd(t@, i as int) == skip_blanks_fwd(t@, c as int),
        decreases t.len() - i,
    {
        i += 1;
    }
    let ghost mid = i;
    while i < t.len() && !is_whitespace(t[i])
        invariant
            c <= mid <= i <= t.len(),
            mid == skip_blanks_fwd(t@, c as int),
            skip_word_fwd(t@, i as int) == skip_word_fwd(t@, mid as int),
        decreases t.len() - i,
    {
        i += 1;
    }
    i
}

impl TextInput {
    /// Apply one keypress. Enter and Esc are the caller's (they end the edit),
    /// so they are ignored here. The text must have room for one more
    /// character's bytes.
    pub fn handle_key(&mut self, key: KeyEvent)
        requires
            byte_len(old(self)@.0) + 4 <= usize::MAX,
        ensures
            final(self)@ == key_effect(old(self)@.0, old(self)@.1, key),
    {
        proof {
            use_type_invariant(&*self);
        }
        let ctrl = key.ctrl;
        let alt = key.alt;
        match key.code {
            KeyCode::Char(ch) => {
                if ctrl && ch == 'a' {
                    self.cursor = 0;
                } else if ctrl && ch == 'e' {
                    self.cursor = self.text.len();
                } else if ctrl && ch == 'b' {
                    self.move_left();
                } else if ctrl && ch == 'f' {
                    self.move_right();
                } else if alt && ch == 'b' {
                    self.cursor = self.word_start();
                } else if alt && ch == 'f' {
                    self.cursor = self.word_end();
                } else if ctrl && ch == 'h' {
                    self.backspace();
                } else if ctrl && ch == 'd' {
                    self.delete();
                } else if ctrl && ch == 'k' {
                    self.kill_to_end();
                } else if ctrl && ch == 'u' {
                    self.clear();
                } else if ctrl && ch == 'w' {
                    self.delete_word_before();
                } else if ctrl || alt {
                    // An unmapped chord must not type its letter into the text.
                } else {
                    self.insert(ch);
                }
            },
            KeyCode::Left => if ctrl || alt {
                self.cursor = self.word_start();
            } else {
                self.move_left();
            },
            KeyCode::Right => if ctrl || alt {
                self.cursor = self.word_end();
            } else {
                self.move_right();
            },
            KeyCode::Home => self.cursor = 0,
            KeyCode::End => self.cursor = self.text.len(),
            KeyCode::Backspace => self.backspace(),
            KeyCode::Delete => self.delete(),
            _ => {},
        }
    }

    /// Insert `ch` at the cursor and step past it.
    fn insert(&mut self, ch: char)
        requires
            byte_len(old(self)@.0) + 4 <= usize::MAX,
        ensures
            final(self)@ == (old(self)@.0.take(old(self)@.1).push(ch) + old(self)@.0.skip(old(self)@.1), old(
                self,
            )@.1 + 1),
    {
        proof {
            use_type_invariant(&*self);
            lemma_insert_grows(self.text@, self.cursor as int, ch);
            lemma_len_le_byte_len(self.text@);
        }
        let c = self.cursor;
        let n = self.text.len();
        let mut r = copy_range(&self.text, 0, c);
        r.push(ch);
        let mut tail = copy_range(&self.text, c, n);
        r.append(&mut tail);
        proof {
            assert(self.text@.subrange(0, c as int) =~= self.text@.take(c as int));
            assert(self.text@.subrange(c as int, n as int) =~= self.text@.skip(c as int));
        }
        *self = TextInput { text: r, cursor: c + 1 };
    }

    /// Erase the character before the cursor, if there is one.
    fn backspace(&mut self)
        ensures
            final(self)@ == (if old(self)@.1 > 0 {
                (cut_out(old(self)@.0, old(self)@.1 - 1, old(self)@.1), old(self)@.1 - 1)
            } else {
                old(self)@
            }),
    {
        proof {
            use_type_invariant(&*self);
        }
        if let Some(prev) = self.prev_boundary() {
            proof {
                lemma_cut_shrinks(self.text@, prev as int, self.cursor as int);
            }
            let v = cut_range(&self.text, prev, self.cursor);
            *self = TextInput { text: v, cursor: prev };
        }
    }

    /// Erase the character after the cursor, if there is one.
    fn delete(&mut self)
        ensures
            final(self)@ == (if old(self)@.1 < old(self)@.0.len() {
                (cut_out(old(self)@.0, old(self)@.1, old(self)@.1 + 1), old(self)@.1)
            } else {
                old(self)@
            }),
    {
        proof {
            use_type_invariant(&*self);
        }
        if let Some(next) = self.next_boundary() {
            proof {
                lemma_cut_shrinks(self.text@, self.cursor as int, next as int);
            }
            let v = cut_range(&self.text, self.cursor, next);
            *self = TextInput { text: v, cursor: self.cursor };
        }
    }

    /// Erase the word before the cursor (and the blanks after it).
    fn delete_word_before(&mut self)
        ensures
            final(self)@ == (cut_out(old(self)@.0, word_start(old(self)@.0, old(self)@.1), old(self)@.1),
            word_start(old(self)@.0, old(self)@.1)),
    {
        proof {
            use_type_invariant(&*self);
        }
        let start = self.word_start();
        proof {
            lemma_cut_shrinks(self.text@, start as int, self.cursor as int);
        }
        let v = cut_range(&self.text, start, self.cursor);
        *self = TextInput { text: v, cursor: start };
    }

    /// Erase everything after the cursor.
    fn kill_to_end(&mut self)
        ensures
            final(self)@ == (old(self)@.0.take(old(self)@.1), old(self)@.1),
    {
        proof {
            use_type_invariant(&*self);
            assert(cut_out(self.text@, self.cursor as int, self.text@.len() as int) =~= self.text@.take(
                self.cursor as int,
            ));
            lemma_cut_shrinks(self.text@, self.cursor as int, self.text@.len() as int);
        }
        let v = copy_range(&self.text, 0, self.cursor);
        proof {
            assert(self.text@.subrange(0, self.cursor as int) =~= self.text@.take(self.cursor as int));
        }
        *self = TextInput { text: v, cursor: self.cursor };
    }

    /// Step the cursor back a character, if it can.
    fn move_left(&mut self)
        ensures
            final(self)@ == (old(self)@.0, if old(self)@.1 > 0 {
                old(self)@.1 - 1
            } else {
                old(self)@.1
            }),
    {
        proof {
            use_type_invariant(&*self);
        }
        if let Some(prev) = self.prev_boundary() {
            self.cursor = prev;
        }
    }

    /// Step the cursor forward a character, if it can.
    fn move_right(&mut self)
        ensures
            final(self)@ == (old(self)@.0, if old(self)@.1 < old(self)@.0.len() {
                old(self)@.1 + 1
            } else {
                old(self)@.1
            }),
    {
        proof {
            use_type_invariant(&*self);
        }
        if let Some(next) = self.next_boundary() {
            self.cursor = next;
        }
    }

    /// Where the character before the cursor starts, if there is one.
    fn prev_boundary(&self) -> (r: Option<usize>)
        ensures
            r == (if self@.1 > 0 {
                Some((self@.1 - 1) as usize)
            } else {
                None::<usize>
            }),
    {
        if self.cursor > 0 {
            Some(self.cursor - 1)
        } else {
            None
        }
    }

    /// Where the character after the cursor ends, if there is one.
    fn next_boundary(&self) -> (r: Option<usize>)
        ensures
            r == (if self@.1 < self@.0.len() {
                Some((self@.1 + 1) as usize)
            } else {
                None::<usize>
            }),
    {
        proof {
            use_type_invariant(self);
        }
        if self.cursor < self.text.len() {
            Some(self.cursor + 1)
        } else {
            None
        }
    }

    /// Start of the word before the cursor.
    fn word_start(&self) -> (r: usize)
        ensures
            r == word_start(self@.0, self@.1),
            r <= self@.1,
    {
        proof {
            use_type_invariant(self);
        }
        find_word_start(&self.text, self.cursor)
    }

    /// End of the word after the cursor.
    fn word_end(&self) -> (r: usize)
        ensures
            r == word_end(self@.0, self@.1),
            self@.1 <= r <= self@.0.len(),
    {
        proof {
            use_type_invariant(self);
        }
        find_word_end(&self.text, self.cursor)
    }

    /// Lay the text out over `width` columns and say which line holds the cursor.
    pub fn wrap(&self, width: usize) -> (r: Wrapped)
        ensures
            r.lines@.len() == input_lines(self@.0, self@.1, width as int).len(),
            forall|k: int|
                0 <= k < r.lines@.len() ==> {
                    &&& r.lines@[k].start == byte_offset(
                        self@.0,
                        input_lines(self@.0, self@.1, width as int)[k].0,
                    )
                    &&& r.lines@[k].end == byte_offset(
                        self@.0,
                        input_lines(self@.0, self@.1, width as int)[k].1,
                    )
                },
            r.cursor_line == line_of(input_lines(self@.0, self@.1, width as int), self@.1, 0),
    {
        proof {
            use_type_invariant(self);
        }
        let t = &self.text;
        let w: usize = if width < 1 {
            1
        } else {
            width
        };
        let mut lines = wrap_chars(t, w);
        let ghost wl = wrap_lines(t@, w as int);
        proof {
            law_wrap_tiles(t@, w as int);
            lemma_wrap_lines_inside(t@, w as int);
            assert(wrap_lines(t@, width as int) == wl);
        }
        if self.cursor == t.len() {
            let last = lines[lines.len() - 1];
            proof {
                assert(ranges_view(lines@)[lines@.len() - 1] == (last.0 as int, last.1 as int));
            }
            let seg = string_of_range(t, last.0, last.1);
            if display_width(seg.as_str()) >= w {
                proof {
                    assert(ranges_view(lines@.push((t.len(), t.len()))) =~= ranges_view(lines@).push(
                        (t@.len() as int, t@.len() as int),
                    ));
                }
                lines.push((t.len(), t.len()));
            }
        }
        let ghost il = input_lines(t@, self.cursor as int, width as int);
        proof {
            assert(ranges_view(lines@) == il);
            lemma_input_lines_inside(t@, self.cursor as int, width as int);
        }
        let mut k: usize = 0;
        let mut hit: Option<usize> = None;
        while k < lines.len()
            invariant
                k <= lines.len(),
                lines@.len() >= 1,
                ranges_view(lines@) == il,
                hit is None ==> line_of(il, self.cursor as int, k as int) == line_of(
                    il,
                    self.cursor as int,
                    0,
                ),
                hit matches Some(f) ==> f == line_of(il, self.cursor as int, 0) && f < lines.len(),
            decreases lines.len() - k,
        {
            let (a, b) = lines[k];
            proof {
                assert(il[k as int] == (a as int, b as int));
            }
            if hit.is_none() && a <= self.cursor && self.cursor < b {
                hit = Some(k);
            }
            k += 1;
        }
        let found = match hit {
            Some(f) => f,
            None => lines.len() - 1,
        };
        let offs = byte_offsets(t);
        proof {
            assert forall|j: int| 0 <= j < lines@.len() implies lines@[j].0 <= t.len() && lines@[j].1
                <= t.len() by {
                assert(il[j] == (lines@[j].0 as int, lines@[j].1 as int));
            }
        }
        let ranges = crate::util::byte_ranges(&lines, &offs, t.len());
        proof {
            assert forall|j: int| 0 <= j < ranges@.len() implies ranges@[j].start == byte_offset(t@, il[j].0)
                && ranges@[j].end == byte_offset(t@, il[j].1) by {
                assert(il[j] == (lines@[j].0 as int, lines@[j].1 as int));
            }
        }
        Wrapped { lines: ranges, cursor_line: found }
    }
}

/// The lines an input with text `t` and cursor `c` shows at `width` columns:
/// the wrapped text, plus an empty line when the cursor sits after a full last
/// line and would otherwise have no cell to be drawn in.
pub open spec fn input_lines(t: Seq<char>, c: int, width: int) -> Seq<(int, int)> {
    let w = if width < 1 { 1 } else { width };
    let ls = wrap_lines(t, w);
    if c == t.len() && str_cells(t.subrange(ls.last().0, ls.last().1)) >= w {
        ls.push((t.len() as int, t.len() as int))
    } else {
        ls
    }
}

/// The first of `lines` from `k` on that holds character `c`; the last line if
/// none does.
pub open spec fn line_of(lines: Seq<(int, int)>, c: int, k: int) -> int
    decreases lines.len() - k,
{
    if k < 0 || k >= lines.len() {
        lines.len() - 1
    } else if lines[k].0 <= c < lines[k].1 {
        k
    } else {
        line_of(lines, c, k + 1)
    }
}

pub proof fn lemma_input_lines_inside(t: Seq<char>, c: int, width: int)
    ensures
        input_lines(t, c, width).len() >= 1,
        forall|k: int|
            0 <= k < input_lines(t, c, width).len() ==> 0 <= #[trigger] input_lines(t, c, width)[k].0
                <= input_lines(t, c, width)[k].1 <= t.len(),
{
    let w = if width < 1 { 1 } else { width };
    law_wrap_tiles(t, w);
    lemma_wrap_lines_inside(t, w);
    assert(wrap_lines(t, width) == wrap_lines(t, w));
}


impl Default for TextInput {
    /// An empty input.
    fn default() -> (r: Self)
        ensures
            r@.0 == Seq::<char>::empty(),
            r@.1 == 0,
    {
        TextInput::new()
    }
}

/// Wrap `text` to `width` columns, breaking after a blank when the line has one
/// (so words stay whole) and mid-run otherwise. The blank stays on the line it
/// ended, and no byte is ever dropped: the ranges tile the whole string, which
/// is what lets the caller map a cursor offset onto a line.
pub fn wrap(text: &str, width: usize) -> (r: Vec<Range<usize>>)
    ensures
        r@.len() == wrap_lines(text@, width as int).len(),
        forall|k: int|
            0 <= k < r@.len() ==> {
                &&& r@[k].start == byte_offset(text@, wrap_lines(text@, width as int)[k].0)
                &&& r@[k].end == byte_offset(text@, wrap_lines(text@, width as int)[k].1)
            },
{
    crate::util::wrap(text, width)
}

proof fn lemma_some_line_holds(ls: Seq<(int, int)>, c: int)
    requires
        ls.len() >= 1,
        forall|k: int| 0 <= k < ls.len() - 1 ==> #[trigger] ls[k].1 == ls[k + 1].0,
        ls[0].0 <= c < ls.last().1,
    ensures
        exists|k: int| 0 <= k < ls.len() && ls[k].0 <= c < #[trigger] ls[k].1,
    decreases ls.len(),
{
    if ls.len() > 1 && c >= ls[0].1 {
        let rest = ls.drop_first();
        assert forall|k: int| 0 <= k < rest.len() - 1 implies #[trigger] rest[k].1 == rest[k + 1].0 by {
            assert(rest[k] == ls[k + 1] && rest[k + 1] == ls[k + 2]);
        }
        assert(rest[0] == ls[1]);
        assert(rest.last() == ls.last());
        lemma_some_line_holds(rest, c);
        let j = choose|j: int| 0 <= j < rest.len() && rest[j].0 <= c < #[trigger] rest[j].1;
        assert(ls[j + 1] == rest[j]);
    } else if ls.len() == 1 {
        assert(ls.last() == ls[0]);
    }
}

proof fn lemma_line_of_finds(ls: Seq<(int, int)>, c: int, k: int)
    requires
        0 <= k,
        exists|j: int| k <= j < ls.len() && ls[j].0 <= c < #[trigger] ls[j].1,
    ensures
        k <= line_of(ls, c, k) < ls.len(),
        ls[line_of(ls, c, k)].0 <= c < ls[line_of(ls, c, k)].1,
    decreases ls.len() - k,
{
    if !(ls[k].0 <= c < ls[k].1) {
        let j = choose|j: int| k <= j < ls.len() && ls[j].0 <= c < #[trigger] ls[j].1;
        assert(j != k);
        lemma_line_of_finds(ls, c, k + 1);
    }
}

proof fn lemma_line_of_none(ls: Seq<(int, int)>, c: int, k: int)
    requires
        0 <= k <= ls.len(),
        forall|j: int| k <= j < ls.len() ==> !(ls[j].0 <= c < #[trigger] ls[j].1),
    ensures
        line_of(ls, c, k) == ls.len() - 1,
    decreases ls.len() - k,
{
    if k < ls.len() {
        lemma_line_of_none(ls, c, k + 1);
    }
}

/// The line [`TextInput::wrap`] reports for the cursor is the one the cursor
/// is on: inside it, or at its end when the cursor is at the end of the text.
/// A cursor after a full last line gets an empty line of its own.
pub proof fn law_cursor_on_its_line(t: Seq<char>, c: int, width: int)
    requires
        0 <= c <= t.len(),
    ensures
        0 <= line_of(input_lines(t, c, width), c, 0) < input_lines(t, c, width).len(),
        input_lines(t, c, width)[line_of(input_lines(t, c, width), c, 0)].0 <= c,
        c <= input_lines(t, c, width)[line_of(input_lines(t, c, width), c, 0)].1,
        input_lines(t, c, width).last().1 == t.len(),
        input_lines(t, c, width)[0].0 == 0,
{
    let w = if width < 1 { 1 } else { width };
    law_wrap_tiles(t, w);
    lemma_wrap_lines_inside(t, w);
    assert(wrap_lines(t, width) == wrap_lines(t, w));
    let il = input_lines(t, c, width);
    let wl = wrap_lines(t, w);
    assert forall|k: int| 0 <= k < il.len() - 1 implies #[trigger] il[k].1 == il[k + 1].0 by {
        if il.len() > wl.len() && k == il.len() - 2 {
            assert(il[k] == wl.last());
        } else {
            assert(il[k] == wl[k] && il[k + 1] == wl[k + 1]);
        }
    }
    assert(il[0] == wl[0]);
    if c < t.len() {
        lemma_some_line_holds(il, c);
        lemma_line_of_finds(il, c, 0);
    } else {
        lemma_line_of_none(il, c, 0);
    }
}

/// Backspace undoes typing: a character typed at the cursor (with neither
/// Control nor Alt held) and then erased with Backspace leaves the text and
/// the cursor as they were.
pub proof fn law_backspace_undoes_typing(t: Seq<char>, c: int, ch: char)
    requires
        0 <= c <= t.len(),
    ensures
        ({
            let typed = key_effect(t, c, KeyEvent { code: KeyCode::Char(ch), ctrl: false, alt: false });
            key_effect(typed.0, typed.1, KeyEvent { code: KeyCode::Backspace, ctrl: false, alt: false })
                == (t, c)
        }),
{
    let typed = key_effect(t, c, KeyEvent { code: KeyCode::Char(ch), ctrl: false, alt: false });
    assert(typed == (t.take(c).push(ch) + t.skip(c), c + 1));
    assert(cut_out(typed.0, c, c + 1) =~= t);
}

/// Delete undoes typing and stepping back: a character typed at the cursor,
/// then Left and Delete, leaves the text and the cursor as they were.
pub proof fn law_delete_undoes_typing(t: Seq<char>, c: int, ch: char)
    requires
        0 <= c <= t.len(),
    ensures
        ({
            let typed = key_effect(t, c, KeyEvent { code: KeyCode::Char(ch), ctrl: false, alt: false });
            let back = key_effect(typed.0, typed.1, KeyEvent { code: KeyCode::Left, ctrl: false, alt: false });
            key_effect(back.0, back.1, KeyEvent { code: KeyCode::Delete, ctrl: false, alt: false }) == (t, c)
        }),
{
    let typed = key_effect(t, c, KeyEvent { code: KeyCode::Char(ch), ctrl: false, alt: false });
    assert(typed == (t.take(c).push(ch) + t.skip(c), c + 1));
    assert(cut_out(typed.0, c, c + 1) =~= t);
}

} // verus!
