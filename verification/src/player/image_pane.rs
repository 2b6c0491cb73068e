//! Drawing frames with the kitty graphics protocol, as the bytes to send.
//!
//! The UI is drawn around an empty video rect; after each draw the host sends
//! what [`KittyPane::present`] returns, which positions the cursor at the rect
//! and (re)transmits the frame. kitty images render above the cell
//! background, so they survive redraws as long as those cells aren't
//! rewritten.

use base64::engine::general_purpose::STANDARD;
use base64::Engine;
use vstd::prelude::*;
use crate::ffmpeg::frame::Frame;
use crate::ui::Rect;
use crate::util::decimal;

verus! {

/// Pixel dimensions of a single terminal cell.
#[derive(Clone, Copy, Debug, PartialEq, Eq, Structural)]
pub struct CellSize {
    pub w: u16,
    pub h: u16,
}

/// The size of a cell of a terminal `width`×`height` pixels across
/// `columns`×`rows` cells, at least a pixel each way; 8×16 when the terminal
/// does not report its pixel size.
pub fn cell_size(width: u16, height: u16, columns: u16, rows: u16) -> (r: CellSize)
    ensures
        if width > 0 && height > 0 && columns > 0 && rows > 0 {
            &&& r.w == (if width / columns >= 1 { width / columns } else { 1 })
            &&& r.h == (if height / rows >= 1 { height / rows } else { 1 })
        } else {
            r == (CellSize { w: 8, h: 16 })
        },
{
    if width > 0 && height > 0 && columns > 0 && rows > 0 {
        let w = width / columns;
        let h = height / rows;
        CellSize {
            w: if w >= 1 {
                w
            } else {
                1
            },
            h: if h >= 1 {
                h
            } else {
                1
            },
        }
    } else {
        CellSize { w: 8, h: 16 }
    }
}

/// The box a single frame shown on its own (`--show`) is fitted into, in
/// pixels: seventy cells by twenty, about half a common terminal.
pub fn show_box(cell: CellSize) -> (r: (u32, u32))
    ensures
        r.0 == 70 * cell.w,
        r.1 == 20 * cell.h,
{
    (70 * cell.w as u32, 20 * cell.h as u32)
}

/// Image id the pane draws under.
pub const IMAGE_ID: u32 = 1;

/// Max base64 payload bytes per graphics escape, per the protocol.
pub const CHUNK: usize = 4096;

/// The characters of `s` as bytes (each character's low byte; the protocol's
/// text is ASCII).
pub open spec fn ascii(s: Seq<char>) -> Seq<u8> {
    s.map_values(|c: char| c as u8)
}

/// The character of the standard base64 alphabet for a six-bit value:
/// `A`-`Z`, `a`-`z`, `0`-`9`, `+`, `/`.
pub open spec fn b64_digit(v: int) -> u8 {
    if v < 26 {
        (65 + v) as u8
    } else if v < 52 {
        (97 + v - 26) as u8
    } else if v < 62 {
        (48 + v - 52) as u8
    } else if v == 62 {
        43u8
    } else {
        47u8
    }
}

/// Standard base64 with padding: every group of three bytes becomes four
/// characters of six bits each, high bits first; a last group of one or two
/// bytes is filled out with zero bits and padded with `=` to four characters.
#[verifier::opaque]
pub open spec fn base64_of(data: Seq<u8>) -> Seq<u8>
    decreases data.len(),
{
    if data.len() == 0 {
        seq![]
    } else if data.len() == 1 {
        let a = data[0] as int;
        seq![b64_digit(a / 4), b64_digit((a % 4) * 16), 61u8, 61u8]
    } else if data.len() == 2 {
        let a = data[0] as int;
        let b = data[1] as int;
        seq![b64_digit(a / 4), b64_digit((a % 4) * 16 + b / 16), b64_digit((b % 16) * 4), 61u8]
    } else {
        let a = data[0] as int;
        let b = data[1] as int;
        let c = data[2] as int;
        seq![
            b64_digit(a / 4),
            b64_digit((a % 4) * 16 + b / 16),
            b64_digit((b % 16) * 4 + c / 64),
            b64_digit(c % 64),
        ] + base64_of(data.subrange(3, data.len() as int))
    }
}

/// Encodes `data` with `base64`'s `STANDARD` engine (`Engine::encode`): the
/// alphabet `A`-`Z`, `a`-`z`, `0`-`9`, `+`, `/` with `=` padding, which is
/// what the contract claims through `base64_of`. Its source sizes the output
/// with `encoded_len` with padding: four bytes for every started group of
/// three. It panics when that size overflows, which `requires` rules out.
#[verifier::external_body]
pub(crate) fn base64_encode(data: &[u8]) -> (r: Vec<u8>)
    requires
        4 * (data@.len() / 3) + 4 <= usize::MAX,
    ensures
        r@ == base64_of(data@),
        r@.len() == 4 * (data@.len() / 3) + (if data@.len() % 3 == 0 { 0int } else { 4int }),
{
    STANDARD.encode(data).into_bytes()
}

/// Appends the bytes of `s`.
pub(crate) fn push_ascii(out: &mut Vec<u8>, s: &str)
    ensures
        final(out)@ == old(out)@ + ascii(s@),
{
    let cs = crate::unicode::chars_of(s);
    let ghost start = out@;
    let mut i: usize = 0;
    while i < cs.len()
        invariant
            i <= cs@.len(),
            cs@ == s@,
            out@ == start + ascii(cs@.take(i as int)),
        decreases cs@.len() - i,
    {
        out.push(cs[i] as u8);
        i += 1;
        proof {
            assert(ascii(cs@.take(i as int)) =~= ascii(cs@.take(i - 1)).push(cs@[i - 1] as u8));
            assert(out@ =~= start + ascii(cs@.take(i as int)));
        }
    }
    proof {
        assert(cs@.take(i as int) =~= cs@);
    }
}

/// Appends `n` in decimal.
fn push_decimal(out: &mut Vec<u8>, n: u64)
    ensures
        final(out)@ == old(out)@ + ascii(decimal(n as nat)),
{
    let mut s = String::new();
    crate::util::push_padded(&mut s, n, 0);
    push_ascii(out, s.as_str());
}

/// The bytes ending a graphics escape.
pub open spec fn st() -> Seq<u8> {
    ascii("\x1b\\"@)
}

/// The head of a transmit-and-display command for a `w`×`h` RGBA image,
/// with the cursor left in place when `keep_cursor`.
pub open spec fn graphics_head(w: nat, h: nat, keep_cursor: bool) -> Seq<u8> {
    ascii("\x1b_Ga=T,q=2,f=32,s="@) + ascii(decimal(w)) + ascii(",v="@) + ascii(decimal(h)) + ascii(
        ",i=1,p=1"@,
    ) + if keep_cursor {
        ascii(",C=1"@)
    } else {
        Seq::empty()
    }
}

/// `0` or `1`: whether more chunks follow.
pub open spec fn more_flag(more: bool) -> Seq<u8> {
    if more {
        ascii("1"@)
    } else {
        ascii("0"@)
    }
}

/// The head of one chunk: the full command head on the first, then only
/// whether more chunks follow.
pub open spec fn chunk_head(first: bool, more: bool, w: nat, h: nat, keep_cursor: bool) -> Seq<u8> {
    if first {
        graphics_head(w, h, keep_cursor) + ascii(",m="@) + more_flag(more) + ascii(";"@)
    } else {
        ascii("\x1b_Gm="@) + more_flag(more) + ascii(";"@)
    }
}

/// Appends the head of one chunk.
fn push_chunk_head(out: &mut Vec<u8>, first: bool, more: bool, w: u32, h: u32, keep_cursor: bool)
    ensures
        final(out)@ == old(out)@ + chunk_head(first, more, w as nat, h as nat, keep_cursor),
{
    let ghost before = out@;
    if first {
        push_head(out, w, h, keep_cursor);
        push_ascii(out, ",m=");
    } else {
        push_ascii(out, "\x1b_Gm=");
    }
    if more {
        push_ascii(out, "1");
    } else {
        push_ascii(out, "0");
    }
    push_ascii(out, ";");
    proof {
        assert(out@ =~= before + chunk_head(first, more, w as nat, h as nat, keep_cursor));
    }
}

/// Appends `b[from..to]`.
fn push_range(out: &mut Vec<u8>, b: &Vec<u8>, from: usize, to: usize)
    requires
        from <= to <= b@.len(),
    ensures
        final(out)@ == old(out)@ + b@.subrange(from as int, to as int),
{
    let ghost mid = out@;
    let mut k = from;
    while k < to
        invariant
            from <= k <= to <= b@.len(),
            out@ == mid + b@.subrange(from as int, k as int),
        decreases to - k,
    {
        out.push(b[k]);
        k += 1;
        proof {
            assert(out@ =~= mid + b@.subrange(from as int, k as int));
        }
    }
}

/// The escapes carrying `b[off..]` in chunks of [`CHUNK`] bytes: the first
/// one with the full head, the rest only saying whether more follow.
pub open spec fn chunk_msgs(b: Seq<u8>, off: int, first: bool, w: nat, h: nat, keep_cursor: bool) -> Seq<u8>
    decreases b.len() - off,
{
    if off < 0 || off >= b.len() {
        Seq::empty()
    } else {
        let end = if off + 4096 < b.len() {
            off + 4096
        } else {
            b.len() as int
        };
        let more = end < b.len();
        chunk_head(first, more, w, h, keep_cursor) + b.subrange(off, end) + st() + chunk_msgs(
            b,
            end,
            false,
            w,
            h,
            keep_cursor,
        )
    }
}

proof fn lemma_chunk_step(b: Seq<u8>, off: int, first: bool, w: nat, h: nat, keep_cursor: bool)
    requires
        0 <= off < b.len(),
    ensures
        ({
            let end = if off + 4096 < b.len() { off + 4096 } else { b.len() as int };
            chunk_msgs(b, off, first, w, h, keep_cursor) == chunk_head(first, end < b.len(), w, h, keep_cursor)
                + b.subrange(off, end) + st() + chunk_msgs(b, end, false, w, h, keep_cursor)
        }),
{
}

/// Transmit + display a `w`×`h` image whose base64 payload is `b64`: one
/// escape when it fits in a chunk, else chunked.
pub open spec fn transmit_of(w: nat, h: nat, b64: Seq<u8>, keep_cursor: bool) -> Seq<u8> {
    if b64.len() <= 4096 {
        graphics_head(w, h, keep_cursor) + ascii(";"@) + b64 + st()
    } else {
        chunk_msgs(b64, 0, true, w, h, keep_cursor)
    }
}

/// Transmit + display a frame as RGBA, chunked to the protocol's payload
/// limit. When `keep_cursor` is set, the cursor stays put (`C=1`) so a TUI
/// redraw isn't disturbed; otherwise the cursor advances past the image.
#[verifier::rlimit(40)]
pub fn transmit(frame: &Frame, keep_cursor: bool) -> (r: Vec<u8>)
    requires
        4 * (frame.rgba@.len() / 3) + 4 <= usize::MAX,
    ensures
        r@ == transmit_of(frame.width as nat, frame.height as nat, base64_of(frame.rgba@), keep_cursor),
{
    let b64 = base64_encode(frame.rgba.as_slice());
    let mut out: Vec<u8> = Vec::new();
    if b64.len() <= CHUNK {
        push_head(&mut out, frame.width, frame.height, keep_cursor);
        push_ascii(&mut out, ";");
        let ghost mid = out@;
        let mut k: usize = 0;
        while k < b64.len()
            invariant
                k <= b64@.len(),
                out@ == mid + b64@.take(k as int),
            decreases b64@.len() - k,
        {
            out.push(b64[k]);
            k += 1;
            proof {
                assert(out@ =~= mid + b64@.take(k as int));
            }
        }
        proof {
            assert(b64@.take(k as int) =~= b64@);
        }
        push_ascii(&mut out, "\x1b\\");
        proof {
            assert(out@ =~= transmit_of(frame.width as nat, frame.height as nat, b64@, keep_cursor));
        }
        return out;
    }
    let ghost b = b64@;
    let ghost (w, h) = (frame.width as nat, frame.height as nat);
    let mut offset: usize = 0;
    let mut first = true;
    while offset < b64.len()
        invariant
            b == b64@,
            offset <= b64@.len(),
            out@ + chunk_msgs(b, offset as int, first, w, h, keep_cursor) == chunk_msgs(b, 0, true, w, h, keep_cursor),
            w == frame.width as nat,
            h == frame.height as nat,
        decreases b64@.len() - offset,
    {
        let end = if b64.len() - offset > CHUNK {
            offset + CHUNK
        } else {
            b64.len()
        };
        let more = end < b64.len();
        let ghost before = out@;
        let ghost rest = chunk_msgs(b, end as int, false, w, h, keep_cursor);
        let ghost piece = chunk_head(first, more, w, h, keep_cursor) + b.subrange(offset as int, end as int) + st();
        proof {
            lemma_chunk_step(b, offset as int, first, w, h, keep_cursor);
        }
        push_chunk_head(&mut out, first, more, frame.width, frame.height, keep_cursor);
        push_range(&mut out, &b64, offset, end);
        push_ascii(&mut out, "\x1b\\");
        proof {
            assert(out@ =~= before + piece);
            assert(out@ + rest =~= before + (piece + rest));
        }
        first = false;
        offset = end;
    }
    proof {
        assert(out@ =~= out@ + chunk_msgs(b, offset as int, first, w, h, keep_cursor));
    }
    out
}

/// Appends the head of a transmit-and-display command.
fn push_head(out: &mut Vec<u8>, w: u32, h: u32, keep_cursor: bool)
    ensures
        final(out)@ == old(out)@ + graphics_head(w as nat, h as nat, keep_cursor),
{
    push_ascii(out, "\x1b_Ga=T,q=2,f=32,s=");
    push_decimal(out, w as u64);
    push_ascii(out, ",v=");
    push_decimal(out, h as u64);
    push_ascii(out, ",i=1,p=1");
    if keep_cursor {
        push_ascii(out, ",C=1");
    }
    proof {
        assert(final(out)@ =~= old(out)@ + graphics_head(w as nat, h as nat, keep_cursor)) by {
            if !keep_cursor {
                assert(old(out)@ + graphics_head(w as nat, h as nat, false) =~= old(out)@ + ascii(
                    "\x1b_Ga=T,q=2,f=32,s="@,
                ) + ascii(decimal(w as nat)) + ascii(",v="@) + ascii(decimal(h as nat)) + ascii(
                    ",i=1,p=1"@,
                ));
            }
        }
    }
}

/// Emit a single frame at the current cursor position and let the cursor
/// advance past it. Used by the standalone `--show` spike to verify the
/// protocol works in a given terminal.
pub fn print_frame(frame: &Frame) -> (r: Vec<u8>)
    requires
        4 * (frame.rgba@.len() / 3) + 4 <= usize::MAX,
    ensures
        r@ == transmit_of(frame.width as nat, frame.height as nat, base64_of(frame.rgba@), false) + ascii(
            "\n"@,
        ),
{
    let mut out = transmit(frame, false);
    push_ascii(&mut out, "\n");
    out
}

/// Paints frames into a terminal rect with the kitty graphics protocol.
pub struct KittyPane {
    /// The frame to draw next.
    pub frame: Option<Frame>,
    /// The frame changed since it was last drawn.
    pub dirty: bool,
    /// Where it was last drawn.
    pub last_rect: Option<Rect>,
    /// Whether an image is on screen.
    pub drawn: bool,
}

/// `a / b`, rounded up.
pub open spec fn div_ceil(a: int, b: int) -> int {
    (a + b - 1) / b
}

/// What drawing `frame` into `rect` sends: the old placement is dropped
/// first (so a smaller frame leaves no remnants), the cursor goes to where
/// the image is centred in the rect, and the frame is transmitted there.
pub open spec fn present_bytes(frame: Frame, rect: Rect, cell: CellSize, drawn: bool) -> Seq<u8> {
    let cols = div_ceil(frame.width as int, cell.w as int) as u16;
    let rows = div_ceil(frame.height as int, cell.h as int) as u16;
    let col = rect.x + crate::ui::sat_sub(rect.width as int, cols as int) / 2;
    let row = rect.y + crate::ui::sat_sub(rect.height as int, rows as int) / 2;
    (if drawn {
        ascii("\x1b_Ga=d,d=i,i=1\x1b\\"@)
    } else {
        Seq::empty()
    }) + ascii("\x1b["@) + ascii(decimal((row + 1) as nat)) + ascii(";"@) + ascii(decimal((col + 1) as nat))
        + ascii("H"@) + transmit_of(frame.width as nat, frame.height as nat, base64_of(frame.rgba@), true)
}

impl KittyPane {
    /// A pane with nothing to draw.
    pub fn new() -> (r: KittyPane)
        ensures
            r.frame is None && !r.dirty && r.last_rect is None && !r.drawn,
    {
        KittyPane { frame: None, dirty: false, last_rect: None, drawn: false }
    }

    /// Stash a freshly decoded frame to be drawn on the next `present`.
    pub fn set_frame(&mut self, frame: Frame)
        ensures
            *final(self) == (KittyPane { frame: Some(frame), dirty: true, ..*old(self) }),
    {
        self.frame = Some(frame);
        self.dirty = true;
    }

    /// Force a redraw on the next `present` (e.g. after a full-screen repaint).
    pub fn invalidate(&mut self)
        ensures
            *final(self) == (KittyPane { dirty: true, last_rect: None, ..*old(self) }),
    {
        self.dirty = true;
        self.last_rect = None;
    }

    /// The escapes that draw the current frame inside `rect`, when it needs
    /// drawing: it changed, or the rect did. An empty rect draws nothing.
    pub fn present(&mut self, rect: Rect, cell: CellSize) -> (r: Vec<u8>)
        requires
            cell.w > 0 && cell.h > 0,
            rect.x + rect.width <= u16::MAX,
            rect.y + rect.height < u16::MAX,
            old(self).frame matches Some(f) ==> 4 * (f.rgba@.len() / 3) + 4 <= usize::MAX,
        ensures
            ({
                let a = *old(self);
                match a.frame {
                    None => r@.len() == 0 && *final(self) == a,
                    Some(f) => if (!a.dirty && a.last_rect == Some(rect)) || rect.width == 0
                        || rect.height == 0 {
                        r@.len() == 0 && *final(self) == a
                    } else {
                        &&& r@ == present_bytes(f, rect, cell, a.drawn)
                        &&& *final(self) == (KittyPane {
                            drawn: true,
                            dirty: false,
                            last_rect: Some(rect),
                            ..a
                        })
                    },
                }
            }),
    {
        let same_rect = match self.last_rect {
            Some(l) => l == rect,
            None => false,
        };
        let mut out: Vec<u8> = Vec::new();
        match &self.frame {
            None => {
                return out;
            },
            Some(frame) => {
                if (!self.dirty && same_rect) || rect.width == 0 || rect.height == 0 {
                    return out;
                }
                let cols = ((frame.width as u64 + cell.w as u64 - 1) / cell.w as u64) as u16;
                let rows = ((frame.height as u64 + cell.h as u64 - 1) / cell.h as u64) as u16;
                let col = rect.x + rect.width.saturating_sub(cols) / 2;
                let row = rect.y + rect.height.saturating_sub(rows) / 2;
                if self.drawn {
                    push_ascii(&mut out, "\x1b_Ga=d,d=i,i=1\x1b\\");
                }
                push_ascii(&mut out, "\x1b[");
                push_decimal(&mut out, row as u64 + 1);
                push_ascii(&mut out, ";");
                push_decimal(&mut out, col as u64 + 1);
                push_ascii(&mut out, "H");
                let image = transmit(frame, true);
                let ghost before = out@;
                let mut image = image;
                out.append(&mut image);
                proof {
                    assert(out@ =~= present_bytes(*frame, rect, cell, self.drawn));
                }
            },
        }
        self.drawn = true;
        self.dirty = false;
        self.last_rect = Some(rect);
        out
    }

    /// The escapes that remove the drawn image (on teardown or exit).
    pub fn clear(&mut self) -> (r: Vec<u8>)
        ensures
            old(self).drawn ==> r@ == ascii("\x1b_Ga=d,d=I,i=1\x1b\\"@) && *final(self) == (KittyPane {
                drawn: false,
                last_rect: None,
                ..*old(self)
            }),
            !old(self).drawn ==> r@.len() == 0 && *final(self) == *old(self),
    {
        let mut out: Vec<u8> = Vec::new();
        if self.drawn {
            push_ascii(&mut out, "\x1b_Ga=d,d=I,i=1\x1b\\");
            self.drawn = false;
            self.last_rect = None;
        }
        out
    }
}

} // verus!
