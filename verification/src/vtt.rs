//! WebVTT document model. `subtp` reads and writes the file; the document
//! keeps every block in order so NOTE, STYLE and REGION blocks survive a
//! load/edit/save round-trip, and holds cues as plain values so editing them
//! is checked here. Editing operations address cues by their ordinal position
//! among the cue blocks. Times are whole milliseconds.

use subtp::vtt::{CueSettings, VttBlock, VttCue, VttHeader, VttTimestamp, VttTimings, WebVtt};
use subtp::ParseError;
use vstd::prelude::*;
use crate::text::{index_of, split};
use crate::unicode::{chars_of, push_char, push_str, string_of_range};
use crate::util::padded;

verus! {

/// `subtp`'s WebVTT header, carried through opaque.
#[verifier::external_type_specification]
#[verifier::external_body]
pub struct ExVttHeader(VttHeader);

/// A `subtp` block that is not a cue (NOTE, STYLE, REGION), carried through opaque.
#[verifier::external_type_specification]
#[verifier::external_body]
pub struct ExVttBlock(VttBlock);

/// A cue's settings as `subtp` reads them, carried through opaque.
#[verifier::external_type_specification]
#[verifier::external_body]
pub struct ExCueSettings(CueSettings);

/// Why `subtp` refused a text, carried to its message.
#[verifier::external_type_specification]
#[verifier::external_body]
pub struct ExParseError(ParseError);

/// `subtp`'s timestamp, taken apart into [`Timestamp`] at once.
#[verifier::external_type_specification]
#[verifier::external_body]
pub struct ExVttTimestamp(VttTimestamp);

/// A cue time as WebVTT writes it.
#[derive(Clone, Copy, Debug, PartialEq, Eq, Structural)]
pub struct Timestamp {
    pub hours: u8,
    pub minutes: u8,
    pub seconds: u8,
    pub milliseconds: u16,
}

/// A cue: optional identifier, its timings and settings, and its lines of text.
pub struct Cue {
    pub identifier: Option<String>,
    pub start: Timestamp,
    pub end: Timestamp,
    pub settings: Option<CueSettings>,
    pub payload: Vec<String>,
}

/// A block of the file: a cue, or anything else (NOTE, STYLE, REGION), kept
/// as `subtp` read it.
pub enum Block {
    Cue(Cue),
    Other(VttBlock),
}

/// A WebVTT document.
pub struct VttDoc {
    header: VttHeader,
    blocks: Vec<Block>,
}

/// Why a WebVTT text could not be read.
pub struct VttParseError {
    pub message: String,
}

/// The cues `subtp` reads from a WebVTT text, as `(start ms, end ms, lines)`;
/// `None` when it rejects the text.
pub uninterp spec fn vtt_cues(text: Seq<char>) -> Option<Seq<(int, int, Seq<Seq<char>>)>>;

/// Milliseconds a timestamp stands for.
pub open spec fn ts_ms(t: Timestamp) -> int {
    t.hours * 3_600_000 + t.minutes * 60_000 + t.seconds * 1000 + t.milliseconds
}

/// The timestamp `subtp` makes of a duration of `ms` milliseconds: hours wrap
/// past 255.
pub open spec fn ts_of_ms(ms: nat) -> Timestamp {
    let secs = ms / 1000;
    Timestamp {
        hours: ((secs / 3600) % 256) as u8,
        minutes: ((secs % 3600) / 60) as u8,
        seconds: (secs % 60) as u8,
        milliseconds: (ms % 1000) as u16,
    }
}

/// The lines of a cue's payload, as text.
pub open spec fn payload_view(c: Cue) -> Seq<Seq<char>> {
    c.payload@.map_values(|s: String| s@)
}

/// The cue a block holds (arbitrary for other blocks).
pub open spec fn cue_of(b: Block) -> Cue {
    match b {
        Block::Cue(c) => c,
        Block::Other(_) => arbitrary(),
    }
}

/// Block indices of the cues among `bs`, in order.
pub open spec fn cue_blocks(bs: Seq<Block>) -> Seq<int>
    decreases bs.len(),
{
    if bs.len() == 0 {
        Seq::empty()
    } else {
        let r = cue_blocks(bs.drop_last());
        if bs.last() is Cue {
            r.push(bs.len() - 1)
        } else {
            r
        }
    }
}

/// The `k`-th cue of `bs`.
pub open spec fn nth_cue(bs: Seq<Block>, k: int) -> Cue {
    cue_of(bs[cue_blocks(bs)[k]])
}

/// The blocks that are not cues, in order.
pub open spec fn other_blocks(bs: Seq<Block>) -> Seq<VttBlock>
    decreases bs.len(),
{
    if bs.len() == 0 {
        Seq::empty()
    } else {
        let r = other_blocks(bs.drop_last());
        match bs.last() {
            Block::Other(o) => r.push(o),
            Block::Cue(_) => r,
        }
    }
}

/// `(start ms, end ms, lines)` of each cue of `bs`.
pub open spec fn cue_summary(bs: Seq<Block>) -> Seq<(int, int, Seq<Seq<char>>)> {
    Seq::new(
        cue_blocks(bs).len(),
        |k: int| (ts_ms(nth_cue(bs, k).start), ts_ms(nth_cue(bs, k).end), payload_view(nth_cue(bs, k))),
    )
}

proof fn lemma_cue_blocks(bs: Seq<Block>)
    ensures
        forall|k: int|
            0 <= k < cue_blocks(bs).len() ==> 0 <= #[trigger] cue_blocks(bs)[k] < bs.len() && bs[cue_blocks(
                bs,
            )[k]] is Cue,
        forall|i: int, j: int|
            0 <= i < j < cue_blocks(bs).len() ==> cue_blocks(bs)[i] < cue_blocks(bs)[j],
        cue_blocks(bs).len() <= bs.len(),
    decreases bs.len(),
{
    if bs.len() > 0 {
        lemma_cue_blocks(bs.drop_last());
    }
}

/// Reads a WebVTT text with `subtp::vtt::WebVtt::parse`, taking the cue blocks
/// apart into plain values. What `subtp` accepts and what cues it finds is
/// left to the name `vtt_cues`; its header and other blocks are carried along
/// unread.
#[verifier::external_body]
fn parse_webvtt(text: &str) -> (r: Result<(VttHeader, Vec<Block>), ParseError>)
    ensures
        r matches Ok((_, bs)) ==> vtt_cues(text@) == Some(cue_summary(bs@)),
        r is Err ==> vtt_cues(text@) is None,
{
    let doc = WebVtt::parse(text)?;
    Ok((doc.header, doc.blocks.into_iter().map(block_from).collect()))
}

/// Takes a `subtp` block apart: a cue into its fields, anything else as is.
#[verifier::external_body]
fn block_from(b: VttBlock) -> Block {
    match b {
        VttBlock::Que(c) => Block::Cue(Cue {
            identifier: c.identifier,
            start: ts_from(c.timings.start),
            end: ts_from(c.timings.end),
            settings: c.settings,
            payload: c.payload,
        }),
        other => Block::Other(other),
    }
}

/// A `subtp` timestamp's fields.
#[verifier::external_body]
fn ts_from(t: VttTimestamp) -> Timestamp {
    Timestamp { hours: t.hours, minutes: t.minutes, seconds: t.seconds, milliseconds: t.milliseconds }
}

/// A timestamp as `subtp` writes it (`{:02}:{:02}:{:02}.{:03}`).
pub open spec fn ts_text(t: Timestamp) -> Seq<char> {
    padded(t.hours as nat, 2) + seq![':'] + padded(t.minutes as nat, 2) + seq![':'] + padded(
        t.seconds as nat,
        2,
    ) + seq!['.'] + padded(t.milliseconds as nat, 3)
}

/// A cue as `subtp` writes it: its identifier on a line of its own when it
/// has one, the timings, its settings after a blank when it has them (as the
/// text `settings`), then its lines, each ended by a line break.
pub open spec fn cue_text(c: Cue, settings: Option<Seq<char>>) -> Seq<char> {
    (match c.identifier {
        Some(id) => id@ + seq!['\n'],
        None => Seq::empty(),
    }) + ts_text(c.start) + " --> "@ + ts_text(c.end) + (match settings {
        Some(st) => seq![' '] + st,
        None => Seq::empty(),
    }) + seq!['\n'] + join_lines(payload_view(c)) + seq!['\n']
}

/// `text` is a document with the blocks `bs` as `subtp` writes it, where the
/// header adds `desc` after `WEBVTT`, the blocks are written as `texts` and
/// the cues' settings as `settings`: the header line, an empty line, then the
/// blocks one after another with a line break between two, each cue written
/// as [`cue_text`] says.
pub open spec fn laid_out(
    text: Seq<char>,
    bs: Seq<Block>,
    desc: Seq<char>,
    texts: Seq<Seq<char>>,
    settings: Seq<Option<Seq<char>>>,
) -> bool {
    &&& texts.len() == bs.len()
    &&& settings.len() == bs.len()
    &&& forall|i: int|
        0 <= i < bs.len() && (#[trigger] bs[i]) is Cue ==> {
            &&& (settings[i] is Some <==> cue_of(bs[i]).settings is Some)
            &&& texts[i] == cue_text(cue_of(bs[i]), settings[i])
        }
    &&& text == "WEBVTT"@ + desc + seq!['\n', '\n'] + join_lines(texts)
}

/// `text` is how `subtp` writes a document with the blocks `bs`, for some
/// header description and some texts of the blocks other than cues and of
/// the cues' settings.
pub open spec fn renders_as(text: Seq<char>, bs: Seq<Block>) -> bool {
    exists|desc: Seq<char>, texts: Seq<Seq<char>>, settings: Seq<Option<Seq<char>>>|
        #[trigger] laid_out(text, bs, desc, texts, settings)
}

/// Renders the document with `subtp::vtt::WebVtt::render`, putting each cue
/// back together from its fields. Its source writes the header (`WEBVTT`, then
/// its description if any, then a line break), a line break, and the blocks
/// with a line break between two; a cue is written as [`cue_text`] says. What
/// the header's description, the settings and the blocks other than cues
/// (NOTE, STYLE, REGION) write is left open.
#[verifier::external_body]
fn render_webvtt(header: &VttHeader, blocks: &Vec<Block>) -> (r: String)
    ensures
        renders_as(r@, blocks@),
{
    WebVtt { header: header.clone(), blocks: blocks.iter().map(block_into).collect() }.render()
}

/// Puts a `subtp` block back together.
#[verifier::external_body]
fn block_into(b: &Block) -> VttBlock {
    match b {
        Block::Cue(c) => VttBlock::Que(VttCue {
            identifier: c.identifier.clone(),
            timings: VttTimings { start: ts_into(c.start), end: ts_into(c.end) },
            settings: c.settings.clone(),
            payload: c.payload.clone(),
        }),
        Block::Other(o) => o.clone(),
    }
}

/// A `subtp` timestamp from its fields.
#[verifier::external_body]
fn ts_into(t: Timestamp) -> VttTimestamp {
    VttTimestamp { hours: t.hours, minutes: t.minutes, seconds: t.seconds, milliseconds: t.milliseconds }
}

/// The header `subtp` gives a new document (`VttHeader::default`).
#[verifier::external_body]
fn default_header() -> VttHeader {
    VttHeader::default()
}

/// The message of a `subtp` parse error (its `Display`).
#[verifier::external_body]
fn parse_error_message(e: &ParseError) -> String {
    e.to_string()
}

impl VttDoc {
    /// A document has no more cues than a `usize` can count.
    pub proof fn lemma_cue_count_fits(&self)
        ensures
            cue_blocks(self@).len() <= usize::MAX,
    {
        lemma_cue_blocks(self@);
        assert(self.blocks@.len() == self.blocks.len());
    }
}

impl VttDoc {
    /// The document's header, as it was read or made; editing the cues
    /// leaves it as it is.
    pub closed spec fn header(&self) -> VttHeader {
        self.header
    }
}

impl View for VttDoc {
    type V = Seq<Block>;

    closed spec fn view(&self) -> Seq<Block> {
        self.blocks@
    }
}

impl VttDoc {
    /// An empty document (a `--vtt` target that doesn't exist yet).
    pub fn empty() -> (r: Self)
        ensures
            r@.len() == 0,
    {
        VttDoc { header: default_header(), blocks: Vec::new() }
    }

    /// Read a WebVTT text.
    pub fn parse(text: &str) -> (r: Result<Self, VttParseError>)
        ensures
            r matches Ok(d) ==> vtt_cues(text@) == Some(cue_summary(d@)),
            r is Err ==> vtt_cues(text@) is None,
    {
        match parse_webvtt(text) {
            Ok((header, blocks)) => Ok(VttDoc { header, blocks }),
            Err(e) => Err(VttParseError { message: parse_error_message(&e) }),
        }
    }

    /// The document as WebVTT text: the header line, an empty line, then the
    /// blocks in order with a line break between two, each cue written as
    /// [`cue_text`] says.
    pub fn render(&self) -> (r: String)
        ensures
            renders_as(r@, self@),
    {
        render_webvtt(&self.header, &self.blocks)
    }

    /// Block indices that are cues, in document order.
    fn cue_indices(&self) -> (r: Vec<usize>)
        ensures
            r@.map_values(|i: usize| i as int) == cue_blocks(self@),
    {
        let mut r: Vec<usize> = Vec::new();
        let mut i: usize = 0;
        proof {
            assert(self@.take(0) =~= Seq::<Block>::empty());
            assert(r@.map_values(|i: usize| i as int) =~= cue_blocks(self@.take(0)));
        }
        while i < self.blocks.len()
            invariant
                i <= self@.len(),
                self@.len() == self.blocks@.len(),
                r@.map_values(|i: usize| i as int) == cue_blocks(self@.take(i as int)),
            decreases self@.len() - i,
        {
            proof {
                assert(self@.take(i + 1).drop_last() =~= self@.take(i as int));
            }
            match &self.blocks[i] {
                Block::Cue(_) => {
                    proof {
                        assert(r@.push(i).map_values(|i: usize| i as int) =~= r@.map_values(
                            |i: usize| i as int,
                        ).push(i as int));
                    }
                    r.push(i);
                },
                Block::Other(_) => {},
            }
            i += 1;
        }
        proof {
            assert(self@.take(i as int) =~= self@);
        }
        r
    }

    /// How many cues the document holds.
    pub fn cue_count(&self) -> (n: usize)
        ensures
            n == cue_blocks(self@).len(),
    {
        let idx = self.cue_indices();
        idx.len()
    }
}


/// Lines joined with `\n` between them.
pub open spec fn join_lines(ls: Seq<Seq<char>>) -> Seq<char>
    decreases ls.len(),
{
    if ls.len() == 0 {
        Seq::empty()
    } else if ls.len() == 1 {
        ls[0]
    } else {
        join_lines(ls.drop_last()) + seq!['\n'] + ls.last()
    }
}

/// `p` without one trailing carriage return.
pub open spec fn strip_cr(p: Seq<char>) -> Seq<char> {
    if p.len() > 0 && p.last() == '\r' {
        p.drop_last()
    } else {
        p
    }
}

/// The lines of `s` as `str::lines` yields them: split at `\n` (a `\r` just
/// before it goes too), with no empty line after a final line ending.
pub open spec fn text_lines(s: Seq<char>) -> Seq<Seq<char>> {
    let pieces = split(s, '\n');
    if pieces.last().len() == 0 {
        pieces.drop_last().map_values(|p: Seq<char>| strip_cr(p))
    } else {
        Seq::new(
            pieces.len(),
            |i: int| if i < pieces.len() - 1 { strip_cr(pieces[i]) } else { pieces[i] },
        )
    }
}

/// The payload a cue gets for the text `s`: its lines, or one empty line.
pub open spec fn payload_of(s: Seq<char>) -> Seq<Seq<char>> {
    if text_lines(s).len() == 0 {
        seq![Seq::<char>::empty()]
    } else {
        text_lines(s)
    }
}

/// The ordinal of the first cue from `k` on that starts after `t` ms, or the
/// number of cues.
pub open spec fn first_later(bs: Seq<Block>, t: int, k: int) -> int
    decreases cue_blocks(bs).len() - k,
{
    if k < 0 || k >= cue_blocks(bs).len() {
        cue_blocks(bs).len() as int
    } else if ts_ms(nth_cue(bs, k).start) > t {
        k
    } else {
        first_later(bs, t, k + 1)
    }
}

/// The first cue from ordinal `k` on that is running at `t` ms.
pub open spec fn first_covering(bs: Seq<Block>, t: int, k: int) -> Option<int>
    decreases cue_blocks(bs).len() - k,
{
    if k < 0 || k >= cue_blocks(bs).len() {
        None
    } else if ts_ms(nth_cue(bs, k).start) <= t < ts_ms(nth_cue(bs, k).end) {
        Some(k)
    } else {
        first_covering(bs, t, k + 1)
    }
}

/// `after` is `before` with block `i` replaced by a cue that differs from the
/// old one at most in the fields the caller names.
pub open spec fn same_but(before: Seq<Block>, after: Seq<Block>, i: int) -> bool {
    &&& after.len() == before.len()
    &&& 0 <= i < before.len()
    &&& before[i] is Cue && after[i] is Cue
    &&& cue_of(after[i]).identifier == cue_of(before[i]).identifier
    &&& cue_of(after[i]).settings == cue_of(before[i]).settings
    &&& forall|j: int| 0 <= j < before.len() && j != i ==> after[j] == before[j]
}

/// Milliseconds of a timestamp.
fn ts_millis(t: Timestamp) -> (r: u64)
    ensures
        r == ts_ms(t),
{
    t.hours as u64 * 3_600_000 + t.minutes as u64 * 60_000 + t.seconds as u64 * 1000
        + t.milliseconds as u64
}

/// The timestamp for `ms` milliseconds, hours wrapping past 255 as `subtp`'s
/// conversion from a duration does.
fn ts_from_ms(ms: u64) -> (r: Timestamp)
    ensures
        r == ts_of_ms(ms as nat),
{
    let secs = ms / 1000;
    Timestamp {
        hours: ((secs / 3600) % 256) as u8,
        minutes: ((secs % 3600) / 60) as u8,
        seconds: (secs % 60) as u8,
        milliseconds: (ms % 1000) as u16,
    }
}

/// The lines of `text` as `str::lines` yields them.
pub(crate) fn lines_of(text: &str) -> (r: Vec<String>)
    ensures
        r@.map_values(|s: String| s@) == text_lines(text@),
{
    let t = chars_of(text);
    let ghost pieces = split(t@, '\n');
    let mut out: Vec<String> = Vec::new();
    let mut start: usize = 0;
    let ghost mut count: int = 0;
    proof {
        assert(pieces.skip(0) =~= pieces);
        assert(t@.subrange(0, t@.len() as int) =~= t@);
        assert(out@.map_values(|s: String| s@) =~= pieces.take(0).map_values(|p: Seq<char>| strip_cr(p)));
    }
    loop
        invariant
            start <= t.len(),
            t@ == text@,
            pieces == split(t@, '\n'),
            0 <= count < pieces.len(),
            pieces.skip(count) == split(t@.subrange(start as int, t@.len() as int), '\n'),
            out@.map_values(|s: String| s@) == pieces.take(count).map_values(|p: Seq<char>| strip_cr(p)),
        decreases t.len() - start,
    {
        let ghost rem = t@.subrange(start as int, t@.len() as int);
        let end = crate::text::find_char(&t, start, t.len(), '\n');
        proof {
            crate::text::lemma_index_of_bounds(rem, '\n', 0);
            lemma_split_head(rem, '\n');
            assert(pieces[count] == pieces.skip(count)[0]);
            assert(rem.take(end - start) =~= t@.subrange(start as int, end as int));
            if end == t.len() {
                assert(rem =~= t@.subrange(start as int, end as int));
            }
            assert(pieces[count] == t@.subrange(start as int, end as int));
        }
        if end == t.len() {
            proof {
                assert(pieces.skip(count).len() == 1);
                assert(count == pieces.len() - 1);
            }
            if end > start {
                let last = string_of_range(&t, start, end);
                let ghost before = out@.map_values(|s: String| s@);
                out.push(last);
                proof {
                    let v = out@.map_values(|s: String| s@);
                    assert(v =~= before.push(pieces[count]));
                    assert(pieces.last() == pieces[count]);
                    assert(pieces.last().len() > 0);
                    let tl = Seq::new(
                        pieces.len(),
                        |i: int| if i < pieces.len() - 1 { strip_cr(pieces[i]) } else { pieces[i] },
                    );
                    assert(tl == text_lines(text@));
                    assert forall|i: int| 0 <= i < v.len() implies v[i] == tl[i] by {
                        if i < count {
                            assert(v[i] == before[i]);
                        }
                    }
                    assert(v =~= tl);
                }
            } else {
                proof {
                    assert(pieces.drop_last() =~= pieces.take(count));
                }
            }
            return out;
        }
        // A line ended by `\n`: drop a `\r` just before it.
        let e = if end > start && t[end - 1] == '\r' {
            end - 1
        } else {
            end
        };
        let line = string_of_range(&t, start, e);
        proof {
            let p = t@.subrange(start as int, end as int);
            assert(line@ =~= strip_cr(p));
            assert(pieces.take(count + 1).map_values(|p: Seq<char>| strip_cr(p)) =~= pieces.take(
                count,
            ).map_values(|p: Seq<char>| strip_cr(p)).push(strip_cr(pieces[count])));
            assert(rem.skip(end - start + 1) =~= t@.subrange(end + 1, t@.len() as int));
            assert(pieces.skip(count + 1) =~= pieces.skip(count).drop_first());
            assert(pieces.skip(count + 1).len() >= 1);
        }
        out.push(line);
        proof {
            count = count + 1;
        }
        start = end + 1;
    }
}

/// `split` of a text with a separator in it starts with the part before it.
proof fn lemma_split_head(s: Seq<char>, sep: char)
    ensures
        split(s, sep).len() >= 1,
        index_of(s, sep, 0) >= s.len() ==> split(s, sep) == seq![s] && index_of(s, sep, 0) == s.len(),
        index_of(s, sep, 0) < s.len() ==> split(s, sep) == seq![s.take(index_of(s, sep, 0))]
            + split(s.skip(index_of(s, sep, 0) + 1), sep),
{
    crate::text::lemma_index_of_bounds(s, sep, 0);
}

/// The payload for `text`: its lines, or one empty line.
fn payload_for(text: &str) -> (r: Vec<String>)
    ensures
        r@.map_values(|s: String| s@) == payload_of(text@),
{
    let mut lines = lines_of(text);
    if lines.len() == 0 {
        lines.push(String::new());
        proof {
            assert(lines@.map_values(|s: String| s@) =~= seq![Seq::<char>::empty()]);
        }
    }
    lines
}

/// The lines joined with `\n`.
fn join(lines: &Vec<String>) -> (r: String)
    ensures
        r@ == join_lines(lines@.map_values(|s: String| s@)),
{
    let ghost v = lines@.map_values(|s: String| s@);
    let mut out = String::new();
    let mut i: usize = 0;
    proof {
        assert(v.take(0) =~= Seq::<Seq<char>>::empty());
    }
    while i < lines.len()
        invariant
            i <= lines@.len(),
            v == lines@.map_values(|s: String| s@),
            out@ == join_lines(v.take(i as int)),
        decreases lines@.len() - i,
    {
        if i > 0 {
            push_char(&mut out, '\n');
        }
        push_str(&mut out, lines[i].as_str());
        proof {
            assert(v.take(i + 1).drop_last() =~= v.take(i as int));
            if i == 0 {
                assert(v.take(1) =~= seq![v[0]]);
            }
        }
        i += 1;
    }
    proof {
        assert(v.take(i as int) =~= v);
    }
    out
}


impl VttDoc {
    /// The block index of cue `n`, if there is such a cue.
    fn cue_block(&self, n: usize) -> (r: Option<usize>)
        ensures
            match r {
                Some(bi) => n < cue_blocks(self@).len() && bi == cue_blocks(self@)[n as int] && bi
                    < self@.len() && self@[bi as int] is Cue,
                None => n >= cue_blocks(self@).len(),
            },
    {
        let idx = self.cue_indices();
        proof {
            lemma_cue_blocks(self@);
        }
        if n < idx.len() {
            proof {
                assert(idx@.map_values(|i: usize| i as int)[n as int] == idx@[n as int] as int);
            }
            Some(idx[n])
        } else {
            None
        }
    }

    /// `(start, end, text)` for each cue, in order — for rendering. Times are
    /// milliseconds; a cue's lines are joined with `\n`.
    pub fn cue_rows(&self) -> (r: Vec<(u64, u64, String)>)
        ensures
            r@.len() == cue_blocks(self@).len(),
            forall|k: int|
                0 <= k < r@.len() ==> {
                    &&& r@[k].0 == ts_ms(nth_cue(self@, k).start)
                    &&& r@[k].1 == ts_ms(nth_cue(self@, k).end)
                    &&& r@[k].2@ == join_lines(payload_view(nth_cue(self@, k)))
                },
    {
        let idx = self.cue_indices();
        proof {
            lemma_cue_blocks(self@);
        }
        let mut out: Vec<(u64, u64, String)> = Vec::new();
        let mut k: usize = 0;
        while k < idx.len()
            invariant
                k <= idx@.len(),
                idx@.map_values(|i: usize| i as int) == cue_blocks(self@),
                self@.len() == self.blocks@.len(),
                out@.len() == k,
                forall|j: int|
                    0 <= j < k ==> {
                        &&& out@[j].0 == ts_ms(nth_cue(self@, j).start)
                        &&& out@[j].1 == ts_ms(nth_cue(self@, j).end)
                        &&& out@[j].2@ == join_lines(payload_view(nth_cue(self@, j)))
                    },
                forall|j: int|
                    0 <= j < cue_blocks(self@).len() ==> 0 <= #[trigger] cue_blocks(self@)[j]
                        < self@.len() && self@[cue_blocks(self@)[j]] is Cue,
            decreases idx@.len() - k,
        {
            let bi = idx[k];
            proof {
                assert(idx@.map_values(|i: usize| i as int)[k as int] == bi as int);
            }
            match &self.blocks[bi] {
                Block::Cue(c) => {
                    out.push((ts_millis(c.start), ts_millis(c.end), join(&c.payload)));
                },
                Block::Other(_) => {
                    proof {
                        assert(false);
                    }
                },
            }
            k += 1;
        }
        out
    }

    /// `(start, end)` of cue `n`, in milliseconds.
    pub fn cue_times(&self, n: usize) -> (r: Option<(u64, u64)>)
        ensures
            r == (if n < cue_blocks(self@).len() {
                Some(
                    (
                        ts_ms(nth_cue(self@, n as int).start) as u64,
                        ts_ms(nth_cue(self@, n as int).end) as u64,
                    ),
                )
            } else {
                None::<(u64, u64)>
            }),
    {
        match self.cue_block(n) {
            Some(bi) => match &self.blocks[bi] {
                Block::Cue(c) => Some((ts_millis(c.start), ts_millis(c.end))),
                Block::Other(_) => {
                    proof {
                        assert(false);
                    }
                    None
                },
            },
            None => None,
        }
    }

    /// The text of cue `n`, its lines joined with `\n`.
    pub fn cue_text(&self, n: usize) -> (r: Option<String>)
        ensures
            match r {
                Some(s) => n < cue_blocks(self@).len() && s@ == join_lines(
                    payload_view(nth_cue(self@, n as int)),
                ),
                None => n >= cue_blocks(self@).len(),
            },
    {
        match self.cue_block(n) {
            Some(bi) => match &self.blocks[bi] {
                Block::Cue(c) => Some(join(&c.payload)),
                Block::Other(_) => {
                    proof {
                        assert(false);
                    }
                    None
                },
            },
            None => None,
        }
    }

    /// The cue active at `playhead` ms (start <= t < end), if any: the first
    /// such cue when several overlap.
    pub fn active_cue(&self, playhead: u64) -> (r: Option<usize>)
        ensures
            r == (match first_covering(self@, playhead as int, 0) {
                Some(k) => Some(k as usize),
                None => None::<usize>,
            }),
    {
        let rows = self.cue_rows();
        let mut k: usize = 0;
        while k < rows.len()
            invariant
                k <= rows@.len(),
                rows@.len() == cue_blocks(self@).len(),
                forall|j: int|
                    0 <= j < rows@.len() ==> {
                        &&& rows@[j].0 == ts_ms(nth_cue(self@, j).start)
                        &&& rows@[j].1 == ts_ms(nth_cue(self@, j).end)
                    },
                first_covering(self@, playhead as int, k as int) == first_covering(
                    self@,
                    playhead as int,
                    0,
                ),
            decreases rows@.len() - k,
        {
            let (s, e, _) = &rows[k];
            if *s <= playhead && playhead < *e {
                return Some(k);
            }
            k += 1;
        }
        None
    }

    /// Replace cue `n`'s text with the lines of `text` (one empty line for an
    /// empty text). Nothing happens when there is no such cue.
    pub fn set_cue_text(&mut self, n: usize, text: &str)
        ensures
            final(self).header() == old(self).header(),
            text_set(old(self)@, final(self)@, n as int, text@),
    {
        match self.cue_block(n) {
            Some(bi) => {
                let payload = payload_for(text);
                let ghost before = self@;
                let old_block = self.blocks.remove(bi);
                match old_block {
                    Block::Cue(c) => {
                        let cue = Cue {
                            identifier: c.identifier,
                            start: c.start,
                            end: c.end,
                            settings: c.settings,
                            payload,
                        };
                        self.blocks.insert(bi, Block::Cue(cue));
                        proof {
                            assert forall|j: int| 0 <= j < before.len() && j != bi implies self@[j]
                                == before[j] by {
                                if j > bi {
                                    assert(self@[j] == before.remove(bi as int)[j - 1]);
                                }
                            }
                        }
                    },
                    Block::Other(_) => {
                        proof {
                            assert(false);
                        }
                    },
                }
            },
            None => {},
        }
    }

    /// Snap cue `n`'s start to `ms`, keeping start <= end.
    pub fn set_cue_start(&mut self, n: usize, ms: u64)
        ensures
            final(self).header() == old(self).header(),
            start_set(old(self)@, final(self)@, n as int, ms as int),
    {
        match self.cue_block(n) {
            Some(bi) => {
                let ghost before = self@;
                let old_block = self.blocks.remove(bi);
                match old_block {
                    Block::Cue(c) => {
                        let end = ts_millis(c.end);
                        let t = if ms <= end {
                            ms
                        } else {
                            end
                        };
                        let cue = Cue {
                            identifier: c.identifier,
                            start: ts_from_ms(t),
                            end: c.end,
                            settings: c.settings,
                            payload: c.payload,
                        };
                        self.blocks.insert(bi, Block::Cue(cue));
                        proof {
                            assert forall|j: int| 0 <= j < before.len() && j != bi implies self@[j]
                                == before[j] by {
                                if j > bi {
                                    assert(self@[j] == before.remove(bi as int)[j - 1]);
                                }
                            }
                        }
                    },
                    Block::Other(_) => {
                        proof {
                            assert(false);
                        }
                    },
                }
            },
            None => {},
        }
    }

    /// Snap cue `n`'s end to `ms`, keeping end >= start.
    pub fn set_cue_end(&mut self, n: usize, ms: u64)
        ensures
            final(self).header() == old(self).header(),
            end_set(old(self)@, final(self)@, n as int, ms as int),
    {
        match self.cue_block(n) {
            Some(bi) => {
                let ghost before = self@;
                let old_block = self.blocks.remove(bi);
                match old_block {
                    Block::Cue(c) => {
                        let start = ts_millis(c.start);
                        let t = if ms >= start {
                            ms
                        } else {
                            start
                        };
                        let cue = Cue {
                            identifier: c.identifier,
                            start: c.start,
                            end: ts_from_ms(t),
                            settings: c.settings,
                            payload: c.payload,
                        };
                        self.blocks.insert(bi, Block::Cue(cue));
                        proof {
                            assert forall|j: int| 0 <= j < before.len() && j != bi implies self@[j]
                                == before[j] by {
                                if j > bi {
                                    assert(self@[j] == before.remove(bi as int)[j - 1]);
                                }
                            }
                        }
                    },
                    Block::Other(_) => {
                        proof {
                            assert(false);
                        }
                    },
                }
            },
            None => {},
        }
    }
}


/// Where a new cue starting at `t` ms goes: before the first cue that starts
/// later, or at the end of the document.
pub open spec fn add_position(bs: Seq<Block>, t: int) -> int {
    let k = first_later(bs, t, 0);
    if k < cue_blocks(bs).len() {
        cue_blocks(bs)[k]
    } else {
        bs.len() as int
    }
}

/// `after` is `before` with cue `n`'s text replaced by the lines of `text`
/// (one empty line for an empty text); nothing changes when there is no such
/// cue.
pub open spec fn text_set(before: Seq<Block>, after: Seq<Block>, n: int, text: Seq<char>) -> bool {
    if n < 0 || n >= cue_blocks(before).len() {
        after == before
    } else {
        let bi = cue_blocks(before)[n];
        &&& same_but(before, after, bi)
        &&& cue_of(after[bi]).start == cue_of(before[bi]).start
        &&& cue_of(after[bi]).end == cue_of(before[bi]).end
        &&& payload_view(cue_of(after[bi])) == payload_of(text)
    }
}

/// `after` is `before` with cue `n` starting at `ms`, but never after its
/// end; nothing changes when there is no such cue.
pub open spec fn start_set(before: Seq<Block>, after: Seq<Block>, n: int, ms: int) -> bool {
    if n < 0 || n >= cue_blocks(before).len() {
        after == before
    } else {
        let bi = cue_blocks(before)[n];
        let end = ts_ms(cue_of(before[bi]).end);
        &&& same_but(before, after, bi)
        &&& cue_of(after[bi]).start == ts_of_ms((if ms <= end { ms } else { end }) as nat)
        &&& cue_of(after[bi]).end == cue_of(before[bi]).end
        &&& cue_of(after[bi]).payload == cue_of(before[bi]).payload
    }
}

/// `after` is `before` with cue `n` ending at `ms`, but never before its
/// start; nothing changes when there is no such cue.
pub open spec fn end_set(before: Seq<Block>, after: Seq<Block>, n: int, ms: int) -> bool {
    if n < 0 || n >= cue_blocks(before).len() {
        after == before
    } else {
        let bi = cue_blocks(before)[n];
        let start = ts_ms(cue_of(before[bi]).start);
        &&& same_but(before, after, bi)
        &&& cue_of(after[bi]).end == ts_of_ms((if ms >= start { ms } else { start }) as nat)
        &&& cue_of(after[bi]).start == cue_of(before[bi]).start
        &&& cue_of(after[bi]).payload == cue_of(before[bi]).payload
    }
}

/// `after` is `before` with a new cue from `start` to `end` ms (never before
/// its start) holding the lines of `text`, put before the first cue that
/// starts later.
pub open spec fn cue_added(before: Seq<Block>, after: Seq<Block>, start: int, end: int, text: Seq<char>) -> bool {
    let pos = add_position(before, start);
    let c = cue_of(after[pos]);
    &&& after.len() == before.len() + 1
    &&& forall|j: int| 0 <= j < pos ==> after[j] == before[j]
    &&& forall|j: int| pos < j < after.len() ==> after[j] == before[j - 1]
    &&& after[pos] is Cue
    &&& c.identifier is None
    &&& c.settings is None
    &&& c.start == ts_of_ms(start as nat)
    &&& c.end == ts_of_ms((if end >= start { end } else { start }) as nat)
    &&& payload_view(c) == payload_of(text)
}

impl VttDoc {
    /// Insert a new cue, returning its ordinal index. Cues are kept in start
    /// order: the new one goes before the first cue that starts later than it.
    /// Its end is kept no earlier than its start; an empty text gives it one
    /// empty line.
    pub fn add_cue(&mut self, start: u64, end: u64, text: &str) -> (ord: usize)
        ensures
            final(self).header() == old(self).header(),
            ord == first_later(old(self)@, start as int, 0),
            cue_added(old(self)@, final(self)@, start as int, end as int, text@),
    {
        let payload = payload_for(text);
        let e = if end >= start {
            end
        } else {
            start
        };
        let cue = Cue {
            identifier: None,
            start: ts_from_ms(start),
            end: ts_from_ms(e),
            settings: None,
            payload,
        };
        let idx = self.cue_indices();
        proof {
            lemma_cue_blocks(self@);
        }
        let ghost before = self@;
        let mut insert_at = self.blocks.len();
        let mut ord = idx.len();
        let mut found = false;
        let mut k: usize = 0;
        while k < idx.len() && !found
            invariant
                k <= idx@.len(),
                idx@.map_values(|i: usize| i as int) == cue_blocks(before),
                before == self@,
                self@.len() == self.blocks@.len(),
                forall|j: int|
                    0 <= j < cue_blocks(before).len() ==> 0 <= #[trigger] cue_blocks(before)[j]
                        < before.len() && before[cue_blocks(before)[j]] is Cue,
                !found ==> first_later(before, start as int, k as int) == first_later(before, start as int, 0),
                !found ==> insert_at == before.len() && ord == idx@.len(),
                found ==> ord == first_later(before, start as int, 0) && ord < idx@.len()
                    && insert_at == cue_blocks(before)[ord as int],
            decreases idx@.len() - k,
        {
            let bi = idx[k];
            proof {
                assert(idx@.map_values(|i: usize| i as int)[k as int] == bi as int);
            }
            match &self.blocks[bi] {
                Block::Cue(c) => {
                    if ts_millis(c.start) > start {
                        insert_at = bi;
                        ord = k;
                        found = true;
                    }
                },
                Block::Other(_) => {
                    proof {
                        assert(false);
                    }
                },
            }
            k += 1;
        }
        self.blocks.insert(insert_at, Block::Cue(cue));
        ord
    }

    /// Delete cue `n`; nothing happens when there is no such cue.
    pub fn delete_cue(&mut self, n: usize)
        ensures
            final(self).header() == old(self).header(),
            n >= cue_blocks(old(self)@).len() ==> final(self)@ == old(self)@,
            n < cue_blocks(old(self)@).len() ==> final(self)@ == old(self)@.remove(
                cue_blocks(old(self)@)[n as int],
            ),
    {
        match self.cue_block(n) {
            Some(bi) => {
                self.blocks.remove(bi);
            },
            None => {},
        }
    }
}


/// The cues of `bs`, in order.
pub open spec fn cue_list(bs: Seq<Block>) -> Seq<Cue> {
    Seq::new(cue_blocks(bs).len(), |k: int| nth_cue(bs, k))
}

/// Cue start times (ms) never decrease along `cs`.
pub open spec fn starts_in_order(cs: Seq<Cue>) -> bool {
    forall|i: int, j: int| 0 <= i < j < cs.len() ==> ts_ms(cs[i].start) <= ts_ms(cs[j].start)
}

proof fn lemma_cue_blocks_concat(a: Seq<Block>, b: Seq<Block>)
    ensures
        cue_blocks(a + b) == cue_blocks(a) + cue_blocks(b).map_values(|i: int| i + a.len()),
    decreases b.len(),
{
    if b.len() == 0 {
        assert(a + b =~= a);
        assert(cue_blocks(a) + cue_blocks(b).map_values(|i: int| i + a.len()) =~= cue_blocks(a));
    } else {
        lemma_cue_blocks_concat(a, b.drop_last());
        assert((a + b).drop_last() =~= a + b.drop_last());
        if b.last() is Cue {
            assert(cue_blocks(b).map_values(|i: int| i + a.len()) =~= cue_blocks(b.drop_last()).map_values(
                |i: int| i + a.len(),
            ).push(b.len() - 1 + a.len()));
        } else {
            assert(cue_blocks(b).map_values(|i: int| i + a.len()) =~= cue_blocks(b.drop_last()).map_values(
                |i: int| i + a.len(),
            ));
        }
        assert(cue_blocks(a + b) =~= cue_blocks(a) + cue_blocks(b).map_values(|i: int| i + a.len()));
    }
}

proof fn lemma_cue_list_concat(a: Seq<Block>, b: Seq<Block>)
    ensures
        cue_list(a + b) == cue_list(a) + cue_list(b),
{
    lemma_cue_blocks_concat(a, b);
    lemma_cue_blocks(a);
    lemma_cue_blocks(b);
    let ca = cue_blocks(a);
    let cb = cue_blocks(b);
    assert forall|k: int| 0 <= k < cue_list(a + b).len() implies cue_list(a + b)[k] == (cue_list(a)
        + cue_list(b))[k] by {
        if k < ca.len() {
            assert(cue_blocks(a + b)[k] == ca[k]);
        } else {
            assert(cue_blocks(a + b)[k] == cb[k - ca.len()] + a.len());
        }
    }
    assert(cue_list(a + b) =~= cue_list(a) + cue_list(b));
}

proof fn lemma_other_concat(a: Seq<Block>, b: Seq<Block>)
    ensures
        other_blocks(a + b) == other_blocks(a) + other_blocks(b),
    decreases b.len(),
{
    if b.len() == 0 {
        assert(a + b =~= a);
        assert(other_blocks(a) + other_blocks(b) =~= other_blocks(a));
    } else {
        lemma_other_concat(a, b.drop_last());
        assert((a + b).drop_last() =~= a + b.drop_last());
        match b.last() {
            Block::Other(o) => {
                assert(other_blocks(a) + other_blocks(b) =~= (other_blocks(a) + other_blocks(
                    b.drop_last(),
                )).push(o));
            },
            Block::Cue(_) => {},
        }
    }
}

proof fn lemma_single_cue(x: Block)
    requires
        x is Cue,
    ensures
        other_blocks(seq![x]) == Seq::<VttBlock>::empty(),
        cue_list(seq![x]) == seq![cue_of(x)],
{
    let one = seq![x];
    assert(one.drop_last() =~= Seq::<Block>::empty());
    assert(one.last() == x);
    assert(cue_blocks(one.drop_last()) =~= Seq::<int>::empty());
    assert(other_blocks(one.drop_last()) =~= Seq::<VttBlock>::empty());
    assert(cue_blocks(one) =~= seq![0int]);
    assert(cue_list(seq![x]) =~= seq![cue_of(x)]);
}

/// Inserting a cue block at `pos` leaves the other blocks as they were and
/// puts the cue among the cues after those before `pos`.
pub proof fn lemma_insert_cue(bs: Seq<Block>, pos: int, x: Block)
    requires
        0 <= pos <= bs.len(),
        x is Cue,
    ensures
        other_blocks(bs.insert(pos, x)) == other_blocks(bs),
        cue_list(bs.insert(pos, x)) == cue_list(bs.take(pos)) + seq![cue_of(x)] + cue_list(bs.skip(pos)),
        cue_list(bs) == cue_list(bs.take(pos)) + cue_list(bs.skip(pos)),
{
    assert(bs.insert(pos, x) =~= bs.take(pos) + seq![x] + bs.skip(pos));
    assert(bs =~= bs.take(pos) + bs.skip(pos));
    lemma_single_cue(x);
    lemma_other_concat(bs.take(pos), seq![x]);
    lemma_other_concat(bs.take(pos) + seq![x], bs.skip(pos));
    lemma_other_concat(bs.take(pos), bs.skip(pos));
    lemma_cue_list_concat(bs.take(pos), seq![x]);
    lemma_cue_list_concat(bs.take(pos) + seq![x], bs.skip(pos));
    lemma_cue_list_concat(bs.take(pos), bs.skip(pos));
    assert(other_blocks(bs.take(pos)) + Seq::<VttBlock>::empty() =~= other_blocks(bs.take(pos)));
}

/// How many cues lie before block `pos`: a cue block's ordinal.
proof fn lemma_cues_before(bs: Seq<Block>, k: int)
    requires
        0 <= k < cue_blocks(bs).len(),
    ensures
        cue_list(bs.take(cue_blocks(bs)[k])).len() == k,
{
    lemma_cue_blocks(bs);
    let p = cue_blocks(bs)[k];
    assert(bs =~= bs.take(p) + bs.skip(p));
    lemma_cue_blocks_concat(bs.take(p), bs.skip(p));
    lemma_cue_blocks(bs.take(p));
    lemma_cue_blocks(bs.skip(p));
    let ca = cue_blocks(bs.take(p));
    let cb = cue_blocks(bs.skip(p));
    if ca.len() > k {
        assert(cue_blocks(bs)[k] == ca[k]);
    } else if ca.len() < k {
        assert(cue_blocks(bs)[ca.len() as int] == cb[0] + p);
        assert(cue_blocks(bs)[ca.len() as int] < p);
    }
}

/// Adding a cue leaves every other block where it was in the order, and puts
/// the new cue among the cues at the ordinal `add_cue` returns: before it the
/// cues that started no later, after it the rest, in their old order. Cues
/// that were in start order stay in start order, for start times below 256
/// hours (past which `subtp`'s timestamps wrap).
pub proof fn law_add_cue(before: Seq<Block>, after: Seq<Block>, start: int, x: Block)
    requires
        x is Cue,
        0 <= start,
        ts_ms(cue_of(x).start) == start,
        after == before.insert(add_position(before, start), x),
    ensures
        other_blocks(after) == other_blocks(before),
        cue_list(after) == cue_list(before).insert(first_later(before, start, 0), cue_of(x)),
        starts_in_order(cue_list(before)) ==> starts_in_order(cue_list(after)),
{
    let k = first_later(before, start, 0);
    let pos = add_position(before, start);
    lemma_first_later(before, start, 0);
    lemma_cue_blocks(before);
    lemma_insert_cue(before, pos, x);
    let cl = cue_list(before);
    let head = cue_list(before.take(pos));
    let tail = cue_list(before.skip(pos));
    if k < cue_blocks(before).len() {
        lemma_cues_before(before, k);
    } else {
        assert(before.take(pos) =~= before);
        assert(before.skip(pos) =~= Seq::<Block>::empty());
        assert(cue_blocks(Seq::<Block>::empty()) =~= Seq::<int>::empty());
    }
    assert(head.len() == k);
    assert(head =~= cl.take(k));
    assert(tail =~= cl.skip(k));
    assert(cue_list(after) =~= cl.insert(k, cue_of(x)));
    if starts_in_order(cl) {
        let ca = cue_list(after);
        assert forall|i: int, j: int| 0 <= i < j < ca.len() implies ts_ms(ca[i].start) <= ts_ms(
            ca[j].start,
        ) by {
            if i < k && j == k {
                assert(ts_ms(cl[i].start) <= start);
            } else if i == k && j > k {
                assert(ts_ms(cl[j - 1].start) > start);
            } else if i > k {
                assert(ca[i] == cl[i - 1] && ca[j] == cl[j - 1]);
            } else if j > k {
                assert(ca[j] == cl[j - 1]);
            }
        }
    }
}

proof fn lemma_first_later(bs: Seq<Block>, t: int, k: int)
    requires
        0 <= k <= cue_blocks(bs).len(),
    ensures
        k <= first_later(bs, t, k) <= cue_blocks(bs).len(),
        forall|j: int| k <= j < first_later(bs, t, k) ==> ts_ms(nth_cue(bs, j).start) <= t,
        starts_in_order(cue_list(bs)) ==> forall|j: int|
            first_later(bs, t, k) <= j < cue_blocks(bs).len() ==> ts_ms(nth_cue(bs, j).start) > t,
    decreases cue_blocks(bs).len() - k,
{
    if k < cue_blocks(bs).len() && ts_ms(nth_cue(bs, k).start) <= t {
        lemma_first_later(bs, t, k + 1);
    }
    if starts_in_order(cue_list(bs)) {
        let f = first_later(bs, t, k);
        assert forall|j: int| f <= j < cue_blocks(bs).len() implies ts_ms(nth_cue(bs, j).start) > t by {
            let cl = cue_list(bs);
            assert(cl[f] == nth_cue(bs, f) && cl[j] == nth_cue(bs, j));
        }
    }
}

/// Deleting a cue removes exactly that cue and leaves every other block in
/// place.
pub proof fn law_delete_cue(before: Seq<Block>, n: int)
    requires
        0 <= n < cue_blocks(before).len(),
    ensures
        other_blocks(before.remove(cue_blocks(before)[n])) == other_blocks(before),
        cue_list(before.remove(cue_blocks(before)[n])) == cue_list(before).remove(n),
{
    lemma_cue_blocks(before);
    let pos = cue_blocks(before)[n];
    let after = before.remove(pos);
    let x = before[pos];
    assert(before =~= after.insert(pos, x));
    lemma_insert_cue(after, pos, x);
    lemma_cues_before(before, n);
    assert(after.take(pos) =~= before.take(pos));
    let cl = cue_list(before);
    assert(cl =~= cue_list(after.take(pos)) + seq![cue_of(x)] + cue_list(after.skip(pos)));
    assert(cue_list(after) =~= cl.remove(n));
}

/// Replacing a cue by another leaves the other blocks as they were.
pub proof fn law_edit_keeps_others(before: Seq<Block>, after: Seq<Block>, i: int)
    requires
        same_but(before, after, i),
    ensures
        other_blocks(after) == other_blocks(before),
{
    let x = before[i];
    let y = after[i];
    let rest = before.remove(i);
    assert(before =~= rest.insert(i, x));
    assert(after =~= rest.insert(i, y));
    lemma_insert_cue(rest, i, x);
    lemma_insert_cue(rest, i, y);
}

/// The active cue is one running at the playhead, and no earlier cue is;
/// there is none exactly when no cue runs at the playhead.
pub proof fn law_active_cue_covers(bs: Seq<Block>, t: int)
    ensures
        first_covering(bs, t, 0) matches Some(k) ==> 0 <= k < cue_blocks(bs).len() && ts_ms(
            nth_cue(bs, k).start,
        ) <= t < ts_ms(nth_cue(bs, k).end) && forall|j: int|
            0 <= j < k ==> !(ts_ms(#[trigger] nth_cue(bs, j).start) <= t < ts_ms(nth_cue(bs, j).end)),
        first_covering(bs, t, 0) is None ==> forall|j: int|
            0 <= j < cue_blocks(bs).len() ==> !(ts_ms(#[trigger] nth_cue(bs, j).start) <= t < ts_ms(
                nth_cue(bs, j).end,
            )),
{
    lemma_first_covering(bs, t, 0);
}

proof fn lemma_first_covering(bs: Seq<Block>, t: int, k: int)
    requires
        0 <= k,
    ensures
        first_covering(bs, t, k) matches Some(f) ==> k <= f < cue_blocks(bs).len() && ts_ms(
            nth_cue(bs, f).start,
        ) <= t < ts_ms(nth_cue(bs, f).end) && forall|j: int|
            k <= j < f ==> !(ts_ms(#[trigger] nth_cue(bs, j).start) <= t < ts_ms(nth_cue(bs, j).end)),
        first_covering(bs, t, k) is None ==> forall|j: int|
            k <= j < cue_blocks(bs).len() ==> !(ts_ms(#[trigger] nth_cue(bs, j).start) <= t < ts_ms(
                nth_cue(bs, j).end,
            )),
    decreases cue_blocks(bs).len() - k,
{
    if k < cue_blocks(bs).len() && !(ts_ms(nth_cue(bs, k).start) <= t < ts_ms(nth_cue(bs, k).end)) {
        lemma_first_covering(bs, t, k + 1);
    }
}


/// A cue's identifier, timestamps and lines.
pub open spec fn cue_part(c: Cue) -> (Option<Seq<char>>, Timestamp, Timestamp, Seq<Seq<char>>) {
    (
        match c.identifier {
            Some(s) => Some(s@),
            None => None,
        },
        c.start,
        c.end,
        payload_view(c),
    )
}

/// The parts of each cue among `bs`, in order.
pub open spec fn cue_parts(bs: Seq<Block>) -> Seq<(Option<Seq<char>>, Timestamp, Timestamp, Seq<Seq<char>>)>
    decreases bs.len(),
{
    if bs.len() == 0 {
        Seq::empty()
    } else {
        let r = cue_parts(bs.drop_last());
        match bs.last() {
            Block::Cue(c) => r.push(cue_part(c)),
            Block::Other(_) => r,
        }
    }
}

/// The cues of `ps` that overlap `[start, end)` ms, each clamped to the range
/// and moved so that the range starts at 0.
pub open spec fn clip_parts(
    ps: Seq<(Option<Seq<char>>, Timestamp, Timestamp, Seq<Seq<char>>)>,
    start: int,
    end: int,
) -> Seq<(Option<Seq<char>>, Timestamp, Timestamp, Seq<Seq<char>>)>
    decreases ps.len(),
{
    if ps.len() == 0 {
        Seq::empty()
    } else {
        let r = clip_parts(ps.drop_last(), start, end);
        let (id, s, e, lines) = ps.last();
        if start < end && ts_ms(s) < end && ts_ms(e) > start {
            let from = if ts_ms(s) > start { ts_ms(s) } else { start };
            let to = if ts_ms(e) < end { ts_ms(e) } else { end };
            r.push((id, ts_of_ms((from - start) as nat), ts_of_ms((to - start) as nat), lines))
        } else {
            r
        }
    }
}

/// There are as many cue parts as cues.
pub proof fn lemma_parts_count(bs: Seq<Block>)
    ensures
        cue_parts(bs).len() == cue_blocks(bs).len(),
    decreases bs.len(),
{
    if bs.len() > 0 {
        lemma_parts_count(bs.drop_last());
    }
}

/// A copy of a header (`Clone` of `subtp::vtt::VttHeader`).
#[verifier::external_body]
fn copy_header(h: &VttHeader) -> VttHeader {
    h.clone()
}

/// A copy of a cue's settings (`Clone` of `subtp::vtt::CueSettings`).
#[verifier::external_body]
fn copy_settings(s: &Option<CueSettings>) -> Option<CueSettings> {
    s.clone()
}

/// A copy of a list of lines.
fn copy_lines(v: &Vec<String>) -> (r: Vec<String>)
    ensures
        r@.map_values(|s: String| s@) == v@.map_values(|s: String| s@),
{
    let mut r: Vec<String> = Vec::new();
    let mut i: usize = 0;
    while i < v.len()
        invariant
            i <= v@.len(),
            r@.len() == i,
            forall|j: int| 0 <= j < i ==> r@[j]@ == v@[j]@,
        decreases v@.len() - i,
    {
        r.push(v[i].clone());
        i += 1;
    }
    proof {
        assert(r@.map_values(|s: String| s@) =~= v@.map_values(|s: String| s@));
    }
    r
}

impl VttDoc {
    /// The subtitles of the clip `[start, end)` ms: the cues that overlap it,
    /// clamped to it and rebased so that it starts at 0 (none when the range
    /// is empty). Other blocks are left out; the header is kept.
    pub fn cut(&self, start: u64, end: u64) -> (r: VttDoc)
        ensures
            cue_parts(r@) == clip_parts(cue_parts(self@), start as int, end as int),
            other_blocks(r@).len() == 0,
    {
        let mut out: Vec<Block> = Vec::new();
        let mut i: usize = 0;
        proof {
            assert(self@.take(0) =~= Seq::<Block>::empty());
        }
        while i < self.blocks.len()
            invariant
                i <= self@.len(),
                self@.len() == self.blocks@.len(),
                cue_parts(out@) == clip_parts(cue_parts(self@.take(i as int)), start as int, end as int),
                other_blocks(out@).len() == 0,
            decreases self@.len() - i,
        {
            proof {
                assert(self@.take(i + 1).drop_last() =~= self@.take(i as int));
                assert(self@.take(i + 1).last() == self@[i as int]);
            }
            let ghost prev = cue_parts(self@.take(i as int));
            match &self.blocks[i] {
                Block::Cue(c) => {
                    proof {
                        assert(cue_parts(self@.take(i + 1)) == prev.push(cue_part(*c)));
                        assert(prev.push(cue_part(*c)).drop_last() =~= prev);
                    }
                    let s = ts_millis(c.start);
                    let e = ts_millis(c.end);
                    if start < end && s < end && e > start {
                        let from = if s > start {
                            s
                        } else {
                            start
                        };
                        let to = if e < end {
                            e
                        } else {
                            end
                        };
                        let identifier = match &c.identifier {
                            Some(id) => Some(id.clone()),
                            None => None,
                        };
                        let cue = Cue {
                            identifier,
                            start: ts_from_ms(from - start),
                            end: ts_from_ms(to - start),
                            settings: copy_settings(&c.settings),
                            payload: copy_lines(&c.payload),
                        };
                        let ghost before = out@;
                        let ghost part = cue_part(cue);
                        proof {
                            assert(part.3 == cue_part(*c).3);
                        }
                        out.push(Block::Cue(cue));
                        proof {
                            assert(out@.drop_last() =~= before);
                            assert(cue_parts(out@) == cue_parts(before).push(part));
                        }
                    }
                },
                Block::Other(_) => {
                    proof {
                        assert(cue_parts(self@.take(i + 1)) == prev);
                    }
                },
            }
            i += 1;
        }
        proof {
            assert(self@.take(i as int) =~= self@);
        }
        VttDoc { header: copy_header(&self.header), blocks: out }
    }
}

/// Durations below this many ms (256 hours) fit a `subtp` timestamp, whose
/// hours are a byte.
pub const TS_SPAN_MS: u64 = 921_600_000;

/// A duration below 256 hours comes back from its timestamp unchanged.
pub proof fn lemma_ts_round_trip(m: int)
    requires
        0 <= m < TS_SPAN_MS,
    ensures
        ts_ms(ts_of_ms(m as nat)) == m,
{
    let secs = m / 1000;
    let h = secs / 3600;
    let r = secs % 3600;
    vstd::arithmetic::div_mod::lemma_fundamental_div_mod(m, 1000);
    vstd::arithmetic::div_mod::lemma_fundamental_div_mod(secs, 3600);
    vstd::arithmetic::div_mod::lemma_fundamental_div_mod(r, 60);
    vstd::arithmetic::div_mod::lemma_mod_mod(secs, 60, 60);
    assert(h < 256);
    vstd::arithmetic::div_mod::lemma_small_mod(h as nat, 256);
    let t = ts_of_ms(m as nat);
    assert(t.hours == h);
    assert(t.minutes == r / 60);
    assert(t.seconds == secs % 60);
    assert(t.milliseconds == m % 1000);
}

/// A cue's identifier, times and lines, as a clip sees it.
pub type CuePart = (Option<Seq<char>>, Timestamp, Timestamp, Seq<Seq<char>>);

/// Whether a cue runs at some moment of `[start, end)` ms.
pub open spec fn overlapping(start: int, end: int) -> spec_fn(CuePart) -> bool {
    |p: CuePart| ts_ms(p.1) < end && ts_ms(p.2) > start
}

/// A clip of a non-empty range keeps every cue that runs at some moment of
/// it and no other, in order, with its identifier and lines; each kept cue
/// starts where it starts or at the clip's start, whichever is later, and
/// ends where it ends or at the clip's end, whichever is earlier, counted
/// from the clip's start (for clips under 256 hours).
pub proof fn law_cut_keeps_overlapping(ps: Seq<CuePart>, start: int, end: int)
    requires
        0 <= start < end,
        end - start < TS_SPAN_MS,
    ensures
        clip_parts(ps, start, end).len() == ps.filter(overlapping(start, end)).len(),
        forall|k: int|
            0 <= k < clip_parts(ps, start, end).len() ==> {
                let c = #[trigger] clip_parts(ps, start, end)[k];
                let o = ps.filter(overlapping(start, end))[k];
                &&& c.0 == o.0 && c.3 == o.3
                &&& ts_ms(c.1) == (if ts_ms(o.1) > start { ts_ms(o.1) } else { start }) - start
                &&& ts_ms(c.2) == (if ts_ms(o.2) < end { ts_ms(o.2) } else { end }) - start
                &&& 0 <= ts_ms(c.1) <= end - start
                &&& 0 <= ts_ms(c.2) <= end - start
            },
    decreases ps.len(),
{
    reveal(Seq::filter);
    if ps.len() > 0 {
        law_cut_keeps_overlapping(ps.drop_last(), start, end);
        let (id, s, e, lines) = ps.last();
        if ts_ms(s) < end && ts_ms(e) > start {
            let from = if ts_ms(s) > start { ts_ms(s) } else { start };
            let to = if ts_ms(e) < end { ts_ms(e) } else { end };
            lemma_ts_round_trip(from - start);
            lemma_ts_round_trip(to - start);
        }
    }
}

/// Changing the block of cue `n`, and only it, changes that cue alone among
/// the cues.
pub proof fn lemma_edit_cue_list(before: Seq<Block>, after: Seq<Block>, n: int)
    requires
        0 <= n < cue_blocks(before).len(),
        same_but(before, after, cue_blocks(before)[n]),
    ensures
        cue_list(after) == cue_list(before).update(n, cue_of(after[cue_blocks(before)[n]])),
{
    let bi = cue_blocks(before)[n];
    lemma_cue_blocks(before);
    let x = before[bi];
    let y = after[bi];
    let rest = before.remove(bi);
    assert(before =~= rest.insert(bi, x));
    assert(after =~= rest.insert(bi, y));
    lemma_insert_cue(rest, bi, x);
    lemma_insert_cue(rest, bi, y);
    lemma_cues_before(before, n);
    assert(rest.take(bi) =~= before.take(bi));
    let head = cue_list(rest.take(bi));
    let tail = cue_list(rest.skip(bi));
    assert(head.len() == n);
    assert(cue_list(after) =~= (head + seq![cue_of(x)] + tail).update(n, cue_of(y)));
}

} // verus!
