//! The editor's state and the decisions it makes: what a key does in each
//! mode, where the playhead and the selections go, and what the host has to
//! do next (start or stop playback, write a file, cut a clip). The host runs
//! the event loop, does that work, and hands the outcome back.

use vstd::prelude::*;
use crate::chapter::{active_at, Chapters};
use crate::ffmpeg::cut::CutMode;
use crate::keymap::Action;
use crate::ffmpeg::frame::{fit_dims, fitted};
use crate::ffmpeg::probe::MediaInfo;
use crate::paths::{extension, extension_of, file_stem, file_stem_of, with_extension, with_extension_of};
use crate::player::image_pane::CellSize;
use crate::textinput::TextInput;
use crate::ui::{areas_fit, layout, no_areas, split_video, video_split, Areas, Rect};
use crate::unicode::push_str;
use crate::vtt::{cue_blocks, first_covering, nth_cue, ts_ms, VttDoc};

verus! {

/// What the keys feed.
#[derive(Clone, Copy, Debug, PartialEq, Eq, Structural)]
pub enum Mode {
    Normal,
    /// Editing a cue's or chapter's text; keys feed the edit buffer.
    Editing,
    /// Typing the output filename for an export; keys feed the edit buffer.
    Naming,
    /// Typing a string to find in the cue text; keys feed the edit buffer.
    Searching,
}

/// What the inline editor ([`Mode::Editing`]) is currently editing.
#[derive(Clone, Copy, Debug, PartialEq, Eq, Structural)]
pub enum EditTarget {
    Cue,
    Chapter,
}

/// A marked span waiting for the user to type its output filename.
pub struct PendingExport {
    pub mode: CutMode,
    pub start: u64,
    pub end: u64,
}

/// An export waiting for the go-ahead to overwrite its output.
pub struct PendingCut {
    pub output: String,
    pub mode: CutMode,
    pub start: u64,
    pub end: u64,
}

/// What the host is asked to do after the editor has decided.
pub enum Request {
    Nothing,
    /// Stop the running playback.
    StopPlayback,
    /// Stop any running playback and stream from `from` ms at `speed`
    /// hundredths of normal speed, in frames of `width`×`height` pixels.
    StartPlayback { from: u64, speed: u64, width: u32, height: u32 },
    /// Write the subtitles to `path`, backing up the original first.
    SaveVtt { path: String },
    /// Write the chapters to `path`, backing up the original first.
    SaveChapters { path: String },
    /// Find out whether `output` exists, before cutting `start..end` to it.
    CheckOutput { output: String, mode: CutMode, start: u64, end: u64 },
    /// Cut `start..end` ms of the video to `output`.
    Cut { output: String, mode: CutMode, start: u64, end: u64, overwrite: bool },
    /// Transcribe the video's audio with WhisperX into `target`.
    StartWhisperx { video: String, target: String },
    /// Read the subtitles WhisperX wrote to `path`.
    LoadGenerated { path: String },
}

/// Length (ms) of a freshly created cue.
pub const NEW_CUE_MS: u64 = 2000;

/// Index of normal speed among the selectable speeds.
pub const DEFAULT_SPEED_IDX: usize = 2;

/// Number of selectable speeds.
pub const SPEED_COUNT: usize = 5;

/// The selectable playback speeds, in hundredths: 0.25×, 0.5×, 1×, 1.5×, 2×.
pub open spec fn speed_at(i: int) -> int {
    if i <= 0 {
        25
    } else if i == 1 {
        50
    } else if i == 2 {
        100
    } else if i == 3 {
        150
    } else {
        200
    }
}

fn speed_of(i: usize) -> (r: u64)
    ensures
        r == speed_at(i as int),
{
    if i == 0 {
        25
    } else if i == 1 {
        50
    } else if i == 2 {
        100
    } else if i == 3 {
        150
    } else {
        200
    }
}

/// A `String` holding `s`.
fn text(s: &str) -> (r: String)
    ensures
        r@ == s@,
{
    let mut r = String::new();
    push_str(&mut r, s);
    r
}

/// The editor.
pub struct App {
    pub info: MediaInfo,
    pub vtt_path: Option<String>,
    pub vtt: Option<VttDoc>,
    pub vtt_dirty: bool,
    pub selected_cue: usize,
    pub chapters_path: String,
    pub chapters: Chapters,
    pub chapters_dirty: bool,
    pub selected_chapter: usize,
    pub mode: Mode,
    /// Which list the inline editor is editing (valid while `mode == Editing`).
    pub edit_target: EditTarget,
    /// The line being edited, with its cursor (also used by the naming and
    /// search prompts).
    pub edit_input: TextInput,
    /// The string being searched for, highlighted wherever it occurs in the cue
    /// list. Empty when no search is set.
    pub search: String,
    pub show_help: bool,
    /// Where the video is, in ms.
    pub playhead: u64,
    pub mark_in: Option<u64>,
    pub mark_out: Option<u64>,
    pub kitty_ok: bool,
    pub cell: CellSize,
    pub status: String,
    /// The terminal's size.
    pub area: Rect,
    /// Where the panes of the screen are.
    pub areas: Areas,
    /// A scrub frame should be decoded for the playhead.
    pub needs_frame: bool,
    /// The pending scrub decode should be frame-accurate (set by stepping).
    pub precise_seek: bool,
    pub should_quit: bool,
    /// Whether a playback session is running.
    pub playing: bool,
    /// Index into the selectable speeds.
    pub speed_idx: usize,
    /// Set after a quit attempt with unsaved edits; a second quit confirms.
    pub quit_armed: bool,
    /// An export awaiting a filename (while in [`Mode::Naming`]).
    pub pending_export: Option<PendingExport>,
    /// An export awaiting overwrite confirmation.
    pub pending_cut: Option<PendingCut>,
    /// Whether a WhisperX job is running.
    pub generating: bool,
}

/// How many cues `vtt` holds.
pub open spec fn cue_count(vtt: Option<VttDoc>) -> int {
    match vtt {
        Some(d) => cue_blocks(d@).len() as int,
        None => 0,
    }
}

/// `t` clamped to `0..=d`.
pub open spec fn clamp_to(t: int, d: int) -> int {
    if t < 0 {
        0
    } else if t > d {
        d
    } else {
        t
    }
}

/// `a` with both list selections moved to whatever covers its playhead, in
/// normal mode; a list where nothing covers it keeps its selection.
pub open spec fn followed(a: App) -> App {
    if a.mode != Mode::Normal {
        a
    } else {
        App {
            selected_cue: match a.vtt {
                Some(d) => match first_covering(d@, a.playhead as int, 0) {
                    Some(k) => k as usize,
                    None => a.selected_cue,
                },
                None => a.selected_cue,
            },
            selected_chapter: match active_at(a.chapters@, a.playhead as int) {
                Some(i) => i as usize,
                None => a.selected_chapter,
            },
            ..a
        }
    }
}

/// `a` after a seek to `t` ms: playback stops and stepping is coarse again; a
/// playhead that moves (clamped to the video) asks for a frame and takes the
/// selections along.
pub open spec fn sought(a: App, t: int) -> App {
    let c = clamp_to(t, a.info.duration as int);
    let b = App { playing: false, precise_seek: false, ..a };
    if c != a.playhead {
        followed(App { playhead: c as u64, needs_frame: true, ..b })
    } else {
        b
    }
}

/// What a seek from `a` asks of the host.
pub open spec fn seek_request(a: App) -> Request {
    if a.playing {
        Request::StopPlayback
    } else {
        Request::Nothing
    }
}

/// The status a seek from `a` leaves.
pub open spec fn seek_status(a: App) -> Seq<char> {
    if a.playing {
        "paused"@
    } else {
        a.status@
    }
}

/// `a` after going to cue `i`: a seek to its start (when it exists), then the
/// selection.
pub open spec fn gone_to_cue(a: App, i: int) -> App {
    let b = match a.vtt {
        Some(d) => if 0 <= i < cue_blocks(d@).len() {
            sought(a, ts_ms(nth_cue(d@, i).start))
        } else {
            a
        },
        None => a,
    };
    App { selected_cue: i as usize, ..b }
}

/// Whether going to cue `i` from `a` seeks.
pub open spec fn cue_exists(a: App, i: int) -> bool {
    match a.vtt {
        Some(d) => 0 <= i < cue_blocks(d@).len(),
        None => false,
    }
}

impl App {
    /// A fresh editor for the video `info`, with the subtitles and chapters
    /// the host has read (and any message about reading them).
    pub fn new(
        info: MediaInfo,
        vtt_path: Option<String>,
        vtt: Option<VttDoc>,
        chapters: Chapters,
        status: String,
        cell: CellSize,
    ) -> (r: App)
        ensures
            r.chapters_path@ == with_extension(info.path@, "chapter.txt"@),
            r.info == info,
            r.vtt_path == vtt_path,
            r.vtt == vtt,
            r.chapters == chapters,
            r.status == status,
            r.cell == cell,
            !r.vtt_dirty && !r.chapters_dirty,
            r.selected_cue == 0 && r.selected_chapter == 0,
            r.mode == Mode::Normal,
            r.edit_target == EditTarget::Cue,
            r.edit_input@.0.len() == 0 && r.edit_input@.1 == 0,
            r.search@.len() == 0,
            !r.show_help,
            r.playhead == 0,
            r.mark_in is None && r.mark_out is None,
            !r.kitty_ok,
            r.area == (Rect { x: 0, y: 0, width: 0, height: 0 }),
            r.areas == no_areas(),
            r.needs_frame,
            !r.precise_seek && !r.should_quit && !r.playing && !r.quit_armed && !r.generating,
            r.speed_idx == DEFAULT_SPEED_IDX,
            r.pending_export is None && r.pending_cut is None,
    {
        let chapters_path = with_extension_of(info.path.as_str(), "chapter.txt");
        App {
            info,
            vtt_path,
            vtt,
            vtt_dirty: false,
            selected_cue: 0,
            chapters_path,
            chapters,
            chapters_dirty: false,
            selected_chapter: 0,
            mode: Mode::Normal,
            edit_target: EditTarget::Cue,
            edit_input: TextInput::new(),
            search: String::new(),
            show_help: false,
            playhead: 0,
            mark_in: None,
            mark_out: None,
            kitty_ok: false,
            cell,
            status,
            area: Rect { x: 0, y: 0, width: 0, height: 0 },
            areas: Areas {
                video: Rect { x: 0, y: 0, width: 0, height: 0 },
                timeline: Rect { x: 0, y: 0, width: 0, height: 0 },
                cues: Rect { x: 0, y: 0, width: 0, height: 0 },
                chapters: Rect { x: 0, y: 0, width: 0, height: 0 },
                status: Rect { x: 0, y: 0, width: 0, height: 0 },
            },
            needs_frame: true,
            precise_seek: false,
            should_quit: false,
            playing: false,
            speed_idx: DEFAULT_SPEED_IDX,
            quit_armed: false,
            pending_export: None,
            pending_cut: None,
            generating: false,
        }
    }

    /// Whether there are cues to caption the video with.
    pub fn has_cues(&self) -> (b: bool)
        ensures
            b == (cue_count(self.vtt) > 0),
    {
        match &self.vtt {
            Some(d) => d.cue_count() > 0,
            None => false,
        }
    }

    /// Whether a playback session is running.
    pub fn is_playing(&self) -> (b: bool)
        ensures
            b == self.playing,
    {
        self.playing
    }

    /// The playback speed, in hundredths of normal speed.
    pub fn speed(&self) -> (s: u64)
        ensures
            s == speed_at(self.speed_idx as int),
    {
        speed_of(self.speed_idx)
    }

    /// Point both lists at whatever covers the playhead. Each list windows on
    /// its selection, so this is what makes them scroll along with playback and
    /// with a seek — and it leaves you on the cue you just heard, ready to edit.
    ///
    /// Held back while the inline editor is open (a commit would land on an
    /// entry other than the one being typed into), and wherever nothing covers
    /// the playhead — a gap between cues, or before the first chapter — since
    /// there is nothing there to follow.
    pub fn follow_playhead(&mut self)
        ensures
            *final(self) == followed(*old(self)),
    {
        if self.mode != Mode::Normal {
            return;
        }
        let cue = match &self.vtt {
            Some(d) => d.active_cue(self.playhead),
            None => None,
        };
        if let Some(i) = cue {
            self.selected_cue = i;
        }
        if let Some(i) = self.chapters.active(self.playhead) {
            self.selected_chapter = i;
        }
    }

    /// Move the playhead to `t` ms, clamped to the video. Any manual seek
    /// pauses playback; stepping is coarse again unless the caller asks for
    /// precision after this.
    #[verifier::rlimit(50)]
    #[verifier::spinoff_prover]
    pub fn seek_to(&mut self, t: i128) -> (r: Request)
        ensures
            p_seek(*old(self), *final(self), r, t as int),
    {
        let r = if self.playing {
            self.playing = false;
            self.status = text("paused");
            Request::StopPlayback
        } else {
            Request::Nothing
        };
        self.precise_seek = false;
        let d = self.info.duration;
        let c: u64 = if t < 0 {
            0
        } else if t > d as i128 {
            d
        } else {
            t as u64
        };
        if c != self.playhead {
            self.playhead = c;
            self.needs_frame = true;
            self.follow_playhead();
        }
        r
    }

    /// Select cue `i` and put the playhead on its start, so the frame follows
    /// the selection. Seeks *before* recording the selection: the seek follows
    /// the playhead into whichever cue covers that instant, and where cues
    /// overlap that is not the one asked for.
    pub fn go_to_cue(&mut self, i: usize) -> (r: Request)
        ensures
            p_go_to_cue(*old(self), *final(self), r, i as int),
    {
        let times = match &self.vtt {
            Some(d) => d.cue_times(i),
            None => None,
        };
        let r = match times {
            Some((start, _)) => self.seek_to(start as i128),
            None => Request::Nothing,
        };
        self.selected_cue = i;
        r
    }
}

/// `a` after going to chapter `i`: a seek to its time, then the selection.
pub open spec fn gone_to_chapter(a: App, i: int) -> App {
    App { selected_chapter: i as usize, ..sought(a, (a.chapters@[i].0 as u64) as int) }
}

/// The rect the video frame is painted into: the pane less the caption strip.
pub open spec fn picture_of(a: App) -> Rect {
    split_video(a.areas.video, cue_count(a.vtt) > 0).0
}

/// The frame size that fits the picture rect in pixels, when it has room.
pub open spec fn frame_size_of(a: App) -> Option<(u32, u32)> {
    let v = picture_of(a);
    let mw = v.width * a.cell.w;
    let mh = v.height * a.cell.h;
    if mw < 2 || mh < 2 {
        None
    } else {
        let f = fitted(a.info.width as int, a.info.height as int, mw, mh);
        Some((f.0 as u32, f.1 as u32))
    }
}

/// `a` as playback starts: from the beginning when the playhead is at the end.
pub open spec fn restarted(a: App) -> App {
    if a.playhead >= a.info.duration {
        App { playhead: 0, ..a }
    } else {
        a
    }
}

/// What starting playback from `a` asks of the host.
pub open spec fn start_request(a: App) -> Request {
    if !a.kitty_ok {
        Request::Nothing
    } else {
        match frame_size_of(restarted(a)) {
            Some((w, h)) => Request::StartPlayback {
                from: restarted(a).playhead,
                speed: speed_at(a.speed_idx as int) as u64,
                width: w,
                height: h,
            },
            None => Request::Nothing,
        }
    }
}

/// `n` is `a` after starting playback: without the kitty preview there is
/// nothing to play into, and the status says so.
pub open spec fn start_post(a: App, n: App) -> bool {
    if !a.kitty_ok {
        n.status@ == "playback needs the kitty preview"@ && n == (App { status: n.status, ..a })
    } else {
        n == restarted(a)
    }
}

/// What `seek_to(t)` does.
pub open spec fn p_seek(a: App, n: App, r: Request, t: int) -> bool {
    &&& n.status@ == seek_status(a)
    &&& n == (App { status: n.status, ..sought(a, t) })
    &&& r == seek_request(a)
}

/// What `go_to_cue(i)` does.
pub open spec fn p_go_to_cue(a: App, n: App, r: Request, i: int) -> bool {
    &&& n.status@ == (if cue_exists(a, i) {
        seek_status(a)
    } else {
        a.status@
    })
    &&& n == (App { status: n.status, ..gone_to_cue(a, i) })
    &&& r == (if cue_exists(a, i) {
        seek_request(a)
    } else {
        Request::Nothing
    })
}

/// What `select_cue(delta)` does.
pub open spec fn p_select_cue(a: App, n: App, r: Request, delta: int) -> bool {
    let count = cue_count(a.vtt);
    if count == 0 {
        n == a && r == Request::Nothing
    } else {
        let next = clamp_to(a.selected_cue + delta, count - 1);
        &&& n.status@ == seek_status(a)
        &&& n == (App { status: n.status, ..gone_to_cue(a, next) })
        &&& r == seek_request(a)
    }
}

/// What `select_chapter(delta)` does.
pub open spec fn p_select_chapter(a: App, n: App, r: Request, delta: int) -> bool {
    let count = a.chapters@.len() as int;
    if count == 0 {
        &&& n.status@ == "no chapters (press m to add one)"@
        &&& n == (App { status: n.status, ..a })
        &&& r == Request::Nothing
    } else {
        let next = clamp_to(a.selected_chapter + delta, count - 1);
        &&& n.status@ == seek_status(a)
        &&& n == (App { status: n.status, ..gone_to_chapter(a, next) })
        &&& r == seek_request(a)
    }
}

/// What `quit` does.
pub open spec fn p_quit(a: App, n: App) -> bool {
    if (a.vtt_dirty || a.chapters_dirty) && !a.quit_armed {
        &&& n.status@ == unsaved_text()
        &&& n == (App { status: n.status, quit_armed: true, ..a })
    } else {
        n == (App { should_quit: true, ..a })
    }
}

/// What `set_in` does.
pub open spec fn p_set_in(a: App, n: App) -> bool {
    &&& n.status@ == "set IN"@
    &&& n == (App {
        status: n.status,
        mark_in: Some(a.playhead),
        mark_out: match a.mark_out {
            Some(o) => if o < a.playhead {
                None
            } else {
                Some(o)
            },
            None => None,
        },
        ..a
    })
}

/// What `set_out` does.
pub open spec fn p_set_out(a: App, n: App) -> bool {
    if a.mark_in matches Some(i) && a.playhead <= i {
        &&& n.status@ == "OUT must be after IN"@
        &&& n == (App { status: n.status, ..a })
    } else {
        &&& n.status@ == "set OUT"@
        &&& n == (App { status: n.status, mark_out: Some(a.playhead), ..a })
    }
}

/// What `clear_marks` does.
pub open spec fn p_clear_marks(a: App, n: App) -> bool {
    &&& n.status@ == "cleared marks"@
    &&& n == (App { status: n.status, mark_in: None, mark_out: None, ..a })
}

/// What `toggle_play(clock)` does.
pub open spec fn p_toggle_play(a: App, n: App, r: Request, clock: int) -> bool {
    if a.playing {
        &&& n.status@ == "paused"@
        &&& n == (App {
            status: n.status,
            playing: false,
            playhead: if clock < a.info.duration { clock as u64 } else { a.info.duration },
            needs_frame: true,
            ..a
        })
        &&& r == Request::StopPlayback
    } else {
        start_post(a, n) && r == start_request(a)
    }
}

/// What `change_speed(delta)` does.
pub open spec fn p_change_speed(a: App, n: App, r: Request, delta: int) -> bool {
    let next = clamp_to(a.speed_idx + delta, (SPEED_COUNT - 1) as int);
    let said = "speed "@ + crate::util::speed_text(speed_at(next) as nat);
    let m = App { status: n.status, speed_idx: next as usize, playing: false, ..a };
    if next == a.speed_idx {
        n == a && r == Request::Nothing
    } else if !a.playing {
        &&& n.status@ == said
        &&& n == (App { status: n.status, speed_idx: next as usize, ..a })
        &&& r == Request::Nothing
    } else {
        &&& start_post(m, n)
        &&& a.kitty_ok ==> n.status@ == said
        &&& r == (if start_request(m) is Nothing {
            Request::StopPlayback
        } else {
            start_request(m)
        })
    }
}

/// The status `UNSAVED` a first quit with unsaved edits leaves.
pub open spec fn unsaved_text() -> Seq<char> {
    "unsaved edits — q again to quit, s/S to save"@
}

impl App {
    /// Move the cue selection by `delta` (clamped to the list) and seek to
    /// the newly selected cue.
    pub fn select_cue(&mut self, delta: i32) -> (r: Request)
        ensures
            p_select_cue(*old(self), *final(self), r, delta as int),
    {
        let count = match &self.vtt {
            Some(d) => d.cue_count(),
            None => 0,
        };
        if count == 0 {
            return Request::Nothing;
        }
        let want: i128 = self.selected_cue as i128 + delta as i128;
        let next: usize = if want < 0 {
            0
        } else if want > (count - 1) as i128 {
            count - 1
        } else {
            want as usize
        };
        self.go_to_cue(next)
    }

    /// Move the chapter selection by `delta` (clamped to the list) and seek to
    /// the newly selected chapter.
    #[verifier::rlimit(40)]
    pub fn select_chapter(&mut self, delta: i32) -> (r: Request)
        ensures
            p_select_chapter(*old(self), *final(self), r, delta as int),
    {
        let count = self.chapters.len();
        if count == 0 {
            self.status = text("no chapters (press m to add one)");
            return Request::Nothing;
        }
        let want: i128 = self.selected_chapter as i128 + delta as i128;
        let next: usize = if want < 0 {
            0
        } else if want > (count - 1) as i128 {
            count - 1
        } else {
            want as usize
        };
        // Seek first, then record the selection: see `go_to_cue`.
        let r = match self.chapters.time(next) {
            Some(t) => self.seek_to(t as i128),
            None => Request::Nothing,
        };
        self.selected_chapter = next;
        r
    }

    /// Quit, unless there are unsaved edits and this is the first try: then
    /// arm the guard and say so; a second quit goes through.
    pub fn quit(&mut self)
        ensures
            p_quit(*old(self), *final(self)),
    {
        if (self.vtt_dirty || self.chapters_dirty) && !self.quit_armed {
            self.quit_armed = true;
            self.status = text("unsaved edits — q again to quit, s/S to save");
        } else {
            self.should_quit = true;
        }
    }

    /// Mark IN at the playhead, dropping an OUT that lies before it.
    pub fn set_in(&mut self)
        ensures
            p_set_in(*old(self), *final(self)),
    {
        self.mark_in = Some(self.playhead);
        if let Some(o) = self.mark_out {
            if o < self.playhead {
                self.mark_out = None;
            }
        }
        self.status = text("set IN");
    }

    /// Mark OUT at the playhead, unless that is not after IN.
    pub fn set_out(&mut self)
        ensures
            p_set_out(*old(self), *final(self)),
    {
        let before_in = match self.mark_in {
            Some(i) => self.playhead <= i,
            None => false,
        };
        if before_in {
            self.status = text("OUT must be after IN");
        } else {
            self.mark_out = Some(self.playhead);
            self.status = text("set OUT");
        }
    }

    /// Forget both marks.
    pub fn clear_marks(&mut self)
        ensures
            p_clear_marks(*old(self), *final(self)),
    {
        self.mark_in = None;
        self.mark_out = None;
        self.status = text("cleared marks");
    }

    /// The terminal is now `area`: lay the screen out anew.
    pub fn resize(&mut self, area: Rect)
        ensures
            areas_fit(area, final(self).areas),
            *final(self) == (App { area, areas: final(self).areas, ..*old(self) }),
    {
        self.areas = layout(area);
        self.area = area;
    }

    /// The rect the video frame is painted into: the pane less the caption strip.
    pub fn picture_rect(&self) -> (r: Rect)
        ensures
            r == picture_of(*self),
    {
        let has = self.has_cues();
        video_split(self.areas.video, has).0
    }

    /// The frame size that fits the picture, when it has room for one.
    pub fn frame_size(&self) -> (r: Option<(u32, u32)>)
        ensures
            r == frame_size_of(*self),
    {
        let v = self.picture_rect();
        proof {
            assert((v.width as int) * (self.cell.w as int) <= 65535 * 65535) by (nonlinear_arith)
                requires
                    0 <= v.width as int <= 65535,
                    0 <= self.cell.w as int <= 65535,
            ;
            assert((v.height as int) * (self.cell.h as int) <= 65535 * 65535) by (nonlinear_arith)
                requires
                    0 <= v.height as int <= 65535,
                    0 <= self.cell.h as int <= 65535,
            ;
        }
        let mw: u32 = v.width as u32 * self.cell.w as u32;
        let mh: u32 = v.height as u32 * self.cell.h as u32;
        if mw < 2 || mh < 2 {
            return None;
        }
        let (w, h) = fit_dims(self.info.width, self.info.height, mw, mh);
        Some((w, h))
    }

    /// The scrub frame to decode for the playhead: its size and whether the
    /// seek must be frame-accurate; none when the picture has no room.
    pub fn frame_wanted(&self) -> (r: Option<(u32, u32, bool)>)
        ensures
            r == (match frame_size_of(*self) {
                Some((w, h)) => Some((w, h, self.precise_seek)),
                None => None,
            }),
    {
        match self.frame_size() {
            Some((w, h)) => Some((w, h, self.precise_seek)),
            None => None,
        }
    }

    /// A scrub frame was decoded, or failed with `err`.
    pub fn frame_loaded(&mut self, err: Option<String>)
        ensures
            final(self).status@ == (match err {
                Some(e) => "frame error: "@ + e@,
                None => old(self).status@,
            }),
            *final(self) == (App { status: final(self).status, needs_frame: false, ..*old(self) }),
    {
        if let Some(e) = err {
            let mut s = text("frame error: ");
            push_str(&mut s, e.as_str());
            self.status = s;
        }
        self.needs_frame = false;
    }

    /// Stream from the playhead at the current speed (from the start when the
    /// playhead is at the end).
    pub fn start_playback(&mut self) -> (r: Request)
        ensures
            start_post(*old(self), *final(self)),
            r == start_request(*old(self)),
    {
        if !self.kitty_ok {
            self.status = text("playback needs the kitty preview");
            return Request::Nothing;
        }
        if self.playhead >= self.info.duration {
            self.playhead = 0;
        }
        match self.frame_size() {
            Some((w, h)) => Request::StartPlayback {
                from: self.playhead,
                speed: self.speed(),
                width: w,
                height: h,
            },
            None => Request::Nothing,
        }
    }

    /// The host started playback, or failed to with `err`.
    pub fn playback_started(&mut self, err: Option<String>)
        ensures
            ({
                let a = *old(self);
                match err {
                    None => {
                        &&& final(self).status@ == "playing "@ + crate::util::speed_text(
                            speed_at(a.speed_idx as int) as nat,
                        )
                        &&& *final(self) == (App {
                            status: final(self).status,
                            playing: true,
                            needs_frame: false,
                            ..a
                        })
                    },
                    Some(e) => {
                        &&& final(self).status@ == "play failed: "@ + e@
                        &&& *final(self) == (App { status: final(self).status, playing: false, ..a })
                    },
                }
            }),
    {
        match err {
            None => {
                self.playing = true;
                self.needs_frame = false;
                let mut s = text("playing ");
                let sp = crate::util::fmt_speed(self.speed());
                push_str(&mut s, sp.as_str());
                self.status = s;
            },
            Some(e) => {
                self.playing = false;
                let mut s = text("play failed: ");
                push_str(&mut s, e.as_str());
                self.status = s;
            },
        }
    }

    /// Space toggles playback. Pausing freezes the playhead where the playback
    /// `clock` (ms) was; starting streams from the current playhead.
    pub fn toggle_play(&mut self, clock: u64) -> (r: Request)
        ensures
            p_toggle_play(*old(self), *final(self), r, clock as int),
    {
        if self.playing {
            self.playing = false;
            self.playhead = if clock < self.info.duration {
                clock
            } else {
                self.info.duration
            };
            self.needs_frame = true;
            self.status = text("paused");
            Request::StopPlayback
        } else {
            self.start_playback()
        }
    }

    /// Step the playback speed by `delta` through the selectable speeds.
    /// Restarts the stream in place when playing.
    #[verifier::rlimit(80)]
    #[verifier::spinoff_prover]
    pub fn change_speed(&mut self, delta: i32) -> (r: Request)
        ensures
            p_change_speed(*old(self), *final(self), r, delta as int),
    {
        let want: i128 = self.speed_idx as i128 + delta as i128;
        let next: usize = if want < 0 {
            0
        } else if want > (SPEED_COUNT - 1) as i128 {
            SPEED_COUNT - 1
        } else {
            want as usize
        };
        if next == self.speed_idx {
            return Request::Nothing;
        }
        self.speed_idx = next;
        let mut s = text("speed ");
        let sp = crate::util::fmt_speed(self.speed());
        push_str(&mut s, sp.as_str());
        self.status = s;
        if self.playing {
            // The playhead tracks the clock during playback, so resume from here.
            self.playing = false;
            match self.start_playback() {
                Request::Nothing => Request::StopPlayback,
                r => r,
            }
        } else {
            Request::Nothing
        }
    }

    /// Playback advanced to `clock` ms: the playhead follows it (within the
    /// video) and the lists follow the playhead; a `finished` stream stops.
    pub fn advance(&mut self, clock: u64, finished: bool) -> (r: Request)
        ensures
            ({
                let a = *old(self);
                let b = followed(App {
                    playhead: if clock < a.info.duration { clock } else { a.info.duration },
                    ..a
                });
                if finished {
                    &&& final(self).status@ == "playback finished"@
                    &&& *final(self) == (App {
                        status: final(self).status,
                        playing: false,
                        needs_frame: true,
                        ..b
                    })
                    &&& r == Request::StopPlayback
                } else {
                    *final(self) == b && r == Request::Nothing
                }
            }),
    {
        self.playhead = if clock < self.info.duration {
            clock
        } else {
            self.info.duration
        };
        self.follow_playhead();
        if finished {
            self.playing = false;
            self.needs_frame = true;
            self.status = text("playback finished");
            Request::StopPlayback
        } else {
            Request::Nothing
        }
    }
}

/// The characters of `s` with each line break turned into a space.
pub open spec fn flat(s: Seq<char>) -> Seq<char> {
    s.map_values(|c: char| if c == '\n' { ' ' } else { c })
}

/// `s` with each line break turned into a space.
fn flattened(s: &str) -> (r: String)
    ensures
        r@ == flat(s@),
{
    let t = crate::unicode::chars_of(s);
    let mut r = String::new();
    let mut i: usize = 0;
    while i < t.len()
        invariant
            i <= t.len(),
            t@ == s@,
            r@ == flat(s@).take(i as int),
        decreases t.len() - i,
    {
        let c = if t[i] == '\n' {
            ' '
        } else {
            t[i]
        };
        crate::unicode::push_char(&mut r, c);
        i += 1;
        proof {
            assert(r@ =~= flat(s@).take(i as int));
        }
    }
    proof {
        assert(flat(s@).take(i as int) =~= flat(s@));
    }
    r
}

/// `s` without leading and trailing blanks.
fn trimmed(s: &str) -> (r: String)
    ensures
        r@ == crate::text::trim(s@),
{
    let t = crate::unicode::chars_of(s);
    let (a, b) = crate::text::trim_range(&t, 0, t.len());
    proof {
        assert(t@.subrange(0, t@.len() as int) =~= s@);
    }
    crate::unicode::string_of_range(&t, a, b)
}

/// Whether `s` is empty.
fn is_empty_str(s: &String) -> (b: bool)
    ensures
        b == (s@.len() == 0),
{
    crate::unicode::chars_of(s.as_str()).len() == 0
}

/// `n` is `a` after one key reached the line editor: the key's effect, when
/// the text has room for it.
pub open spec fn typed(a: App, n: App, key: crate::keymap::KeyEvent) -> bool {
    if crate::unicode::byte_len(a.edit_input@.0) + 4 <= usize::MAX {
        n.edit_input@ == crate::textinput::key_effect(a.edit_input@.0, a.edit_input@.1, key) && n
            == (App { edit_input: n.edit_input, ..a })
    } else {
        n == a
    }
}

/// Cue `k` of `d` mentions `q`, ignoring case.
pub open spec fn cue_hit(d: Seq<crate::vtt::Block>, q: Seq<char>, k: int) -> bool {
    crate::search::search_hits(crate::vtt::join_lines(crate::vtt::payload_view(nth_cue(d, k))), q).len()
        > 0
}

/// The first cue from `k` on that mentions `q`.
pub open spec fn first_hit_from(d: Seq<crate::vtt::Block>, q: Seq<char>, k: int) -> Option<int>
    decreases cue_blocks(d).len() - k,
{
    if k < 0 || k >= cue_blocks(d).len() {
        None
    } else if cue_hit(d, q, k) {
        Some(k)
    } else {
        first_hit_from(d, q, k + 1)
    }
}

/// The last cue up to `k` that mentions `q`.
pub open spec fn last_hit_upto(d: Seq<crate::vtt::Block>, q: Seq<char>, k: int) -> Option<int>
    decreases k + 1,
{
    if k < 0 {
        None
    } else if k >= cue_blocks(d).len() {
        last_hit_upto(d, q, cue_blocks(d).len() - 1)
    } else if cue_hit(d, q, k) {
        Some(k)
    } else {
        last_hit_upto(d, q, k - 1)
    }
}

/// How many of the first `n` cues mention `q`.
pub open spec fn hits_before(d: Seq<crate::vtt::Block>, q: Seq<char>, n: int) -> nat
    decreases n,
{
    if n <= 0 {
        0
    } else {
        hits_before(d, q, n - 1) + if cue_hit(d, q, n - 1) {
            1nat
        } else {
            0nat
        }
    }
}

/// The matching cue a search from cue `cur` lands on: the next one (or the
/// previous one), wrapping around the ends; `with_current` keeps `cur` itself
/// eligible.
pub open spec fn find_target(d: Seq<crate::vtt::Block>, q: Seq<char>, cur: int, forward: bool, with_current: bool) -> Option<int> {
    if forward {
        match first_hit_from(d, q, if with_current { cur } else { cur + 1 }) {
            Some(x) => Some(x),
            None => first_hit_from(d, q, 0),
        }
    } else {
        match last_hit_upto(d, q, if with_current { cur } else { cur - 1 }) {
            Some(x) => Some(x),
            None => last_hit_upto(d, q, cue_blocks(d).len() - 1),
        }
    }
}

/// What `find` does: jump to the next (or previous) cue whose text matches the
/// search, wrapping around the ends, and count it off.
pub open spec fn p_find(a: App, n: App, r: Request, forward: bool, with_current: bool) -> bool {
    let q = a.search@;
    if q.len() == 0 {
        &&& n.status@ == "no search — press / first"@
        &&& n == (App { status: n.status, ..a })
        &&& r == Request::Nothing
    } else {
        match a.vtt {
            None => {
                &&& n.status@ == "no subtitles loaded"@
                &&& n == (App { status: n.status, ..a })
                &&& r == Request::Nothing
            },
            Some(d) => match find_target(d@, q, a.selected_cue as int, forward, with_current) {
                None => {
                    &&& n.status@ == "no match for “"@ + q + "”"@
                    &&& n == (App { status: n.status, ..a })
                    &&& r == Request::Nothing
                },
                Some(next) => {
                    &&& n.status@ == "match "@ + crate::util::decimal(hits_before(d@, q, next) + 1)
                        + " of "@ + crate::util::decimal(hits_before(d@, q, cue_blocks(d@).len() as int))
                        + " for “"@ + q + "”"@
                    &&& n == (App { status: n.status, ..gone_to_cue(a, next) })
                    &&& r == seek_request(a)
                },
            },
        }
    }
}

proof fn lemma_first_hit(d: Seq<crate::vtt::Block>, q: Seq<char>, k: int)
    ensures
        first_hit_from(d, q, k) matches Some(x) ==> k <= x < cue_blocks(d).len(),
    decreases cue_blocks(d).len() - k,
{
    if 0 <= k < cue_blocks(d).len() && !cue_hit(d, q, k) {
        lemma_first_hit(d, q, k + 1);
    }
}

proof fn lemma_last_hit(d: Seq<crate::vtt::Block>, q: Seq<char>, k: int)
    ensures
        last_hit_upto(d, q, k) matches Some(x) ==> 0 <= x <= k && x < cue_blocks(d).len(),
    decreases k + 1,
{
    if k >= 0 {
        if k >= cue_blocks(d).len() {
            lemma_last_hit(d, q, cue_blocks(d).len() - 1);
        } else if !cue_hit(d, q, k) {
            lemma_last_hit(d, q, k - 1);
        }
    }
}

/// Which cues of `doc` mention `q`.
fn hit_marks(doc: &VttDoc, q: &String) -> (marks: Vec<bool>)
    ensures
        marks@.len() == cue_blocks(doc@).len(),
        forall|i: int| 0 <= i < marks@.len() ==> marks@[i] == cue_hit(doc@, q@, i),
{
    let rows = doc.cue_rows();
    let mut marks: Vec<bool> = Vec::new();
    let mut k: usize = 0;
    while k < rows.len()
        invariant
            k <= rows@.len(),
            rows@.len() == cue_blocks(doc@).len(),
            forall|j: int|
                0 <= j < rows@.len() ==> rows@[j].2@ == crate::vtt::join_lines(
                    crate::vtt::payload_view(nth_cue(doc@, j)),
                ),
            marks@.len() == k,
            forall|j: int| 0 <= j < k ==> marks@[j] == cue_hit(doc@, q@, j),
        decreases rows@.len() - k,
    {
        let hit = crate::search::contains(rows[k].2.as_str(), q.as_str());
        marks.push(hit);
        k += 1;
    }
    marks
}

/// The first marked index from `from` on.
fn first_mark_from(marks: &Vec<bool>, from: usize, d: Ghost<Seq<crate::vtt::Block>>, q: Ghost<Seq<char>>) -> (r: Option<usize>)
    requires
        marks@.len() == cue_blocks(d@).len(),
        forall|i: int| 0 <= i < marks@.len() ==> marks@[i] == cue_hit(d@, q@, i),
    ensures
        r == (match first_hit_from(d@, q@, from as int) {
            Some(x) => Some(x as usize),
            None => None::<usize>,
        }),
{
    let mut j = from;
    while j < marks.len()
        invariant
            from <= j,
            marks@.len() == cue_blocks(d@).len(),
            forall|i: int| 0 <= i < marks@.len() ==> marks@[i] == cue_hit(d@, q@, i),
            first_hit_from(d@, q@, j as int) == first_hit_from(d@, q@, from as int),
        decreases marks@.len() - j,
    {
        if marks[j] {
            return Some(j);
        }
        j += 1;
    }
    None
}

/// The last marked index up to `upto`.
fn last_mark_upto(marks: &Vec<bool>, upto: i128, d: Ghost<Seq<crate::vtt::Block>>, q: Ghost<Seq<char>>) -> (r: Option<usize>)
    requires
        marks@.len() == cue_blocks(d@).len(),
        forall|i: int| 0 <= i < marks@.len() ==> marks@[i] == cue_hit(d@, q@, i),
    ensures
        r == (match last_hit_upto(d@, q@, upto as int) {
            Some(x) => Some(x as usize),
            None => None::<usize>,
        }),
{
    if upto < 0 || marks.len() == 0 {
        return None;
    }
    // `j` is one past the next index to look at.
    let mut j: usize = if upto >= marks.len() as i128 {
        marks.len()
    } else {
        (upto + 1) as usize
    };
    proof {
        if upto >= marks.len() {
            assert(last_hit_upto(d@, q@, upto as int) == last_hit_upto(d@, q@, marks.len() - 1));
        }
    }
    while j > 0
        invariant
            j <= marks@.len(),
            marks@.len() == cue_blocks(d@).len(),
            forall|i: int| 0 <= i < marks@.len() ==> marks@[i] == cue_hit(d@, q@, i),
            last_hit_upto(d@, q@, j - 1) == last_hit_upto(d@, q@, upto as int),
        decreases j,
    {
        if marks[j - 1] {
            return Some(j - 1);
        }
        j -= 1;
    }
    None
}

/// How many of the first `n` marks are set.
fn marks_before(marks: &Vec<bool>, n: usize, d: Ghost<Seq<crate::vtt::Block>>, q: Ghost<Seq<char>>) -> (r: u64)
    requires
        n <= marks@.len(),
        marks@.len() == cue_blocks(d@).len(),
        forall|i: int| 0 <= i < marks@.len() ==> marks@[i] == cue_hit(d@, q@, i),
    ensures
        r == hits_before(d@, q@, n as int),
        r <= n,
{
    let mut total: u64 = 0;
    let mut j: usize = 0;
    while j < n
        invariant
            j <= n <= marks@.len(),
            marks@.len() == cue_blocks(d@).len(),
            forall|i: int| 0 <= i < marks@.len() ==> marks@[i] == cue_hit(d@, q@, i),
            total == hits_before(d@, q@, j as int),
            total <= j,
        decreases n - j,
    {
        if marks[j] {
            total += 1;
        }
        j += 1;
    }
    total
}

impl App {
    /// Where a search from the selected cue lands, with how many matching
    /// cues come before it and how many there are.
    fn find_next(&self, forward: bool, include_current: bool) -> (r: Option<(usize, u64, u64)>)
        requires
            self.vtt is Some,
        ensures
            ({
                let d = self.vtt.unwrap()@;
                let q = self.search@;
                &&& r is None <==> find_target(d, q, self.selected_cue as int, forward, include_current) is None
                &&& r matches Some((n, b, c)) ==> {
                    &&& find_target(d, q, self.selected_cue as int, forward, include_current) == Some(n as int)
                    &&& n < cue_blocks(d).len()
                    &&& b == hits_before(d, q, n as int)
                    &&& c == hits_before(d, q, cue_blocks(d).len() as int)
                    &&& b < u64::MAX
                }
            }),
    {
        let marks = match &self.vtt {
            Some(doc) => hit_marks(doc, &self.search),
            None => Vec::new(),
        };
        let ghost d = self.vtt.unwrap()@;
        let ghost q = self.search@;
        let count = marks.len();
        let cur = self.selected_cue;
        let found = if forward {
            let from: usize = if include_current {
                cur
            } else if cur < count {
                cur + 1
            } else {
                count
            };
            proof {
                if !include_current && cur >= count {
                    assert(first_hit_from(d, q, cur + 1) is None);
                    assert(first_hit_from(d, q, count as int) is None);
                }
            }
            match first_mark_from(&marks, from, Ghost(d), Ghost(q)) {
                Some(x) => Some(x),
                None => first_mark_from(&marks, 0, Ghost(d), Ghost(q)),
            }
        } else {
            let upto: i128 = if include_current {
                cur as i128
            } else {
                cur as i128 - 1
            };
            match last_mark_upto(&marks, upto, Ghost(d), Ghost(q)) {
                Some(x) => Some(x),
                None => last_mark_upto(&marks, count as i128 - 1, Ghost(d), Ghost(q)),
            }
        };
        proof {
            lemma_first_hit(d, q, if include_current { cur as int } else { cur + 1 });
            lemma_first_hit(d, q, 0);
            lemma_last_hit(d, q, if include_current { cur as int } else { cur - 1 });
            lemma_last_hit(d, q, count - 1);
        }
        match found {
            None => None,
            Some(next) => {
                let before = marks_before(&marks, next, Ghost(d), Ghost(q));
                let total = marks_before(&marks, count, Ghost(d), Ghost(q));
                Some((next, before, total))
            },
        }
    }

    /// Jump to the next (or previous) cue whose text matches the search,
    /// wrapping around the ends. `include_current` keeps the selected cue
    /// eligible, which is what a freshly typed search wants.
    #[verifier::rlimit(40)]
    pub fn find(&mut self, forward: bool, include_current: bool) -> (r: Request)
        ensures
            p_find(*old(self), *final(self), r, forward, include_current),
    {
        if is_empty_str(&self.search) {
            self.status = text("no search — press / first");
            return Request::Nothing;
        }
        if self.vtt.is_none() {
            self.status = text("no subtitles loaded");
            return Request::Nothing;
        }
        let (next, before, total) = match self.find_next(forward, include_current) {
            None => {
                let mut st = text("no match for “");
                push_str(&mut st, self.search.as_str());
                push_str(&mut st, "”");
                self.status = st;
                return Request::Nothing;
            },
            Some(t) => t,
        };
        let ghost a = *self;
        let ghost d = a.vtt.unwrap()@;
        let ghost q = a.search@;
        let r = self.go_to_cue(next);
        proof {
            assert(find_target(d, q, a.selected_cue as int, forward, include_current) == Some(next as int));
            assert(cue_exists(a, next as int));
            assert(r == seek_request(a));
            assert(self.search@ == q);
        }
        let mut st = text("match ");
        crate::util::push_padded(&mut st, before + 1, 0);
        push_str(&mut st, " of ");
        crate::util::push_padded(&mut st, total, 0);
        push_str(&mut st, " for “");
        push_str(&mut st, self.search.as_str());
        push_str(&mut st, "”");
        proof {
            assert(crate::util::padded((before + 1) as nat, 0) == crate::util::decimal((before + 1) as nat));
            assert(crate::util::padded(total as nat, 0) == crate::util::decimal(total as nat));
            assert(st@ =~= "match "@ + crate::util::decimal(hits_before(d, q, next as int) + 1) + " of "@
                + crate::util::decimal(hits_before(d, q, cue_blocks(d).len() as int)) + " for “"@ + q
                + "”"@);
        }
        self.status = st;
        r
    }
}
/// How a save went: written (with the backup of the original, when one was
/// made now), refused because the backup failed, or failed.
pub enum SaveOutcome {
    Saved { backup: Option<String> },
    BackupFailed(String),
    Failed(String),
}

/// An empty line editor.
pub open spec fn blank_input(i: TextInput) -> bool {
    i@.0.len() == 0 && i@.1 == 0
}

/// What `begin_search` does.
pub open spec fn p_begin_search(a: App, n: App) -> bool {
    if a.vtt is None {
        n.status@ == "no subtitles loaded"@ && n == (App { status: n.status, ..a })
    } else {
        &&& blank_input(n.edit_input)
        &&& n.status@ == "find in cues — Enter to search, Esc to cancel"@
        &&& n == (App { status: n.status, edit_input: n.edit_input, mode: Mode::Searching, ..a })
    }
}

/// What a key does while a search is typed.
pub open spec fn p_search_key(a: App, n: App, r: Request, key: crate::keymap::KeyEvent) -> bool {
    match key.code {
        crate::keymap::KeyCode::Enter => {
            let b = App { search: n.search, edit_input: n.edit_input, mode: Mode::Normal, ..a };
            &&& n.search@ == a.edit_input@.0
            &&& blank_input(n.edit_input)
            &&& if a.edit_input@.0.len() == 0 {
                n.status@ == "search cleared"@ && n == (App { status: n.status, ..b }) && r
                    == Request::Nothing
            } else {
                p_find(b, n, r, true, true)
            }
        },
        crate::keymap::KeyCode::Esc => {
            &&& blank_input(n.edit_input)
            &&& n.status@ == "search cancelled"@
            &&& n == (App { status: n.status, edit_input: n.edit_input, mode: Mode::Normal, ..a })
            &&& r == Request::Nothing
        },
        _ => typed(a, n, key) && r == Request::Nothing,
    }
}

/// The text of cue `k` of `d`.
pub open spec fn cue_text_of(d: Seq<crate::vtt::Block>, k: int) -> Seq<char> {
    crate::vtt::join_lines(crate::vtt::payload_view(nth_cue(d, k)))
}

/// What `begin_edit` does: the selected cue's text, its line breaks as
/// spaces, in the line editor with the cursor at its end.
pub open spec fn p_begin_edit(a: App, n: App) -> bool {
    match a.vtt {
        None => n.status@ == "no subtitles loaded"@ && n == (App { status: n.status, ..a }),
        Some(d) => if a.selected_cue >= cue_blocks(d@).len() {
            n == a
        } else {
            let t = flat(cue_text_of(d@, a.selected_cue as int));
            &&& n.edit_input@ == (t, t.len() as int)
            &&& n.status@ == "editing cue"@
            &&& n == (App {
                status: n.status,
                edit_input: n.edit_input,
                edit_target: EditTarget::Cue,
                mode: Mode::Editing,
                ..a
            })
        },
    }
}

/// What a key does in the inline editor: Enter commits the text to the cue
/// (or, trimmed, to the chapter title), Esc drops it.
pub open spec fn p_edit_key(a: App, n: App, key: crate::keymap::KeyEvent) -> bool {
    let t = a.edit_input@.0;
    match key.code {
        crate::keymap::KeyCode::Enter => {
            &&& blank_input(n.edit_input)
            &&& n.mode == Mode::Normal
            &&& match a.edit_target {
                EditTarget::Cue => {
                    &&& n.status@ == "cue updated"@
                    &&& match (a.vtt, n.vtt) {
                        (Some(d0), Some(d1)) => crate::vtt::text_set(d0@, d1@, a.selected_cue as int, t)
                            && n.vtt_dirty,
                        (None, None) => n.vtt_dirty == a.vtt_dirty,
                        _ => false,
                    }
                    &&& n == (App {
                        status: n.status,
                        edit_input: n.edit_input,
                        mode: Mode::Normal,
                        vtt: n.vtt,
                        vtt_dirty: n.vtt_dirty,
                        ..a
                    })
                },
                EditTarget::Chapter => {
                    let sel = a.selected_chapter as int;
                    &&& n.status@ == "chapter updated"@
                    &&& n.chapters@ == (if sel < a.chapters@.len() {
                        a.chapters@.update(sel, (a.chapters@[sel].0, crate::text::trim(t)))
                    } else {
                        a.chapters@
                    })
                    &&& n == (App {
                        status: n.status,
                        edit_input: n.edit_input,
                        mode: Mode::Normal,
                        chapters: n.chapters,
                        chapters_dirty: true,
                        ..a
                    })
                },
            }
        },
        crate::keymap::KeyCode::Esc => {
            &&& blank_input(n.edit_input)
            &&& n.status@ == "edit cancelled"@
            &&& n == (App { status: n.status, edit_input: n.edit_input, mode: Mode::Normal, ..a })
        },
        _ => typed(a, n, key),
    }
}

/// The name an export is first offered under: `<stem>-clip.<ext>` of the
/// source (`clip` and `mp4` where it has none).
pub open spec fn suggested_name(path: Seq<char>) -> Seq<char> {
    (match file_stem(path) {
        Some(x) => x,
        None => "clip"@,
    }) + "-clip."@ + (match extension(path) {
        Some(x) => x,
        None => "mp4"@,
    })
}

/// What `export(mode)` does: with both marks set, ask for the output name.
pub open spec fn p_export(a: App, n: App, mode: CutMode) -> bool {
    match (a.mark_in, a.mark_out) {
        (Some(start), Some(end)) => {
            let name = suggested_name(a.info.path@);
            &&& n.edit_input@ == (name, name.len() as int)
            &&& n.status@ == "save clip as (in source folder) — Enter to cut, Esc to cancel, Ctrl-U clears"@
            &&& n == (App {
                status: n.status,
                edit_input: n.edit_input,
                pending_export: Some(PendingExport { mode, start, end }),
                mode: Mode::Naming,
                ..a
            })
        },
        _ => n.status@ == "set IN (i) and OUT (o) first"@ && n == (App { status: n.status, ..a }),
    }
}

/// What a key does while the export name is typed: Enter asks the host
/// whether the resolved output exists (a blank name cancels), Esc cancels.
pub open spec fn p_naming_key(a: App, n: App, r: Request, key: crate::keymap::KeyEvent) -> bool {
    let name = a.edit_input@.0;
    match key.code {
        crate::keymap::KeyCode::Enter => {
            let b = App { edit_input: n.edit_input, mode: Mode::Normal, pending_export: None, ..a };
            &&& blank_input(n.edit_input)
            &&& match a.pending_export {
                None => n == b && r == Request::Nothing,
                Some(pe) => if crate::text::trim(name).len() == 0 {
                    &&& n.status@ == "export cancelled (empty name)"@
                    &&& n == (App { status: n.status, ..b })
                    &&& r == Request::Nothing
                } else {
                    &&& n == b
                    &&& r matches Request::CheckOutput { output, mode, start, end } && output@
                        == crate::paths::output_path(a.info.path@, name) && mode == pe.mode && start
                        == pe.start && end == pe.end
                },
            }
        },
        crate::keymap::KeyCode::Esc => {
            &&& blank_input(n.edit_input)
            &&& n.status@ == "export cancelled"@
            &&& n == (App {
                status: n.status,
                edit_input: n.edit_input,
                pending_export: None,
                mode: Mode::Normal,
                ..a
            })
            &&& r == Request::Nothing
        },
        _ => typed(a, n, key) && r == Request::Nothing,
    }
}

/// The status an export in `mode` shows while it runs.
pub open spec fn exporting_text(mode: CutMode) -> Seq<char> {
    match mode {
        CutMode::Fast => "exporting (fast)…"@,
        CutMode::Precise => "exporting (precise)…"@,
    }
}

/// The notes after a saved clip: ` + note` for each.
pub open spec fn notes_text(notes: Seq<Seq<char>>) -> Seq<char>
    decreases notes.len(),
{
    if notes.len() == 0 {
        Seq::empty()
    } else {
        notes_text(notes.drop_last()) + " + "@ + notes.last()
    }
}

/// The status a finished save of `path` leaves (`failed` names a failed
/// write).
pub open spec fn saved_text(path: Seq<char>, outcome: SaveOutcome, failed: Seq<char>) -> Seq<char> {
    match outcome {
        SaveOutcome::Saved { backup } => match backup {
            Some(b) => "saved "@ + path + " (original → "@ + b@ + ")"@,
            None => "saved "@ + path,
        },
        SaveOutcome::BackupFailed(e) => "backup failed, not saving: "@ + e@,
        SaveOutcome::Failed(e) => failed + e@,
    }
}

/// What `new_cue` does: a cue of two seconds (within the video) at the
/// playhead, selected and opened in the editor.
pub open spec fn p_new_cue(a: App, n: App) -> bool {
    let start = a.playhead as int;
    let end = if start + NEW_CUE_MS < a.info.duration {
        start + NEW_CUE_MS
    } else {
        a.info.duration as int
    };
    match a.vtt {
        None => n.status@ == "no subtitle file (pass --vtt to create one)"@ && n == (App {
            status: n.status,
            ..a
        }),
        Some(d0) => match n.vtt {
            None => false,
            Some(d1) => {
                let b = App {
                    vtt: n.vtt,
                    selected_cue: crate::vtt::first_later(d0@, start, 0) as usize,
                    vtt_dirty: true,
                    ..a
                };
                &&& crate::vtt::cue_added(d0@, d1@, start, end, Seq::empty())
                &&& p_begin_edit(b, n)
            },
        },
    }
}

/// What `delete_cue` does: the selected cue goes, and the selection stays in
/// the list.
pub open spec fn p_delete_cue(a: App, n: App) -> bool {
    match a.vtt {
        None => n == a,
        Some(d0) => if cue_blocks(d0@).len() == 0 {
            n == a
        } else {
            match n.vtt {
                None => false,
                Some(d1) => {
                    let sel = a.selected_cue as int;
                    let count = cue_blocks(d1@).len() as int;
                    &&& d1@ == (if sel < cue_blocks(d0@).len() {
                        d0@.remove(cue_blocks(d0@)[sel])
                    } else {
                        d0@
                    })
                    &&& n.status@ == "cue deleted"@
                    &&& n == (App {
                        status: n.status,
                        vtt: n.vtt,
                        selected_cue: (if sel < count - 1 { sel } else if count > 0 { count - 1 } else { 0 }) as usize,
                        vtt_dirty: true,
                        ..a
                    })
                },
            }
        },
    }
}

/// What `begin_edit_chapter` does.
pub open spec fn p_begin_edit_chapter(a: App, n: App) -> bool {
    if a.chapters@.len() == 0 {
        n.status@ == "no chapters (press m to add one)"@ && n == (App { status: n.status, ..a })
    } else {
        let sel = a.selected_chapter as int;
        let t = flat(if sel < a.chapters@.len() { a.chapters@[sel].1 } else { Seq::empty() });
        &&& n.edit_input@ == (t, t.len() as int)
        &&& n.status@ == "editing chapter"@
        &&& n == (App {
            status: n.status,
            edit_input: n.edit_input,
            edit_target: EditTarget::Chapter,
            mode: Mode::Editing,
            ..a
        })
    }
}

/// What `new_chapter` does: a chapter at the playhead, selected and opened
/// in the editor.
pub open spec fn p_new_chapter(a: App, n: App) -> bool {
    let idx = crate::chapter::insert_index(a.chapters@, a.playhead as int, 0);
    let b = App { chapters: n.chapters, selected_chapter: idx as usize, chapters_dirty: true, ..a };
    &&& n.chapters@ == a.chapters@.insert(idx, (a.playhead as int, Seq::empty()))
    &&& p_begin_edit_chapter(b, n)
}

/// What `delete_chapter` does.
pub open spec fn p_delete_chapter(a: App, n: App) -> bool {
    if a.chapters@.len() == 0 {
        n == a
    } else {
        let sel = a.selected_chapter as int;
        let count = n.chapters@.len() as int;
        &&& n.chapters@ == (if sel < a.chapters@.len() {
            a.chapters@.remove(sel)
        } else {
            a.chapters@
        })
        &&& n.status@ == "chapter deleted"@
        &&& n == (App {
            status: n.status,
            chapters: n.chapters,
            selected_chapter: (if sel < count - 1 { sel } else if count > 0 { count - 1 } else { 0 }) as usize,
            chapters_dirty: true,
            ..a
        })
    }
}

/// What `save_vtt` does.
pub open spec fn p_save_vtt(a: App, n: App, r: Request) -> bool {
    match a.vtt_path {
        None => n.status@ == "no subtitle path to save to"@ && n == (App { status: n.status, ..a }) && r
            == Request::Nothing,
        Some(path) => if a.vtt is None {
            n.status@ == "nothing to save"@ && n == (App { status: n.status, ..a }) && r
                == Request::Nothing
        } else {
            n == a && r == (Request::SaveVtt { path })
        },
    }
}

/// What `save_chapters` does.
pub open spec fn p_save_chapters(a: App, n: App, r: Request) -> bool {
    if a.chapters@.len() == 0 {
        n.status@ == "no chapters to save"@ && n == (App { status: n.status, ..a }) && r
            == Request::Nothing
    } else {
        n == a && r == (Request::SaveChapters { path: a.chapters_path })
    }
}

/// What `generate_subs` does: start WhisperX when nothing is running, there
/// are no cues yet and the video has sound; it writes to the subtitle path,
/// or to `<video>.vtt`.
pub open spec fn p_generate(a: App, n: App, r: Request) -> bool {
    if a.generating {
        n.status@ == "subtitle generation already running"@ && n == (App { status: n.status, ..a }) && r
            == Request::Nothing
    } else if cue_count(a.vtt) > 0 {
        n.status@ == "subtitles already loaded"@ && n == (App { status: n.status, ..a }) && r
            == Request::Nothing
    } else if a.info.audio_codec is None {
        n.status@ == "no audio track to transcribe"@ && n == (App { status: n.status, ..a }) && r
            == Request::Nothing
    } else {
        match n.vtt_path {
            None => false,
            Some(target) => {
                &&& (match a.vtt_path {
                    Some(p) => target == p,
                    None => target@ == with_extension(a.info.path@, "vtt"@),
                })
                &&& n.status@ == "whisperx: starting…"@
                &&& n == (App { status: n.status, vtt_path: n.vtt_path, generating: true, ..a })
                &&& r == (Request::StartWhisperx { video: a.info.path, target })
            },
        }
    }
}

/// The key that answers an overwrite question.
pub open spec fn is_yes(code: crate::keymap::KeyCode) -> bool {
    code == crate::keymap::KeyCode::Char('y') || code == crate::keymap::KeyCode::Char('Y')
}

/// The key that declines it.
pub open spec fn is_no(code: crate::keymap::KeyCode) -> bool {
    code == crate::keymap::KeyCode::Char('n') || code == crate::keymap::KeyCode::Char('N') || code
        == crate::keymap::KeyCode::Esc
}

/// What a key does while an overwrite is waiting for confirmation.
pub open spec fn p_confirm(a: App, n: App, r: Request, code: crate::keymap::KeyCode) -> bool {
    if is_yes(code) {
        match a.pending_cut {
            Some(pc) => {
                &&& n.status@ == exporting_text(pc.mode)
                &&& n == (App { status: n.status, pending_cut: None, ..a })
                &&& r == (Request::Cut {
                    output: pc.output,
                    mode: pc.mode,
                    start: pc.start,
                    end: pc.end,
                    overwrite: true,
                })
            },
            None => n == a && r == Request::Nothing,
        }
    } else if is_no(code) {
        &&& n.status@ == "export cancelled"@
        &&& n == (App { status: n.status, pending_cut: None, ..a })
        &&& r == Request::Nothing
    } else {
        n == a && r == Request::Nothing
    }
}

impl App {
    /// Ask for a string to find in the cue text. Committing an empty one
    /// clears the search (and with it the highlight).
    pub fn begin_search(&mut self)
        ensures
            p_begin_search(*old(self), *final(self)),
    {
        if self.vtt.is_none() {
            self.status = text("no subtitles loaded");
            return;
        }
        self.edit_input = TextInput::new();
        self.mode = Mode::Searching;
        self.status = text("find in cues — Enter to search, Esc to cancel");
    }

    /// Feed a key to the line editor, when its text has room for it.
    fn type_key(&mut self, key: crate::keymap::KeyEvent)
        ensures
            typed(*old(self), *final(self), key),
    {
        if self.edit_input.has_room() {
            self.edit_input.handle_key(key);
        }
    }

    /// A key while a search is typed: Enter searches (from the selected cue
    /// on), Esc keeps the search that was already set.
    #[verifier::rlimit(80)]
    #[verifier::spinoff_prover]
    pub fn handle_search_key(&mut self, key: crate::keymap::KeyEvent) -> (r: Request)
        ensures
            p_search_key(*old(self), *final(self), r, key),
    {
        match key.code {
            crate::keymap::KeyCode::Enter => {
                self.search = self.edit_input.take();
                self.mode = Mode::Normal;
                if is_empty_str(&self.search) {
                    self.status = text("search cleared");
                    Request::Nothing
                } else {
                    // Include the selected cue: searching for what is on screen
                    // shouldn't skip past it.
                    self.find(true, true)
                }
            },
            crate::keymap::KeyCode::Esc => {
                self.edit_input.clear();
                self.mode = Mode::Normal;
                self.status = text("search cancelled");
                Request::Nothing
            },
            _ => {
                self.type_key(key);
                Request::Nothing
            },
        }
    }

    /// Open the selected cue in the line editor. Multi-line cues are edited as
    /// one line: their line breaks become spaces.
    pub fn begin_edit(&mut self)
        ensures
            p_begin_edit(*old(self), *final(self)),
    {
        let t = match &self.vtt {
            None => {
                self.status = text("no subtitles loaded");
                return;
            },
            Some(doc) => doc.cue_text(self.selected_cue),
        };
        match t {
            None => {},
            Some(t) => {
                let f = flattened(t.as_str());
                self.edit_input = TextInput::with_text(f.as_str());
                self.edit_target = EditTarget::Cue;
                self.mode = Mode::Editing;
                self.status = text("editing cue");
            },
        }
    }

    /// A key in the inline editor: Enter commits, Esc cancels.
    pub fn handle_edit_key(&mut self, key: crate::keymap::KeyEvent)
        ensures
            p_edit_key(*old(self), *final(self), key),
    {
        match key.code {
            crate::keymap::KeyCode::Enter => {
                let t = self.edit_input.take();
                match self.edit_target {
                    EditTarget::Cue => {
                        let sel = self.selected_cue;
                        match &mut self.vtt {
                            Some(doc) => {
                                doc.set_cue_text(sel, t.as_str());
                                self.vtt_dirty = true;
                            },
                            None => {},
                        }
                        self.status = text("cue updated");
                    },
                    EditTarget::Chapter => {
                        let title = trimmed(t.as_str());
                        self.chapters.set_title(self.selected_chapter, title.as_str());
                        self.chapters_dirty = true;
                        self.status = text("chapter updated");
                    },
                }
                self.mode = Mode::Normal;
            },
            crate::keymap::KeyCode::Esc => {
                self.edit_input.clear();
                self.mode = Mode::Normal;
                self.status = text("edit cancelled");
            },
            _ => {
                self.type_key(key);
            },
        }
    }

    /// Type the filename for the export of the marked span (prefilled with a
    /// suggested name that you can replace).
    #[verifier::rlimit(60)]
    #[verifier::spinoff_prover]
    pub fn export(&mut self, mode: CutMode)
        ensures
            p_export(*old(self), *final(self), mode),
    {
        let (start, end) = match (self.mark_in, self.mark_out) {
            (Some(s), Some(e)) => (s, e),
            _ => {
                self.status = text("set IN (i) and OUT (o) first");
                return;
            },
        };
        let mut name = match file_stem_of(self.info.path.as_str()) {
            Some(x) => x,
            None => text("clip"),
        };
        push_str(&mut name, "-clip.");
        let ext = match extension_of(self.info.path.as_str()) {
            Some(x) => x,
            None => text("mp4"),
        };
        push_str(&mut name, ext.as_str());
        self.edit_input = TextInput::with_text(name.as_str());
        self.pending_export = Some(PendingExport { mode, start, end });
        self.mode = Mode::Naming;
        self.status = text("save clip as (in source folder) — Enter to cut, Esc to cancel, Ctrl-U clears");
    }

    /// A key while the export name is typed.
    pub fn handle_naming_key(&mut self, key: crate::keymap::KeyEvent) -> (r: Request)
        ensures
            p_naming_key(*old(self), *final(self), r, key),
    {
        match key.code {
            crate::keymap::KeyCode::Enter => {
                let name = self.edit_input.take();
                self.mode = Mode::Normal;
                let pe = match self.pending_export.take() {
                    Some(pe) => pe,
                    None => {
                        return Request::Nothing;
                    },
                };
                let typed_name = trimmed(name.as_str());
                if is_empty_str(&typed_name) {
                    self.status = text("export cancelled (empty name)");
                    return Request::Nothing;
                }
                let output = crate::paths::resolve_output(self.info.path.as_str(), name.as_str());
                Request::CheckOutput { output, mode: pe.mode, start: pe.start, end: pe.end }
            },
            crate::keymap::KeyCode::Esc => {
                self.edit_input.clear();
                self.pending_export = None;
                self.mode = Mode::Normal;
                self.status = text("export cancelled");
                Request::Nothing
            },
            _ => {
                self.type_key(key);
                Request::Nothing
            },
        }
    }

    /// The host found out whether `output` exists: if it does, ask before
    /// overwriting it; otherwise cut.
    pub fn output_checked(&mut self, output: String, mode: CutMode, start: u64, end: u64, exists: bool) -> (r: Request)
        ensures
            exists ==> {
                &&& final(self).status@ == output@ + " exists — y to overwrite, n to cancel"@
                &&& *final(self) == (App {
                    status: final(self).status,
                    pending_cut: Some(PendingCut { output, mode, start, end }),
                    ..*old(self)
                })
                &&& r == Request::Nothing
            },
            !exists ==> {
                &&& final(self).status@ == exporting_text(mode)
                &&& *final(self) == (App { status: final(self).status, ..*old(self) })
                &&& r == (Request::Cut { output, mode, start, end, overwrite: false })
            },
    {
        if exists {
            let mut st = output.clone();
            push_str(&mut st, " exists — y to overwrite, n to cancel");
            self.status = st;
            self.pending_cut = Some(PendingCut { output, mode, start, end });
            Request::Nothing
        } else {
            self.status = exporting_status(mode);
            Request::Cut { output, mode, start, end, overwrite: false }
        }
    }

    /// A key while an overwrite waits for confirmation.
    pub fn handle_confirm(&mut self, code: crate::keymap::KeyCode) -> (r: Request)
        ensures
            p_confirm(*old(self), *final(self), r, code),
    {
        match code {
            crate::keymap::KeyCode::Char('y') | crate::keymap::KeyCode::Char('Y') => {
                match self.pending_cut.take() {
                    Some(pc) => {
                        self.status = exporting_status(pc.mode);
                        Request::Cut {
                            output: pc.output,
                            mode: pc.mode,
                            start: pc.start,
                            end: pc.end,
                            overwrite: true,
                        }
                    },
                    None => Request::Nothing,
                }
            },
            crate::keymap::KeyCode::Char('n') | crate::keymap::KeyCode::Char('N')
            | crate::keymap::KeyCode::Esc => {
                self.pending_cut = None;
                self.status = text("export cancelled");
                Request::Nothing
            },
            _ => Request::Nothing,
        }
    }

    /// A cut to `output` finished: saved, with a note for each companion file
    /// written beside it, or failed.
    pub fn cut_finished(&mut self, output: &str, outcome: Result<Vec<String>, String>)
        ensures
            final(self).status@ == (match outcome {
                Ok(notes) => "saved "@ + output@ + notes_text(notes@.map_values(|s: String| s@)),
                Err(e) => "export failed: "@ + e@,
            }),
            *final(self) == (App { status: final(self).status, ..*old(self) }),
    {
        match outcome {
            Ok(notes) => {
                let mut st = text("saved ");
                push_str(&mut st, output);
                let ghost nv = notes@.map_values(|s: String| s@);
                let mut i: usize = 0;
                proof {
                    assert(nv.take(0) =~= Seq::<Seq<char>>::empty());
                }
                while i < notes.len()
                    invariant
                        i <= notes@.len(),
                        nv == notes@.map_values(|s: String| s@),
                        st@ == "saved "@ + output@ + notes_text(nv.take(i as int)),
                    decreases notes@.len() - i,
                {
                    push_str(&mut st, " + ");
                    push_str(&mut st, notes[i].as_str());
                    proof {
                        assert(nv.take(i + 1).drop_last() =~= nv.take(i as int));
                        assert(st@ =~= "saved "@ + output@ + notes_text(nv.take(i + 1)));
                    }
                    i += 1;
                }
                proof {
                    assert(nv.take(i as int) =~= nv);
                }
                self.status = st;
            },
            Err(e) => {
                let mut st = text("export failed: ");
                push_str(&mut st, e.as_str());
                self.status = st;
            },
        }
    }

    /// Snap the selected cue's start (or end) to the playhead.
    pub fn snap_cue(&mut self, start: bool)
        ensures
            p_snap(*old(self), *final(self), start),
    {
        let playhead = self.playhead;
        let sel = self.selected_cue;
        match &mut self.vtt {
            Some(doc) => {
                if start {
                    doc.set_cue_start(sel, playhead);
                } else {
                    doc.set_cue_end(sel, playhead);
                }
            },
            None => {
                return;
            },
        }
        self.vtt_dirty = true;
        let mut st = text("snapped cue ");
        push_ordinal(&mut st, sel);
        if start {
            push_str(&mut st, " start");
        } else {
            push_str(&mut st, " end");
        }
        self.status = st;
    }

    /// A new cue of two seconds at the playhead, opened in the editor.
    pub fn new_cue(&mut self)
        ensures
            p_new_cue(*old(self), *final(self)),
    {
        let start = self.playhead;
        let end: u64 = if (start as u128) + (NEW_CUE_MS as u128) < self.info.duration as u128 {
            start + NEW_CUE_MS
        } else {
            self.info.duration
        };
        let idx = match &mut self.vtt {
            Some(doc) => doc.add_cue(start, end, ""),
            None => {
                self.status = text("no subtitle file (pass --vtt to create one)");
                return;
            },
        };
        proof {
            reveal_strlit("");
        }
        self.selected_cue = idx;
        self.vtt_dirty = true;
        self.begin_edit();
    }

    /// Delete the selected cue, keeping the selection within the list.
    pub fn delete_cue(&mut self)
        ensures
            p_delete_cue(*old(self), *final(self)),
    {
        let sel = self.selected_cue;
        let left = match &mut self.vtt {
            Some(doc) => {
                if doc.cue_count() == 0 {
                    return;
                }
                doc.delete_cue(sel);
                doc.cue_count()
            },
            None => {
                return;
            },
        };
        self.selected_cue = if left == 0 {
            0
        } else if sel < left - 1 {
            sel
        } else {
            left - 1
        };
        self.vtt_dirty = true;
        self.status = text("cue deleted");
    }

    /// Ask the host to write the subtitles.
    pub fn save_vtt(&mut self) -> (r: Request)
        ensures
            p_save_vtt(*old(self), *final(self), r),
    {
        let path = match &self.vtt_path {
            Some(p) => p.clone(),
            None => {
                self.status = text("no subtitle path to save to");
                return Request::Nothing;
            },
        };
        if self.vtt.is_none() {
            self.status = text("nothing to save");
            return Request::Nothing;
        }
        Request::SaveVtt { path }
    }

    /// The subtitles were written to `path` (or not).
    pub fn vtt_saved(&mut self, path: &str, outcome: SaveOutcome)
        ensures
            final(self).status@ == saved_text(path@, outcome, "save failed: "@),
            *final(self) == (App {
                status: final(self).status,
                vtt_dirty: if outcome is Saved { false } else { old(self).vtt_dirty },
                ..*old(self)
            }),
    {
        let saved = match &outcome {
            SaveOutcome::Saved { .. } => true,
            _ => false,
        };
        self.status = saved_status(path, outcome, "save failed: ");
        if saved {
            self.vtt_dirty = false;
        }
    }

    /// Open the selected chapter's title in the line editor.
    pub fn begin_edit_chapter(&mut self)
        ensures
            p_begin_edit_chapter(*old(self), *final(self)),
    {
        if self.chapters.is_empty() {
            self.status = text("no chapters (press m to add one)");
            return;
        }
        let rows = self.chapters.rows();
        let title = if self.selected_chapter < rows.len() {
            proof {
                assert(rows@.map_values(|c: crate::chapter::Chapter| c@)[self.selected_chapter as int]
                    == rows@[self.selected_chapter as int]@);
            }
            rows[self.selected_chapter].title.clone()
        } else {
            String::new()
        };
        let f = flattened(title.as_str());
        self.edit_input = TextInput::with_text(f.as_str());
        self.edit_target = EditTarget::Chapter;
        self.mode = Mode::Editing;
        self.status = text("editing chapter");
    }

    /// A chapter at the playhead, opened in the editor for its title.
    pub fn new_chapter(&mut self)
        ensures
            p_new_chapter(*old(self), *final(self)),
    {
        let idx = self.chapters.add(self.playhead, "");
        proof {
            reveal_strlit("");
            assert(""@ =~= Seq::<char>::empty());
        }
        self.selected_chapter = idx;
        self.chapters_dirty = true;
        self.begin_edit_chapter();
    }

    /// Delete the selected chapter, keeping the selection within the list.
    pub fn delete_chapter(&mut self)
        ensures
            p_delete_chapter(*old(self), *final(self)),
    {
        if self.chapters.is_empty() {
            return;
        }
        self.chapters.delete(self.selected_chapter);
        let left = self.chapters.len();
        let sel = self.selected_chapter;
        self.selected_chapter = if left == 0 {
            0
        } else if sel < left - 1 {
            sel
        } else {
            left - 1
        };
        self.chapters_dirty = true;
        self.status = text("chapter deleted");
    }

    /// Ask the host to write the chapters.
    pub fn save_chapters(&mut self) -> (r: Request)
        ensures
            p_save_chapters(*old(self), *final(self), r),
    {
        if self.chapters.is_empty() {
            self.status = text("no chapters to save");
            return Request::Nothing;
        }
        Request::SaveChapters { path: self.chapters_path.clone() }
    }

    /// The chapters were written to `path` (or not).
    pub fn chapters_saved(&mut self, path: &str, outcome: SaveOutcome)
        ensures
            final(self).status@ == saved_text(path@, outcome, "chapter save failed: "@),
            *final(self) == (App {
                status: final(self).status,
                chapters_dirty: if outcome is Saved { false } else { old(self).chapters_dirty },
                ..*old(self)
            }),
    {
        let saved = match &outcome {
            SaveOutcome::Saved { .. } => true,
            _ => false,
        };
        self.status = saved_status(path, outcome, "chapter save failed: ");
        if saved {
            self.chapters_dirty = false;
        }
    }

    /// Start generating subtitles with WhisperX (key `G`). Only meaningful
    /// when there are no subtitles yet and the video has an audio track.
    pub fn generate_subs(&mut self) -> (r: Request)
        ensures
            p_generate(*old(self), *final(self), r),
    {
        if self.generating {
            self.status = text("subtitle generation already running");
            return Request::Nothing;
        }
        if self.has_cues() {
            self.status = text("subtitles already loaded");
            return Request::Nothing;
        }
        if self.info.audio_codec.is_none() {
            self.status = text("no audio track to transcribe");
            return Request::Nothing;
        }
        // Write to the chosen subtitle path, or a sibling <video>.vtt.
        let target = match &self.vtt_path {
            Some(p) => p.clone(),
            None => with_extension_of(self.info.path.as_str(), "vtt"),
        };
        self.vtt_path = Some(target.clone());
        self.generating = true;
        self.status = text("whisperx: starting…");
        Request::StartWhisperx { video: self.info.path.clone(), target }
    }

    /// A message from the WhisperX job.
    pub fn whisperx_progress(&mut self, msg: crate::whisperx::Progress) -> (r: Request)
        ensures
            match msg {
                crate::whisperx::Progress::Status(s) => {
                    &&& final(self).status@ == "whisperx: "@ + s@
                    &&& *final(self) == (App { status: final(self).status, ..*old(self) })
                    &&& r == Request::Nothing
                },
                crate::whisperx::Progress::Done(path) => {
                    &&& *final(self) == (App { generating: false, ..*old(self) })
                    &&& r == (Request::LoadGenerated { path })
                },
                crate::whisperx::Progress::Failed(e) => {
                    &&& final(self).status@ == "subtitle generation failed: "@ + e@
                    &&& *final(self) == (App { status: final(self).status, generating: false, ..*old(self) })
                    &&& r == Request::Nothing
                },
            },
    {
        match msg {
            crate::whisperx::Progress::Status(s) => {
                let mut st = text("whisperx: ");
                push_str(&mut st, s.as_str());
                self.status = st;
                Request::Nothing
            },
            crate::whisperx::Progress::Done(path) => {
                self.generating = false;
                Request::LoadGenerated { path }
            },
            crate::whisperx::Progress::Failed(e) => {
                self.generating = false;
                let mut st = text("subtitle generation failed: ");
                push_str(&mut st, e.as_str());
                self.status = st;
                Request::Nothing
            },
        }
    }

    /// The generated subtitles at `path` were read (or could not be).
    pub fn generated_loaded(&mut self, path: String, doc: Result<VttDoc, String>)
        ensures
            match doc {
                Ok(d) => {
                    &&& final(self).status@ == "generated "@ + crate::util::decimal(
                        cue_blocks(d@).len(),
                    ) + " cues → "@ + path@
                    &&& *final(self) == (App {
                        status: final(self).status,
                        vtt: Some(d),
                        vtt_path: Some(path),
                        vtt_dirty: false,
                        selected_cue: 0,
                        needs_frame: true,
                        ..*old(self)
                    })
                },
                Err(e) => {
                    &&& final(self).status@ == "generated subtitles but load failed: "@ + e@
                    &&& *final(self) == (App { status: final(self).status, ..*old(self) })
                },
            },
    {
        match doc {
            Ok(d) => {
                let n = d.cue_count();
                let mut st = text("generated ");
                crate::util::push_padded(&mut st, n as u64, 0);
                push_str(&mut st, " cues → ");
                push_str(&mut st, path.as_str());
                self.vtt = Some(d);
                self.vtt_path = Some(path);
                self.vtt_dirty = false;
                self.selected_cue = 0;
                self.needs_frame = true;
                self.status = st;
            },
            Err(e) => {
                let mut st = text("generated subtitles but load failed: ");
                push_str(&mut st, e.as_str());
                self.status = st;
            },
        }
    }
}

/// The status an export in `mode` shows while it runs.
fn exporting_status(mode: CutMode) -> (r: String)
    ensures
        r@ == exporting_text(mode),
{
    match mode {
        CutMode::Fast => text("exporting (fast)…"),
        CutMode::Precise => text("exporting (precise)…"),
    }
}

/// The status a finished save of `path` leaves.
fn saved_status(path: &str, outcome: SaveOutcome, failed: &str) -> (r: String)
    ensures
        r@ == saved_text(path@, outcome, failed@),
{
    match outcome {
        SaveOutcome::Saved { backup } => {
            let mut st = text("saved ");
            push_str(&mut st, path);
            if let Some(b) = backup {
                push_str(&mut st, " (original → ");
                push_str(&mut st, b.as_str());
                push_str(&mut st, ")");
            }
            st
        },
        SaveOutcome::BackupFailed(e) => {
            let mut st = text("backup failed, not saving: ");
            push_str(&mut st, e.as_str());
            st
        },
        SaveOutcome::Failed(e) => {
            let mut st = text(failed);
            push_str(&mut st, e.as_str());
            st
        },
    }
}

/// Appends `n + 1` in decimal: the ordinal a list shows for index `n`.
pub(crate) fn push_ordinal(s: &mut String, n: usize)
    ensures
        final(s)@ == old(s)@ + crate::util::decimal((n + 1) as nat),
{
    if n < usize::MAX {
        crate::util::push_padded(s, (n + 1) as u64, 0);
    } else {
        let q: u64 = (n / 10) as u64 + if n % 10 == 9 {
            1
        } else {
            0
        };
        let last: u64 = ((n % 10) as u64 + 1) % 10;
        proof {
            assert((n + 1) / 10 == q) by (nonlinear_arith)
                requires
                    q == n / 10 + if n % 10 == 9 { 1int } else { 0int },
                    n >= 0,
            ;
            assert((n + 1) % 10 == last) by (nonlinear_arith)
                requires
                    last == (n % 10 + 1) % 10,
                    n >= 0,
            ;
            assert((n + 1) >= 10);
        }
        crate::util::push_padded(s, q, 0);
        let c = crate::util::digit_char(last);
        crate::unicode::push_char(s, c);
    }
}

/// What `snap_cue(start)` does: the selected cue's start (or end) moves to
/// the playhead.
pub open spec fn p_snap(a: App, n: App, start: bool) -> bool {
    match a.vtt {
        None => n == a,
        Some(d0) => match n.vtt {
            None => false,
            Some(d1) => {
                &&& if start {
                    crate::vtt::start_set(d0@, d1@, a.selected_cue as int, a.playhead as int)
                } else {
                    crate::vtt::end_set(d0@, d1@, a.selected_cue as int, a.playhead as int)
                }
                &&& n.status@ == "snapped cue "@ + crate::util::decimal((a.selected_cue + 1) as nat) + (
                if start {
                    " start"@
                } else {
                    " end"@
                })
                &&& n == (App { status: n.status, vtt: n.vtt, vtt_dirty: true, ..a })
            },
        },
    }
}

/// How far a step of `k` frames moves the playhead, in ms, at `fps` frames
/// per thousand seconds (at least one frame a second).
pub open spec fn step_ms(k: int, fps: int) -> int {
    let f = if fps < 1000 { 1000 } else { fps };
    if k >= 0 {
        k * 1_000_000 / f
    } else {
        -((-k) * 1_000_000 / f)
    }
}

/// What a normal-mode action does. Any action but a quit disarms the
/// unsaved-quit guard first.
pub open spec fn p_apply(a: App, n: App, r: Request, action: crate::keymap::Action, clock: int) -> bool {
    let b = if action == Action::Quit {
        a
    } else {
        App { quit_armed: false, ..a }
    };
    let nothing = r == Request::Nothing;
    match action {
        Action::Quit => p_quit(b, n) && nothing,
        Action::TogglePlay => p_toggle_play(b, n, r, clock),
        Action::SpeedDown => p_change_speed(b, n, r, -1),
        Action::SpeedUp => p_change_speed(b, n, r, 1),
        Action::SeekBy(d) => p_seek(b, n, r, b.playhead + d),
        Action::FrameStep(k) => n.precise_seek && p_seek(
            b,
            App { precise_seek: false, ..n },
            r,
            b.playhead + step_ms(k as int, b.info.fps as int),
        ),
        Action::SeekStart => p_seek(b, n, r, 0),
        Action::SeekEnd => p_seek(b, n, r, b.info.duration as int),
        Action::SeekFraction(d) => p_seek(b, n, r, b.info.duration * d / 10),
        Action::SetIn => p_set_in(b, n) && nothing,
        Action::SetOut => p_set_out(b, n) && nothing,
        Action::ClearMarks => p_clear_marks(b, n) && nothing,
        Action::ExportFast => p_export(b, n, CutMode::Fast) && nothing,
        Action::ExportPrecise => p_export(b, n, CutMode::Precise) && nothing,
        Action::CueNext => p_select_cue(b, n, r, 1),
        Action::CuePrev => p_select_cue(b, n, r, -1),
        Action::EditCue => p_begin_edit(b, n) && nothing,
        Action::SearchStart => p_begin_search(b, n) && nothing,
        Action::SearchNext => p_find(b, n, r, true, false),
        Action::SearchPrev => p_find(b, n, r, false, false),
        Action::SnapStart => p_snap(b, n, true) && nothing,
        Action::SnapEnd => p_snap(b, n, false) && nothing,
        Action::NewCue => p_new_cue(b, n) && nothing,
        Action::DeleteCue => p_delete_cue(b, n) && nothing,
        Action::SaveVtt => p_save_vtt(b, n, r),
        Action::GenerateSubs => p_generate(b, n, r),
        Action::NewChapter => p_new_chapter(b, n) && nothing,
        Action::EditChapter => p_begin_edit_chapter(b, n) && nothing,
        Action::DeleteChapter => p_delete_chapter(b, n) && nothing,
        Action::ChapterNext => p_select_chapter(b, n, r, 1),
        Action::ChapterPrev => p_select_chapter(b, n, r, -1),
        Action::SaveChapters => p_save_chapters(b, n, r),
        Action::Help => n == (App { show_help: true, ..b }) && nothing,
        Action::Nothing => n == b && nothing,
    }
}

/// What a key press does, by mode: the line editors take it while they are
/// open; in normal mode it closes the help, answers an overwrite question, or
/// is mapped to an action.
pub open spec fn p_key(a: App, n: App, r: Request, key: crate::keymap::KeyEvent, clock: int) -> bool {
    match a.mode {
        Mode::Editing => p_edit_key(a, n, key) && r == Request::Nothing,
        Mode::Naming => p_naming_key(a, n, r, key),
        Mode::Searching => p_search_key(a, n, r, key),
        Mode::Normal => if a.show_help {
            n == (App { show_help: false, ..a }) && r == Request::Nothing
        } else if a.pending_cut is Some {
            p_confirm(a, n, r, key.code)
        } else {
            p_apply(a, n, r, crate::keymap::action_of(key.code), clock)
        },
    }
}

impl App {
    /// Carry out a normal-mode action; `clock` is where a running playback
    /// is (it only matters when playback is paused).
    #[verifier::rlimit(100)]
    #[verifier::spinoff_prover]
    pub fn apply(&mut self, action: crate::keymap::Action, clock: u64) -> (r: Request)
        ensures
            p_apply(*old(self), *final(self), r, action, clock as int),
    {
        // Any action other than a repeated quit disarms the unsaved-quit guard.
        if action != Action::Quit {
            self.quit_armed = false;
        }
        match action {
            Action::Quit => {
                self.quit();
                Request::Nothing
            },
            Action::TogglePlay => self.toggle_play(clock),
            Action::SpeedDown => self.change_speed(-1),
            Action::SpeedUp => self.change_speed(1),
            Action::SeekBy(d) => self.seek_to(self.playhead as i128 + d as i128),
            Action::FrameStep(k) => {
                let f: u64 = if self.info.fps < 1000 {
                    1000
                } else {
                    self.info.fps
                };
                let dt: i128 = if k >= 0 {
                    (k as i128) * 1_000_000 / (f as i128)
                } else {
                    -((-(k as i128)) * 1_000_000 / (f as i128))
                };
                let r = self.seek_to(self.playhead as i128 + dt);
                // Stepping wants the exact adjacent frame, not the nearest keyframe.
                self.precise_seek = true;
                r
            },
            Action::SeekStart => self.seek_to(0),
            Action::SeekEnd => self.seek_to(self.info.duration as i128),
            Action::SeekFraction(d) => {
                proof {
                    assert((self.info.duration as int) * (d as int) <= 18446744073709551615 * 255) by (nonlinear_arith)
                        requires
                            0 <= self.info.duration as int <= 18446744073709551615,
                            0 <= d as int <= 255,
                    ;
                }
                self.seek_to(self.info.duration as i128 * d as i128 / 10)
            },
            Action::SetIn => {
                self.set_in();
                Request::Nothing
            },
            Action::SetOut => {
                self.set_out();
                Request::Nothing
            },
            Action::ClearMarks => {
                self.clear_marks();
                Request::Nothing
            },
            Action::ExportFast => {
                self.export(CutMode::Fast);
                Request::Nothing
            },
            Action::ExportPrecise => {
                self.export(CutMode::Precise);
                Request::Nothing
            },
            Action::CueNext => self.select_cue(1),
            Action::CuePrev => self.select_cue(-1),
            Action::EditCue => {
                self.begin_edit();
                Request::Nothing
            },
            Action::SearchStart => {
                self.begin_search();
                Request::Nothing
            },
            Action::SearchNext => self.find(true, false),
            Action::SearchPrev => self.find(false, false),
            Action::SnapStart => {
                self.snap_cue(true);
                Request::Nothing
            },
            Action::SnapEnd => {
                self.snap_cue(false);
                Request::Nothing
            },
            Action::NewCue => {
                self.new_cue();
                Request::Nothing
            },
            Action::DeleteCue => {
                self.delete_cue();
                Request::Nothing
            },
            Action::SaveVtt => self.save_vtt(),
            Action::GenerateSubs => self.generate_subs(),
            Action::NewChapter => {
                self.new_chapter();
                Request::Nothing
            },
            Action::EditChapter => {
                self.begin_edit_chapter();
                Request::Nothing
            },
            Action::DeleteChapter => {
                self.delete_chapter();
                Request::Nothing
            },
            Action::ChapterNext => self.select_chapter(1),
            Action::ChapterPrev => self.select_chapter(-1),
            Action::SaveChapters => self.save_chapters(),
            Action::Help => {
                self.show_help = true;
                Request::Nothing
            },
            Action::Nothing => Request::Nothing,
        }
    }

    /// Handle a key press in whatever mode the editor is in.
    pub fn handle_key(&mut self, key: crate::keymap::KeyEvent, clock: u64) -> (r: Request)
        ensures
            p_key(*old(self), *final(self), r, key, clock as int),
    {
        match self.mode {
            Mode::Editing => {
                self.handle_edit_key(key);
                Request::Nothing
            },
            Mode::Naming => self.handle_naming_key(key),
            Mode::Searching => self.handle_search_key(key),
            Mode::Normal => {
                if self.show_help {
                    // Any key dismisses the help.
                    self.show_help = false;
                    Request::Nothing
                } else if self.pending_cut.is_some() {
                    self.handle_confirm(key.code)
                } else {
                    let action = crate::keymap::map(key);
                    self.apply(action, clock)
                }
            },
        }
    }
}

/// IN never lies after OUT.
pub open spec fn marks_ordered(a: App) -> bool {
    match (a.mark_in, a.mark_out) {
        (Some(i), Some(o)) => i <= o,
        _ => true,
    }
}

/// What every seek and every jump to an entry leaves alone, and that it
/// keeps the playhead within the video.
proof fn lemma_moves_keep(a: App, t: int, i: int)
    ensures
        sought(a, t).mark_in == a.mark_in && sought(a, t).mark_out == a.mark_out,
        sought(a, t).info == a.info,
        a.playhead <= a.info.duration ==> sought(a, t).playhead <= a.info.duration,
        gone_to_cue(a, i).mark_in == a.mark_in && gone_to_cue(a, i).mark_out == a.mark_out,
        gone_to_cue(a, i).info == a.info,
        a.playhead <= a.info.duration ==> gone_to_cue(a, i).playhead <= a.info.duration,
        gone_to_chapter(a, i).mark_in == a.mark_in && gone_to_chapter(a, i).mark_out == a.mark_out,
        gone_to_chapter(a, i).info == a.info,
        a.playhead <= a.info.duration ==> gone_to_chapter(a, i).playhead <= a.info.duration,
{
    match a.vtt {
        Some(d) => {
            if 0 <= i < cue_blocks(d@).len() {
                let u = ts_ms(nth_cue(d@, i).start);
                assert(sought(a, u).mark_in == a.mark_in);
            }
        },
        None => {},
    }
}

/// `n` keeps the marks in order and the playhead within the video, where `a`
/// had them so.
pub open spec fn keeps(a: App, n: App) -> bool {
    &&& marks_ordered(a) ==> marks_ordered(n)
    &&& a.playhead <= a.info.duration ==> n.playhead <= n.info.duration
}

proof fn lemma_seek_keeps(a: App, n: App, r: Request, t: int)
    requires
        p_seek(a, n, r, t),
    ensures
        keeps(a, n),
{
    lemma_moves_keep(a, t, 0);
}

proof fn lemma_step_keeps(a: App, n: App, r: Request, t: int)
    requires
        n.precise_seek,
        p_seek(a, App { precise_seek: false, ..n }, r, t),
    ensures
        keeps(a, n),
{
    lemma_moves_keep(a, t, 0);
}

proof fn lemma_select_cue_keeps(a: App, n: App, r: Request, delta: int)
    requires
        p_select_cue(a, n, r, delta),
    ensures
        keeps(a, n),
{
    lemma_moves_keep(a, 0, clamp_to(a.selected_cue + delta, cue_count(a.vtt) - 1));
}

proof fn lemma_select_chapter_keeps(a: App, n: App, r: Request, delta: int)
    requires
        p_select_chapter(a, n, r, delta),
    ensures
        keeps(a, n),
{
    lemma_moves_keep(a, 0, clamp_to(a.selected_chapter + delta, a.chapters@.len() - 1));
}

proof fn lemma_play_keeps(a: App, n: App, r: Request, clock: int)
    requires
        0 <= clock,
        p_toggle_play(a, n, r, clock),
    ensures
        keeps(a, n),
{
}

proof fn lemma_speed_keeps(a: App, n: App, r: Request, delta: int)
    requires
        p_change_speed(a, n, r, delta),
    ensures
        keeps(a, n),
{
}

proof fn lemma_marks_keep(a: App, n: App, action: Action)
    requires
        action == Action::SetIn ==> p_set_in(a, n),
        action == Action::SetOut ==> p_set_out(a, n),
        action == Action::ClearMarks ==> p_clear_marks(a, n),
        action == Action::SetIn || action == Action::SetOut || action == Action::ClearMarks,
    ensures
        keeps(a, n),
{
}

proof fn lemma_edits_keep(a: App, n: App, r: Request, action: Action)
    requires
        action == Action::ExportFast ==> p_export(a, n, CutMode::Fast),
        action == Action::ExportPrecise ==> p_export(a, n, CutMode::Precise),
        action == Action::EditCue ==> p_begin_edit(a, n),
        action == Action::SearchStart ==> p_begin_search(a, n),
        action == Action::SnapStart ==> p_snap(a, n, true),
        action == Action::SnapEnd ==> p_snap(a, n, false),
        action == Action::NewCue ==> p_new_cue(a, n),
        action == Action::DeleteCue ==> p_delete_cue(a, n),
        action == Action::SaveVtt ==> p_save_vtt(a, n, r),
        action == Action::GenerateSubs ==> p_generate(a, n, r),
        action == Action::NewChapter ==> p_new_chapter(a, n),
        action == Action::EditChapter ==> p_begin_edit_chapter(a, n),
        action == Action::DeleteChapter ==> p_delete_chapter(a, n),
        action == Action::SaveChapters ==> p_save_chapters(a, n, r),
        action == Action::Help ==> n == (App { show_help: true, ..a }),
        action == Action::Nothing ==> n == a,
        action == Action::Quit ==> p_quit(a, n),
    ensures
        ({
            let listed = action == Action::ExportFast || action == Action::ExportPrecise || action
                == Action::EditCue || action == Action::SearchStart || action == Action::SnapStart
                || action == Action::SnapEnd || action == Action::NewCue || action == Action::DeleteCue
                || action == Action::SaveVtt || action == Action::GenerateSubs || action
                == Action::NewChapter || action == Action::EditChapter || action
                == Action::DeleteChapter || action == Action::SaveChapters || action == Action::Help
                || action == Action::Nothing || action == Action::Quit;
            listed ==> keeps(a, n)
        }),
{
    if action == Action::NewCue {
        match a.vtt {
            Some(d0) => match n.vtt {
                Some(d1) => {
                    let b = App {
                        vtt: n.vtt,
                        selected_cue: crate::vtt::first_later(d0@, a.playhead as int, 0) as usize,
                        vtt_dirty: true,
                        ..a
                    };
                    assert(p_begin_edit(b, n));
                },
                None => {},
            },
            None => {},
        }
    }
    if action == Action::NewChapter {
        let idx = crate::chapter::insert_index(a.chapters@, a.playhead as int, 0);
        let b = App { chapters: n.chapters, selected_chapter: idx as usize, chapters_dirty: true, ..a };
        assert(p_begin_edit_chapter(b, n));
    }
}

/// One normal-mode action leaves the marks in order and the playhead within
/// the video, when they were.
#[verifier::rlimit(100)]
#[verifier::spinoff_prover]
proof fn lemma_apply_keeps(a: App, n: App, r: Request, action: Action, clock: int)
    requires
        0 <= clock,
        p_apply(a, n, r, action, clock),
    ensures
        marks_ordered(a) ==> marks_ordered(n),
        a.playhead <= a.info.duration ==> n.playhead <= n.info.duration,
{
    let b = if action == Action::Quit {
        a
    } else {
        App { quit_armed: false, ..a }
    };
    assert(keeps(a, b));
    match action {
        Action::SeekBy(d) => lemma_seek_keeps(b, n, r, b.playhead + d),
        Action::FrameStep(k) => lemma_step_keeps(b, n, r, b.playhead + step_ms(k as int, b.info.fps as int)),
        Action::SeekStart => lemma_seek_keeps(b, n, r, 0),
        Action::SeekEnd => lemma_seek_keeps(b, n, r, b.info.duration as int),
        Action::SeekFraction(d) => lemma_seek_keeps(b, n, r, b.info.duration * d / 10),
        Action::CueNext => lemma_select_cue_keeps(b, n, r, 1),
        Action::CuePrev => lemma_select_cue_keeps(b, n, r, -1),
        Action::ChapterNext => lemma_select_chapter_keeps(b, n, r, 1),
        Action::ChapterPrev => lemma_select_chapter_keeps(b, n, r, -1),
        Action::SearchNext => lemma_find_keeps(b, n, r, true, false),
        Action::SearchPrev => lemma_find_keeps(b, n, r, false, false),
        Action::TogglePlay => lemma_play_keeps(b, n, r, clock),
        Action::SpeedDown => lemma_speed_keeps(b, n, r, -1),
        Action::SpeedUp => lemma_speed_keeps(b, n, r, 1),
        Action::SetIn => lemma_marks_keep(b, n, action),
        Action::SetOut => lemma_marks_keep(b, n, action),
        Action::ClearMarks => lemma_marks_keep(b, n, action),
        _ => lemma_edits_keep(b, n, r, action),
    }
}

proof fn lemma_find_keeps(a: App, n: App, r: Request, forward: bool, with_current: bool)
    requires
        p_find(a, n, r, forward, with_current),
    ensures
        n.mark_in == a.mark_in && n.mark_out == a.mark_out && n.info == a.info,
        a.playhead <= a.info.duration ==> n.playhead <= n.info.duration,
{
    if a.search@.len() > 0 {
        match a.vtt {
            Some(d) => match find_target(d@, a.search@, a.selected_cue as int, forward, with_current) {
                Some(next) => lemma_moves_keep(a, 0, next),
                None => {},
            },
            None => {},
        }
    }
}

/// One key press leaves the marks in order and the playhead within the
/// video, when they were.
proof fn lemma_key_keeps(a: App, n: App, r: Request, key: crate::keymap::KeyEvent, clock: int)
    requires
        0 <= clock,
        p_key(a, n, r, key, clock),
    ensures
        marks_ordered(a) ==> marks_ordered(n),
        a.playhead <= a.info.duration ==> n.playhead <= n.info.duration,
{
    match a.mode {
        Mode::Searching => {
            if key.code == crate::keymap::KeyCode::Enter && a.edit_input@.0.len() > 0 {
                let b = App { search: n.search, edit_input: n.edit_input, mode: Mode::Normal, ..a };
                lemma_find_keeps(b, n, r, true, true);
            }
        },
        Mode::Normal => {
            if !a.show_help && a.pending_cut is None {
                lemma_apply_keeps(a, n, r, crate::keymap::action_of(key.code), clock);
            }
        },
        _ => {},
    }
}

/// No key press puts IN after OUT: setting IN drops an OUT before it, and
/// OUT is refused unless it comes after IN.
pub proof fn law_marks_stay_ordered(a: App, n: App, r: Request, key: crate::keymap::KeyEvent, clock: u64)
    requires
        marks_ordered(a),
        p_key(a, n, r, key, clock as int),
    ensures
        marks_ordered(n),
{
    lemma_key_keeps(a, n, r, key, clock as int);
}

/// No action handed to `apply` puts IN after OUT, whatever the action.
pub proof fn law_apply_keeps_marks_ordered(a: App, n: App, r: Request, action: Action, clock: u64)
    requires
        marks_ordered(a),
        p_apply(a, n, r, action, clock as int),
    ensures
        marks_ordered(n),
{
    lemma_apply_keeps(a, n, r, action, clock as int);
}

/// No key press takes the playhead past the end of the video.
pub proof fn law_playhead_in_video(a: App, n: App, r: Request, key: crate::keymap::KeyEvent, clock: u64)
    requires
        a.playhead <= a.info.duration,
        p_key(a, n, r, key, clock as int),
    ensures
        n.playhead <= n.info.duration,
{
    lemma_key_keeps(a, n, r, key, clock as int);
}

/// Quitting with unsaved edits takes two presses in a row: the first only
/// warns, the second quits; any other action in between disarms the guard.
pub proof fn law_quit_needs_confirming(a: App, m: App, n: App, r1: Request, r2: Request, c1: int, c2: int, other: Action)
    requires
        a.vtt_dirty || a.chapters_dirty,
        !a.quit_armed,
        !a.should_quit,
        p_apply(a, m, r1, Action::Quit, c1),
    ensures
        !m.should_quit,
        m.quit_armed,
        m.status@ == unsaved_text(),
        p_apply(m, n, r2, Action::Quit, c2) ==> n.should_quit,
        other != Action::Quit && p_apply(m, n, r2, other, c2) ==> !n.quit_armed,
{
    if other != Action::Quit && p_apply(m, n, r2, other, c2) {
        lemma_apply_disarms(m, n, r2, other, c2);
    }
}

#[verifier::spinoff_prover]
proof fn lemma_apply_disarms(a: App, n: App, r: Request, action: Action, clock: int)
    requires
        action != Action::Quit,
        p_apply(a, n, r, action, clock),
    ensures
        !n.quit_armed,
{
    let b = App { quit_armed: false, ..a };
    match action {
        Action::SeekBy(d) => lemma_moves_disarmed(b, b.playhead + d, 0),
        Action::FrameStep(k) => lemma_moves_disarmed(b, b.playhead + step_ms(k as int, b.info.fps as int), 0),
        Action::SeekStart => lemma_moves_disarmed(b, 0, 0),
        Action::SeekEnd => lemma_moves_disarmed(b, b.info.duration as int, 0),
        Action::SeekFraction(d) => lemma_moves_disarmed(b, b.info.duration * d / 10, 0),
        Action::CueNext => lemma_moves_disarmed(b, 0, clamp_to(b.selected_cue + 1, cue_count(b.vtt) - 1)),
        Action::CuePrev => lemma_moves_disarmed(b, 0, clamp_to(b.selected_cue - 1, cue_count(b.vtt) - 1)),
        Action::ChapterNext => lemma_moves_disarmed(
            b,
            0,
            clamp_to(b.selected_chapter + 1, b.chapters@.len() - 1),
        ),
        Action::ChapterPrev => lemma_moves_disarmed(
            b,
            0,
            clamp_to(b.selected_chapter - 1, b.chapters@.len() - 1),
        ),
        Action::SearchNext => lemma_find_disarmed(b, n, r, true, false),
        Action::SearchPrev => lemma_find_disarmed(b, n, r, false, false),
        _ => {},
    }
}

proof fn lemma_moves_disarmed(a: App, t: int, i: int)
    requires
        !a.quit_armed,
    ensures
        !sought(a, t).quit_armed,
        !gone_to_cue(a, i).quit_armed,
        !gone_to_chapter(a, i).quit_armed,
{
}

proof fn lemma_find_disarmed(a: App, n: App, r: Request, forward: bool, with_current: bool)
    requires
        !a.quit_armed,
        p_find(a, n, r, forward, with_current),
    ensures
        !n.quit_armed,
{
    if a.search@.len() > 0 {
        match a.vtt {
            Some(d) => match find_target(d@, a.search@, a.selected_cue as int, forward, with_current) {
                Some(next) => lemma_moves_disarmed(a, 0, next),
                None => {},
            },
            None => {},
        }
    }
}

/// Following the playhead in normal mode selects a cue that runs at the
/// playhead whenever there is one, and the first such cue.
pub proof fn law_follow_selects_the_spoken_cue(a: App, k: int)
    requires
        a.mode == Mode::Normal,
        a.vtt is Some,
        0 <= k < cue_blocks(a.vtt.unwrap()@).len(),
        ts_ms(nth_cue(a.vtt.unwrap()@, k).start) <= a.playhead < ts_ms(nth_cue(a.vtt.unwrap()@, k).end),
    ensures
        ({
            let d = a.vtt.unwrap()@;
            let s = followed(a).selected_cue as int;
            &&& 0 <= s <= k
            &&& ts_ms(nth_cue(d, s).start) <= a.playhead < ts_ms(nth_cue(d, s).end)
        }),
{
    let doc = a.vtt.unwrap();
    let d = doc@;
    doc.lemma_cue_count_fits();
    crate::vtt::law_active_cue_covers(d, a.playhead as int);
    match first_covering(d, a.playhead as int, 0) {
        Some(f) => {
            if k < f {
                assert(!(ts_ms(nth_cue(d, k).start) <= a.playhead < ts_ms(nth_cue(d, k).end)));
            }
        },
        None => {
            assert(!(ts_ms(nth_cue(d, k).start) <= a.playhead < ts_ms(nth_cue(d, k).end)));
        },
    }
}

proof fn lemma_first_hit_is_hit(d: Seq<crate::vtt::Block>, q: Seq<char>, k: int)
    ensures
        first_hit_from(d, q, k) matches Some(x) ==> cue_hit(d, q, x),
        (0 <= k && exists|j: int| k <= j < cue_blocks(d).len() && cue_hit(d, q, j)) ==> first_hit_from(
            d,
            q,
            k,
        ) is Some,
    decreases cue_blocks(d).len() - k,
{
    if 0 <= k < cue_blocks(d).len() && !cue_hit(d, q, k) {
        lemma_first_hit_is_hit(d, q, k + 1);
        if exists|j: int| k <= j < cue_blocks(d).len() && cue_hit(d, q, j) {
            let j = choose|j: int| k <= j < cue_blocks(d).len() && cue_hit(d, q, j);
            assert(k + 1 <= j);
        }
    }
}

proof fn lemma_last_hit_is_hit(d: Seq<crate::vtt::Block>, q: Seq<char>, k: int)
    ensures
        last_hit_upto(d, q, k) matches Some(x) ==> cue_hit(d, q, x),
        (k >= cue_blocks(d).len() - 1 && exists|j: int| 0 <= j < cue_blocks(d).len() && cue_hit(d, q, j))
            ==> last_hit_upto(d, q, k) is Some,
    decreases k + 1,
{
    if k >= 0 {
        if k >= cue_blocks(d).len() {
            lemma_last_hit_is_hit(d, q, cue_blocks(d).len() - 1);
        } else if !cue_hit(d, q, k) {
            lemma_last_hit_is_hit(d, q, k - 1);
            if exists|j: int| 0 <= j < cue_blocks(d).len() && cue_hit(d, q, j) {
                if k == cue_blocks(d).len() - 1 {
                    lemma_last_hit_below(d, q, k - 1);
                }
            }
        }
    }
}

proof fn lemma_last_hit_below(d: Seq<crate::vtt::Block>, q: Seq<char>, k: int)
    requires
        k < cue_blocks(d).len(),
    ensures
        (exists|j: int| 0 <= j <= k && cue_hit(d, q, j)) ==> last_hit_upto(d, q, k) is Some,
    decreases k + 1,
{
    if k >= 0 && !cue_hit(d, q, k) {
        lemma_last_hit_below(d, q, k - 1);
        if exists|j: int| 0 <= j <= k && cue_hit(d, q, j) {
            let j = choose|j: int| 0 <= j <= k && cue_hit(d, q, j);
            assert(j <= k - 1);
        }
    }
}

/// A search that some cue matches lands on a matching cue, whichever way it
/// goes and wherever it starts: it wraps around the ends rather than miss.
pub proof fn law_search_lands_on_a_match(a: App, n: App, r: Request, forward: bool, with_current: bool, j: int)
    requires
        a.search@.len() > 0,
        a.vtt is Some,
        0 <= j < cue_blocks(a.vtt.unwrap()@).len(),
        cue_hit(a.vtt.unwrap()@, a.search@, j),
        p_find(a, n, r, forward, with_current),
    ensures
        cue_hit(a.vtt.unwrap()@, a.search@, n.selected_cue as int),
        0 <= n.selected_cue < cue_blocks(a.vtt.unwrap()@).len(),
{
    let doc = a.vtt.unwrap();
    let d = doc@;
    let q = a.search@;
    doc.lemma_cue_count_fits();
    let cur = a.selected_cue as int;
    let k = if with_current { cur } else { cur + 1 };
    let b = if with_current { cur } else { cur - 1 };
    let count = cue_blocks(d).len() as int;
    lemma_first_hit_is_hit(d, q, k);
    lemma_first_hit_is_hit(d, q, 0);
    lemma_first_hit(d, q, k);
    lemma_first_hit(d, q, 0);
    lemma_last_hit_is_hit(d, q, b);
    lemma_last_hit_is_hit(d, q, count - 1);
    lemma_last_hit(d, q, b);
    lemma_last_hit(d, q, count - 1);
    assert(exists|i: int| 0 <= i < count && cue_hit(d, q, i));
    let t = find_target(d, q, cur, forward, with_current);
    assert(t is Some);
    let next = t.unwrap();
    assert(0 <= next < count);
    assert(cue_hit(d, q, next));
    assert(n.selected_cue == next as usize);
}

/// Escape in the inline editor leaves the subtitles and chapters as they
/// were, and nothing is marked unsaved.
pub proof fn law_escape_leaves_entries_untouched(a: App, n: App, r: Request, key: crate::keymap::KeyEvent, clock: int)
    requires
        a.mode == Mode::Editing,
        key.code == crate::keymap::KeyCode::Esc,
        p_key(a, n, r, key, clock),
    ensures
        n.vtt == a.vtt,
        n.chapters == a.chapters,
        n.vtt_dirty == a.vtt_dirty,
        n.chapters_dirty == a.chapters_dirty,
        n.mode == Mode::Normal,
{
}

impl App {
    /// The caption under the picture: the cue under the playhead, wrapped to
    /// a strip `width` cells wide and `height` rows tall. Nothing between
    /// cues, the same as a player.
    pub fn caption_rows(&self, width: usize, height: usize) -> (r: Vec<String>)
        ensures
            r@.map_values(|s: String| s@) == (match self.vtt {
                Some(d) => match first_covering(d@, self.playhead as int, 0) {
                    Some(k) => crate::ui::rows::caption_of(cue_text_of(d@, k), width as int, height as int),
                    None => Seq::empty(),
                },
                None => Seq::empty(),
            }),
    {
        let t = match &self.vtt {
            Some(d) => match d.active_cue(self.playhead) {
                Some(k) => {
                    proof {
                        d.lemma_cue_count_fits();
                        crate::vtt::law_active_cue_covers(d@, self.playhead as int);
                    }
                    d.cue_text(k)
                },
                None => None,
            },
            None => None,
        };
        match t {
            Some(t) => crate::ui::rows::caption(t.as_str(), width, height),
            None => {
                let v: Vec<String> = Vec::new();
                proof {
                    assert(v@.map_values(|s: String| s@) =~= Seq::<Seq<char>>::empty());
                }
                v
            },
        }
    }
}

/// Snapping edits the selected cue alone. Snapping its start moves the start
/// to the playhead, never past the cue's end, and keeps the end; snapping its
/// end moves the end to the playhead, never before the cue's start, and keeps
/// the start (for times under 256 hours, which a cue's timestamp holds).
pub proof fn law_snap_moves_one_edge(a: App, n: App, start: bool)
    requires
        p_snap(a, n, start),
        a.vtt is Some,
        (a.selected_cue as int) < cue_blocks(a.vtt->Some_0@).len(),
        (a.playhead as int) < crate::vtt::TS_SPAN_MS,
        !start ==> ts_ms(nth_cue(a.vtt->Some_0@, a.selected_cue as int).start) < crate::vtt::TS_SPAN_MS,
    ensures
        n.vtt is Some,
        ({
            let before = crate::vtt::cue_list(a.vtt->Some_0@);
            let after = crate::vtt::cue_list(n.vtt->Some_0@);
            let sel = a.selected_cue as int;
            let t = a.playhead as int;
            &&& after.len() == before.len()
            &&& forall|j: int| 0 <= j < before.len() && j != sel ==> #[trigger] after[j] == before[j]
            &&& after[sel].payload == before[sel].payload
            &&& start ==> {
                &&& after[sel].end == before[sel].end
                &&& ts_ms(after[sel].start) == (if t <= ts_ms(before[sel].end) { t } else { ts_ms(before[sel].end) })
            }
            &&& !start ==> {
                &&& after[sel].start == before[sel].start
                &&& ts_ms(after[sel].end) == (if t >= ts_ms(before[sel].start) { t } else { ts_ms(before[sel].start) })
            }
        }),
{
    let d0 = a.vtt->Some_0@;
    let d1 = n.vtt->Some_0@;
    let sel = a.selected_cue as int;
    let bi = cue_blocks(d0)[sel];
    crate::vtt::lemma_edit_cue_list(d0, d1, sel);
    assert(crate::vtt::cue_list(d0)[sel] == nth_cue(d0, sel));
    if start {
        let e = ts_ms(crate::vtt::cue_of(d0[bi]).end);
        crate::vtt::lemma_ts_round_trip(if (a.playhead as int) <= e { a.playhead as int } else { e });
    } else {
        let b = ts_ms(crate::vtt::cue_of(d0[bi]).start);
        crate::vtt::lemma_ts_round_trip(if (a.playhead as int) >= b { a.playhead as int } else { b });
    }
}

/// A new chapter goes in at the playhead with an empty title, and it is the
/// one selected and opened for its title: taking it out gives back the list
/// as it was, and the title editor starts empty.
pub proof fn law_new_chapter_is_edited(a: App, n: App)
    requires
        p_new_chapter(a, n),
    ensures
        (n.selected_chapter as int) < n.chapters@.len(),
        n.chapters@[n.selected_chapter as int] == (a.playhead as int, Seq::<char>::empty()),
        n.chapters@.remove(n.selected_chapter as int) == a.chapters@,
        n.mode == Mode::Editing,
        n.edit_target == EditTarget::Chapter,
        n.edit_input@ == (Seq::<char>::empty(), 0int),
{
    let idx = crate::chapter::insert_index(a.chapters@, a.playhead as int, 0);
    crate::chapter::lemma_insert_index_within(a.chapters@, a.playhead as int, 0);
    n.chapters.lemma_len_fits();
    assert(n.selected_chapter as int == idx);
    assert(n.chapters@.remove(idx) =~= a.chapters@);
    assert(flat(Seq::<char>::empty()) =~= Seq::<char>::empty());
}

} // verus!
