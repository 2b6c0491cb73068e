//! Opening the editor: which subtitles and chapters it starts with, from
//! what the host found on disk, and what it says when a file could not be
//! read.

use vstd::prelude::*;
use crate::app::{App, EditTarget, Mode, DEFAULT_SPEED_IDX};
use crate::chapter::{chapters_of_text, Chapters};
use crate::ffmpeg::probe::MediaInfo;
use crate::paths::with_extension;
use crate::player::image_pane::CellSize;
use crate::ui::Rect;
use crate::unicode::push_str;
use crate::vtt::{cue_summary, vtt_cues, VttDoc};

verus! {

/// What the host found at a path it was asked to read.
pub enum Found {
    /// Nothing is there.
    Absent,
    /// The file, read as text.
    Text(String),
    /// Something is there but could not be read.
    Unreadable,
}

/// `r` is a freshly opened editor for `info` at the top of the video, with
/// nothing selected, marked, typed or playing.
pub open spec fn fresh(r: App, info: MediaInfo, cell: CellSize) -> bool {
    &&& r.chapters_path@ == with_extension(info.path@, "chapter.txt"@)
    &&& r.info == info
    &&& r.cell == cell
    &&& !r.vtt_dirty && !r.chapters_dirty
    &&& r.selected_cue == 0 && r.selected_chapter == 0
    &&& r.mode == Mode::Normal
    &&& r.edit_target == EditTarget::Cue
    &&& r.edit_input@.0.len() == 0 && r.edit_input@.1 == 0
    &&& r.search@.len() == 0
    &&& !r.show_help
    &&& r.playhead == 0
    &&& r.mark_in is None && r.mark_out is None
    &&& !r.kitty_ok
    &&& r.area == (Rect { x: 0, y: 0, width: 0, height: 0 })
    &&& r.areas == crate::ui::no_areas()
    &&& r.needs_frame
    &&& !r.precise_seek && !r.should_quit && !r.playing && !r.quit_armed && !r.generating
    &&& r.speed_idx == DEFAULT_SPEED_IDX
    &&& r.pending_export is None && r.pending_cut is None
}

/// Why the subtitles at `path` were not loaded, if they were not: `None`
/// when they were (or there were none to load).
pub open spec fn vtt_trouble(path: Option<String>, found: Found) -> Option<Seq<char>> {
    match path {
        None => None,
        Some(p) => match found {
            Found::Absent => None,
            Found::Unreadable => Some("vtt load failed: reading "@ + p@),
            Found::Text(t) => match vtt_cues(t@) {
                Some(_) => None,
                None => Some("vtt load failed: parsing "@ + p@ + ": "@),
            },
        },
    }
}

/// Open the editor on the video `info`, with the subtitles at `vtt_path`
/// (what the host found there is `vtt_file`) and the chapter file beside the
/// video (`chapters_file`). A subtitle path with nothing at it starts an
/// empty document there; one that cannot be read or parsed leaves the editor
/// without subtitles, and says so; an unreadable chapter file leaves it
/// without chapters, and says so (that message wins over a subtitle one).
pub fn open(info: MediaInfo, vtt_path: Option<String>, vtt_file: Found, chapters_file: Found, cell: CellSize) -> (r:
    App)
    ensures
        fresh(r, info, cell),
        r.vtt_path == vtt_path,
        match (vtt_path, vtt_file) {
            (None, _) => r.vtt is None,
            (Some(_), Found::Absent) => r.vtt matches Some(d) && d@.len() == 0,
            (Some(_), Found::Unreadable) => r.vtt is None,
            (Some(_), Found::Text(t)) => match vtt_cues(t@) {
                Some(cs) => r.vtt matches Some(d) && cue_summary(d@) == cs,
                None => r.vtt is None,
            },
        },
        match chapters_file {
            Found::Text(t) => r.chapters@ == chapters_of_text(t@),
            _ => r.chapters@.len() == 0,
        },
        match chapters_file {
            Found::Unreadable => r.status@ == "chapter load failed: reading "@ + r.chapters_path@,
            _ => match vtt_trouble(vtt_path, vtt_file) {
                Some(m) => r.status@.len() >= m.len() && r.status@.take(m.len() as int) == m,
                None => r.status@.len() == 0,
            },
        },
{
    let mut status = String::new();
    let vtt = match &vtt_path {
        None => None,
        Some(p) => match vtt_file {
            Found::Absent => Some(VttDoc::empty()),
            Found::Unreadable => {
                push_str(&mut status, "vtt load failed: reading ");
                push_str(&mut status, p.as_str());
                None
            },
            Found::Text(t) => match VttDoc::parse(t.as_str()) {
                Ok(d) => Some(d),
                Err(e) => {
                    push_str(&mut status, "vtt load failed: parsing ");
                    push_str(&mut status, p.as_str());
                    push_str(&mut status, ": ");
                    let ghost m = status@;
                    push_str(&mut status, e.message.as_str());
                    proof {
                        assert(status@.take(m.len() as int) =~= m);
                    }
                    None
                },
            },
        },
    };
    let chapters_path = crate::paths::with_extension_of(info.path.as_str(), "chapter.txt");
    let chapters = match chapters_file {
        Found::Text(t) => Chapters::parse(t.as_str()),
        Found::Absent => Chapters::empty(),
        Found::Unreadable => {
            let mut s = String::new();
            push_str(&mut s, "chapter load failed: reading ");
            push_str(&mut s, chapters_path.as_str());
            status = s;
            Chapters::empty()
        },
    };
    App::new(info, vtt_path, vtt, chapters, status, cell)
}

} // verus!
