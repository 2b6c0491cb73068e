//! Playback: the ffmpeg and ffplay commands that stream a preview, and the
//! clock that decides which streamed frame is due. The processes and the
//! reader thread are the host's.

use vstd::prelude::*;
use crate::ffmpeg::cut::{push_arg, strs};
use crate::ffmpeg::frame::{push_scale, scale_text};
use crate::unicode::push_char;
use crate::util::{decimal, fmt_ffmpeg_time, lemma_padded_zero, padded, push_padded, seconds_text};

verus! {

/// The most frames a second a preview streams, in frames per thousand
/// seconds.
pub const MAX_FPS: u64 = 30_000;

/// The preview's frame rate for a source of `fps` frames per thousand
/// seconds: between one and thirty frames a second.
pub open spec fn stream_fps_of(fps: nat) -> nat {
    if fps < 1000 {
        1000
    } else if fps > 30_000 {
        30_000
    } else {
        fps
    }
}

/// The preview's frame rate (frames per thousand seconds) for a source
/// running at `fps`.
pub fn stream_fps(fps: u64) -> (r: u64)
    ensures
        r == stream_fps_of(fps as nat),
{
    if fps < 1000 {
        1000
    } else if fps > MAX_FPS {
        MAX_FPS
    } else {
        fps
    }
}

/// The ffmpeg arguments that stream `path` from `start` ms as raw RGBA frames
/// of `w`×`h` at `fps` frames per thousand seconds, without sound.
pub open spec fn video_args_of(path: Seq<char>, start: nat, fps: nat, w: nat, h: nat) -> Seq<Seq<char>> {
    seq![
        "-hide_banner"@,
        "-loglevel"@,
        "error"@,
        "-ss"@,
        seconds_text(start),
        "-i"@,
        path,
        "-an"@,
        "-vf"@,
        scale_text(w, h) + ",fps="@ + decimal(fps) + "/1000"@,
        "-pix_fmt"@,
        "rgba"@,
        "-f"@,
        "rawvideo"@,
        "-"@,
    ]
}

/// The ffmpeg arguments for the preview's video stream.
pub fn video_args(path: &str, start: u64, fps: u64, width: u32, height: u32) -> (r: Vec<String>)
    ensures
        strs(r@) == video_args_of(path@, start as nat, fps as nat, width as nat, height as nat),
{
    let mut v: Vec<String> = Vec::new();
    push_arg(&mut v, "-hide_banner");
    push_arg(&mut v, "-loglevel");
    push_arg(&mut v, "error");
    push_arg(&mut v, "-ss");
    let s = fmt_ffmpeg_time(start);
    push_arg(&mut v, s.as_str());
    push_arg(&mut v, "-i");
    push_arg(&mut v, path);
    push_arg(&mut v, "-an");
    push_arg(&mut v, "-vf");
    let mut filter = String::new();
    push_scale(&mut filter, width, height);
    crate::unicode::push_str(&mut filter, ",fps=");
    crate::util::push_padded(&mut filter, fps, 0);
    crate::unicode::push_str(&mut filter, "/1000");
    proof {
        crate::util::lemma_padded_zero(fps as nat);
    }
    push_arg(&mut v, filter.as_str());
    push_arg(&mut v, "-pix_fmt");
    push_arg(&mut v, "rgba");
    push_arg(&mut v, "-f");
    push_arg(&mut v, "rawvideo");
    push_arg(&mut v, "-");
    proof {
        assert(strs(v@) =~= video_args_of(path@, start as nat, fps as nat, width as nat, height as nat));
    }
    v
}

/// The ffplay arguments that play `path`'s sound from `start` ms, with no
/// window, quitting at the end.
pub open spec fn audio_args_of(path: Seq<char>, start: nat) -> Seq<Seq<char>> {
    seq!["-nodisp"@, "-vn"@, "-autoexit"@, "-loglevel"@, "quiet"@, "-ss"@, seconds_text(start), path]
}

/// The ffplay arguments for the preview's sound.
pub fn audio_args(path: &str, start: u64) -> (r: Vec<String>)
    ensures
        strs(r@) == audio_args_of(path@, start as nat),
{
    let mut v: Vec<String> = Vec::new();
    push_arg(&mut v, "-nodisp");
    push_arg(&mut v, "-vn");
    push_arg(&mut v, "-autoexit");
    push_arg(&mut v, "-loglevel");
    push_arg(&mut v, "quiet");
    push_arg(&mut v, "-ss");
    let s = fmt_ffmpeg_time(start);
    push_arg(&mut v, s.as_str());
    push_arg(&mut v, path);
    proof {
        assert(strs(v@) =~= audio_args_of(path@, start as nat));
    }
    v
}

/// When streamed frame `i` is due, in ms: frames follow each other at `fps`
/// frames per thousand seconds from `start`.
pub open spec fn pts_of(start: nat, fps: nat, i: nat) -> nat {
    start + i * 1_000_000 / fps
}

/// The preview's clock: which streamed frame is due when.
pub struct Pacer {
    /// Where the stream starts, in ms.
    pub start: u64,
    /// Frames per thousand seconds, at least one a second.
    pub fps: u64,
    /// How many frames have been timed.
    pub index: u64,
    /// Where the media ends, in ms.
    pub duration: u64,
}

impl Pacer {
    /// A clock for a stream from `start` ms at `fps` of media lasting
    /// `duration` ms.
    pub fn new(start: u64, fps: u64, duration: u64) -> (r: Pacer)
        requires
            fps >= 1000,
        ensures
            r == (Pacer { start, fps, index: 0, duration }),
    {
        Pacer { start, fps, index: 0, duration }
    }

    /// When the next streamed frame is due, counting it as timed.
    pub fn next_pts(&mut self) -> (r: u64)
        requires
            old(self).fps >= 1000,
            old(self).index < u64::MAX,
            pts_of(old(self).start as nat, old(self).fps as nat, old(self).index as nat) <= u64::MAX,
        ensures
            r == pts_of(old(self).start as nat, old(self).fps as nat, old(self).index as nat),
            *final(self) == (Pacer { index: (old(self).index + 1) as u64, ..*old(self) }),
    {
        let r = (self.start as u128 + self.index as u128 * 1_000_000 / self.fps as u128) as u64;
        proof {
            assert(self.index as u128 * 1_000_000 <= 0xffff_ffff_ffff_ffffu128 * 1_000_000) by (nonlinear_arith)
                requires
                    self.index <= 0xffff_ffff_ffff_ffffu64,
            ;
        }
        self.index = self.index + 1;
        r
    }

    /// Playback is done once the stream ended and everything read was shown,
    /// or the clock reached the end of the media.
    pub fn finished(&self, eof: bool, frame_waiting: bool, clock: u64) -> (r: bool)
        ensures
            r == ((eof && !frame_waiting) || clock >= self.duration),
    {
        (eof && !frame_waiting) || clock >= self.duration
    }
}

/// Frames are due in the order they are streamed: a later frame is never due
/// before an earlier one.
pub proof fn law_frames_due_in_order(start: nat, fps: nat, i: nat, j: nat)
    requires
        fps > 0,
        i <= j,
    ensures
        pts_of(start, fps, i) <= pts_of(start, fps, j),
{
    vstd::arithmetic::div_mod::lemma_div_is_ordered((i * 1_000_000) as int, (j * 1_000_000) as int, fps as int);
}

/// One `atempo` stage of ffplay's audio filter for a speed of `h`
/// hundredths: `atempo=1.25`.
pub open spec fn tempo_text(h: nat) -> Seq<char> {
    seq!['a', 't', 'e', 'm', 'p', 'o', '='] + decimal(h / 100) + seq!['.'] + padded(h % 100, 2)
}

/// The audio filter that plays the sound at `speed` hundredths of normal
/// speed: none at normal speed, one `atempo` stage from half speed up, and
/// below that a fixed half-speed stage followed by one for the rest (one
/// stage goes no slower than half speed).
pub open spec fn tempo_filter_of(speed: nat) -> Option<Seq<char>> {
    if speed == 100 {
        None
    } else if speed < 50 {
        Some(tempo_text(50) + seq![','] + tempo_text(2 * speed))
    } else {
        Some(tempo_text(speed))
    }
}

fn push_tempo(out: &mut String, h: u64)
    ensures
        final(out)@ == old(out)@ + tempo_text(h as nat),
{
    let ghost start = out@;
    push_char(out, 'a');
    push_char(out, 't');
    push_char(out, 'e');
    push_char(out, 'm');
    push_char(out, 'p');
    push_char(out, 'o');
    push_char(out, '=');
    push_padded(out, h / 100, 0);
    push_char(out, '.');
    push_padded(out, h % 100, 2);
    proof {
        lemma_padded_zero((h / 100) as nat);
        assert(out@ =~= start + tempo_text(h as nat));
    }
}

/// The `-af` filter for ffplay's sound at a playback speed of `speed`
/// hundredths, if it needs one.
pub fn tempo_filter(speed: u64) -> (r: Option<String>)
    ensures
        r is None <==> tempo_filter_of(speed as nat) is None,
        r matches Some(s) ==> tempo_filter_of(speed as nat) == Some(s@),
{
    if speed == 100 {
        return None;
    }
    let mut out = String::new();
    if speed < 50 {
        push_tempo(&mut out, 50);
        push_char(&mut out, ',');
        push_tempo(&mut out, speed * 2);
        proof {
            assert(out@ =~= tempo_text(50) + seq![','] + tempo_text(2 * speed as nat));
        }
    } else {
        push_tempo(&mut out, speed);
        proof {
            assert(out@ =~= tempo_text(speed as nat));
        }
    }
    Some(out)
}

} // verus!
