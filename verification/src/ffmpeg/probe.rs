//! What `ffprobe` reports about a media file, and what the editor makes of
//! it. Running `ffprobe` and reading its JSON is the host's part.

use vstd::prelude::*;
use crate::chapter::{part_ms, read_part};
use crate::text::{index_of, trim, trim_range, find_char};
use crate::unicode::{chars_of, push_str, str_eq};

verus! {

/// Everything the UI needs to seed the clock, timeline, and frame extraction.
/// Times are milliseconds; the frame rate is in frames per thousand seconds.
pub struct MediaInfo {
    pub path: String,
    pub duration: u64,
    pub fps: u64,
    pub width: u32,
    pub height: u32,
    pub video_codec: String,
    pub audio_codec: Option<String>,
}

/// One stream as `ffprobe` describes it.
pub struct StreamInfo {
    pub codec_type: Option<String>,
    pub codec_name: Option<String>,
    pub width: Option<u32>,
    pub height: Option<u32>,
    pub r_frame_rate: Option<String>,
    pub avg_frame_rate: Option<String>,
    pub duration: Option<String>,
}

/// An ffmpeg rational like `30000/1001`, in frames per thousand seconds
/// (rounded down); none when either side is not a plain decimal number, the
/// divisor is zero, or the rate does not fit in 64 bits.
pub open spec fn rational_of(s: Seq<char>) -> Option<nat> {
    let i = index_of(s, '/', 0);
    if i >= s.len() {
        None
    } else {
        match (part_ms(trim(s.take(i))), part_ms(trim(s.skip(i + 1)))) {
            (Some(n), Some(d)) => if d == 0 || n * 1000 / d > u64::MAX {
                None
            } else {
                Some(n * 1000 / d)
            },
            _ => None,
        }
    }
}

/// Parse an ffmpeg rational like `30000/1001` into frames per thousand
/// seconds.
pub fn parse_rational(s: &str) -> (r: Option<u64>)
    ensures
        r == (match rational_of(s@) {
            Some(v) => Some(v as u64),
            None => None::<u64>,
        }),
        r matches Some(v) ==> rational_of(s@) == Some(v as nat),
{
    let t = chars_of(s);
    let i = find_char(&t, 0, t.len(), '/');
    proof {
        assert(t@.subrange(0, t@.len() as int) =~= t@);
        crate::text::lemma_index_of_bounds(t@, '/', 0);
    }
    if i >= t.len() {
        return None;
    }
    let (a, b) = trim_range(&t, 0, i);
    let (c, d) = trim_range(&t, i + 1, t.len());
    proof {
        assert(t@.subrange(0, i as int) =~= t@.take(i as int));
        assert(t@.subrange(i + 1, t@.len() as int) =~= t@.skip(i + 1));
    }
    let num = read_part(&t, a, b);
    let den = read_part(&t, c, d);
    match (num, den) {
        (Some(n), Some(m)) => {
            if m == 0 {
                None
            } else {
                let v: u128 = n as u128 * 1000 / m as u128;
                proof {
                    assert(n as u128 * 1000 <= 0xffff_ffff_ffff_ffffu128 * 1000) by (nonlinear_arith)
                        requires
                            n <= 0xffff_ffff_ffff_ffffu64,
                    ;
                }
                if v > u64::MAX as u128 {
                    None
                } else {
                    Some(v as u64)
                }
            }
        },
        _ => None,
    }
}

/// Stream `s` is of type `ty` (`video`, `audio`).
pub open spec fn is_type(s: StreamInfo, ty: Seq<char>) -> bool {
    s.codec_type matches Some(t) && t@ == ty
}

/// The first stream from `k` on of type `ty`.
pub open spec fn first_of(ss: Seq<StreamInfo>, ty: Seq<char>, k: int) -> Option<int>
    decreases ss.len() - k,
{
    if k < 0 || k >= ss.len() {
        None
    } else if is_type(ss[k], ty) {
        Some(k)
    } else {
        first_of(ss, ty, k + 1)
    }
}

/// The rate of a rate field, when it reads as one.
pub open spec fn rate_of(f: Option<String>) -> Option<nat> {
    match f {
        Some(s) => rational_of(s@),
        None => None,
    }
}

/// A video stream's frame rate: its average rate when that is positive
/// (which handles some variable-rate sources better), else its nominal one,
/// else thirty frames a second.
pub open spec fn fps_from(v: StreamInfo) -> nat {
    match rate_of(v.avg_frame_rate) {
        Some(f) if f > 0 => f,
        _ => match rate_of(v.r_frame_rate) {
            Some(f) => f,
            None => 30_000,
        },
    }
}

/// The duration text to read: the container's, else the video stream's.
pub open spec fn duration_field(format_duration: Option<String>, v: StreamInfo) -> Option<String> {
    match format_duration {
        Some(d) => Some(d),
        None => v.duration,
    }
}

/// Where the first stream of type `ty` is.
fn find_stream(ss: &Vec<StreamInfo>, ty: &str) -> (r: Option<usize>)
    ensures
        r == (match first_of(ss@, ty@, 0) {
            Some(k) => Some(k as usize),
            None => None::<usize>,
        }),
        r matches Some(k) ==> first_of(ss@, ty@, 0) == Some(k as int) && k < ss@.len(),
{
    let mut k: usize = 0;
    while k < ss.len()
        invariant
            k <= ss@.len(),
            first_of(ss@, ty@, k as int) == first_of(ss@, ty@, 0),
        decreases ss@.len() - k,
    {
        let hit = match &ss[k].codec_type {
            Some(t) => str_eq(t.as_str(), ty),
            None => false,
        };
        if hit {
            return Some(k);
        }
        k += 1;
    }
    None
}

/// The rate a rate field gives.
fn read_rate(f: &Option<String>) -> (r: Option<u64>)
    ensures
        r == (match rate_of(*f) {
            Some(v) => Some(v as u64),
            None => None::<u64>,
        }),
        r matches Some(v) ==> rate_of(*f) == Some(v as nat),
{
    match f {
        Some(s) => parse_rational(s.as_str()),
        None => None,
    }
}

/// What the editor knows of the media at `path` from the streams and the
/// container duration `ffprobe` reported: the first video stream's size,
/// codec and frame rate, the first audio stream's codec, and the duration.
/// There must be a video stream and a duration that reads as a number.
pub fn media_info(path: String, streams: &Vec<StreamInfo>, format_duration: Option<String>) -> (r: Result<MediaInfo, String>)
    ensures
        match first_of(streams@, "video"@, 0) {
            None => r matches Err(e) && e@ == "no video stream found in "@ + path@,
            Some(vi) => {
                let v = streams@[vi];
                let dur = match duration_field(format_duration, v) {
                    Some(d) => part_ms(d@),
                    None => None,
                };
                match dur {
                    None => r matches Err(e) && e@ == "could not determine duration of "@ + path@,
                    Some(ms) => r matches Ok(m) && {
                        &&& m.path == path
                        &&& m.duration == ms
                        &&& m.fps == fps_from(v)
                        &&& m.width == (match v.width { Some(w) => w, None => 0 })
                        &&& m.height == (match v.height { Some(h) => h, None => 0 })
                        &&& m.video_codec@ == (match v.codec_name { Some(c) => c@, None => "?"@ })
                        &&& m.audio_codec == (match first_of(streams@, "audio"@, 0) {
                            Some(ai) => streams@[ai].codec_name,
                            None => None,
                        })
                    },
                }
            },
        },
{
    let vi = match find_stream(streams, "video") {
        Some(k) => k,
        None => {
            let mut e = String::new();
            push_str(&mut e, "no video stream found in ");
            push_str(&mut e, path.as_str());
            return Err(e);
        },
    };
    let v = &streams[vi];
    let audio_codec = match find_stream(streams, "audio") {
        Some(k) => streams[k].codec_name.clone(),
        None => None,
    };
    // Prefer the average rate (handles some variable-rate sources better),
    // fall back to the nominal one.
    let fps = match read_rate(&v.avg_frame_rate) {
        Some(f) if f > 0 => f,
        _ => match read_rate(&v.r_frame_rate) {
            Some(f) => f,
            None => 30_000,
        },
    };
    let field = match &format_duration {
        Some(d) => Some(d),
        None => v.duration.as_ref(),
    };
    let duration = match field {
        Some(d) => {
            let t = chars_of(d.as_str());
            proof {
                assert(t@.subrange(0, t@.len() as int) =~= t@);
            }
            read_part(&t, 0, t.len())
        },
        None => None,
    };
    let duration = match duration {
        Some(ms) => ms,
        None => {
            let mut e = String::new();
            push_str(&mut e, "could not determine duration of ");
            push_str(&mut e, path.as_str());
            return Err(e);
        },
    };
    let video_codec = match &v.codec_name {
        Some(c) => c.clone(),
        None => {
            let mut q = String::new();
            push_str(&mut q, "?");
            q
        },
    };
    let width = match v.width {
        Some(w) => w,
        None => 0,
    };
    let height = match v.height {
        Some(h) => h,
        None => 0,
    };
    Ok(MediaInfo { path, duration, fps, width, height, video_codec, audio_codec })
}

} // verus!
