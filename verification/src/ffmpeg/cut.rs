//! Exporting the segment between two timestamps: the ffmpeg command that
//! does it.

use vstd::prelude::*;
use crate::util::{fmt_ffmpeg_time, seconds_text};

verus! {

/// How a segment is cut out of the source.
#[derive(Clone, Copy, Debug, PartialEq, Eq, Structural)]
pub enum CutMode {
    /// Stream-copy: instant, but cut points snap to keyframes.
    Fast,
    /// Re-encode: frame-accurate cut points, slower.
    Precise,
}

/// Arguments as text.
pub open spec fn strs(v: Seq<String>) -> Seq<Seq<char>> {
    v.map_values(|s: String| s@)
}

/// Appends the argument `s`.
pub fn push_arg(v: &mut Vec<String>, s: &str)
    ensures
        strs(final(v)@) == strs(old(v)@).push(s@),
{
    let mut a = String::new();
    crate::unicode::push_str(&mut a, s);
    v.push(a);
    proof {
        assert(strs(final(v)@) =~= strs(old(v)@).push(s@));
    }
}

/// The arguments that make ffmpeg cut `start..end` ms of `input` into
/// `output`: for a fast cut, an input seek and stream copy (cut points snap
/// to keyframes); for a precise one, an output seek and a re-encode.
pub open spec fn cut_args_of(input: Seq<char>, output: Seq<char>, start: nat, end: nat, mode: CutMode) -> Seq<Seq<char>> {
    let head = seq!["-hide_banner"@, "-loglevel"@, "error"@, "-y"@];
    let seek = seq!["-ss"@, seconds_text(start), "-to"@, seconds_text(end)];
    match mode {
        CutMode::Fast => head + seek + seq!["-i"@, input, "-c"@, "copy"@, output],
        CutMode::Precise => head + seq!["-i"@, input] + seek + seq![
            "-c:v"@,
            "libx264"@,
            "-preset"@,
            "veryfast"@,
            "-c:a"@,
            "aac"@,
            output,
        ],
    }
}

/// The ffmpeg arguments that cut `[start, end)` ms from `input` into
/// `output`; refused when OUT is not after IN.
pub fn cut_args(input: &str, output: &str, start: u64, end: u64, mode: CutMode) -> (r: Result<
    Vec<String>,
    String,
>)
    ensures
        end <= start ==> (r matches Err(e) && e@ == "OUT marker must be after IN marker"@),
        start < end ==> (r matches Ok(v) && strs(v@) == cut_args_of(input@, output@, start as nat, end as nat, mode)),
{
    if end <= start {
        let mut e = String::new();
        crate::unicode::push_str(&mut e, "OUT marker must be after IN marker");
        return Err(e);
    }
    let s = fmt_ffmpeg_time(start);
    let t = fmt_ffmpeg_time(end);
    let mut v: Vec<String> = Vec::new();
    push_arg(&mut v, "-hide_banner");
    push_arg(&mut v, "-loglevel");
    push_arg(&mut v, "error");
    push_arg(&mut v, "-y");
    match mode {
        CutMode::Fast => {
            push_arg(&mut v, "-ss");
            push_arg(&mut v, s.as_str());
            push_arg(&mut v, "-to");
            push_arg(&mut v, t.as_str());
            push_arg(&mut v, "-i");
            push_arg(&mut v, input);
            push_arg(&mut v, "-c");
            push_arg(&mut v, "copy");
        },
        CutMode::Precise => {
            push_arg(&mut v, "-i");
            push_arg(&mut v, input);
            push_arg(&mut v, "-ss");
            push_arg(&mut v, s.as_str());
            push_arg(&mut v, "-to");
            push_arg(&mut v, t.as_str());
            push_arg(&mut v, "-c:v");
            push_arg(&mut v, "libx264");
            push_arg(&mut v, "-preset");
            push_arg(&mut v, "veryfast");
            push_arg(&mut v, "-c:a");
            push_arg(&mut v, "aac");
        },
    }
    push_arg(&mut v, output);
    proof {
        assert(strs(v@) =~= cut_args_of(input@, output@, start as nat, end as nat, mode));
    }
    Ok(v)
}

/// A cut asks ffmpeg for the clip from IN to OUT of the input, written to the
/// output: the arguments read `input` (`-i`), seek to the IN time (`-ss`),
/// stop at the OUT time (`-to`), both in seconds, and end with `output`. A
/// fast cut seeks before it opens the input and copies the streams; a
/// precise one seeks after it and re-encodes.
pub proof fn law_cut_spans_in_to_out(input: Seq<char>, output: Seq<char>, start: nat, end: nat, mode: CutMode)
    ensures
        ({
            let a = cut_args_of(input, output, start, end, mode);
            &&& a.last() == output
            &&& exists|i: int, k: int, j: int|
                #![trigger a[i], a[k], a[j]]
                {
                    &&& 0 <= i && i + 1 < a.len() - 1
                    &&& 0 <= k && k < j && j + 1 < a.len() - 1
                    &&& a[i] == "-i"@ && a[i + 1] == input
                    &&& a[k] == "-ss"@ && a[k + 1] == seconds_text(start)
                    &&& a[j] == "-to"@ && a[j + 1] == seconds_text(end)
                    &&& (i < k <==> mode is Precise)
                }
            &&& mode is Fast ==> a.contains("copy"@)
            &&& mode is Precise ==> a.contains("libx264"@)
        }),
{
    let a = cut_args_of(input, output, start, end, mode);
    match mode {
        CutMode::Fast => {
            assert(a[8] == "-i"@ && a[9] == input);
            assert(a[4] == "-ss"@ && a[5] == seconds_text(start));
            assert(a[6] == "-to"@ && a[7] == seconds_text(end));
            assert(a[11] == "copy"@);
        },
        CutMode::Precise => {
            assert(a[4] == "-i"@ && a[5] == input);
            assert(a[6] == "-ss"@ && a[7] == seconds_text(start));
            assert(a[8] == "-to"@ && a[9] == seconds_text(end));
            assert(a[11] == "libx264"@);
        },
    }
}

} // verus!
