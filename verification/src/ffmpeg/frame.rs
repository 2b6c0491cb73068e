//! A single decoded frame, and how big to decode it.

use vstd::prelude::*;

verus! {

/// A decoded frame: tightly-packed RGBA8 of `width * height * 4` bytes.
pub struct Frame {
    pub width: u32,
    pub height: u32,
    pub rgba: Vec<u8>,
}

/// `p / q` rounded to the nearest integer, halves away from zero (`p, q >= 0`).
pub open spec fn round_div(p: int, q: int) -> int {
    (2 * p + q) / (2 * q)
}

/// At least two, and even: what ffmpeg's scalers like best.
pub open spec fn even_size(x: int) -> int {
    let m = if x < 2 { 2 } else { x };
    m - m % 2
}

/// The size `(src_w, src_h)` takes when fitted inside `(max_w, max_h)`: scaled
/// by the smaller of the two ratios (never above 1, so never upscaled), each
/// side rounded to the nearest integer and then made even and at least two.
/// A degenerate source or box gives the smallest frame, 2×2.
pub open spec fn fitted(src_w: int, src_h: int, max_w: int, max_h: int) -> (int, int) {
    if src_w == 0 || src_h == 0 || max_w == 0 || max_h == 0 {
        (2, 2)
    } else if max_w >= src_w && max_h >= src_h {
        (even_size(src_w), even_size(src_h))
    } else if max_w * src_h <= max_h * src_w {
        (even_size(max_w), even_size(round_div(src_h * max_w, src_w)))
    } else {
        (even_size(round_div(src_w * max_h, src_h)), even_size(max_h))
    }
}

proof fn lemma_round_div_below(a: int, b: int, q: int)
    requires
        0 <= a,
        0 < b,
        0 < q,
        b <= q,
    ensures
        0 <= round_div(a * b, q) <= a,
{
    assert(a * b <= a * q) by (nonlinear_arith)
        requires
            0 <= a,
            b <= q,
    ;
    assert(0 <= (2 * (a * b) + q) / (2 * q) <= a) by (nonlinear_arith)
        requires
            0 <= a,
            0 < q,
            a * b <= a * q,
            0 <= a * b,
    ;
}

proof fn lemma_small_product(a: u128, b: u128)
    requires
        a <= 0xffff_ffff,
        b <= 0xffff_ffff,
    ensures
        a * b <= 0xffff_fffe_0000_0001,
{
    assert(a * b <= 0xffff_ffff * 0xffff_ffff) by (nonlinear_arith)
        requires
            a <= 0xffff_ffff,
            b <= 0xffff_ffff,
    ;
}

fn even_at_least_two(x: u32) -> (r: u32)
    ensures
        r == even_size(x as int),
{
    let m = if x < 2 {
        2
    } else {
        x
    };
    m - m % 2
}

/// Fit `(src_w, src_h)` inside `(max_w, max_h)` preserving aspect ratio,
/// rounding to even dimensions (ffmpeg scalers prefer even sizes). Never
/// upscales beyond the source.
pub fn fit_dims(src_w: u32, src_h: u32, max_w: u32, max_h: u32) -> (r: (u32, u32))
    ensures
        (r.0 as int, r.1 as int) == fitted(src_w as int, src_h as int, max_w as int, max_h as int),
{
    if src_w == 0 || src_h == 0 || max_w == 0 || max_h == 0 {
        return (2, 2);
    }
    if max_w >= src_w && max_h >= src_h {
        return (even_at_least_two(src_w), even_at_least_two(src_h));
    }
    let (sw, sh, mw, mh) = (src_w as u128, src_h as u128, max_w as u128, max_h as u128);
    proof {
        lemma_small_product(mw, sh);
        lemma_small_product(mh, sw);
        lemma_small_product(sh, mw);
        lemma_small_product(sw, mh);
    }
    if mw * sh <= mh * sw {
        proof {
            assert(max_w < src_w) by (nonlinear_arith)
                requires
                    max_w * src_h <= max_h * src_w,
                    !(max_w >= src_w && max_h >= src_h),
                    src_h > 0,
                    src_w > 0,
            ;
            lemma_round_div_below(src_h as int, max_w as int, src_w as int);
        }
        let h = (2 * (sh * mw) + sw) / (2 * sw);
        (even_at_least_two(max_w), even_at_least_two(h as u32))
    } else {
        proof {
            assert(max_h < src_h) by (nonlinear_arith)
                requires
                    max_w * src_h > max_h * src_w,
                    !(max_w >= src_w && max_h >= src_h),
                    src_h > 0,
                    src_w > 0,
            ;
            lemma_round_div_below(src_w as int, max_h as int, src_h as int);
        }
        let w = (2 * (sw * mh) + sh) / (2 * sh);
        (even_at_least_two(w as u32), even_at_least_two(max_h))
    }
}

/// A fitted frame is even in both dimensions and at least 2×2, and it never
/// exceeds the source where the source itself is at least 2×2.
pub proof fn law_fit_is_even_and_never_upscales(src_w: int, src_h: int, max_w: int, max_h: int)
    requires
        0 <= src_w,
        0 <= src_h,
        0 <= max_w,
        0 <= max_h,
    ensures
        fitted(src_w, src_h, max_w, max_h).0 % 2 == 0,
        fitted(src_w, src_h, max_w, max_h).1 % 2 == 0,
        fitted(src_w, src_h, max_w, max_h).0 >= 2,
        fitted(src_w, src_h, max_w, max_h).1 >= 2,
        src_w >= 2 && src_h >= 2 ==> fitted(src_w, src_h, max_w, max_h).0 <= src_w,
        src_w >= 2 && src_h >= 2 ==> fitted(src_w, src_h, max_w, max_h).1 <= src_h,
{
    if src_w > 0 && src_h > 0 && max_w > 0 && max_h > 0 && !(max_w >= src_w && max_h >= src_h) {
        if max_w * src_h <= max_h * src_w {
            assert(max_w < src_w) by (nonlinear_arith)
                requires
                    max_w * src_h <= max_h * src_w,
                    !(max_w >= src_w && max_h >= src_h),
                    src_h > 0,
                    src_w > 0,
            ;
            lemma_round_div_below(src_h, max_w, src_w);
        } else {
            assert(max_h < src_h) by (nonlinear_arith)
                requires
                    max_w * src_h > max_h * src_w,
                    !(max_w >= src_w && max_h >= src_h),
                    src_h > 0,
                    src_w > 0,
            ;
            lemma_round_div_below(src_w, max_h, src_h);
        }
    }
}

/// Where the fast first stage of a frame-accurate seek lands: half a second
/// before the target (not before the start).
pub open spec fn coarse_ms(ms: nat) -> nat {
    if ms > 500 {
        (ms - 500) as nat
    } else {
        0
    }
}

/// The scale filter for a `w`×`h` frame.
pub open spec fn scale_text(w: nat, h: nat) -> Seq<char> {
    "scale="@ + crate::util::decimal(w) + ":"@ + crate::util::decimal(h) + ":flags=fast_bilinear"@
}

/// The ffmpeg arguments that decode the frame at `ms` of `path`, scaled to
/// `w`×`h` RGBA on stdout. A precise seek goes in two stages: a fast input
/// seek to shortly before the target, then an exact decode forward, so only
/// about one GOP is decoded even deep into a long file.
pub open spec fn frame_args_of(path: Seq<char>, ms: nat, w: nat, h: nat, precise: bool) -> Seq<Seq<char>> {
    let seek = if precise {
        seq![
            "-ss"@,
            crate::util::seconds_text(coarse_ms(ms)),
            "-i"@,
            path,
            "-ss"@,
            crate::util::seconds_text((ms - coarse_ms(ms)) as nat),
        ]
    } else {
        seq!["-ss"@, crate::util::seconds_text(ms), "-i"@, path]
    };
    seq!["-hide_banner"@, "-loglevel"@, "error"@] + seek + seq![
        "-frames:v"@,
        "1"@,
        "-vf"@,
        scale_text(w, h),
        "-pix_fmt"@,
        "rgba"@,
        "-f"@,
        "rawvideo"@,
        "-"@,
    ]
}

/// Appends the scale filter for a `w`×`h` frame.
pub(crate) fn push_scale(s: &mut String, w: u32, h: u32)
    ensures
        final(s)@ == old(s)@ + scale_text(w as nat, h as nat),
{
    crate::unicode::push_str(s, "scale=");
    crate::util::push_padded(s, w as u64, 0);
    crate::unicode::push_str(s, ":");
    crate::util::push_padded(s, h as u64, 0);
    crate::unicode::push_str(s, ":flags=fast_bilinear");
}

/// The ffmpeg arguments that extract one frame at `ms`, scaled to exactly
/// `width`×`height` RGBA. `precise = false` seeks before `-i` (fast keyframe
/// seek, good for scrubbing); `precise = true` lands on the exact frame.
pub fn frame_args(path: &str, ms: u64, width: u32, height: u32, precise: bool) -> (r: Vec<String>)
    ensures
        crate::ffmpeg::cut::strs(r@) == frame_args_of(path@, ms as nat, width as nat, height as nat, precise),
{
    let mut v: Vec<String> = Vec::new();
    crate::ffmpeg::cut::push_arg(&mut v, "-hide_banner");
    crate::ffmpeg::cut::push_arg(&mut v, "-loglevel");
    crate::ffmpeg::cut::push_arg(&mut v, "error");
    if precise {
        let coarse: u64 = if ms > 500 {
            ms - 500
        } else {
            0
        };
        crate::ffmpeg::cut::push_arg(&mut v, "-ss");
        let a = crate::util::fmt_ffmpeg_time(coarse);
        crate::ffmpeg::cut::push_arg(&mut v, a.as_str());
        crate::ffmpeg::cut::push_arg(&mut v, "-i");
        crate::ffmpeg::cut::push_arg(&mut v, path);
        crate::ffmpeg::cut::push_arg(&mut v, "-ss");
        let b = crate::util::fmt_ffmpeg_time(ms - coarse);
        crate::ffmpeg::cut::push_arg(&mut v, b.as_str());
    } else {
        crate::ffmpeg::cut::push_arg(&mut v, "-ss");
        let a = crate::util::fmt_ffmpeg_time(ms);
        crate::ffmpeg::cut::push_arg(&mut v, a.as_str());
        crate::ffmpeg::cut::push_arg(&mut v, "-i");
        crate::ffmpeg::cut::push_arg(&mut v, path);
    }
    crate::ffmpeg::cut::push_arg(&mut v, "-frames:v");
    crate::ffmpeg::cut::push_arg(&mut v, "1");
    crate::ffmpeg::cut::push_arg(&mut v, "-vf");
    let mut scale = String::new();
    push_scale(&mut scale, width, height);
    crate::ffmpeg::cut::push_arg(&mut v, scale.as_str());
    crate::ffmpeg::cut::push_arg(&mut v, "-pix_fmt");
    crate::ffmpeg::cut::push_arg(&mut v, "rgba");
    crate::ffmpeg::cut::push_arg(&mut v, "-f");
    crate::ffmpeg::cut::push_arg(&mut v, "rawvideo");
    crate::ffmpeg::cut::push_arg(&mut v, "-");
    proof {
        assert(crate::ffmpeg::cut::strs(v@) =~= frame_args_of(
            path@,
            ms as nat,
            width as nat,
            height as nat,
            precise,
        ));
    }
    v
}

/// What came back from a frame decode of `got` bytes at `ms`: the number of
/// bytes a `width`×`height` RGBA frame takes when that many arrived (the rest
/// is dropped), else why not.
pub fn frame_outcome(got: usize, width: u32, height: u32, ms: u64, exited_ok: bool) -> (r: Result<usize, String>)
    requires
        width as int * height as int * 4 <= usize::MAX,
    ensures
        ({
            let expected = width as int * height as int * 4;
            &&& got >= expected ==> r == Ok::<usize, String>(expected as usize)
            &&& got < expected && !exited_ok ==> (r matches Err(e) && e@ == "ffmpeg failed to extract frame at "@
                + crate::util::seconds_text(ms as nat) + "s"@)
            &&& got < expected && exited_ok ==> (r matches Err(e) && e@ == "short frame at "@
                + crate::util::seconds_text(ms as nat) + "s: got "@ + crate::util::decimal(got as nat)
                + " bytes, expected "@ + crate::util::decimal(expected as nat))
        }),
{
    let expected: usize = width as usize * height as usize * 4;
    if got >= expected {
        return Ok(expected);
    }
    let at = crate::util::fmt_ffmpeg_time(ms);
    let mut e = String::new();
    if !exited_ok {
        crate::unicode::push_str(&mut e, "ffmpeg failed to extract frame at ");
        crate::unicode::push_str(&mut e, at.as_str());
        crate::unicode::push_str(&mut e, "s");
    } else {
        crate::unicode::push_str(&mut e, "short frame at ");
        crate::unicode::push_str(&mut e, at.as_str());
        crate::unicode::push_str(&mut e, "s: got ");
        crate::util::push_padded(&mut e, got as u64, 0);
        crate::unicode::push_str(&mut e, " bytes, expected ");
        crate::util::push_padded(&mut e, expected as u64, 0);
    }
    proof {
        crate::util::lemma_padded_zero(got as nat);
        crate::util::lemma_padded_zero(expected as nat);
    }
    Err(e)
}

} // verus!
