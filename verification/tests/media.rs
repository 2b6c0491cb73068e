use editty::ffmpeg::cut::{cut_args, CutMode};
use editty::ffmpeg::frame::{frame_args, frame_outcome, Frame};
use editty::ffmpeg::playback::{audio_args, stream_fps, tempo_filter, video_args, Pacer};
use editty::ffmpeg::probe::{media_info, parse_rational, StreamInfo};
use editty::player::image_pane::{cell_size, print_frame, transmit, CellSize, KittyPane};
use editty::player::shm::object_name;
use editty::player::probe::query_bytes;
use editty::ui::{timeline_ticks, Rect, Tick};

#[test]
fn rejects_inverted_marks() {
    let err = cut_args("assets/sample.mp4", "/tmp/editty_inverted.mp4", 5000, 2000, CutMode::Fast);
    assert_eq!(err, Err("OUT marker must be after IN marker".to_string()));
    assert!(cut_args("a.mp4", "b.mp4", 2000, 2000, CutMode::Precise).is_err());
}

#[test]
fn a_fast_cut_seeks_the_input_and_copies() {
    let args = cut_args("in.mp4", "out.mp4", 1500, 4250, CutMode::Fast).unwrap();
    assert_eq!(
        args,
        ["-hide_banner", "-loglevel", "error", "-y", "-ss", "1.500", "-to", "4.250", "-i", "in.mp4", "-c", "copy", "out.mp4"]
    );
}

#[test]
fn a_precise_cut_seeks_the_output_and_reencodes() {
    let args = cut_args("in.mp4", "out.mp4", 0, 3000, CutMode::Precise).unwrap();
    assert_eq!(
        args,
        [
            "-hide_banner", "-loglevel", "error", "-y", "-i", "in.mp4", "-ss", "0.000", "-to", "3.000", "-c:v",
            "libx264", "-preset", "veryfast", "-c:a", "aac", "out.mp4",
        ]
    );
}

#[test]
fn a_scrub_frame_seeks_fast_and_a_step_in_two_stages() {
    let fast = frame_args("v.mp4", 12_345, 96, 54, false);
    assert_eq!(&fast[3..7], ["-ss", "12.345", "-i", "v.mp4"]);
    assert_eq!(fast[10], "scale=96:54:flags=fast_bilinear");
    let precise = frame_args("v.mp4", 12_345, 96, 54, true);
    assert_eq!(&precise[3..9], ["-ss", "11.845", "-i", "v.mp4", "-ss", "0.500"]);
    let early = frame_args("v.mp4", 200, 96, 54, true);
    assert_eq!(&early[3..9], ["-ss", "0.000", "-i", "v.mp4", "-ss", "0.200"]);
}

#[test]
fn a_short_frame_is_reported() {
    assert_eq!(frame_outcome(100, 4, 4, 0, true), Ok(64));
    assert_eq!(
        frame_outcome(10, 4, 4, 1500, true),
        Err("short frame at 1.500s: got 10 bytes, expected 64".to_string())
    );
    assert_eq!(frame_outcome(0, 4, 4, 1500, false), Err("ffmpeg failed to extract frame at 1.500s".to_string()));
}

#[test]
fn playback_streams_video_and_plays_sound_from_the_start_point() {
    assert_eq!(stream_fps(60_000), 30_000);
    assert_eq!(stream_fps(500), 1000);
    assert_eq!(stream_fps(23_976), 23_976);
    let v = video_args("v.mp4", 2500, 29_970, 64, 36);
    assert_eq!(&v[3..7], ["-ss", "2.500", "-i", "v.mp4"]);
    assert_eq!(v[9], "scale=64:36:flags=fast_bilinear,fps=29970/1000");
    assert_eq!(audio_args("v.mp4", 2500), ["-nodisp", "-vn", "-autoexit", "-loglevel", "quiet", "-ss", "2.500", "v.mp4"]);
}

#[test]
fn frames_are_timed_from_the_start_at_the_stream_rate() {
    let mut p = Pacer::new(1000, 30_000, 5000);
    assert_eq!(p.next_pts(), 1000);
    assert_eq!(p.next_pts(), 1033);
    assert_eq!(p.next_pts(), 1066);
    assert!(!p.finished(false, false, 4000));
    assert!(p.finished(true, false, 4000));
    assert!(!p.finished(true, true, 4000));
    assert!(p.finished(false, true, 5000));
}

fn stream(kind: &str, codec: &str) -> StreamInfo {
    StreamInfo {
        codec_type: Some(kind.to_string()),
        codec_name: Some(codec.to_string()),
        width: None,
        height: None,
        r_frame_rate: None,
        avg_frame_rate: None,
        duration: None,
    }
}

#[test]
fn rates_read_as_frames_per_thousand_seconds() {
    assert_eq!(parse_rational("30000/1001"), Some(29_970));
    assert_eq!(parse_rational("25/1"), Some(25_000));
    assert_eq!(parse_rational(" 24 / 1 "), Some(24_000));
    assert_eq!(parse_rational("0/0"), None);
    assert_eq!(parse_rational("30"), None);
    assert_eq!(parse_rational("x/1"), None);
}

#[test]
fn media_info_takes_the_first_video_and_audio_streams() {
    let mut v = stream("video", "h264");
    v.width = Some(1920);
    v.height = Some(1080);
    v.avg_frame_rate = Some("0/0".to_string());
    v.r_frame_rate = Some("30000/1001".to_string());
    v.duration = Some("9.000".to_string());
    let streams = vec![stream("audio", "aac"), v, stream("audio", "opus")];
    let info = media_info("/v/talk.mp4".to_string(), &streams, Some("12.5".to_string())).unwrap();
    assert_eq!(info.duration, 12_500);
    assert_eq!(info.fps, 29_970);
    assert_eq!((info.width, info.height), (1920, 1080));
    assert_eq!(info.video_codec, "h264");
    assert_eq!(info.audio_codec.as_deref(), Some("aac"));
    let info = media_info("/v/talk.mp4".to_string(), &streams, None).unwrap();
    assert_eq!(info.duration, 9000);
}

#[test]
fn media_info_needs_a_video_stream_and_a_duration() {
    let only_audio = vec![stream("audio", "aac")];
    assert_eq!(
        media_info("a.m4a".to_string(), &only_audio, Some("1".to_string())).err().as_deref(),
        Some("no video stream found in a.m4a")
    );
    let video = vec![stream("video", "vp9")];
    let info = media_info("b.webm".to_string(), &video, Some("n/a".to_string()));
    assert_eq!(info.err().as_deref(), Some("could not determine duration of b.webm"));
    let info = media_info("b.webm".to_string(), &video, Some("3".to_string())).unwrap();
    assert_eq!(info.fps, 30_000, "no rate at all means thirty frames a second");
    assert_eq!(info.audio_codec, None);
}

fn frame(w: u32, h: u32) -> Frame {
    Frame { width: w, height: h, rgba: vec![0u8; (w * h * 4) as usize] }
}

#[test]
fn a_small_frame_goes_in_one_escape() {
    let bytes = transmit(&frame(1, 1), false);
    assert_eq!(bytes, b"\x1b_Ga=T,q=2,f=32,s=1,v=1,i=1,p=1;AAAAAA==\x1b\\".to_vec());
    let printed = print_frame(&frame(1, 1));
    assert_eq!(printed.last(), Some(&b'\n'));
    let kept = transmit(&frame(1, 1), true);
    assert!(String::from_utf8(kept).unwrap().contains(",C=1;"));
}

#[test]
fn a_large_frame_is_chunked() {
    // 64x64 RGBA is 16384 bytes, 21848 of base64: six chunks.
    let bytes = transmit(&frame(64, 64), true);
    let text = String::from_utf8(bytes).unwrap();
    assert!(text.starts_with("\x1b_Ga=T,q=2,f=32,s=64,v=64,i=1,p=1,C=1,m=1;"));
    assert_eq!(text.matches("\x1b_Gm=1;").count(), 4);
    assert_eq!(text.matches("\x1b_Gm=0;").count(), 1);
    assert_eq!(text.matches("\x1b\\").count(), 6);
}

#[test]
fn the_pane_redraws_only_when_something_changed() {
    let mut pane = KittyPane::new();
    let rect = Rect { x: 2, y: 1, width: 20, height: 10 };
    let cell = CellSize { w: 8, h: 16 };
    assert!(pane.present(rect, cell).is_empty(), "nothing to draw yet");
    pane.set_frame(frame(80, 80));
    let first = String::from_utf8(pane.present(rect, cell)).unwrap();
    // 80px is 10 cells wide and 5 rows tall: centred at column 2+5, row 1+2.
    assert!(first.starts_with("\x1b[4;8H"), "{first:?}");
    assert!(pane.present(rect, cell).is_empty(), "unchanged, so no redraw");
    pane.invalidate();
    let again = String::from_utf8(pane.present(rect, cell)).unwrap();
    assert!(again.starts_with("\x1b_Ga=d,d=i,i=1\x1b\\"), "the old placement goes first");
    assert_eq!(pane.clear(), b"\x1b_Ga=d,d=I,i=1\x1b\\".to_vec());
    assert!(pane.clear().is_empty());
}

#[test]
fn the_support_query_ends_with_the_da_sentinel() {
    let q = query_bytes(None);
    assert_eq!(q, b"\x1b_Gi=4242,a=q,s=1,v=1,f=24,t=d;AAAA\x1b\\\x1b[c".to_vec());
    let q = String::from_utf8(query_bytes(Some("/ett1-0"))).unwrap();
    assert!(q.contains("\x1b_Gi=4243,a=q,s=1,v=1,f=24,t=s,S=3;L2V0dDEtMA==\x1b\\"));
    assert!(q.ends_with("\x1b[c"));
}

#[test]
fn the_timeline_marks_head_markers_and_span() {
    let t = timeline_ticks(11, 30_000, 60_000, Some(10_000), Some(50_000));
    assert_eq!(t[5], Tick::Head);
    assert_eq!(t[2], Tick::In);
    assert_eq!(t[8], Tick::Out);
    assert_eq!(t[4], Tick::Span);
    assert_eq!(t[0], Tick::Rail);
    assert_eq!(t[10], Tick::Rail);
    let open = timeline_ticks(11, 0, 60_000, Some(50_000), None);
    assert_eq!(open[10], Tick::Span, "with no OUT the span runs on to the end");
}

#[test]
fn the_cell_size_divides_the_window_and_falls_back() {
    assert_eq!(cell_size(1600, 960, 200, 60), CellSize { w: 8, h: 16 });
    assert_eq!(cell_size(1000, 700, 100, 35), CellSize { w: 10, h: 20 });
    // A cell is never narrower than a pixel.
    assert_eq!(cell_size(10, 10, 100, 100), CellSize { w: 1, h: 1 });
    // A terminal that does not report pixels gets the common default.
    assert_eq!(cell_size(0, 0, 80, 24), CellSize { w: 8, h: 16 });
    assert_eq!(cell_size(800, 600, 0, 24), CellSize { w: 8, h: 16 });
}

#[test]
fn shared_memory_names_are_short_hex() {
    assert_eq!(object_name(1, 0), "/ett1-0");
    assert_eq!(object_name(0x1234abcd, 255), "/ettabcd-ff");
    assert_eq!(object_name(u32::MAX, u32::MAX), "/ettffff-ffffffff");
    assert!(object_name(u32::MAX, u32::MAX).len() <= 31);
}

#[test]
fn a_single_frame_is_fitted_into_seventy_by_twenty_cells() {
    assert_eq!(editty::player::image_pane::show_box(CellSize { w: 8, h: 16 }), (560, 320));
}

#[test]
fn the_sound_is_stretched_to_the_playback_speed() {
    assert_eq!(tempo_filter(100), None);
    assert_eq!(tempo_filter(150), Some("atempo=1.50".to_string()));
    assert_eq!(tempo_filter(75), Some("atempo=0.75".to_string()));
    assert_eq!(tempo_filter(50), Some("atempo=0.50".to_string()));
    assert_eq!(tempo_filter(25), Some("atempo=0.50,atempo=0.50".to_string()));
    assert_eq!(tempo_filter(40), Some("atempo=0.50,atempo=0.80".to_string()));
    assert_eq!(tempo_filter(200), Some("atempo=2.00".to_string()));
}
