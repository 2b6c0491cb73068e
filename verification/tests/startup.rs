use editty::ffmpeg::probe::MediaInfo;
use editty::player::image_pane::CellSize;
use editty::startup::{open, Found};

fn media() -> MediaInfo {
    MediaInfo {
        path: "/v/talk.mp4".to_string(),
        duration: 60_000,
        fps: 30_000,
        width: 640,
        height: 360,
        video_codec: "h264".to_string(),
        audio_codec: Some("aac".to_string()),
    }
}

const CELL: CellSize = CellSize { w: 8, h: 16 };
const VTT: &str = "WEBVTT\n\n00:00:01.000 --> 00:00:02.000\nhello\n";

#[test]
fn subtitles_and_chapters_found_are_loaded() {
    let app = open(
        media(),
        Some("/v/talk.vtt".to_string()),
        Found::Text(VTT.to_string()),
        Found::Text("0:00 Intro\n1:00 End\n".to_string()),
        CELL,
    );
    assert_eq!(app.vtt.as_ref().map(|d| d.cue_count()), Some(1));
    assert_eq!(app.chapters.len(), 2);
    assert_eq!(app.chapters_path, "/v/talk.chapter.txt");
    assert_eq!(app.status, "");
}

#[test]
fn a_subtitle_path_with_nothing_at_it_starts_an_empty_document() {
    let app = open(media(), Some("/v/new.vtt".to_string()), Found::Absent, Found::Absent, CELL);
    assert_eq!(app.vtt.as_ref().map(|d| d.cue_count()), Some(0));
    assert_eq!(app.chapters.len(), 0);
    let app = open(media(), None, Found::Absent, Found::Absent, CELL);
    assert!(app.vtt.is_none());
}

#[test]
fn files_that_cannot_be_read_are_reported() {
    let app = open(media(), Some("/v/talk.vtt".to_string()), Found::Unreadable, Found::Absent, CELL);
    assert!(app.vtt.is_none());
    assert_eq!(app.status, "vtt load failed: reading /v/talk.vtt");

    let app = open(media(), Some("/v/talk.vtt".to_string()), Found::Text("not a subtitle".to_string()), Found::Absent, CELL);
    assert!(app.vtt.is_none());
    assert!(app.status.starts_with("vtt load failed: parsing /v/talk.vtt: "));

    // A chapter file that cannot be read has the last word.
    let app = open(media(), Some("/v/talk.vtt".to_string()), Found::Unreadable, Found::Unreadable, CELL);
    assert_eq!(app.status, "chapter load failed: reading /v/talk.chapter.txt");
}
