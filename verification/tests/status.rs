use editty::app::{App, Mode};
use editty::chapter::Chapters;
use editty::ffmpeg::probe::MediaInfo;
use editty::player::image_pane::CellSize;
use editty::ui::status::{help_line, prompt, status_parts, video_title, HelpLine, Look};

fn media(audio: Option<&str>) -> MediaInfo {
    MediaInfo {
        path: "/tmp/editty-status.mp4".to_string(),
        duration: 90_000,
        fps: 30_000,
        width: 1280,
        height: 720,
        video_codec: "h264".to_string(),
        audio_codec: audio.map(|a| a.to_string()),
    }
}

fn bar(app: &App) -> Vec<(String, Look)> {
    status_parts(app).into_iter().map(|p| (p.text, p.look)).collect()
}

#[test]
fn the_video_title_names_size_and_codecs() {
    assert_eq!(video_title(&media(Some("aac"))), " 1280×720 h264 + aac ");
    assert_eq!(video_title(&media(None)), " 1280×720 h264 (no audio) ");
}

#[test]
fn a_paused_bar_shows_clock_speed_marks_and_hints() {
    let mut app = App::new(media(None), None, None, Chapters::empty(), String::new(), CellSize { w: 8, h: 16 });
    app.playhead = 83_000;
    app.mark_in = Some(5_000);
    let parts = bar(&app);
    assert_eq!(parts[0], (" ▮▮ PAUSE ".to_string(), Look::PauseBadge));
    assert_eq!(parts[1], (" 1:23 ".to_string(), Look::Clock));
    assert_eq!(parts[2], (" 1x ".to_string(), Look::Speed));
    assert_eq!(parts[3], (" in 0:05 ".to_string(), Look::InMark));
    assert_eq!(parts[4], (" out -- ".to_string(), Look::Unset));
    // No message: the hints come straight after the marks.
    assert_eq!(parts.len(), 6);
    assert_eq!(parts[5].1, Look::Hint);
    assert!(parts[5].0.contains("Space play"));
}

#[test]
fn a_playing_bar_at_another_speed_with_a_message() {
    let mut app = App::new(media(None), None, None, Chapters::empty(), "saved".to_string(), CellSize { w: 8, h: 16 });
    app.playing = true;
    app.speed_idx = 3;
    let parts = bar(&app);
    assert_eq!(parts[0], (" ▶ PLAY ".to_string(), Look::PlayBadge));
    assert_eq!(parts[2], (" 1.5x ".to_string(), Look::SpeedChanged));
    assert_eq!(parts[5], (" saved ".to_string(), Look::Message));
    assert_eq!(parts.len(), 7);
}

#[test]
fn prompts_take_the_bar_over_only_when_typing_a_name_or_a_search() {
    let (b, l, k) = prompt(Mode::Naming).unwrap();
    assert_eq!((b.as_str(), l.as_str()), (" NAME ", " save clip as: "));
    assert_eq!(k, "   Enter cut · Esc cancel · Ctrl-U clear");
    let (b, l, _) = prompt(Mode::Searching).unwrap();
    assert_eq!((b.as_str(), l.as_str()), (" FIND ", " find in cues: "));
    assert!(prompt(Mode::Normal).is_none());
    assert!(prompt(Mode::Editing).is_none());
}

#[test]
fn help_rows_become_spacers_headings_notes_and_entries() {
    assert!(matches!(help_line("", ""), HelpLine::Spacer));
    assert!(matches!(help_line("", "Cutting"), HelpLine::Heading(h) if h == "Cutting"));
    assert!(matches!(help_line("", "  then name it, Enter"), HelpLine::Note(n) if n == "  then name it, Enter"));
    match help_line("i  o", "set IN / OUT") {
        HelpLine::Entry { keys, desc } => {
            assert_eq!(keys, "    i  o  ");
            assert_eq!(desc, "set IN / OUT");
        }
        _ => panic!("expected an entry"),
    }
    match help_line("Home/End", "jump start / end") {
        HelpLine::Entry { keys, .. } => assert_eq!(keys, "Home/End  "),
        _ => panic!("expected an entry"),
    }
}
