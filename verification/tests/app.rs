use editty::app::{App, Mode, Request};
use editty::chapter::Chapters;
use editty::ffmpeg::probe::MediaInfo;
use editty::keymap::{Action, KeyCode, KeyEvent};
use editty::player::image_pane::CellSize;
use editty::ui::rows::{cue_prefix, edit_rows, windowed_rows, RowLine, Span};
use editty::ui::{inner, layout, video_split, Rect};
use editty::vtt::VttDoc;

const TERM: Rect = Rect { x: 0, y: 0, width: 100, height: 30 };

fn info() -> MediaInfo {
    MediaInfo {
        path: "/tmp/editty-test.mp4".to_string(),
        duration: 60_000,
        fps: 30_000,
        width: 1920,
        height: 1080,
        video_codec: "h264".to_string(),
        audio_codec: None,
    }
}

/// An app over `cues` of `(start, end, text)` in ms, with nothing playing.
fn app_with_cues(cues: &[(u64, u64, &str)]) -> App {
    let mut doc = VttDoc::empty();
    for (start, end, text) in cues {
        doc.add_cue(*start, *end, text);
    }
    let mut app = App::new(info(), None, Some(doc), Chapters::empty(), String::new(), CellSize { w: 8, h: 16 });
    app.resize(TERM);
    app
}

fn app_with_cue(text: &str) -> App {
    app_with_cues(&[(0, 3000, text)])
}

/// Twenty cues two seconds apart: cue *n* covers `2n..2n+2` s, with a one
/// second gap left open before the last one. Chapters every ten seconds, the
/// first of them ten seconds in, so `0..10` s is before all of them.
fn app_with_a_reel() -> App {
    let texts: Vec<String> = (0..19).map(|i| format!("せりふ {}", i + 1)).collect();
    let mut cues: Vec<(u64, u64, &str)> =
        (0..19).map(|i| (i as u64 * 2000, i as u64 * 2000 + 2000, texts[i].as_str())).collect();
    cues.push((39_000, 41_000, "さいご"));
    let mut app = app_with_cues(&cues);
    for i in 1..=4u64 {
        app.chapters.add(i * 10_000, &format!("しょう {i}"));
    }
    app
}

fn press(app: &mut App, code: KeyCode, times: usize) {
    for _ in 0..times {
        app.handle_edit_key(KeyEvent::from_code(code));
    }
}

fn spans_text(spans: &[Span]) -> String {
    spans.iter().map(|s| s.text.as_str()).collect()
}

/// The subtitle pane while editing the selected cue: its rows of text, and the
/// text of the inverted (cursor) cell.
fn cue_pane_while_editing(app: &App) -> (Vec<String>, Option<String>) {
    let pane = inner(layout(TERM).cues);
    let doc = app.vtt.as_ref().unwrap();
    let (s, e) = doc.cue_times(app.selected_cue).unwrap();
    let prefix = cue_prefix(app.selected_cue, s, e, true);
    let (block, cursor_line) = edit_rows(&prefix, &app.edit_input, pane.width as usize);
    let lines = windowed_rows(doc.cue_count(), app.selected_cue, Some((block.len(), cursor_line)), pane.height as usize);
    let mut rows = Vec::new();
    let mut cursor = None;
    for line in lines {
        match line {
            RowLine::Edit(k) => {
                rows.push(spans_text(&block[k]));
                if let Some(sp) = block[k].iter().find(|s| s.cursor) {
                    cursor = Some(sp.text.clone());
                }
            }
            RowLine::Row(i) => rows.push(doc.cue_text(i).unwrap()),
        }
    }
    (rows, cursor)
}

fn caption(app: &App) -> Vec<String> {
    let strip = video_split(layout(TERM).video, true).1;
    app.caption_rows(strip.width as usize, strip.height as usize)
}

#[test]
fn typing_lands_where_the_cursor_was_moved_to() {
    let text = "これは長い日本語の字幕です。カーソルを動かして書き足せる必要があります。";
    let mut app = app_with_cue(text);
    app.begin_edit();

    // Walk ten characters back from the end and insert there.
    press(&mut app, KeyCode::Left, 10);
    press(&mut app, KeyCode::Char('X'), 1);

    let at = text.char_indices().nth_back(9).expect("ten chars in").0;
    assert_eq!(
        app.edit_input.text(),
        format!("{}X{}", &text[..at], &text[at..]),
        "the insertion belongs where the cursor was, not at the end"
    );

    // On screen, the cursor sits on the character it is in front of.
    let (_, cursor) = cue_pane_while_editing(&app);
    assert_eq!(cursor.as_deref(), Some(&text[at..]).map(|s| &s[..3]));
}

#[test]
fn a_long_cue_wraps_and_scrolls_to_the_end() {
    // Far more text than the six-row pane can hold at once.
    let text = "字幕がとても長い場合の話です。".repeat(12);
    let mut app = app_with_cue(&text);
    app.begin_edit(); // cursor starts at the end of the text

    let (rows, cursor) = cue_pane_while_editing(&app);
    assert!(
        rows.iter().filter(|r| !r.trim().is_empty()).count() > 1,
        "a long cue has to wrap onto further rows: {rows:#?}"
    );
    assert!(
        rows.iter().any(|r| r.contains("長い場合の話です。")),
        "the pane scrolled to the cursor, so the tail is on screen: {rows:#?}"
    );
    assert_eq!(cursor.as_deref(), Some(" "), "the end-of-line cursor is a blank cell");

    // Back to the start: the first row carries the cue's timings again.
    press(&mut app, KeyCode::Home, 1);
    let (rows, _) = cue_pane_while_editing(&app);
    assert!(
        rows[0].contains("00:00:00.000→00:00:03.000"),
        "Home scrolls back to the head of the cue: {rows:#?}"
    );
    assert!(rows[0].contains("字幕がとても"), "{rows:#?}");
}

#[test]
fn the_video_pane_captions_the_cue_under_the_playhead() {
    // A sentence far too long for the 60%-wide cue list to show whole.
    let long = "これは非常に長い字幕で、字幕ウィンドウの右端では見切れてしまう\
                ぐらいの長さがあります。";
    let mut app = app_with_cues(&[(0, 2000, "みじかい"), (2000, 6000, long)]);

    app.playhead = 500;
    assert_eq!(caption(&app).join("").trim(), "みじかい");

    app.playhead = 3000;
    let shown = caption(&app).join("");
    assert_eq!(shown.replace(' ', ""), long, "the whole cue, wrapped");

    // The cue list really does cut it off, which is what the strip is for.
    let pane = inner(layout(TERM).cues);
    let row = format!("{}{}", cue_prefix(1, 2000, 6000, false), long);
    assert!(
        editty::util::display_width(&row) > pane.width as usize,
        "the list shows only the head of it"
    );

    // Between cues a player shows nothing, and so does this.
    app.playhead = 8000;
    assert_eq!(caption(&app).join("").trim(), "");
}

#[test]
fn a_caption_too_long_even_for_the_strip_says_so() {
    let huge = "字".repeat(400);
    let mut app = app_with_cues(&[(0, 4000, &huge)]);
    app.playhead = 1000;
    let shown = caption(&app);
    assert_eq!(shown.len(), 3, "the strip is three rows");
    assert!(
        shown.last().unwrap().trim_end().ends_with('…'),
        "a clipped caption must not pass for a whole one: {shown:#?}"
    );
}

#[test]
fn playback_carries_the_selection_to_the_spoken_cue() {
    let mut app = app_with_a_reel();
    assert_eq!(app.selected_cue, 0);

    app.playhead = 31_500; // inside cue 16 (30..32)
    app.follow_playhead();
    assert_eq!(app.selected_cue, 15);

    // Playing on through the reel, the selection keeps up.
    for t in [33_000, 35_000, 37_000] {
        app.playhead = t;
        app.follow_playhead();
    }
    assert_eq!(app.selected_cue, 18, "cue 19 covers 36..38");

    // A gap between cues has nothing to follow: stay on the last one heard.
    app.playhead = 38_500;
    app.follow_playhead();
    assert_eq!(app.selected_cue, 18);

    app.playhead = 40_000;
    app.follow_playhead();
    assert_eq!(app.selected_cue, 19);
}

#[test]
fn the_chapter_selection_follows_too() {
    let mut app = app_with_a_reel();
    assert_eq!(app.selected_chapter, 0);

    app.playhead = 25_000; // chapter 2 runs from 20 until 30
    app.follow_playhead();
    assert_eq!(app.selected_chapter, 1);

    // Before the first chapter there is nothing to follow: stay put.
    app.playhead = 5000;
    app.follow_playhead();
    assert_eq!(app.selected_chapter, 1);
}

#[test]
fn a_seek_scrolls_both_lists_to_where_it_landed() {
    let mut app = app_with_a_reel();
    app.seek_to(31_500);
    assert_eq!(app.selected_cue, 15, "cue 16 covers 30..32");
    assert_eq!(app.selected_chapter, 2, "chapter 3 runs from 30");

    // Seeking back carries them both with it.
    app.seek_to(3000);
    assert_eq!(app.selected_cue, 1);
    assert_eq!(app.selected_chapter, 2, "nothing precedes chapter 1 at 3s");
}

#[test]
fn navigation_lands_on_the_entry_it_picked_despite_overlap() {
    // A cue that spans a shorter one: seeking to the short cue's start puts
    // the playhead inside the long one too, and `active_cue` prefers the
    // first. Selecting must still land on the cue that was picked.
    let mut app = app_with_cues(&[(0, 10_000, "ながい"), (5000, 6000, "みじかい")]);
    app.apply(Action::CueNext, 0);
    assert_eq!(app.selected_cue, 1);
    assert_eq!(app.playhead, 5000);

    // Same for chapters, whose "active" is the last one at or before the
    // playhead — seeking exactly onto one is the boundary case.
    app.chapters.add(0, "いち");
    app.chapters.add(20_000, "に");
    app.apply(Action::ChapterNext, 0);
    assert_eq!(app.selected_chapter, 1);
    assert_eq!(app.playhead, 20_000);
}

#[test]
fn following_holds_off_while_the_editor_is_open() {
    let mut app = app_with_a_reel();
    app.begin_edit(); // editing cue 1
    app.playhead = 31_500;
    app.follow_playhead();
    assert_eq!(app.selected_cue, 0, "the commit has to land on the cue being typed into");

    // Once the edit is committed, following resumes.
    app.handle_edit_key(KeyEvent::from_code(KeyCode::Enter));
    app.follow_playhead();
    assert_eq!(app.selected_cue, 15);
}

#[test]
fn the_cue_list_scrolls_along_with_playback() {
    let mut app = app_with_a_reel();
    let pane = inner(layout(TERM).cues);
    let count = app.vtt.as_ref().unwrap().cue_count();
    let lines = windowed_rows(count, app.selected_cue, None, pane.height as usize);
    assert_eq!(lines[0], RowLine::Row(0), "starts at the top");

    app.playhead = 31_500;
    app.follow_playhead();
    let lines = windowed_rows(count, app.selected_cue, None, pane.height as usize);
    assert!(lines.contains(&RowLine::Row(15)), "the spoken cue has to be on screen: {lines:?}");
    assert!(!lines.contains(&RowLine::Row(0)), "and the top of the list has scrolled away: {lines:?}");
}

/// Four cues, two of them mentioning the projector.
fn app_for_search() -> App {
    app_with_cues(&[
        (0, 2000, "はじめまして"),
        (2000, 4000, "プロジェクターの話"),
        (4000, 6000, "べつの話です"),
        (6000, 8000, "プロジェクターをつかう"),
    ])
}

/// Type a search the way the keyboard does: `/`, the text, Enter.
fn type_search(app: &mut App, query: &str) {
    app.apply(Action::SearchStart, 0);
    assert_eq!(app.mode, Mode::Searching);
    for c in query.chars() {
        app.handle_search_key(KeyEvent::from_code(KeyCode::Char(c)));
    }
    app.handle_search_key(KeyEvent::from_code(KeyCode::Enter));
    assert_eq!(app.mode, Mode::Normal);
}

/// The text every occurrence of the search marks in the cue list.
fn highlighted(app: &App) -> String {
    let mut out = String::new();
    for (_, _, text) in app.vtt.as_ref().unwrap().cue_rows() {
        let text = text.replace('\n', " ");
        for r in editty::search::matches(&text, &app.search) {
            out.push_str(&text[r]);
        }
    }
    out
}

#[test]
fn a_search_jumps_to_the_matching_cue() {
    let mut app = app_for_search();
    type_search(&mut app, "プロジェクター");

    assert_eq!(app.selected_cue, 1);
    assert_eq!(app.playhead, 2000, "and the video goes there too");
    assert!(app.status.contains("match 1 of 2"), "{}", app.status);

    // Tab / Shift-Tab walk the matches, wrapping at both ends.
    app.apply(Action::SearchNext, 0);
    assert_eq!(app.selected_cue, 3);
    assert!(app.status.contains("match 2 of 2"), "{}", app.status);
    app.apply(Action::SearchNext, 0);
    assert_eq!(app.selected_cue, 1, "wrapped back to the first match");
    app.apply(Action::SearchPrev, 0);
    assert_eq!(app.selected_cue, 3, "and wrapped the other way");
}

#[test]
fn a_search_ignores_case_and_reports_a_miss() {
    let mut app = app_with_cues(&[(0, 2000, "nothing here"), (2000, 4000, "the UTOR system")]);
    type_search(&mut app, "utor");
    assert_eq!(app.selected_cue, 1);

    type_search(&mut app, "ビルドリ");
    assert_eq!(app.selected_cue, 1, "a miss leaves the selection alone");
    assert!(app.status.contains("no match"), "{}", app.status);
}

#[test]
fn an_empty_search_clears_it_and_escape_keeps_the_old_one() {
    let mut app = app_for_search();
    type_search(&mut app, "プロジェクター");
    assert!(!highlighted(&app).is_empty());

    // Esc while typing a new one keeps the search that was already set.
    app.apply(Action::SearchStart, 0);
    app.handle_search_key(KeyEvent::from_code(KeyCode::Char('x')));
    app.handle_search_key(KeyEvent::from_code(KeyCode::Esc));
    assert_eq!(app.search, "プロジェクター");

    type_search(&mut app, "");
    assert_eq!(app.search, "");
    assert_eq!(highlighted(&app), "", "clearing takes the highlight with it");
}

#[test]
fn the_matched_word_is_highlighted_wherever_it_shows() {
    let mut app = app_for_search();
    type_search(&mut app, "プロジェクター");
    // Both matching cues are on screen, so the word is marked twice — and
    // nothing else is.
    assert_eq!(highlighted(&app), "プロジェクタープロジェクター");
}

#[test]
fn escape_leaves_the_cue_untouched() {
    let mut app = app_with_cue("そのまま");
    app.begin_edit();
    press(&mut app, KeyCode::Char('あ'), 1);
    app.handle_edit_key(KeyEvent::from_code(KeyCode::Esc));
    assert_eq!(app.mode, Mode::Normal);
    assert_eq!(app.vtt.as_ref().unwrap().cue_text(0).as_deref(), Some("そのまま"));
    assert!(!app.vtt_dirty);
}

#[test]
fn enter_commits_the_edit_and_marks_it_unsaved() {
    let mut app = app_with_cue("ひとつめ\nふたつめ");
    app.begin_edit();
    assert_eq!(app.edit_input.text(), "ひとつめ ふたつめ", "line breaks become spaces");
    press(&mut app, KeyCode::Char('!'), 1);
    app.handle_edit_key(KeyEvent::from_code(KeyCode::Enter));
    assert_eq!(app.vtt.as_ref().unwrap().cue_text(0).as_deref(), Some("ひとつめ ふたつめ!"));
    assert!(app.vtt_dirty);
    assert_eq!(app.status, "cue updated");
}

#[test]
fn quitting_with_unsaved_edits_takes_two_presses() {
    let mut app = app_with_cue("x");
    app.vtt_dirty = true;
    app.apply(Action::Quit, 0);
    assert!(!app.should_quit);
    assert_eq!(app.status, "unsaved edits — q again to quit, s/S to save");
    // Anything else in between disarms the guard again.
    app.apply(Action::SetIn, 0);
    app.apply(Action::Quit, 0);
    assert!(!app.should_quit);
    app.apply(Action::Quit, 0);
    assert!(app.should_quit);
}

#[test]
fn marks_never_invert() {
    let mut app = app_with_cue("x");
    app.seek_to(10_000);
    app.apply(Action::SetIn, 0);
    app.seek_to(5000);
    app.apply(Action::SetOut, 0);
    assert_eq!(app.mark_out, None);
    assert_eq!(app.status, "OUT must be after IN");
    app.seek_to(20_000);
    app.apply(Action::SetOut, 0);
    assert_eq!((app.mark_in, app.mark_out), (Some(10_000), Some(20_000)));
    // A later IN drops the OUT it would pass.
    app.seek_to(30_000);
    app.apply(Action::SetIn, 0);
    assert_eq!((app.mark_in, app.mark_out), (Some(30_000), None));
}

#[test]
fn seeks_stay_inside_the_video() {
    let mut app = app_with_cue("x");
    app.apply(Action::SeekBy(-1000), 0);
    assert_eq!(app.playhead, 0);
    app.apply(Action::SeekEnd, 0);
    assert_eq!(app.playhead, 60_000);
    app.apply(Action::SeekBy(10_000), 0);
    assert_eq!(app.playhead, 60_000);
    app.apply(Action::SeekFraction(5), 0);
    assert_eq!(app.playhead, 30_000);
    app.apply(Action::FrameStep(1), 0);
    assert_eq!(app.playhead, 30_033);
    assert!(app.precise_seek);
    app.apply(Action::FrameStep(-1), 0);
    assert_eq!(app.playhead, 30_000);
}

#[test]
fn exporting_asks_for_a_name_then_checks_the_output() {
    let mut app = app_with_cue("x");
    app.apply(Action::ExportFast, 0);
    assert_eq!(app.status, "set IN (i) and OUT (o) first");
    app.seek_to(1000);
    app.apply(Action::SetIn, 0);
    app.seek_to(4000);
    app.apply(Action::SetOut, 0);
    app.apply(Action::ExportFast, 0);
    assert_eq!(app.mode, Mode::Naming);
    assert_eq!(app.edit_input.text(), "editty-test-clip.mp4");
    match app.handle_naming_key(KeyEvent::from_code(KeyCode::Enter)) {
        Request::CheckOutput { output, start, end, .. } => {
            assert_eq!(output, "/tmp/editty-test-clip.mp4");
            assert_eq!((start, end), (1000, 4000));
        }
        _ => panic!("expected the output to be checked"),
    }
}

#[test]
fn the_playing_speed_steps_through_the_list() {
    let mut app = app_with_cue("x");
    assert_eq!(app.speed(), 100);
    app.apply(Action::SpeedUp, 0);
    app.apply(Action::SpeedUp, 0);
    app.apply(Action::SpeedUp, 0);
    assert_eq!(app.speed(), 200);
    assert_eq!(app.status, "speed 2x");
    for _ in 0..6 {
        app.apply(Action::SpeedDown, 0);
    }
    assert_eq!(app.speed(), 25);
}

#[test]
fn j_and_down_select_the_previous_cue_k_and_up_the_next() {
    assert_eq!(editty::keymap::map(KeyEvent::from_code(KeyCode::Char('j'))), Action::CuePrev);
    assert_eq!(editty::keymap::map(KeyEvent::from_code(KeyCode::Down)), Action::CuePrev);
    assert_eq!(editty::keymap::map(KeyEvent::from_code(KeyCode::Char('k'))), Action::CueNext);
    assert_eq!(editty::keymap::map(KeyEvent::from_code(KeyCode::Up)), Action::CueNext);
}

#[test]
fn the_panes_lie_inside_the_screen() {
    let a = layout(TERM);
    for r in [a.video, a.timeline, a.status] {
        assert_eq!((r.x, r.width), (TERM.x, TERM.width));
        assert!(r.y >= TERM.y && r.y + r.height <= TERM.y + TERM.height);
    }
    for r in [a.cues, a.chapters] {
        assert!(r.x >= TERM.x && r.x + r.width <= TERM.x + TERM.width);
        assert_eq!((r.y, r.height), (a.cues.y, a.cues.height));
    }
}
