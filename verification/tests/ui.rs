use editty::textinput::TextInput;
use editty::tick::{paint, should_decode, wait_ms, Paint};
use editty::ui::rows::{caption, cursor_spans, edit_rows, highlight_pieces, windowed_rows, RowLine, Span};
use editty::ui::{centered, col_for, inner, video_split, Rect};

fn rows(v: &[usize]) -> Vec<RowLine> {
    v.iter().map(|&i| RowLine::Row(i)).collect()
}

fn texts(spans: &[Span]) -> String {
    spans.iter().map(|s| s.text.as_str()).collect()
}

#[test]
fn a_list_shorter_than_the_pane_is_shown_whole() {
    let lines = windowed_rows(3, 0, None, 8);
    assert_eq!(lines, rows(&[0, 1, 2]));
}

#[test]
fn the_selection_stays_visible_while_scrolling() {
    let lines = windowed_rows(20, 15, None, 5);
    assert_eq!(lines, rows(&[13, 14, 15, 16, 17]));
    // At the end of the list the window stops rather than running past it.
    let lines = windowed_rows(20, 19, None, 5);
    assert_eq!(lines, rows(&[15, 16, 17, 18, 19]));
}

#[test]
fn the_edited_row_grows_and_takes_the_top() {
    let lines = windowed_rows(10, 5, Some((3, 0)), 4);
    assert_eq!(
        lines,
        vec![RowLine::Edit(0), RowLine::Edit(1), RowLine::Edit(2), RowLine::Row(6)]
    );
}

#[test]
fn text_taller_than_the_pane_scrolls_to_the_cursor() {
    // Cursor on the block's last line: it must be on screen, so the window
    // has scrolled past the block's first lines.
    let lines = windowed_rows(10, 2, Some((6, 5)), 4);
    assert_eq!(
        lines,
        vec![RowLine::Edit(2), RowLine::Edit(3), RowLine::Edit(4), RowLine::Edit(5)]
    );
    // Cursor back at the top: the block's first line leads again.
    let lines = windowed_rows(10, 2, Some((6, 0)), 4);
    assert_eq!(
        lines,
        vec![RowLine::Edit(0), RowLine::Edit(1), RowLine::Edit(2), RowLine::Edit(3)]
    );
}

#[test]
fn an_empty_list_or_pane_shows_nothing() {
    assert!(windowed_rows(0, 0, None, 5).is_empty());
    assert!(windowed_rows(5, 2, None, 0).is_empty());
    // A selection past the end is taken as the last row.
    assert_eq!(windowed_rows(4, 99, None, 2), rows(&[2, 3]));
}

#[test]
fn the_cursor_cell_is_the_inverted_one() {
    let text = "あいう";
    let at = "あ".len(); // between the first and second kana
    let spans = cursor_spans(text, 0..text.len(), Some(at));
    let inverted: Vec<&str> = spans.iter().filter(|s| s.cursor).map(|s| s.text.as_str()).collect();
    assert_eq!(inverted, ["い"]);
    assert_eq!(texts(&spans), "あいう");
    // Past the last character the cursor gets a blank cell of its own.
    let spans = cursor_spans(text, 0..text.len(), Some(text.len()));
    assert_eq!(spans.last().unwrap().text, " ");
    assert!(spans.last().unwrap().cursor);
}

#[test]
fn a_cursor_outside_the_slice_draws_no_cell() {
    let text = "abcdef";
    let spans = cursor_spans(text, 0..3, Some(5));
    assert_eq!(spans.len(), 1);
    assert_eq!(spans[0].text, "abc");
    assert!(!spans[0].cursor);
    let spans = cursor_spans(text, 3..6, None);
    assert_eq!(texts(&spans), "def");
}

#[test]
fn edit_rows_indent_under_the_prefix() {
    let input = TextInput::with_text("あいうえおか");
    // 8 columns of pane, 2 taken by the prefix: three kana per row.
    let (shown, cursor) = edit_rows("> ", &input, 8);
    let shown: Vec<String> = shown.iter().map(|r| texts(r)).collect();
    assert_eq!(shown, ["> あいう", "  えおか", "   "]);
    assert_eq!(cursor, 2, "the trailing cursor sits on its own row");
}

#[test]
fn a_long_caption_is_clipped_with_an_ellipsis() {
    let huge = "字".repeat(400);
    let shown = caption(&huge, 98, 3);
    assert_eq!(shown.len(), 3, "the strip is three rows");
    assert!(
        shown.last().unwrap().trim_end().ends_with('…'),
        "a clipped caption must not pass for a whole one: {shown:#?}"
    );
}

#[test]
fn a_caption_keeps_the_cues_own_lines_and_wraps_the_rest() {
    let long = "これは非常に長い字幕で、字幕ウィンドウの右端では見切れてしまう\
                ぐらいの長さがあります。";
    let shown = caption(long, 40, 3);
    assert_eq!(shown.concat(), long, "the whole cue, wrapped");
    assert!(shown.len() > 1);
    let shown = caption("one\ntwo", 20, 3);
    assert_eq!(shown, ["one", "two"]);
    assert!(caption("", 20, 3).is_empty());
}

#[test]
fn the_inner_rect_and_a_centered_box() {
    let r = Rect { x: 2, y: 3, width: 10, height: 1 };
    assert_eq!(inner(r), Rect { x: 3, y: 4, width: 8, height: 0 });
    let area = Rect { x: 0, y: 0, width: 100, height: 30 };
    assert_eq!(centered(40, 10, area), Rect { x: 30, y: 10, width: 40, height: 10 });
    assert_eq!(centered(400, 100, area), area);
}

#[test]
fn the_strip_takes_three_rows_only_when_there_are_cues() {
    let area = Rect { x: 0, y: 0, width: 100, height: 18 };
    let (picture, strip) = video_split(area, true);
    assert_eq!(picture, Rect { x: 1, y: 1, width: 98, height: 13 });
    assert_eq!(strip, Rect { x: 1, y: 14, width: 98, height: 3 });
    let (picture, strip) = video_split(area, false);
    assert_eq!(picture.height, 16);
    assert_eq!(strip.height, 0);
}

#[test]
fn timeline_columns_round_to_the_nearest() {
    assert_eq!(col_for(0, 60_000, 11), 0);
    assert_eq!(col_for(60_000, 60_000, 11), 10);
    assert_eq!(col_for(30_000, 60_000, 11), 5);
    assert_eq!(col_for(99_000, 60_000, 11), 10);
    assert_eq!(col_for(5_000, 0, 11), 0);
    assert_eq!(col_for(5_000, 60_000, 0), 0);
}

#[test]
fn the_loop_decodes_only_when_idle_and_paints_unless_the_help_is_up() {
    let mut app = editty::app::App::new(
        editty::ffmpeg::probe::MediaInfo {
            path: "/tmp/editty-tick.mp4".to_string(),
            duration: 10_000,
            fps: 25_000,
            width: 640,
            height: 360,
            video_codec: "h264".to_string(),
            audio_codec: None,
        },
        None,
        None,
        editty::chapter::Chapters::empty(),
        String::new(),
        editty::player::image_pane::CellSize { w: 8, h: 16 },
    );
    app.kitty_ok = true;
    app.needs_frame = true;
    assert!(should_decode(&app, false, false));
    assert!(!should_decode(&app, true, false));
    assert!(!should_decode(&app, false, true));
    app.needs_frame = false;
    assert!(!should_decode(&app, false, false));
    assert_eq!(paint(&app), Paint::Present);
    app.show_help = true;
    assert_eq!(paint(&app), Paint::Clear);
    app.show_help = false;
    app.kitty_ok = false;
    assert_eq!(paint(&app), Paint::Leave);
    assert_eq!(wait_ms(true), 8);
    assert_eq!(wait_ms(false), 100);
}

#[test]
fn search_hits_are_cut_out_of_the_row_text() {
    assert_eq!(
        highlight_pieces("The cat and the Cat", "cat"),
        vec![(0, 4, false), (4, 7, true), (7, 16, false), (16, 19, true)]
    );
    assert_eq!(highlight_pieces("cat nap", "cat"), vec![(0, 3, true), (3, 7, false)]);
    assert_eq!(highlight_pieces("plain", ""), vec![(0, 5, false)]);
    assert_eq!(highlight_pieces("", "x"), vec![]);
    // Byte ranges: the two-byte é comes before the hit.
    assert_eq!(highlight_pieces("é ok", "ok"), vec![(0, 3, false), (3, 5, true)]);
}
