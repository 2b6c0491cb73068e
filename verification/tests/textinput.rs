use editty::keymap::{KeyCode, KeyEvent, Modifiers};
use editty::textinput::{wrap, TextInput};

fn key(code: KeyCode) -> KeyEvent {
    KeyEvent::new(code, Modifiers::Plain)
}

fn ctrl(c: char) -> KeyEvent {
    KeyEvent::new(KeyCode::Char(c), Modifiers::Ctrl)
}

fn press(input: &mut TextInput, keys: &[KeyEvent]) {
    for k in keys {
        input.handle_key(*k);
    }
}

#[test]
fn typing_lands_where_the_cursor_is() {
    let mut input = TextInput::with_text("これはテストです");
    press(&mut input, &[key(KeyCode::Left); 5]);
    press(&mut input, &[key(KeyCode::Char('大'))]);
    assert_eq!(input.text(), "これは大テストです");

    // And the cursor followed the insertion, so the next one abuts it.
    press(&mut input, &[key(KeyCode::Char('小'))]);
    assert_eq!(input.text(), "これは大小テストです");
}

#[test]
fn backspace_and_delete_straddle_the_cursor() {
    let mut input = TextInput::with_text("日本語");
    press(&mut input, &[key(KeyCode::Left)]);
    press(&mut input, &[key(KeyCode::Backspace)]);
    assert_eq!(input.text(), "日語", "deletes the char before the cursor");
    press(&mut input, &[key(KeyCode::Delete)]);
    assert_eq!(input.text(), "日", "deletes the char under the cursor");
    // Both are no-ops at their respective ends.
    press(&mut input, &[key(KeyCode::Delete), key(KeyCode::Home), key(KeyCode::Backspace)]);
    assert_eq!(input.text(), "日");
}

#[test]
fn motion_keys_clamp_at_the_ends() {
    let mut input = TextInput::with_text("あい");
    press(&mut input, &[key(KeyCode::Left); 5]);
    assert_eq!(input.cursor(), 0);
    press(&mut input, &[key(KeyCode::Right); 5]);
    assert_eq!(input.cursor(), "あい".len());
    press(&mut input, &[key(KeyCode::Home)]);
    assert_eq!(input.cursor(), 0);
    press(&mut input, &[ctrl('e')]);
    assert_eq!(input.cursor(), "あい".len());
    press(&mut input, &[ctrl('a')]);
    assert_eq!(input.cursor(), 0);
}

#[test]
fn word_motion_and_kills() {
    let mut input = TextInput::with_text("one two three");
    press(&mut input, &[KeyEvent::new(KeyCode::Left, Modifiers::Ctrl)]);
    assert_eq!(input.cursor(), "one two ".len());
    press(&mut input, &[ctrl('w')]);
    assert_eq!(input.text(), "one three");
    press(&mut input, &[ctrl('k')]);
    assert_eq!(input.text(), "one ");
    press(&mut input, &[ctrl('u')]);
    assert_eq!(input.text(), "");
    assert_eq!(input.cursor(), 0);
}

#[test]
fn unmapped_chords_do_not_type_their_letter() {
    let mut input = TextInput::with_text("abc");
    press(&mut input, &[ctrl('c'), ctrl('z')]);
    assert_eq!(input.text(), "abc");
}

#[test]
fn textinput_wrapping_measures_cells_not_chars() {
    // Each kana is two cells wide, so four fit in eight columns.
    let text = "あいうえおか";
    let lines = wrap(text, 8);
    assert_eq!(
        lines.iter().map(|r| &text[r.clone()]).collect::<Vec<_>>(),
        vec!["あいうえ", "おか"]
    );
}

#[test]
fn textinput_wrapping_keeps_words_whole_when_it_can() {
    let text = "the quick brown fox";
    let lines = wrap(text, 10);
    assert_eq!(
        lines.iter().map(|r| &text[r.clone()]).collect::<Vec<_>>(),
        vec!["the quick ", "brown fox"]
    );
}

#[test]
fn textinput_wrapping_breaks_a_word_too_long_to_fit() {
    let text = "ab wwwwwwwwwwww";
    let lines = wrap(text, 6);
    assert!(lines.windows(2).all(|w| w[0].end == w[1].start));
    assert_eq!(lines.first().unwrap().start, 0);
    assert_eq!(lines.last().unwrap().end, text.len());
    assert!(lines.iter().all(|r| !r.is_empty()));
}

#[test]
fn textinput_wrapping_tiles_the_whole_text() {
    let text = "字幕は長くなることがあります。 with some latin too";
    for width in [1, 2, 3, 7, 40] {
        let lines = wrap(text, width);
        assert_eq!(lines.first().unwrap().start, 0, "width {width}");
        assert_eq!(lines.last().unwrap().end, text.len(), "width {width}");
        assert!(
            lines.windows(2).all(|w| w[0].end == w[1].start),
            "width {width} left a gap"
        );
    }
}

#[test]
fn cursor_line_follows_the_cursor() {
    let mut input = TextInput::with_text("あいうえおか");
    // Cursor at the end: last line.
    assert_eq!(input.wrap(8).cursor_line, 1);
    press(&mut input, &[key(KeyCode::Home)]);
    assert_eq!(input.wrap(8).cursor_line, 0);
}

#[test]
fn a_cursor_past_a_full_line_gets_a_line_of_its_own() {
    let input = TextInput::with_text("あいうえ");
    let w = input.wrap(8);
    assert_eq!(w.lines.len(), 2, "the trailing cursor needs somewhere to sit");
    assert_eq!(w.cursor_line, 1);
    assert!(w.lines[1].is_empty());
}

#[test]
fn an_empty_input_still_has_a_line() {
    let input = TextInput::default();
    let w = input.wrap(10);
    assert_eq!(w.lines.len(), 1);
    assert_eq!(w.cursor_line, 0);
}

#[test]
fn take_empties_the_input_and_returns_its_text() {
    let mut input = TextInput::with_text("字幕");
    press(&mut input, &[key(KeyCode::Left)]);
    assert_eq!(input.cursor(), "字".len());
    assert_eq!(input.take(), "字幕");
    assert_eq!(input.text(), "");
    assert_eq!(input.cursor(), 0);
}

#[test]
fn alt_word_motion_skips_blanks_then_the_word() {
    let mut input = TextInput::with_text("one  two three");
    press(&mut input, &[KeyEvent::new(KeyCode::Char('b'), Modifiers::Alt)]);
    assert_eq!(input.cursor(), "one  two ".len());
    press(&mut input, &[KeyEvent::new(KeyCode::Char('b'), Modifiers::Alt)]);
    assert_eq!(input.cursor(), "one  ".len());
    press(&mut input, &[KeyEvent::new(KeyCode::Right, Modifiers::Ctrl)]);
    assert_eq!(input.cursor(), "one  two".len());
    press(&mut input, &[ctrl('b'), ctrl('d')]);
    assert_eq!(input.text(), "one  tw three");
    press(&mut input, &[ctrl('h'), key(KeyCode::Enter), key(KeyCode::Esc)]);
    assert_eq!(input.text(), "one  t three");
}

#[test]
fn backspace_or_left_and_delete_undo_a_typed_character() {
    let mut input = TextInput::with_text("あいう");
    input.handle_key(KeyEvent::from_code(KeyCode::Left));
    input.handle_key(KeyEvent::from_code(KeyCode::Char('x')));
    assert_eq!(input.text(), "あいxう");
    input.handle_key(KeyEvent::from_code(KeyCode::Backspace));
    assert_eq!(input.text(), "あいう");
    assert_eq!(input.cursor(), "あい".len());

    input.handle_key(KeyEvent::from_code(KeyCode::Char('y')));
    input.handle_key(KeyEvent::from_code(KeyCode::Left));
    input.handle_key(KeyEvent::from_code(KeyCode::Delete));
    assert_eq!(input.text(), "あいう");
    assert_eq!(input.cursor(), "あい".len());
}
