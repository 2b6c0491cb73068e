use editty::util::{display_width, wrap};

#[test]
fn util_wrapping_measures_cells_not_chars() {
    // Each kana is two cells wide, so four fit in eight columns.
    let text = "あいうえおか";
    let lines = wrap(text, 8);
    assert_eq!(
        lines.iter().map(|r| &text[r.clone()]).collect::<Vec<_>>(),
        vec!["あいうえ", "おか"]
    );
}

#[test]
fn util_wrapping_keeps_words_whole_when_it_can() {
    let text = "the quick brown fox";
    let lines = wrap(text, 10);
    assert_eq!(
        lines.iter().map(|r| &text[r.clone()]).collect::<Vec<_>>(),
        vec!["the quick ", "brown fox"]
    );
}

#[test]
fn util_wrapping_breaks_a_word_too_long_to_fit() {
    let text = "ab wwwwwwwwwwww";
    let lines = wrap(text, 6);
    // Contiguous, and no line is empty, however long the word is.
    assert!(lines.windows(2).all(|w| w[0].end == w[1].start));
    assert_eq!(lines.first().unwrap().start, 0);
    assert_eq!(lines.last().unwrap().end, text.len());
    assert!(lines.iter().all(|r| !r.is_empty()));
}

#[test]
fn util_wrapping_tiles_the_whole_text() {
    let text = "字幕は長くなることがあります。 with some latin too";
    for width in [1, 2, 3, 7, 40] {
        let lines = wrap(text, width);
        assert_eq!(lines.first().unwrap().start, 0, "width {width}");
        assert_eq!(lines.last().unwrap().end, text.len(), "width {width}");
        assert!(
            lines.windows(2).all(|w| w[0].end == w[1].start),
            "width {width} left a gap"
        );
    }
}

#[test]
fn wrapping_an_empty_text_gives_one_empty_line() {
    assert_eq!(wrap("", 5), vec![0..0]);
    // A zero width is taken as one column.
    assert_eq!(wrap("ab", 0), vec![0..1, 1..2]);
}

#[test]
fn display_width_counts_cells() {
    assert_eq!(display_width("abc"), 3);
    assert_eq!(display_width("あい"), 4);
    assert_eq!(display_width(""), 0);
}

#[test]
fn whitespace_agrees_with_the_standard_library() {
    for u in 0..=0x10FFFFu32 {
        if let Some(c) = char::from_u32(u) {
            assert_eq!(editty::unicode::is_whitespace(c), c.is_whitespace(), "U+{u:04X}");
        }
    }
}

#[test]
fn what_follows_a_blank_break_is_measured_again() {
    // After breaking at the blank, "a" and the wide "あ" would make three
    // cells on a two-cell line, so "あ" goes on a line of its own.
    let text = " aあ";
    let lines: Vec<&str> = wrap(text, 2).into_iter().map(|r| &text[r]).collect();
    assert_eq!(lines, [" ", "a", "あ"]);
    for l in &lines {
        assert!(display_width(l) <= 2);
    }
}

#[test]
fn control_characters_take_no_room_on_a_line() {
    // A tab has no width of its own, so a run of them never breaks a line,
    // though the string as a whole counts one cell for each.
    assert_eq!(wrap("\t\t\t", 1), vec![0..3]);
    assert_eq!(display_width("\t\t\t"), 3);
}
