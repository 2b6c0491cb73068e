use editty::search::{contains, replace_all};

fn found<'a>(text: &'a str, needle: &str) -> Vec<&'a str> {
    editty::search::matches(text, needle)
        .into_iter()
        .map(|r| &text[r])
        .collect()
}

#[test]
fn finds_every_occurrence() {
    assert_eq!(found("ここにも ここにも ある", "ここ"), ["ここ", "ここ"]);
    assert_eq!(found("abcabc", "bc"), ["bc", "bc"]);
}

#[test]
fn ignores_case_without_disturbing_the_offsets() {
    let text = "Sentence with UTOR in it";
    assert_eq!(found(text, "utor"), ["UTOR"]);
    assert_eq!(found(text, "SENTENCE"), ["Sentence"]);
    // The range indexes the original text, not a lowercased copy.
    assert_eq!(editty::search::matches(text, "utor"), vec![14..18]);
}

#[test]
fn matches_are_not_overlapping_and_stay_on_char_boundaries() {
    assert_eq!(found("aaaa", "aa"), ["aa", "aa"]);
    // Multi-byte text: slicing the returned ranges must not panic.
    let text = "字幕字幕字幕";
    assert_eq!(found(text, "字幕"), ["字幕", "字幕", "字幕"]);
}

#[test]
fn a_needle_longer_than_the_text_is_not_a_match() {
    assert!(!contains("あい", "あいうえお"));
    assert!(found("あい", "あいうえお").is_empty());
}

#[test]
fn an_empty_needle_matches_nothing() {
    assert!(!contains("anything", ""));
    assert!(editty::search::matches("anything", "").is_empty());
}

#[test]
fn replaces_every_occurrence() {
    assert_eq!(
        replace_all("ビルドリはビルドリです", "ビルドリ", "UTOR"),
        ("UTORはUTORです".to_string(), 2)
    );
    // Case folds to find, but the replacement goes in as typed.
    assert_eq!(
        replace_all("Utor and UTOR", "utor", "UTOR"),
        ("UTOR and UTOR".to_string(), 2)
    );
    // A replacement containing the needle doesn't feed on itself.
    assert_eq!(
        replace_all("abc", "abc", "abcabc"),
        ("abcabc".to_string(), 1)
    );
    // Replacing with nothing deletes the word.
    assert_eq!(replace_all("あいうえお", "うえ", ""), ("あいお".to_string(), 1));
    // No match leaves the text exactly as it was.
    assert_eq!(replace_all("そのまま", "ない", "x"), ("そのまま".to_string(), 0));
}

#[test]
fn contains_agrees_with_matches() {
    for (text, needle) in [
        ("プロジェクター", "ジェ"),
        ("プロジェクター", "ジェク"),
        ("プロジェクター", "クタ"),
        ("プロジェクター", "ない"),
        ("", "x"),
    ] {
        assert_eq!(
            contains(text, needle),
            !editty::search::matches(text, needle).is_empty(),
            "{text} / {needle}"
        );
    }
}

#[test]
fn search_finds_a_match_at_the_very_end_and_the_very_start() {
    assert_eq!(editty::search::matches("abc", "c"), vec![2..3]);
    assert_eq!(editty::search::matches("abc", "A"), vec![0..1]);
    assert_eq!(editty::search::matches("Ä", "ä"), vec![0..2]);
}

#[test]
fn folding_multi_char_lowercase_still_lines_up() {
    // 'İ' lowercases to two characters; the byte range is the original one.
    let text = "xİy";
    let hits = editty::search::matches(text, "İ");
    assert_eq!(hits, vec![1..3]);
    assert_eq!(&text[hits[0].clone()], "İ");
}

#[test]
fn replace_counts_and_replaces_case_insensitively() {
    assert_eq!(replace_all("AaAa", "aa", "b"), ("bb".to_string(), 2));
    assert_eq!(replace_all("", "a", "b"), ("".to_string(), 0));
    assert_eq!(replace_all("abc", "", "x"), ("abc".to_string(), 0));
}
