use editty::chapter::Chapters;

/// Seconds to the milliseconds the chapter list keeps.
fn ms(secs: f64) -> u64 {
    (secs * 1000.0).round() as u64
}

fn secs(ms: u64) -> f64 {
    ms as f64 / 1000.0
}

fn from_str(s: &str) -> Chapters {
    Chapters::parse(s)
}

#[test]
fn parses_youtube_format_and_sorts() {
    let c = from_str("1:23 Topic A\n0:00 Intro\n1:02:10 Late\n\n# ignored\n");
    assert_eq!(c.len(), 3);
    assert_eq!(c.rows()[0].title, "Intro");
    assert!((secs(c.rows()[0].time) - 0.0).abs() < 0.01);
    assert!((secs(c.rows()[1].time) - 83.0).abs() < 0.01);
    assert!((secs(c.rows()[2].time) - 3730.0).abs() < 0.01);
}

#[test]
fn save_round_trips() {
    let mut c = Chapters::empty();
    c.add(ms(0.0), "Intro");
    c.add(ms(83.0), "Topic A");
    let text = c.to_text();
    assert_eq!(text, "0:00 Intro\n1:23 Topic A\n");
    let back = Chapters::parse(&text);
    assert_eq!(back.len(), 2);
    assert_eq!(back.rows()[1].title, "Topic A");
    assert!((secs(back.rows()[1].time) - 83.0).abs() < 0.01);
}

#[test]
fn add_keeps_order_and_returns_index() {
    let mut c = Chapters::empty();
    c.add(ms(0.0), "a");
    c.add(ms(20.0), "c");
    let i = c.add(ms(10.0), "b");
    assert_eq!(i, 1);
    assert_eq!(c.rows()[1].title, "b");
}

#[test]
fn active_finds_covering_chapter() {
    let mut c = Chapters::empty();
    c.add(ms(0.0), "a");
    c.add(ms(10.0), "b");
    c.add(ms(20.0), "c");
    assert_eq!(c.active(ms(5.0)), Some(0));
    assert_eq!(c.active(ms(10.0)), Some(1));
    assert_eq!(c.active(ms(25.0)), Some(2));
    // before the first chapter
    let mut d = Chapters::empty();
    d.add(ms(5.0), "x");
    assert_eq!(d.active(ms(2.0)), None);
}

#[test]
fn cut_carries_active_as_zero_and_rebases() {
    let mut c = Chapters::empty();
    c.add(ms(0.0), "Intro");
    c.add(ms(30.0), "Body");
    c.add(ms(90.0), "Outro");
    // clip [40, 100): "Body" is active at 40 -> 0:00, "Outro" -> 50.
    let clip = c.cut(ms(40.0), ms(100.0));
    assert_eq!(clip.len(), 2);
    assert_eq!(clip.rows()[0].title, "Body");
    assert!((secs(clip.rows()[0].time) - 0.0).abs() < 0.01);
    assert_eq!(clip.rows()[1].title, "Outro");
    assert!((secs(clip.rows()[1].time) - 50.0).abs() < 0.01);

    // a chapter exactly at start is not duplicated
    let clip2 = c.cut(ms(30.0), ms(95.0));
    assert_eq!(clip2.len(), 2);
    assert_eq!(clip2.rows()[0].title, "Body");
    assert!((secs(clip2.rows()[0].time) - 0.0).abs() < 0.01);
}

#[test]
fn timestamps_take_fractions_signs_and_reject_the_rest() {
    let c = from_str("  1:02.5   Spaced   title  \n+7 plus\n1:2:3:4 too many\nx:00 nope\n.25 quarter\n1.2.3 bad\n");
    let got: Vec<(u64, &str)> = c.rows().iter().map(|r| (r.time, r.title.as_str())).collect();
    assert_eq!(got, vec![(250, "quarter"), (7000, "plus"), (62500, "Spaced   title")]);
}

#[test]
fn equal_times_keep_file_order_and_titles_can_be_empty() {
    let c = from_str("0:10 second\r\n0:05\n0:10 third\n");
    let got: Vec<(u64, &str)> = c.rows().iter().map(|r| (r.time, r.title.as_str())).collect();
    assert_eq!(got, vec![(5000, ""), (10000, "second"), (10000, "third")]);
}

#[test]
fn rename_delete_and_time_lookup() {
    let mut c = Chapters::empty();
    c.add(ms(1.0), "one");
    c.add(ms(2.0), "two");
    c.set_title(1, "zwei");
    c.set_title(5, "ignored");
    assert_eq!(c.rows()[1].title, "zwei");
    assert_eq!(c.time(0), Some(1000));
    assert_eq!(c.time(2), None);
    c.delete(0);
    c.delete(7);
    assert_eq!(c.len(), 1);
    assert_eq!(c.rows()[0].title, "zwei");
    c.delete(0);
    assert!(c.is_empty());
}

#[test]
fn an_hour_and_more_is_written_with_hours() {
    let mut c = Chapters::empty();
    c.add(3_730_000, "Late");
    c.add(59_600, "Rounds up");
    assert_eq!(c.to_text(), "1:00 Rounds up\n1:02:10 Late\n");
}

#[test]
fn deleting_the_chapter_just_added_restores_the_list() {
    let mut c = Chapters::empty();
    c.add(0, "a");
    c.add(20_000, "c");
    let before = c.to_text();
    let i = c.add(10_000, "b");
    c.delete(i);
    assert_eq!(c.to_text(), before);
}

#[test]
fn saving_rounds_times_to_whole_seconds() {
    let mut c = Chapters::empty();
    c.add(1_499, "Early");
    c.add(62_500, "Half up");
    c.add(3_599_600, "Hour");
    let back = Chapters::parse(&c.to_text());
    assert_eq!(back.len(), 3);
    assert_eq!(back.rows()[0].time, 1_000);
    assert_eq!(back.rows()[1].time, 63_000);
    assert_eq!(back.rows()[2].time, 3_600_000);
    assert_eq!(back.rows()[2].title, "Hour");
}
