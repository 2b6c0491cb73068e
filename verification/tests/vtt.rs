use editty::chapter::Chapters;
use editty::export::companions;
use editty::vtt::VttDoc;

const SAMPLE: &str = "WEBVTT

NOTE a comment that has to survive

00:00:00.500 --> 00:00:02.500
first caption

00:00:03.000 --> 00:00:05.000
second caption

00:00:06.000 --> 00:00:08.000
third caption
two lines
";

fn sample() -> VttDoc {
    match VttDoc::parse(SAMPLE) {
        Ok(d) => d,
        Err(e) => panic!("load: {}", e.message),
    }
}

#[test]
fn round_trip_preserves_notes_and_edits() {
    let mut doc = sample();
    assert_eq!(doc.cue_count(), 3);

    assert_eq!(doc.active_cue(1000), Some(0));
    assert_eq!(doc.active_cue(4000), Some(1));
    assert_eq!(doc.active_cue(2700), None);

    doc.set_cue_text(1, "edited second caption");
    doc.set_cue_start(1, 2750);
    assert_eq!(doc.cue_text(1).as_deref(), Some("edited second caption"));
    assert_eq!(doc.cue_times(1), Some((2750, 5000)));

    let rendered = doc.render();
    assert!(rendered.contains("NOTE"), "NOTE block must survive round-trip");
    assert!(rendered.contains("edited second caption"));

    let doc2 = match VttDoc::parse(&rendered) {
        Ok(d) => d,
        Err(e) => panic!("reload: {}", e.message),
    };
    assert_eq!(doc2.cue_count(), 3);
    assert_eq!(doc2.cue_text(1).as_deref(), Some("edited second caption"));
    assert_eq!(doc2.cue_times(1), Some((2750, 5000)));
}

#[test]
fn add_and_delete_keep_order() {
    let mut doc = sample();
    let n = doc.add_cue(2600, 2900, "inserted");
    assert_eq!(n, 1, "should slot between cue 0 and old cue 1");
    assert_eq!(doc.cue_count(), 4);
    assert_eq!(doc.cue_text(1).as_deref(), Some("inserted"));
    doc.delete_cue(1);
    assert_eq!(doc.cue_count(), 3);
    assert_eq!(doc.cue_text(1).as_deref(), Some("second caption"));
}

#[test]
fn cue_rows_join_payload_lines() {
    let doc = sample();
    let rows = doc.cue_rows();
    assert_eq!(rows.len(), 3);
    assert_eq!(rows[0], (500, 2500, "first caption".to_string()));
    assert_eq!(rows[2], (6000, 8000, "third caption\ntwo lines".to_string()));
}

#[test]
fn an_added_cue_goes_after_cues_that_start_no_later() {
    let mut doc = sample();
    assert_eq!(doc.add_cue(3000, 3500, "same start"), 2);
    assert_eq!(doc.add_cue(9000, 9500, "at the end"), 5 - 1);
    assert_eq!(doc.add_cue(0, 100, "at the head"), 0);
    assert_eq!(doc.cue_count(), 6);
    assert_eq!(doc.cue_text(5).as_deref(), Some("at the end"));
}

#[test]
fn an_added_cue_never_ends_before_it_starts_and_empty_text_is_one_line() {
    let mut doc = VttDoc::empty();
    assert_eq!(doc.cue_count(), 0);
    let n = doc.add_cue(5000, 1000, "");
    assert_eq!(n, 0);
    assert_eq!(doc.cue_times(0), Some((5000, 5000)));
    assert_eq!(doc.cue_text(0).as_deref(), Some(""));
}

#[test]
fn snapping_keeps_start_no_later_than_end() {
    let mut doc = sample();
    doc.set_cue_start(0, 9000);
    assert_eq!(doc.cue_times(0), Some((2500, 2500)));
    doc.set_cue_end(2, 1000);
    assert_eq!(doc.cue_times(2), Some((6000, 6000)));
    doc.set_cue_end(1, 7000);
    assert_eq!(doc.cue_times(1), Some((3000, 7000)));
}

#[test]
fn out_of_range_ordinals_change_nothing() {
    let mut doc = sample();
    assert_eq!(doc.cue_times(3), None);
    assert_eq!(doc.cue_text(3), None);
    doc.set_cue_text(7, "nothing");
    doc.set_cue_start(7, 1);
    doc.delete_cue(3);
    assert_eq!(doc.cue_count(), 3);
    assert_eq!(doc.cue_rows(), sample().cue_rows());
}

#[test]
fn multi_line_text_becomes_multi_line_payload() {
    let mut doc = sample();
    doc.set_cue_text(0, "one\ntwo\r\nthree");
    assert_eq!(doc.cue_text(0).as_deref(), Some("one\ntwo\nthree"));
    doc.set_cue_text(0, "");
    assert_eq!(doc.cue_text(0).as_deref(), Some(""));
}

#[test]
fn a_text_that_is_not_webvtt_is_refused() {
    assert!(VttDoc::parse("this is not a subtitle file").is_err());
}

#[test]
fn overlapping_cues_report_the_first_that_covers() {
    let mut doc = sample();
    doc.add_cue(1000, 4000, "long");
    assert_eq!(doc.active_cue(1500), Some(0));
    assert_eq!(doc.active_cue(2700), Some(1));
    assert_eq!(doc.active_cue(8000), None);
}

#[test]
fn a_clip_keeps_the_overlapping_cues_clamped_and_rebased() {
    let doc = sample();
    // [4000, 7000): the second cue is cut at its start, the third at its end.
    let clip = doc.cut(4000, 7000);
    assert_eq!(
        clip.cue_rows(),
        vec![(0, 1000, "second caption".to_string()), (2000, 3000, "third caption\ntwo lines".to_string())]
    );
    // Only cues are carried over: the NOTE is left out.
    assert!(!clip.render().contains("NOTE"));
    assert!(clip.render().contains("00:00:01.000"));
}

#[test]
fn a_clip_outside_every_cue_or_empty_has_no_cues() {
    let doc = sample();
    assert_eq!(doc.cut(2500, 3000).cue_count(), 0);
    assert_eq!(doc.cut(9000, 12000).cue_count(), 0);
    assert_eq!(doc.cut(4000, 4000).cue_count(), 0);
    assert_eq!(doc.cut(5000, 1000).cue_count(), 0);
    // A range that covers everything keeps every cue where it was.
    assert_eq!(doc.cut(0, 60000).cue_rows(), doc.cue_rows());
}

#[test]
fn an_export_writes_the_clipped_subtitles_and_chapters_beside_the_clip() {
    let doc = Some(sample());
    let mut chapters = Chapters::empty();
    chapters.add(0, "Intro");
    chapters.add(4000, "Middle");
    let files = companions(&doc, &chapters, "/v/clip.mp4", 3500, 7000);
    let (vtt_path, clip) = files.vtt.expect("cues fall in the span");
    assert_eq!(vtt_path, "/v/clip.vtt");
    assert_eq!(clip.cue_count(), 2);
    let (ch_path, ch) = files.chapters.expect("chapters fall in the span");
    assert_eq!(ch_path, "/v/clip.chapter.txt");
    assert_eq!(ch.len(), 2);
    assert_eq!(ch.time(1), Some(500));

    // Nothing in the span, nothing to write.
    let files = companions(&doc, &Chapters::empty(), "/v/clip.mp4", 2600, 2900);
    assert!(files.vtt.is_none());
    assert!(files.chapters.is_none());
    let files = companions(&None, &Chapters::empty(), "/v/clip.mp4", 0, 1000);
    assert!(files.vtt.is_none());
}

#[test]
fn a_document_renders_its_header_an_empty_line_and_its_cues() {
    let mut doc = VttDoc::empty();
    assert_eq!(doc.render(), "WEBVTT\n\n");
    doc.add_cue(1000, 2000, "hi");
    assert_eq!(doc.render(), "WEBVTT\n\n00:00:01.000 --> 00:00:02.000\nhi\n");
    doc.add_cue(3_723_004, 3_724_000, "b\nc");
    assert_eq!(
        doc.render(),
        "WEBVTT\n\n00:00:01.000 --> 00:00:02.000\nhi\n\n01:02:03.004 --> 01:02:04.000\nb\nc\n"
    );
}

#[test]
fn a_cue_identifier_is_written_on_its_own_line() {
    let text = "WEBVTT\n\nintro\n00:00:00.500 --> 00:00:01.000\nx\n";
    let doc = match VttDoc::parse(text) {
        Ok(d) => d,
        Err(e) => panic!("{}", e.message),
    };
    assert_eq!(doc.render(), text);
}

#[test]
fn deleting_the_cue_just_added_gives_back_the_document() {
    let mut doc = sample();
    let before = doc.render();
    let n = doc.add_cue(5500, 5900, "short");
    assert_eq!(n, 2);
    assert_eq!(doc.cue_times(2), Some((5500, 5900)));
    doc.delete_cue(n);
    assert_eq!(doc.render(), before);
}
