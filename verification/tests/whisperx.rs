use editty::whisperx::{
    clean_line, create_args, creating_status, env_listed, install_args, ready_args, resolve_device, tail_chars,
    transcribe_args, transcribing_status, Collected, Job, JobAction, JobEvent, Progress, Tail, WhisperXConfig,
};

#[test]
fn device_resolution() {
    assert_eq!(resolve_device(Some("cpu"), false), ("cpu".into(), "int8".into()));
    assert_eq!(resolve_device(Some("cuda"), false), ("cuda".into(), "float16".into()));
    // auto (None) depends on the host GPU; it picks a valid pair either way.
    for gpu in [false, true] {
        let (d, c) = resolve_device(None, gpu);
        assert!(d == "cuda" || d == "cpu");
        assert!(c == "float16" || c == "int8");
    }
    assert_eq!(resolve_device(None, true), ("cuda".into(), "float16".into()));
    assert_eq!(resolve_device(None, false), ("cpu".into(), "int8".into()));
}

#[test]
fn tail_chars_truncates_on_char_boundaries() {
    assert_eq!(tail_chars("hello", 10), "hello");
    assert_eq!(tail_chars("hello", 3), "…llo");
    // multi-byte: must not panic and must keep whole chars
    let s = "あいうえお";
    assert_eq!(tail_chars(s, 2), "…えお");
}

#[test]
fn tail_chars_at_the_exact_length_keeps_everything() {
    assert_eq!(tail_chars("abc", 3), "abc");
    assert_eq!(tail_chars("abc", 0), "…");
}

fn cfg(language: Option<&str>) -> WhisperXConfig {
    WhisperXConfig {
        env: "whisperx".to_string(),
        model: "large-v3".to_string(),
        device: None,
        language: language.map(|l| l.to_string()),
    }
}

#[test]
fn conda_commands_name_the_environment() {
    assert_eq!(create_args("wx"), ["create", "-y", "-n", "wx", "python=3.11"]);
    assert_eq!(install_args("wx"), ["run", "--no-capture-output", "-n", "wx", "pip", "install", "whisperx"]);
    assert_eq!(ready_args("wx"), ["run", "--no-capture-output", "-n", "wx", "whisperx", "--version"]);
}

#[test]
fn transcription_asks_for_vtt_and_the_language_only_when_set() {
    let args = transcribe_args(&cfg(None), "/v/talk.mp4", "cpu", "int8", "/tmp/out");
    assert_eq!(
        args,
        [
            "run", "--no-capture-output", "-n", "whisperx", "whisperx", "/v/talk.mp4", "--model", "large-v3",
            "--device", "cpu", "--compute_type", "int8", "--output_format", "vtt", "--output_dir", "/tmp/out",
            "--print_progress", "True",
        ]
    );
    let args = transcribe_args(&cfg(Some("ja")), "/v/talk.mp4", "cuda", "float16", "/tmp/out");
    assert_eq!(&args[args.len() - 2..], ["--language", "ja"]);
}

#[test]
fn status_lines_say_what_is_going_on() {
    assert_eq!(creating_status("wx"), "creating conda env 'wx' (python=3.11)…");
    assert_eq!(
        transcribing_status("large-v3", "cpu", None),
        "transcribing with large-v3 on cpu (lang=auto) — first run also downloads the model…"
    );
    assert!(transcribing_status("small", "cuda", Some("en")).contains("(lang=en)"));
}

#[test]
fn the_env_list_is_read_by_first_word() {
    let listing = "# conda environments:\n#\nbase                  *  /opt/conda\nwhisperx                 /opt/conda/envs/whisperx\n";
    assert!(env_listed(listing, "whisperx"));
    assert!(env_listed(listing, "base"));
    assert!(!env_listed(listing, "whisper"));
    assert!(!env_listed(listing, "#"));
    assert!(!env_listed("", "base"));
}

#[test]
fn progress_lines_keep_what_follows_the_last_carriage_return() {
    assert_eq!(clean_line(" 10%|█   \r 20%|██  ").as_deref(), Some("20%|██"));
    assert_eq!(clean_line("plain line").as_deref(), Some("plain line"));
    assert_eq!(clean_line("  \r   "), None);
    assert_eq!(clean_line(""), None);
}

#[test]
fn a_failure_reports_the_last_dozen_lines() {
    let mut tail = Tail::new();
    assert_eq!(tail.failure(), "command failed");
    for i in 0..15 {
        tail.push(format!("line {i}"));
    }
    assert_eq!(tail.lines.len(), 12);
    assert_eq!(tail.lines[0], "line 3");
    let msg = tail.failure();
    assert!(msg.starts_with("line 3 | line 4"));
    assert!(msg.ends_with("line 14"));
}

fn job() -> Job {
    Job::new("/v/talk.mp4".to_string(), "/v/talk.vtt".to_string(), cfg(None))
}

fn expect_check(a: JobAction) {
    match a {
        JobAction::Check(args) => assert_eq!(args, ready_args("whisperx")),
        _ => panic!("expected the readiness check"),
    }
}

fn expect_run(a: JobAction, want_status: &str, want_args: Vec<String>, want_stream: bool) {
    match a {
        JobAction::Run { status, args, stream } => {
            assert_eq!(status, want_status);
            assert_eq!(args, want_args);
            assert_eq!(stream, want_stream);
        }
        _ => panic!("expected a command to run"),
    }
}

fn expect_failure(a: JobAction, want: &str) {
    match a {
        JobAction::Finish(Progress::Failed(e)) => assert_eq!(e, want),
        _ => panic!("expected the job to fail with {want}"),
    }
}

const INSTALLING: &str = "installing WhisperX — downloads several GB, please wait…";

#[test]
fn a_first_run_creates_the_env_installs_rechecks_and_transcribes() {
    let mut j = job();
    expect_check(j.advance(JobEvent::CondaFound(true)));
    assert!(matches!(j.advance(JobEvent::Ready(false)), JobAction::ListEnvs));
    let listing = "# conda environments:\n#\nbase  *  /opt/conda\n";
    expect_run(
        j.advance(JobEvent::EnvList(listing.to_string())),
        "creating conda env 'whisperx' (python=3.11)…",
        create_args("whisperx"),
        false,
    );
    expect_run(j.advance(JobEvent::Ran(Ok(()))), INSTALLING, install_args("whisperx"), false);
    expect_check(j.advance(JobEvent::Ran(Ok(()))));
    assert!(matches!(j.advance(JobEvent::Ready(true)), JobAction::Prepare));
    expect_run(
        j.advance(JobEvent::Prepared { gpu_present: false, out_dir: Ok("/tmp/wx".to_string()) }),
        "transcribing with large-v3 on cpu (lang=auto) — first run also downloads the model…",
        transcribe_args(&cfg(None), "/v/talk.mp4", "cpu", "int8", "/tmp/wx"),
        true,
    );
    match j.advance(JobEvent::Ran(Ok(()))) {
        JobAction::Collect { produced, target } => {
            assert_eq!(produced, "/tmp/wx/talk.vtt");
            assert_eq!(target, "/v/talk.vtt");
        }
        _ => panic!("expected the transcript to be collected"),
    }
    match j.advance(JobEvent::Collected(Collected::Copied)) {
        JobAction::Finish(Progress::Done(p)) => assert_eq!(p, "/v/talk.vtt"),
        _ => panic!("expected the job to finish"),
    }
    // Once over, nothing more happens.
    assert!(matches!(j.advance(JobEvent::Ready(true)), JobAction::Nothing));
}

#[test]
fn a_ready_env_goes_straight_to_transcribing_on_the_gpu() {
    let mut j = job();
    expect_check(j.advance(JobEvent::CondaFound(true)));
    assert!(matches!(j.advance(JobEvent::Ready(true)), JobAction::Prepare));
    expect_run(
        j.advance(JobEvent::Prepared { gpu_present: true, out_dir: Ok("/tmp/wx/".to_string()) }),
        "transcribing with large-v3 on cuda (lang=auto) — first run also downloads the model…",
        transcribe_args(&cfg(None), "/v/talk.mp4", "cuda", "float16", "/tmp/wx/"),
        true,
    );
    match j.advance(JobEvent::Ran(Ok(()))) {
        JobAction::Collect { produced, .. } => assert_eq!(produced, "/tmp/wx/talk.vtt"),
        _ => panic!("expected the transcript to be collected"),
    }
}

#[test]
fn an_existing_env_is_not_created_again() {
    let mut j = job();
    expect_check(j.advance(JobEvent::CondaFound(true)));
    assert!(matches!(j.advance(JobEvent::Ready(false)), JobAction::ListEnvs));
    let listing = "base  *  /opt/conda\nwhisperx   /opt/conda/envs/whisperx\n";
    expect_run(j.advance(JobEvent::EnvList(listing.to_string())), INSTALLING, install_args("whisperx"), false);
}

#[test]
fn each_failure_ends_the_job_with_its_reason() {
    let mut j = job();
    expect_failure(
        j.advance(JobEvent::CondaFound(false)),
        "conda not found — install Anaconda/Miniconda or set CONDA_EXE",
    );
    assert!(matches!(j.advance(JobEvent::CondaFound(true)), JobAction::Nothing));

    let mut j = job();
    j.advance(JobEvent::CondaFound(true));
    j.advance(JobEvent::Ready(false));
    j.advance(JobEvent::EnvList(String::new()));
    expect_failure(j.advance(JobEvent::Ran(Err("no network".to_string()))), "no network");

    let mut j = job();
    j.advance(JobEvent::CondaFound(true));
    j.advance(JobEvent::Ready(false));
    j.advance(JobEvent::EnvList(String::new()));
    j.advance(JobEvent::Ran(Ok(())));
    j.advance(JobEvent::Ran(Ok(())));
    expect_failure(
        j.advance(JobEvent::Ready(false)),
        "WhisperX install did not produce a working `whisperx` command",
    );

    let mut j = job();
    j.advance(JobEvent::CondaFound(true));
    j.advance(JobEvent::Ready(true));
    expect_failure(
        j.advance(JobEvent::Prepared { gpu_present: false, out_dir: Err("read-only".to_string()) }),
        "temp dir: read-only",
    );

    let mut j = job();
    j.advance(JobEvent::CondaFound(true));
    j.advance(JobEvent::Ready(true));
    j.advance(JobEvent::Prepared { gpu_present: false, out_dir: Ok("/tmp/wx".to_string()) });
    j.advance(JobEvent::Ran(Ok(())));
    expect_failure(j.advance(JobEvent::Collected(Collected::Missing)), "WhisperX finished but wrote no .vtt");

    let mut j = job();
    j.advance(JobEvent::CondaFound(true));
    j.advance(JobEvent::Ready(true));
    j.advance(JobEvent::Prepared { gpu_present: false, out_dir: Ok("/tmp/wx".to_string()) });
    j.advance(JobEvent::Ran(Ok(())));
    expect_failure(
        j.advance(JobEvent::Collected(Collected::CopyFailed("disk full".to_string()))),
        "writing /v/talk.vtt: disk full",
    );
}

#[test]
fn an_event_the_job_is_not_waiting_for_changes_nothing() {
    let mut j = job();
    assert!(matches!(j.advance(JobEvent::Ready(true)), JobAction::Nothing));
    assert_eq!(j.step, editty::whisperx::JobStep::Start);
}

#[test]
fn a_progress_line_shows_its_last_characters() {
    assert_eq!(editty::whisperx::progress_status("short"), "short");
    let long: String = "x".repeat(100);
    let shown = editty::whisperx::progress_status(&long);
    assert_eq!(shown.chars().count(), 73);
    assert!(shown.starts_with('…'));
}
