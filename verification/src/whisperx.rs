//! Generating subtitles with [WhisperX](https://github.com/m-bain/whisperX):
//! the job's settings, the messages it reports, and the decisions it makes
//! along the way. Running conda and WhisperX is the application's part.

use vstd::prelude::*;
use crate::unicode::{chars_of, push_char, push_str, str_eq, string_of_range};
use crate::ffmpeg::cut::push_arg;

verus! {

/// Knobs for a transcription run; defaults come from the CLI.
pub struct WhisperXConfig {
    /// conda environment name to run (and create, if missing) WhisperX in.
    pub env: String,
    /// Whisper model name, e.g. `large-v3`.
    pub model: String,
    /// `cuda` / `cpu`; `None` auto-detects (CUDA if an NVIDIA GPU is present).
    pub device: Option<String>,
    /// Spoken language; `None` lets WhisperX auto-detect.
    pub language: Option<String>,
}

/// A message from the transcription job to the UI.
pub enum Progress {
    /// A human-readable status line to show in the status bar.
    Status(String),
    /// Transcription finished; the VTT was written to this path.
    Done(String),
    /// The job failed; carries a short reason.
    Failed(String),
}

/// The `(device, compute_type)` pair WhisperX runs with: `cpu` uses int8, any
/// other requested device float16; with no request, CUDA when a GPU is present.
pub open spec fn device_choice(requested: Option<Seq<char>>, gpu_present: bool) -> (Seq<char>, Seq<char>) {
    match requested {
        Some(d) => if d == "cpu"@ {
            ("cpu"@, "int8"@)
        } else {
            (d, "float16"@)
        },
        None => if gpu_present {
            ("cuda"@, "float16"@)
        } else {
            ("cpu"@, "int8"@)
        },
    }
}

/// `(device, compute_type)` for WhisperX. `cpu` uses int8; GPU uses float16.
/// `gpu_present` says whether an NVIDIA GPU was found, which decides when no
/// device was requested.
pub fn resolve_device(requested: Option<&str>, gpu_present: bool) -> (r: (String, String))
    ensures
        (r.0@, r.1@) == device_choice(
            match requested {
                Some(d) => Some(d@),
                None => None,
            },
            gpu_present,
        ),
{
    match requested {
        Some(dev) => {
            if str_eq(dev, "cpu") {
                ("cpu".to_owned(), "int8".to_owned())
            } else {
                (dev.to_owned(), "float16".to_owned())
            }
        },
        None => {
            if gpu_present {
                ("cuda".to_owned(), "float16".to_owned())
            } else {
                ("cpu".to_owned(), "int8".to_owned())
            }
        },
    }
}

/// The last `n` characters of `s`, after an ellipsis when any were cut.
pub open spec fn tail_of(s: Seq<char>, n: int) -> Seq<char> {
    if s.len() <= n {
        s
    } else {
        seq!['…'] + s.skip(s.len() - n)
    }
}

/// Keep the last `n` characters of `s`, prefixing an ellipsis if truncated.
/// Operates on chars so it never splits a multi-byte sequence.
pub fn tail_chars(s: &str, n: usize) -> (r: String)
    ensures
        r@ == tail_of(s@, n as int),
{
    let chars = chars_of(s);
    if chars.len() <= n {
        s.to_owned()
    } else {
        let mut out = String::new();
        push_char(&mut out, '…');
        let rest = string_of_range(&chars, chars.len() - n, chars.len());
        push_str(&mut out, rest.as_str());
        proof {
            assert(chars@.subrange(chars@.len() - n, chars@.len() as int) =~= s@.skip(s@.len() - n));
            assert(out@ =~= seq!['…'] + s@.skip(s@.len() - n));
        }
        out
    }
}

/// How many characters of a progress line the status bar shows.
pub const PROGRESS_CHARS: usize = 72;

/// A line of the transcription's progress as the status bar shows it: its
/// last characters.
pub fn progress_status(line: &str) -> (r: String)
    ensures
        r@ == tail_of(line@, PROGRESS_CHARS as int),
{
    tail_chars(line, PROGRESS_CHARS)
}

/// Arguments as text.
pub open spec fn arg_texts(v: Seq<String>) -> Seq<Seq<char>> {
    crate::ffmpeg::cut::strs(v)
}

/// `conda` arguments that create the environment `env` with Python 3.11.
pub open spec fn create_args_of(env: Seq<char>) -> Seq<Seq<char>> {
    seq!["create"@, "-y"@, "-n"@, env, "python=3.11"@]
}

/// `conda` arguments that run `cmd` inside `env`, output passed through.
pub open spec fn run_in_of(env: Seq<char>) -> Seq<Seq<char>> {
    seq!["run"@, "--no-capture-output"@, "-n"@, env]
}

/// `conda` arguments that install WhisperX into `env` with pip.
pub open spec fn install_args_of(env: Seq<char>) -> Seq<Seq<char>> {
    run_in_of(env) + seq!["pip"@, "install"@, "whisperx"@]
}

/// `conda` arguments that ask the `whisperx` command in `env` for its version:
/// it is ready when that succeeds.
pub open spec fn ready_args_of(env: Seq<char>) -> Seq<Seq<char>> {
    run_in_of(env) + seq!["whisperx"@, "--version"@]
}

/// `conda` arguments that transcribe `video` into WebVTT in `out_dir`.
pub open spec fn transcribe_args_of(
    env: Seq<char>,
    video: Seq<char>,
    model: Seq<char>,
    device: Seq<char>,
    compute: Seq<char>,
    out_dir: Seq<char>,
    language: Option<Seq<char>>,
) -> Seq<Seq<char>> {
    run_in_of(env) + seq![
        "whisperx"@,
        video,
        "--model"@,
        model,
        "--device"@,
        device,
        "--compute_type"@,
        compute,
        "--output_format"@,
        "vtt"@,
        "--output_dir"@,
        out_dir,
        "--print_progress"@,
        "True"@,
    ] + match language {
        Some(l) => seq!["--language"@, l],
        None => Seq::empty(),
    }
}

/// Appends the arguments that run a command in `env`.
fn push_run_in(v: &mut Vec<String>, env: &str)
    ensures
        arg_texts(final(v)@) == arg_texts(old(v)@) + run_in_of(env@),
{
    let ghost before = arg_texts(v@);
    push_arg(v, "run");
    push_arg(v, "--no-capture-output");
    push_arg(v, "-n");
    push_arg(v, env);
    proof {
        assert(arg_texts(v@) =~= before + run_in_of(env@));
    }
}

/// The arguments that create the conda environment `env`.
pub fn create_args(env: &str) -> (r: Vec<String>)
    ensures
        arg_texts(r@) == create_args_of(env@),
{
    let mut v: Vec<String> = Vec::new();
    push_arg(&mut v, "create");
    push_arg(&mut v, "-y");
    push_arg(&mut v, "-n");
    push_arg(&mut v, env);
    push_arg(&mut v, "python=3.11");
    proof {
        assert(arg_texts(v@) =~= create_args_of(env@));
    }
    v
}

/// The arguments that install WhisperX into `env`.
pub fn install_args(env: &str) -> (r: Vec<String>)
    ensures
        arg_texts(r@) == install_args_of(env@),
{
    let mut v: Vec<String> = Vec::new();
    push_run_in(&mut v, env);
    push_arg(&mut v, "pip");
    push_arg(&mut v, "install");
    push_arg(&mut v, "whisperx");
    proof {
        assert(arg_texts(v@) =~= install_args_of(env@));
    }
    v
}

/// The arguments that check whether WhisperX runs in `env`.
pub fn ready_args(env: &str) -> (r: Vec<String>)
    ensures
        arg_texts(r@) == ready_args_of(env@),
{
    let mut v: Vec<String> = Vec::new();
    push_run_in(&mut v, env);
    push_arg(&mut v, "whisperx");
    push_arg(&mut v, "--version");
    proof {
        assert(arg_texts(v@) =~= ready_args_of(env@));
    }
    v
}

/// The arguments that transcribe `video` with the settings `cfg` on
/// `device`/`compute`, writing WebVTT into `out_dir`.
pub fn transcribe_args(cfg: &WhisperXConfig, video: &str, device: &str, compute: &str, out_dir: &str) -> (r: Vec<String>)
    ensures
        arg_texts(r@) == transcribe_args_of(
            cfg.env@,
            video@,
            cfg.model@,
            device@,
            compute@,
            out_dir@,
            match cfg.language {
                Some(l) => Some(l@),
                None => None,
            },
        ),
{
    let mut v: Vec<String> = Vec::new();
    push_run_in(&mut v, cfg.env.as_str());
    let ghost head = arg_texts(v@);
    push_arg(&mut v, "whisperx");
    push_arg(&mut v, video);
    push_arg(&mut v, "--model");
    push_arg(&mut v, cfg.model.as_str());
    push_arg(&mut v, "--device");
    push_arg(&mut v, device);
    push_arg(&mut v, "--compute_type");
    push_arg(&mut v, compute);
    push_arg(&mut v, "--output_format");
    push_arg(&mut v, "vtt");
    push_arg(&mut v, "--output_dir");
    push_arg(&mut v, out_dir);
    push_arg(&mut v, "--print_progress");
    push_arg(&mut v, "True");
    let ghost body = arg_texts(v@);
    match &cfg.language {
        Some(l) => {
            push_arg(&mut v, "--language");
            push_arg(&mut v, l.as_str());
        },
        None => {},
    }
    proof {
        assert(arg_texts(v@) =~= transcribe_args_of(
            cfg.env@,
            video@,
            cfg.model@,
            device@,
            compute@,
            out_dir@,
            match cfg.language {
                Some(l) => Some(l@),
                None => None,
            },
        ));
    }
    v
}

/// The status shown while the environment `env` is created.
pub fn creating_status(env: &str) -> (r: String)
    ensures
        r@ == "creating conda env '"@ + env@ + "' (python=3.11)…"@,
{
    let mut s = String::new();
    push_str(&mut s, "creating conda env '");
    push_str(&mut s, env);
    push_str(&mut s, "' (python=3.11)…");
    s
}

/// The status shown while transcribing with `model` on `device`, in
/// `language` (`auto` when WhisperX detects it).
pub fn transcribing_status(model: &str, device: &str, language: Option<&str>) -> (r: String)
    ensures
        r@ == "transcribing with "@ + model@ + " on "@ + device@ + " (lang="@ + (match language {
            Some(l) => l@,
            None => "auto"@,
        }) + ") — first run also downloads the model…"@,
{
    let mut s = String::new();
    push_str(&mut s, "transcribing with ");
    push_str(&mut s, model);
    push_str(&mut s, " on ");
    push_str(&mut s, device);
    push_str(&mut s, " (lang=");
    match language {
        Some(l) => push_str(&mut s, l),
        None => push_str(&mut s, "auto"),
    }
    push_str(&mut s, ") — first run also downloads the model…");
    s
}

/// The first word of `l` (which starts with no blank), if any.
pub open spec fn first_word(l: Seq<char>) -> Seq<char> {
    l.take(crate::chapter::first_blank(l, 0))
}

/// A line of `conda env list` names the environment `env`: trimmed, not a
/// comment, and `env` is its first word.
pub open spec fn names_env(line: Seq<char>, env: Seq<char>) -> bool {
    let l = crate::text::trim(line);
    &&& l.len() > 0
    &&& l[0] != '#'
    &&& first_word(l) == env
}

/// Whether the output of `conda env list` lists an environment named `env`.
pub fn env_listed(listing: &str, env: &str) -> (r: bool)
    ensures
        r == exists|i: int| 0 <= i < crate::vtt::text_lines(listing@).len() && names_env(
            #[trigger] crate::vtt::text_lines(listing@)[i],
            env@,
        ),
{
    let lines = crate::vtt::lines_of(listing);
    let ghost ls = crate::vtt::text_lines(listing@);
    let mut i: usize = 0;
    while i < lines.len()
        invariant
            i <= lines@.len(),
            ls == crate::vtt::text_lines(listing@),
            lines@.map_values(|s: String| s@) == ls,
            forall|j: int| 0 <= j < i ==> !names_env(#[trigger] ls[j], env@),
        decreases lines@.len() - i,
    {
        let t = chars_of(lines[i].as_str());
        let (a, b) = crate::text::trim_range(&t, 0, t.len());
        proof {
            assert(t@.subrange(0, t@.len() as int) =~= t@);
            assert(ls[i as int] == lines@[i as int]@);
        }
        if a < b && t[a] != '#' {
            let e = crate::text::find_blank(&t, a, b);
            let word = string_of_range(&t, a, e);
            proof {
                let l = t@.subrange(a as int, b as int);
                assert forall|j: int| 0 <= j < e - a implies !crate::unicode::is_blank(l[j]) by {
                    assert(l[j] == t@[a + j]);
                }
                if e < b {
                    assert(l[e - a] == t@[e as int]);
                }
                crate::chapter::lemma_first_blank(l, 0, e - a);
                assert(word@ =~= first_word(l));
            }
            if str_eq(word.as_str(), env) {
                proof {
                    let l = t@.subrange(a as int, b as int);
                    assert(l[0] == t@[a as int]);
                    assert(names_env(ls[i as int], env@));
                    assert(i < crate::vtt::text_lines(listing@).len());
                    assert(names_env(crate::vtt::text_lines(listing@)[i as int], env@));
                }
                return true;
            }
        }
        i += 1;
    }
    false
}

/// A line of a command's error output as shown: what follows its last
/// carriage return (a progress bar redraws itself that way), trimmed; none
/// when nothing is left.
pub open spec fn shown_line(raw: Seq<char>) -> Option<Seq<char>> {
    let l = crate::text::trim(raw.skip(crate::paths::last_index(raw, '\r') + 1));
    if l.len() == 0 {
        None
    } else {
        Some(l)
    }
}

/// The part of an error-output line worth showing.
pub fn clean_line(raw: &str) -> (r: Option<String>)
    ensures
        match r {
            Some(s) => shown_line(raw@) == Some(s@),
            None => shown_line(raw@) is None,
        },
{
    let t = chars_of(raw);
    let mut from = t.len();
    proof {
        assert(t@.take(from as int) =~= t@);
    }
    while from > 0 && t[from - 1] != '\r'
        invariant
            from <= t@.len(),
            t@ == raw@,
            crate::paths::last_index(t@, '\r') == crate::paths::last_index(t@.take(from as int), '\r'),
        decreases from,
    {
        proof {
            assert(t@.take(from as int).drop_last() =~= t@.take(from - 1));
        }
        from -= 1;
    }
    proof {
        if from == 0 {
            assert(crate::paths::last_index(t@.take(0), '\r') == -1);
        } else {
            assert(crate::paths::last_index(t@.take(from as int), '\r') == from - 1);
        }
        assert(t@.subrange(from as int, t@.len() as int) =~= raw@.skip(crate::paths::last_index(raw@, '\r') + 1));
    }
    let (a, b) = crate::text::trim_range(&t, from, t.len());
    if a == b {
        None
    } else {
        Some(string_of_range(&t, a, b))
    }
}

/// The most error-output lines kept for a failure message.
pub const TAIL_LINES: usize = 12;

/// The last error-output lines of a running command, for the message if it
/// fails.
pub struct Tail {
    pub lines: Vec<String>,
}

/// `lines` joined with ` | ` between them.
pub open spec fn joined(lines: Seq<Seq<char>>) -> Seq<char>
    decreases lines.len(),
{
    if lines.len() == 0 {
        Seq::empty()
    } else if lines.len() == 1 {
        lines[0]
    } else {
        joined(lines.drop_last()) + " | "@ + lines.last()
    }
}

impl Tail {
    /// No lines yet.
    pub fn new() -> (r: Tail)
        ensures
            r.lines@.len() == 0,
    {
        Tail { lines: Vec::new() }
    }

    /// Keep `line`, dropping the oldest beyond the last twelve.
    pub fn push(&mut self, line: String)
        ensures
            final(self).lines@ == (if old(self).lines@.len() + 1 > TAIL_LINES {
                old(self).lines@.push(line).skip(old(self).lines@.len() + 1 - TAIL_LINES)
            } else {
                old(self).lines@.push(line)
            }),
    {
        let n0 = self.lines.len();
        let ghost all = self.lines@.push(line);
        self.lines.push(line);
        let ghost drop = if all.len() > TAIL_LINES { all.len() - TAIL_LINES } else { 0 };
        let mut k: usize = 0;
        while self.lines.len() > TAIL_LINES
            invariant
                self.lines@ == all.skip(k as int),
                all.len() == n0 + 1,
                k <= all.len(),
                all.len() > TAIL_LINES ==> k <= all.len() - TAIL_LINES,
                all.len() <= TAIL_LINES ==> k == 0,
            decreases self.lines@.len(),
        {
            self.lines.remove(0);
            k += 1;
            proof {
                assert(self.lines@ =~= all.skip(k as int));
            }
        }
        proof {
            assert(all.skip(0) =~= all);
        }
    }

    /// Why a command failed: its last error-output lines joined with ` | `,
    /// the last 200 characters of that; or just that it failed.
    pub fn failure(&self) -> (r: String)
        ensures
            r@ == (if self.lines@.len() == 0 {
                "command failed"@
            } else {
                tail_of(joined(self.lines@.map_values(|s: String| s@)), 200)
            }),
    {
        if self.lines.len() == 0 {
            let mut s = String::new();
            push_str(&mut s, "command failed");
            return s;
        }
        let ghost lv = self.lines@.map_values(|s: String| s@);
        let mut msg = String::new();
        push_str(&mut msg, self.lines[0].as_str());
        let mut i: usize = 1;
        proof {
            assert(lv.take(1).drop_last() =~= Seq::<Seq<char>>::empty());
            assert(joined(lv.take(1)) == lv.take(1)[0]);
        }
        while i < self.lines.len()
            invariant
                1 <= i <= self.lines@.len(),
                lv == self.lines@.map_values(|s: String| s@),
                msg@ == joined(lv.take(i as int)),
            decreases self.lines@.len() - i,
        {
            push_str(&mut msg, " | ");
            push_str(&mut msg, self.lines[i].as_str());
            proof {
                assert(lv.take(i + 1).drop_last() =~= lv.take(i as int));
            }
            i += 1;
        }
        proof {
            assert(lv.take(i as int) =~= lv);
        }
        tail_chars(msg.as_str(), 200)
    }
}


/// The output of `conda env list` names the environment `env` on some line.
pub open spec fn lists_env(listing: Seq<char>, env: Seq<char>) -> bool {
    exists|i: int|
        0 <= i < crate::vtt::text_lines(listing).len() && names_env(
            #[trigger] crate::vtt::text_lines(listing)[i],
            env,
        )
}

/// Where a transcription job stands: the step whose outcome it waits for.
#[derive(Clone, Copy, Debug, PartialEq, Eq, Structural)]
pub enum JobStep {
    /// Not begun: waiting to hear whether `conda` was found.
    Start,
    /// Asking whether WhisperX already runs in the environment.
    CheckReady,
    /// Listing conda's environments, to see whether ours exists.
    ListEnvs,
    /// Creating the environment.
    Create,
    /// Installing WhisperX into it.
    Install,
    /// Asking again whether WhisperX runs, now that it is installed.
    Recheck,
    /// Looking for a GPU and making a directory for the transcript.
    Prepare,
    /// Transcribing.
    Transcribe,
    /// Moving the transcript into place.
    Collect,
    /// Done or failed.
    Over,
}

/// How moving the transcript into place went.
pub enum Collected {
    /// WhisperX wrote no file.
    Missing,
    /// The file was copied over the target.
    Copied,
    /// Copying failed, for this reason.
    CopyFailed(String),
}

/// What the host found out doing the job's last action.
pub enum JobEvent {
    /// Whether the `conda` executable was found.
    CondaFound(bool),
    /// Whether the check command succeeded.
    Ready(bool),
    /// What `conda env list` printed.
    EnvList(String),
    /// The command ran to success, or failed for this reason.
    Ran(Result<(), String>),
    /// Whether an NVIDIA GPU is present, and the directory made for the
    /// transcript (or why none could be).
    Prepared { gpu_present: bool, out_dir: Result<String, String> },
    /// How moving the transcript into place went.
    Collected(Collected),
}

/// What the host is asked to do next for the job.
pub enum JobAction {
    /// Run `conda` with these arguments and say whether it succeeded.
    Check(Vec<String>),
    /// Run `conda env list` and hand back what it printed.
    ListEnvs,
    /// Show `status`, then run `conda` with `args` (forwarding each line of
    /// its error output as a status when `stream`) and hand back the outcome.
    Run { status: String, args: Vec<String>, stream: bool },
    /// Look for an NVIDIA GPU and make a directory for the transcript.
    Prepare,
    /// Back up `target` once and copy `produced` over it, if WhisperX wrote it.
    Collect { produced: String, target: String },
    /// The job is over; tell the editor.
    Finish(Progress),
    /// Nothing: the event was not one the job waits for.
    Nothing,
}

/// A transcription of `video` into `target`: first-run setup of the conda
/// environment when WhisperX does not run yet, then the transcription.
pub struct Job {
    pub video: String,
    pub target: String,
    pub cfg: WhisperXConfig,
    pub step: JobStep,
    /// The directory the transcript is written to, once made.
    pub out_dir: String,
}

/// The status shown while WhisperX is installed.
pub open spec fn installing_text() -> Seq<char> {
    "installing WhisperX — downloads several GB, please wait…"@
}

/// `a` asks for the readiness check in `env`.
pub open spec fn checks(a: JobAction, env: Seq<char>) -> bool {
    a matches JobAction::Check(args) && arg_texts(args@) == ready_args_of(env)
}

/// `a` runs `args` under the status `status`, streaming when `stream`.
pub open spec fn runs(a: JobAction, status: Seq<char>, args: Seq<Seq<char>>, stream: bool) -> bool {
    a matches JobAction::Run { status: st, args: v, stream: sm } && st@ == status && arg_texts(v@)
        == args && sm == stream
}

/// `a` ends the job with the failure `msg`.
pub open spec fn fails_with(a: JobAction, msg: Seq<char>) -> bool {
    a matches JobAction::Finish(Progress::Failed(e)) && e@ == msg
}

/// `b` is `a` at step `step`.
pub open spec fn moved(a: Job, b: Job, step: JobStep) -> bool {
    b == Job { step, ..a }
}

/// The device choice for the job's settings.
pub open spec fn job_device(cfg: WhisperXConfig, gpu_present: bool) -> (Seq<char>, Seq<char>) {
    device_choice(
        match cfg.device {
            Some(d) => Some(d@),
            None => None,
        },
        gpu_present,
    )
}

/// What an event does to a job at each step, and what the job asks for next.
pub open spec fn job_post(a: Job, b: Job, event: JobEvent, act: JobAction) -> bool {
    let env = a.cfg.env@;
    match (a.step, event) {
        (JobStep::Start, JobEvent::CondaFound(found)) => if found {
            moved(a, b, JobStep::CheckReady) && checks(act, env)
        } else {
            moved(a, b, JobStep::Over) && fails_with(
                act,
                "conda not found — install Anaconda/Miniconda or set CONDA_EXE"@,
            )
        },
        (JobStep::CheckReady, JobEvent::Ready(ok)) => if ok {
            moved(a, b, JobStep::Prepare) && act is Prepare
        } else {
            moved(a, b, JobStep::ListEnvs) && act is ListEnvs
        },
        (JobStep::ListEnvs, JobEvent::EnvList(listing)) => if lists_env(listing@, env) {
            moved(a, b, JobStep::Install) && runs(act, installing_text(), install_args_of(env), false)
        } else {
            moved(a, b, JobStep::Create) && runs(
                act,
                "creating conda env '"@ + env + "' (python=3.11)…"@,
                create_args_of(env),
                false,
            )
        },
        (JobStep::Create, JobEvent::Ran(r)) => match r {
            Ok(_) => moved(a, b, JobStep::Install) && runs(
                act,
                installing_text(),
                install_args_of(env),
                false,
            ),
            Err(e) => moved(a, b, JobStep::Over) && fails_with(act, e@),
        },
        (JobStep::Install, JobEvent::Ran(r)) => match r {
            Ok(_) => moved(a, b, JobStep::Recheck) && checks(act, env),
            Err(e) => moved(a, b, JobStep::Over) && fails_with(act, e@),
        },
        (JobStep::Recheck, JobEvent::Ready(ok)) => if ok {
            moved(a, b, JobStep::Prepare) && act is Prepare
        } else {
            moved(a, b, JobStep::Over) && fails_with(
                act,
                "WhisperX install did not produce a working `whisperx` command"@,
            )
        },
        (JobStep::Prepare, JobEvent::Prepared { gpu_present, out_dir }) => match out_dir {
            Ok(d) => {
                let (device, compute) = job_device(a.cfg, gpu_present);
                let lang = match a.cfg.language {
                    Some(l) => Some(l@),
                    None => None,
                };
                &&& b == Job { step: JobStep::Transcribe, out_dir: d, ..a }
                &&& runs(
                    act,
                    "transcribing with "@ + a.cfg.model@ + " on "@ + device + " (lang="@ + (match lang {
                        Some(l) => l,
                        None => "auto"@,
                    }) + ") — first run also downloads the model…"@,
                    transcribe_args_of(env, a.video@, a.cfg.model@, device, compute, d@, lang),
                    true,
                )
            },
            Err(e) => moved(a, b, JobStep::Over) && fails_with(act, "temp dir: "@ + e@),
        },
        (JobStep::Transcribe, JobEvent::Ran(r)) => match r {
            Ok(_) => match crate::paths::file_stem(a.video@) {
                Some(stem) => moved(a, b, JobStep::Collect) && (act matches JobAction::Collect {
                    produced,
                    target,
                } && produced@ == crate::paths::join(a.out_dir@, stem + ".vtt"@) && target@
                    == a.target@),
                None => moved(a, b, JobStep::Over) && fails_with(act, "bad video filename"@),
            },
            Err(e) => moved(a, b, JobStep::Over) && fails_with(act, e@),
        },
        (JobStep::Collect, JobEvent::Collected(c)) => moved(a, b, JobStep::Over) && match c {
            Collected::Missing => fails_with(act, "WhisperX finished but wrote no .vtt"@),
            Collected::CopyFailed(e) => fails_with(act, "writing "@ + a.target@ + ": "@ + e@),
            Collected::Copied => (act matches JobAction::Finish(Progress::Done(p)) && p@ == a.target@),
        },
        _ => b == a && act is Nothing,
    }
}

/// `s` as a new `String`.
fn owned(s: &str) -> (r: String)
    ensures
        r@ == s@,
{
    let mut r = String::new();
    push_str(&mut r, s);
    r
}

/// The job's failure with `msg`.
fn failure(msg: String) -> (a: JobAction)
    ensures
        fails_with(a, msg@),
{
    JobAction::Finish(Progress::Failed(msg))
}

impl Job {
    /// A job that has not begun.
    pub fn new(video: String, target: String, cfg: WhisperXConfig) -> (r: Job)
        ensures
            r == (Job { video, target, cfg, step: JobStep::Start, out_dir: r.out_dir }),
            r.out_dir@.len() == 0,
    {
        Job { video, target, cfg, step: JobStep::Start, out_dir: String::new() }
    }

    /// Take in what the host found out, and say what to do next.
    #[verifier::rlimit(40)]
    pub fn advance(&mut self, event: JobEvent) -> (act: JobAction)
        ensures
            job_post(*old(self), *final(self), event, act),
    {
        let env = self.cfg.env.as_str();
        match (self.step, event) {
            (JobStep::Start, JobEvent::CondaFound(found)) => {
                if found {
                    self.step = JobStep::CheckReady;
                    JobAction::Check(ready_args(env))
                } else {
                    self.step = JobStep::Over;
                    failure(owned("conda not found — install Anaconda/Miniconda or set CONDA_EXE"))
                }
            },
            (JobStep::CheckReady, JobEvent::Ready(ok)) => {
                if ok {
                    self.step = JobStep::Prepare;
                    JobAction::Prepare
                } else {
                    self.step = JobStep::ListEnvs;
                    JobAction::ListEnvs
                }
            },
            (JobStep::ListEnvs, JobEvent::EnvList(listing)) => {
                if env_listed(listing.as_str(), env) {
                    let args = install_args(env);
                    self.step = JobStep::Install;
                    JobAction::Run {
                        status: owned("installing WhisperX — downloads several GB, please wait…"),
                        args,
                        stream: false,
                    }
                } else {
                    let status = creating_status(env);
                    let args = create_args(env);
                    self.step = JobStep::Create;
                    JobAction::Run { status, args, stream: false }
                }
            },
            (JobStep::Create, JobEvent::Ran(r)) => match r {
                Ok(()) => {
                    let args = install_args(env);
                    self.step = JobStep::Install;
                    JobAction::Run {
                        status: owned("installing WhisperX — downloads several GB, please wait…"),
                        args,
                        stream: false,
                    }
                },
                Err(e) => {
                    self.step = JobStep::Over;
                    failure(e)
                },
            },
            (JobStep::Install, JobEvent::Ran(r)) => match r {
                Ok(()) => {
                    let args = ready_args(env);
                    self.step = JobStep::Recheck;
                    JobAction::Check(args)
                },
                Err(e) => {
                    self.step = JobStep::Over;
                    failure(e)
                },
            },
            (JobStep::Recheck, JobEvent::Ready(ok)) => {
                if ok {
                    self.step = JobStep::Prepare;
                    JobAction::Prepare
                } else {
                    self.step = JobStep::Over;
                    failure(owned("WhisperX install did not produce a working `whisperx` command"))
                }
            },
            (JobStep::Prepare, JobEvent::Prepared { gpu_present, out_dir }) => match out_dir {
                Ok(d) => {
                    let requested: Option<&str> = match &self.cfg.device {
                        Some(dev) => Some(dev.as_str()),
                        None => None,
                    };
                    let language: Option<&str> = match &self.cfg.language {
                        Some(l) => Some(l.as_str()),
                        None => None,
                    };
                    let (device, compute) = resolve_device(requested, gpu_present);
                    let status = transcribing_status(self.cfg.model.as_str(), device.as_str(), language);
                    let args = transcribe_args(
                        &self.cfg,
                        self.video.as_str(),
                        device.as_str(),
                        compute.as_str(),
                        d.as_str(),
                    );
                    self.step = JobStep::Transcribe;
                    self.out_dir = d;
                    JobAction::Run { status, args, stream: true }
                },
                Err(e) => {
                    let mut msg = owned("temp dir: ");
                    push_str(&mut msg, e.as_str());
                    self.step = JobStep::Over;
                    failure(msg)
                },
            },
            (JobStep::Transcribe, JobEvent::Ran(r)) => match r {
                Ok(()) => match crate::paths::file_stem_of(self.video.as_str()) {
                    Some(stem) => {
                        let mut name = stem;
                        push_str(&mut name, ".vtt");
                        let produced = crate::paths::join_of(self.out_dir.as_str(), name.as_str());
                        let target = self.target.clone();
                        self.step = JobStep::Collect;
                        JobAction::Collect { produced, target }
                    },
                    None => {
                        self.step = JobStep::Over;
                        failure(owned("bad video filename"))
                    },
                },
                Err(e) => {
                    self.step = JobStep::Over;
                    failure(e)
                },
            },
            (JobStep::Collect, JobEvent::Collected(c)) => {
                self.step = JobStep::Over;
                match c {
                    Collected::Missing => failure(owned("WhisperX finished but wrote no .vtt")),
                    Collected::CopyFailed(e) => {
                        let mut msg = owned("writing ");
                        push_str(&mut msg, self.target.as_str());
                        push_str(&mut msg, ": ");
                        push_str(&mut msg, e.as_str());
                        failure(msg)
                    },
                    Collected::Copied => JobAction::Finish(Progress::Done(self.target.clone())),
                }
            },
            _ => JobAction::Nothing,
        }
    }
}

/// A job that is over ignores every event and asks for nothing more.
pub proof fn law_over_is_final(a: Job, b: Job, event: JobEvent, act: JobAction)
    requires
        a.step == JobStep::Over,
        job_post(a, b, event, act),
    ensures
        b == a,
        act is Nothing,
{
}

} // verus!
