# editty

A terminal video editor for kitty: scrub and preview a video in the terminal,
mark IN/OUT points and cut a clip with ffmpeg, edit the WebVTT subtitles and
the chapter list that sit beside the video, and generate subtitles with
WhisperX.

The editor's logic is a library verified with Verus; a thin program around it
does the terminal and process work.

## Layout

- `src/` — the verified library.
  - `app.rs` — the editor: its state, what every key does in every mode, and
    the requests it hands the host (start playback, save, cut, transcribe…),
    with laws such as "IN never lies after OUT" and "the playhead never leaves
    the video".
  - `vtt.rs` — WebVTT documents read and written with `subtp`; cue editing,
    the cue under the playhead, and clipping a document to a cut.
  - `chapter.rs` — the `.chapter.txt` format, chapter editing and clipping,
    and the law that saving and reading back gives the same chapters with
    each time rounded to the nearest whole second (for titles that are one
    line with no blank at either end).
  - `textinput.rs`, `search.rs`, `util.rs`, `text.rs`, `unicode.rs`,
    `paths.rs` — line editing, case-insensitive search, wrapping to terminal
    cells (where the text's display width adds up character by character,
    no line wider than the width but a single wide character),
    number and time formats, path handling.
  - `ffmpeg/` — the arguments for cutting, frame extraction and playback,
    reading `ffprobe`'s report, and the preview's frame pacing.
  - `player/` — kitty graphics protocol escapes (frames go out base64-encoded
    with the `base64` crate), reading the terminal's support replies, shared
    memory object names.
  - `ui/` — pane geometry (with `ratatui`'s layout solver, of whose choice
    the library states only that each pane lies inside the screen), list windowing,
    the edited line with its cursor, captions, the timeline, status bar text.
  - `whisperx.rs` — the WhisperX job as a state machine: what to run next,
    and what to report.
  - `startup.rs` — which subtitles and chapters the editor opens with.
  - `export.rs` — the subtitles and chapters an export writes beside the clip.
  - `tick.rs` — what the event loop decides on each turn.
- `app/` — the program: command line, terminal, drawing with ratatui,
  processes (ffprobe, ffmpeg, ffplay, conda), files, threads.
- `tests/` — tests of the library.

Times are whole milliseconds throughout the library; frame rates are frames
per thousand seconds.
