//! editty's editing core: subtitle search, the line editor, text wrapping,
//! chapter and cue bookkeeping, and the small protocols the terminal UI speaks.

pub mod unicode;
pub mod util;
pub mod search;
pub mod keymap;
pub mod textinput;
pub mod ffmpeg;
pub mod player;
pub mod whisperx;
pub mod chapter;
pub mod text;
pub mod vtt;
pub mod paths;
pub mod ui;
pub mod app;
pub mod tick;
pub mod export;
pub mod startup;
