//! Keys as the editor reads them, and the map from a key to the high-level
//! [`Action`] it stands for in normal mode.

use vstd::prelude::*;

verus! {

/// The key that was pressed.
#[derive(Clone, Copy, Debug, PartialEq, Eq, Structural)]
pub enum KeyCode {
    Char(char),
    Left,
    Right,
    Up,
    Down,
    Home,
    End,
    Backspace,
    Delete,
    Enter,
    Esc,
    Tab,
    BackTab,
    /// Any other key (function keys, page keys, ...).
    Other,
}

/// The modifiers held with a key.
#[derive(Clone, Copy, Debug, PartialEq, Eq, Structural)]
pub enum Modifiers {
    Plain,
    Ctrl,
    Alt,
    CtrlAlt,
}

/// A key press: which key, and whether Control and Alt were held.
#[derive(Clone, Copy, Debug, PartialEq, Eq, Structural)]
pub struct KeyEvent {
    pub code: KeyCode,
    pub ctrl: bool,
    pub alt: bool,
}

impl KeyEvent {
    /// A press of `code` with `mods` held.
    pub fn new(code: KeyCode, mods: Modifiers) -> (k: KeyEvent)
        ensures
            k.code == code,
            k.ctrl == (mods == Modifiers::Ctrl || mods == Modifiers::CtrlAlt),
            k.alt == (mods == Modifiers::Alt || mods == Modifiers::CtrlAlt),
    {
        let ctrl = match mods {
            Modifiers::Ctrl | Modifiers::CtrlAlt => true,
            _ => false,
        };
        let alt = match mods {
            Modifiers::Alt | Modifiers::CtrlAlt => true,
            _ => false,
        };
        KeyEvent { code, ctrl, alt }
    }

    /// A press of `code` with no modifier held.
    pub fn from_code(code: KeyCode) -> (k: KeyEvent)
        ensures
            k.code == code,
            !k.ctrl,
            !k.alt,
    {
        KeyEvent { code, ctrl: false, alt: false }
    }
}

/// What a key does in normal mode.
#[derive(Clone, Copy, Debug, PartialEq, Eq, Structural)]
pub enum Action {
    Quit,
    TogglePlay,
    SpeedUp,
    SpeedDown,
    /// Seek relative to the playhead, in milliseconds.
    SeekBy(i64),
    /// Step whole frames (sign = direction).
    FrameStep(i32),
    SeekStart,
    SeekEnd,
    /// Jump to this many tenths (0..=9) of the duration.
    SeekFraction(u8),
    SetIn,
    SetOut,
    ClearMarks,
    ExportFast,
    ExportPrecise,
    CueNext,
    CuePrev,
    EditCue,
    SearchStart,
    SearchNext,
    SearchPrev,
    SnapStart,
    SnapEnd,
    NewCue,
    DeleteCue,
    SaveVtt,
    GenerateSubs,
    NewChapter,
    EditChapter,
    DeleteChapter,
    ChapterNext,
    ChapterPrev,
    SaveChapters,
    Help,
    Nothing,
}

/// The action a key stands for in normal mode; modifiers play no part.
pub open spec fn action_of(code: KeyCode) -> Action {
    match code {
        KeyCode::Char('q') | KeyCode::Esc => Action::Quit,
        KeyCode::Char(' ') => Action::TogglePlay,
        KeyCode::Char('-') | KeyCode::Char('_') => Action::SpeedDown,
        KeyCode::Char('=') | KeyCode::Char('+') => Action::SpeedUp,
        KeyCode::Left => Action::SeekBy(-1000i64),
        KeyCode::Right => Action::SeekBy(1000i64),
        KeyCode::Char('<') => Action::SeekBy(-10000i64),
        KeyCode::Char('>') => Action::SeekBy(10000i64),
        KeyCode::Char(',') => Action::FrameStep(-1i32),
        KeyCode::Char('.') => Action::FrameStep(1i32),
        KeyCode::Home => Action::SeekStart,
        KeyCode::End => Action::SeekEnd,
        KeyCode::Char('i') => Action::SetIn,
        KeyCode::Char('o') => Action::SetOut,
        KeyCode::Char('C') => Action::ClearMarks,
        KeyCode::Char('x') => Action::ExportFast,
        KeyCode::Char('X') => Action::ExportPrecise,
        KeyCode::Char('j') | KeyCode::Down => Action::CuePrev,
        KeyCode::Char('k') | KeyCode::Up => Action::CueNext,
        KeyCode::Enter => Action::EditCue,
        KeyCode::Char('/') => Action::SearchStart,
        KeyCode::Tab => Action::SearchNext,
        KeyCode::BackTab => Action::SearchPrev,
        KeyCode::Char('[') => Action::SnapStart,
        KeyCode::Char(']') => Action::SnapEnd,
        KeyCode::Char('n') => Action::NewCue,
        KeyCode::Char('d') => Action::DeleteCue,
        KeyCode::Char('s') => Action::SaveVtt,
        KeyCode::Char('G') => Action::GenerateSubs,
        KeyCode::Char('m') => Action::NewChapter,
        KeyCode::Char('e') => Action::EditChapter,
        KeyCode::Char('M') => Action::DeleteChapter,
        KeyCode::Char('}') => Action::ChapterNext,
        KeyCode::Char('{') => Action::ChapterPrev,
        KeyCode::Char('S') => Action::SaveChapters,
        KeyCode::Char('?') => Action::Help,
        KeyCode::Char(d) => if '0' <= d <= '9' {
            Action::SeekFraction(((d as u32) - 48) as u8)
        } else {
            Action::Nothing
        },
        _ => Action::Nothing,
    }
}

/// Map a key to the action it stands for in normal mode.
pub fn map(key: KeyEvent) -> (a: Action)
    ensures
        a == action_of(key.code),
{
    match key.code {
        KeyCode::Char('q') | KeyCode::Esc => Action::Quit,
        KeyCode::Char(' ') => Action::TogglePlay,
        KeyCode::Char('-') | KeyCode::Char('_') => Action::SpeedDown,
        KeyCode::Char('=') | KeyCode::Char('+') => Action::SpeedUp,
        KeyCode::Left => Action::SeekBy(-1000),
        KeyCode::Right => Action::SeekBy(1000),
        KeyCode::Char('<') => Action::SeekBy(-10000),
        KeyCode::Char('>') => Action::SeekBy(10000),
        KeyCode::Char(',') => Action::FrameStep(-1),
        KeyCode::Char('.') => Action::FrameStep(1),
        KeyCode::Home => Action::SeekStart,
        KeyCode::End => Action::SeekEnd,
        KeyCode::Char('i') => Action::SetIn,
        KeyCode::Char('o') => Action::SetOut,
        KeyCode::Char('C') => Action::ClearMarks,
        KeyCode::Char('x') => Action::ExportFast,
        KeyCode::Char('X') => Action::ExportPrecise,
        KeyCode::Char('j') | KeyCode::Down => Action::CuePrev,
        KeyCode::Char('k') | KeyCode::Up => Action::CueNext,
        KeyCode::Enter => Action::EditCue,
        KeyCode::Char('/') => Action::SearchStart,
        KeyCode::Tab => Action::SearchNext,
        KeyCode::BackTab => Action::SearchPrev,
        KeyCode::Char('[') => Action::SnapStart,
        KeyCode::Char(']') => Action::SnapEnd,
        KeyCode::Char('n') => Action::NewCue,
        KeyCode::Char('d') => Action::DeleteCue,
        KeyCode::Char('s') => Action::SaveVtt,
        KeyCode::Char('G') => Action::GenerateSubs,
        KeyCode::Char('m') => Action::NewChapter,
        KeyCode::Char('e') => Action::EditChapter,
        KeyCode::Char('M') => Action::DeleteChapter,
        KeyCode::Char('}') => Action::ChapterNext,
        KeyCode::Char('{') => Action::ChapterPrev,
        KeyCode::Char('S') => Action::SaveChapters,
        KeyCode::Char('?') => Action::Help,
        KeyCode::Char(d) => if '0' <= d && d <= '9' {
            Action::SeekFraction(((d as u32) - 48) as u8)
        } else {
            Action::Nothing
        },
        _ => Action::Nothing,
    }
}

} // verus!
