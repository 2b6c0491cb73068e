//! What the status bar, the video pane's title and the help overlay say: the
//! pieces of text and how each is to be drawn. Colours and fonts are the
//! terminal side's; the wording and the choices are here.

use vstd::prelude::*;
use crate::app::{speed_at, App, Mode};
use crate::ffmpeg::probe::MediaInfo;
use crate::unicode::{chars_of, push_char, push_str};
use crate::util::{clock_text, decimal, fmt_clock, fmt_speed, lemma_padded_zero, push_padded, speed_text};

verus! {

/// How a piece of the status bar is drawn.
#[derive(Clone, Copy, Debug, PartialEq, Eq, Structural)]
pub enum Look {
    /// The badge while a line is edited.
    EditBadge,
    /// The badge of a prompt.
    PromptBadge,
    /// The badge while playing.
    PlayBadge,
    /// The badge while paused.
    PauseBadge,
    /// The playhead's clock.
    Clock,
    /// The speed, at normal speed.
    Speed,
    /// The speed, away from normal speed.
    SpeedChanged,
    /// A set IN marker.
    InMark,
    /// A set OUT marker.
    OutMark,
    /// A marker that is not set.
    Unset,
    /// The last message.
    Message,
    /// The key hints, and the keys that end a prompt.
    Hint,
    /// A prompt's label.
    Label,
}

/// A piece of the status bar.
pub struct Part {
    pub text: String,
    pub look: Look,
}

/// The pieces as text and look.
pub open spec fn parts_view(v: Seq<Part>) -> Seq<(Seq<char>, Look)> {
    v.map_values(|p: Part| (p.text@, p.look))
}

/// The prompt that takes the whole bar over in `mode`: its badge, its label
/// and the keys that end it.
pub open spec fn prompt_of(mode: Mode) -> Option<(Seq<char>, Seq<char>, Seq<char>)> {
    match mode {
        Mode::Naming => Some((" NAME "@, " save clip as: "@, "   Enter cut · Esc cancel · Ctrl-U clear"@)),
        Mode::Searching => Some(
            (" FIND "@, " find in cues: "@, "   Enter find · Esc cancel · empty clears"@),
        ),
        _ => None,
    }
}

/// The key hints shown in `mode`.
pub open spec fn hint_of(mode: Mode) -> Seq<char> {
    match mode {
        Mode::Editing => " ←/→ move  Ctrl-←/→ word  Home/End  BS/Del  Enter commit  Esc cancel "@,
        Mode::Normal => " Space play  ←/→ seek  i/o mark  x/X cut  j/k cue  / find  s save  ? help  q quit "@,
        _ => Seq::empty(),
    }
}

/// A marker: its clock when set.
pub open spec fn mark_of(label: Seq<char>, m: Option<u64>, look: Look) -> (Seq<char>, Look) {
    match m {
        Some(t) => (" "@ + label + clock_text(t as nat) + " "@, look),
        None => (" "@ + label + "-- "@, Look::Unset),
    }
}

/// The status bar outside a prompt: the mode's badge, the playhead, the
/// speed (marked when it is not normal), both markers, the last message when
/// there is one, and the key hints.
pub open spec fn bar_of(a: App) -> Seq<(Seq<char>, Look)> {
    let badge = match a.mode {
        Mode::Editing => (" EDIT "@, Look::EditBadge),
        Mode::Normal => if a.playing {
            (" ▶ PLAY "@, Look::PlayBadge)
        } else {
            (" ▮▮ PAUSE "@, Look::PauseBadge)
        },
        _ => (" NAME "@, Look::PromptBadge),
    };
    let speed = speed_at(a.speed_idx as int);
    seq![
        badge,
        (" "@ + clock_text(a.playhead as nat) + " "@, Look::Clock),
        (" "@ + speed_text(speed as nat) + " "@, if speed != 100 { Look::SpeedChanged } else { Look::Speed }),
        mark_of("in "@, a.mark_in, Look::InMark),
        mark_of("out "@, a.mark_out, Look::OutMark),
    ] + (if a.status@.len() > 0 {
        seq![(" "@ + a.status@ + " "@, Look::Message)]
    } else {
        Seq::empty()
    }) + seq![(hint_of(a.mode), Look::Hint)]
}

/// A `String` holding `s`.
fn owned(s: &str) -> (r: String)
    ensures
        r@ == s@,
{
    let mut r = String::new();
    push_str(&mut r, s);
    r
}

/// `s` with a blank on either side.
fn spaced(s: &str) -> (r: String)
    ensures
        r@ == " "@ + s@ + " "@,
{
    let mut r = String::new();
    push_char(&mut r, ' ');
    push_str(&mut r, s);
    push_char(&mut r, ' ');
    proof {
        reveal_strlit(" ");
        assert(r@ =~= " "@ + s@ + " "@);
    }
    r
}

/// The prompt that takes the whole bar over in `mode`, if any: badge, label
/// and the keys that end it.
pub fn prompt(mode: Mode) -> (r: Option<(String, String, String)>)
    ensures
        match r {
            Some((b, l, k)) => prompt_of(mode) == Some((b@, l@, k@)),
            None => prompt_of(mode) is None,
        },
{
    match mode {
        Mode::Naming => Some(
            (owned(" NAME "), owned(" save clip as: "), owned("   Enter cut · Esc cancel · Ctrl-U clear")),
        ),
        Mode::Searching => Some(
            (owned(" FIND "), owned(" find in cues: "), owned("   Enter find · Esc cancel · empty clears")),
        ),
        _ => None,
    }
}

/// A marker's piece.
fn mark(label: &str, m: Option<u64>, look: Look) -> (r: Part)
    ensures
        (r.text@, r.look) == mark_of(label@, m, look),
{
    proof {
        reveal_strlit(" ");
    }
    let mut text = String::new();
    push_char(&mut text, ' ');
    push_str(&mut text, label);
    match m {
        Some(t) => {
            let c = fmt_clock(t);
            push_str(&mut text, c.as_str());
            push_char(&mut text, ' ');
            proof {
                assert(text@ =~= " "@ + label@ + clock_text(t as nat) + " "@);
            }
            Part { text, look }
        },
        None => {
            push_str(&mut text, "-- ");
            proof {
                assert(text@ =~= " "@ + label@ + "-- "@);
            }
            Part { text, look: Look::Unset }
        },
    }
}

/// The status bar outside a prompt.
pub fn status_parts(app: &App) -> (r: Vec<Part>)
    ensures
        parts_view(r@) == bar_of(*app),
{
    let badge = match app.mode {
        Mode::Editing => Part { text: owned(" EDIT "), look: Look::EditBadge },
        Mode::Normal => if app.is_playing() {
            Part { text: owned(" ▶ PLAY "), look: Look::PlayBadge }
        } else {
            Part { text: owned(" ▮▮ PAUSE "), look: Look::PauseBadge }
        },
        _ => Part { text: owned(" NAME "), look: Look::PromptBadge },
    };
    let speed = app.speed();
    let clock = fmt_clock(app.playhead);
    let sp = fmt_speed(speed);
    let mut v: Vec<Part> = Vec::new();
    v.push(badge);
    v.push(Part { text: spaced(clock.as_str()), look: Look::Clock });
    v.push(
        Part {
            text: spaced(sp.as_str()),
            look: if speed != 100 {
                Look::SpeedChanged
            } else {
                Look::Speed
            },
        },
    );
    v.push(mark("in ", app.mark_in, Look::InMark));
    v.push(mark("out ", app.mark_out, Look::OutMark));
    if chars_of(app.status.as_str()).len() > 0 {
        v.push(Part { text: spaced(app.status.as_str()), look: Look::Message });
    }
    let hint = match app.mode {
        Mode::Editing => owned(" ←/→ move  Ctrl-←/→ word  Home/End  BS/Del  Enter commit  Esc cancel "),
        Mode::Normal => owned(
            " Space play  ←/→ seek  i/o mark  x/X cut  j/k cue  / find  s save  ? help  q quit ",
        ),
        _ => String::new(),
    };
    v.push(Part { text: hint, look: Look::Hint });
    proof {
        assert(parts_view(v@) =~= bar_of(*app));
    }
    v
}

/// The video pane's title: the frame size, the video codec and the audio
/// codec (or that there is no sound).
pub open spec fn video_title_of(info: MediaInfo) -> Seq<char> {
    " "@ + decimal(info.width as nat) + "×"@ + decimal(info.height as nat) + " "@ + info.video_codec@ + (
    match info.audio_codec {
        Some(a) => " + "@ + a@,
        None => " (no audio)"@,
    }) + " "@
}

/// The video pane's title.
pub fn video_title(info: &MediaInfo) -> (r: String)
    ensures
        r@ == video_title_of(*info),
{
    let mut s = String::new();
    push_char(&mut s, ' ');
    push_padded(&mut s, info.width as u64, 0);
    push_char(&mut s, '×');
    push_padded(&mut s, info.height as u64, 0);
    push_char(&mut s, ' ');
    push_str(&mut s, info.video_codec.as_str());
    match &info.audio_codec {
        Some(a) => {
            push_str(&mut s, " + ");
            push_str(&mut s, a.as_str());
        },
        None => push_str(&mut s, " (no audio)"),
    }
    push_char(&mut s, ' ');
    proof {
        lemma_padded_zero(info.width as nat);
        lemma_padded_zero(info.height as nat);
        reveal_strlit(" ");
        reveal_strlit("×");
        assert(s@ =~= video_title_of(*info));
    }
    s
}

/// A line of the help overlay.
pub enum HelpLine {
    /// An empty line between sections.
    Spacer,
    /// A section's heading.
    Heading(String),
    /// A note under an entry.
    Note(String),
    /// Keys, right-aligned in their column, and what they do.
    Entry { keys: String, desc: String },
}

/// The width of the keys column of the help.
pub const KEY_COL: usize = 8;

/// `s` right-aligned in `w` characters, then two blanks.
pub open spec fn key_column(s: Seq<char>, w: int) -> Seq<char> {
    Seq::new(if s.len() < w { (w - s.len()) as nat } else { 0 }, |i: int| ' ') + s + "  "@
}

/// What a `(keys, desc)` row of the help shows: with no keys, a spacer when
/// there is no text either, a note when the text is indented by two blanks,
/// and a heading otherwise; with keys, an entry.
pub open spec fn help_line_of(keys: Seq<char>, desc: Seq<char>) -> (int, Seq<char>, Seq<char>) {
    if keys.len() == 0 {
        if desc.len() == 0 {
            (0, Seq::empty(), Seq::empty())
        } else if desc.len() >= 2 && desc[0] == ' ' && desc[1] == ' ' {
            (2, Seq::empty(), desc)
        } else {
            (1, Seq::empty(), desc)
        }
    } else {
        (3, key_column(keys, KEY_COL as int), desc)
    }
}

/// A help line as its kind (spacer, heading, note, entry), keys and text.
pub open spec fn help_view(h: HelpLine) -> (int, Seq<char>, Seq<char>) {
    match h {
        HelpLine::Spacer => (0, Seq::empty(), Seq::empty()),
        HelpLine::Heading(d) => (1, Seq::empty(), d@),
        HelpLine::Note(d) => (2, Seq::empty(), d@),
        HelpLine::Entry { keys, desc } => (3, keys@, desc@),
    }
}

/// The help line for the row `(keys, desc)`.
pub fn help_line(keys: &str, desc: &str) -> (r: HelpLine)
    ensures
        help_view(r) == help_line_of(keys@, desc@),
{
    let k = chars_of(keys);
    let d = chars_of(desc);
    if k.len() == 0 {
        if d.len() == 0 {
            HelpLine::Spacer
        } else if d.len() >= 2 && d[0] == ' ' && d[1] == ' ' {
            HelpLine::Note(owned(desc))
        } else {
            HelpLine::Heading(owned(desc))
        }
    } else {
        let mut col = String::new();
        let pad: usize = if k.len() < KEY_COL {
            KEY_COL - k.len()
        } else {
            0
        };
        let mut i: usize = 0;
        while i < pad
            invariant
                i <= pad,
                col@ == Seq::new(i as nat, |j: int| ' '),
            decreases pad - i,
        {
            push_char(&mut col, ' ');
            i += 1;
            proof {
                assert(col@ =~= Seq::new(i as nat, |j: int| ' '));
            }
        }
        push_str(&mut col, keys);
        push_str(&mut col, "  ");
        proof {
            assert(col@ =~= key_column(keys@, KEY_COL as int));
        }
        HelpLine::Entry { keys: col, desc: owned(desc) }
    }
}

} // verus!
