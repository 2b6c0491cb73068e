//! Screen geometry and the row logic of the lists: where each pane goes, which
//! rows of a list are on screen, how the line being edited is drawn with its
//! cursor, and what the caption strip and the timeline show.

pub mod rows;
pub mod status;

use ratatui::layout::{Constraint as RConstraint, Direction, Layout, Rect as RRect};
use vstd::prelude::*;

verus! {

/// A rectangle of terminal cells.
#[derive(Clone, Copy, Debug, PartialEq, Eq, Structural)]
pub struct Rect {
    pub x: u16,
    pub y: u16,
    pub width: u16,
    pub height: u16,
}

/// How much room a pane of a layout asks for.
#[derive(Clone, Copy, Debug, PartialEq, Eq, Structural)]
pub enum Constraint {
    /// At least this many cells.
    Min(u16),
    /// Exactly this many cells.
    Length(u16),
    /// This share of the whole, in percent.
    Percentage(u16),
}

/// The stacked regions of the UI. The list row is split side by side into the
/// subtitle cue list and the chapter list.
#[derive(Clone, Copy, Debug, PartialEq, Eq, Structural)]
pub struct Areas {
    pub video: Rect,
    pub timeline: Rect,
    pub cues: Rect,
    pub chapters: Rect,
    pub status: Rect,
}

/// `r` lies inside `area` and spans it across: when `vertical`, at `area`'s
/// left edge and full width, somewhere between its top and bottom; otherwise
/// at its top and full height, somewhere between its left and right edges.
pub open spec fn inside(r: Rect, area: Rect, vertical: bool) -> bool {
    if vertical {
        &&& r.x == area.x && r.width == area.width
        &&& area.y <= r.y && r.y + r.height <= area.y + area.height
    } else {
        &&& r.y == area.y && r.height == area.height
        &&& area.x <= r.x && r.x + r.width <= area.x + area.width
    }
}

/// Calls `ratatui::layout::Layout::split` with a layout of direction
/// `vertical` and the constraints `cs`. Its source hands back one rectangle
/// per constraint; each is rounded from a solution of its constraint solver
/// in which every edge is required to lie within `area`, and it takes
/// `area`'s position and size across the direction. Where each one goes along
/// the direction is the solver's choice, which can differ from run to run, so
/// nothing more is stated. The source's `expect` is reached only when one of
/// those required constraints cannot be met, and they are always met together
/// (every edge at `area`'s start), so no input is ruled out.
#[verifier::external_body]
fn split(area: Rect, vertical: bool, cs: &Vec<Constraint>) -> (r: Vec<Rect>)
    ensures
        r@.len() == cs@.len(),
        forall|i: int| 0 <= i < r@.len() ==> inside(#[trigger] r@[i], area, vertical),
{
    let dir = if vertical { Direction::Vertical } else { Direction::Horizontal };
    let cs = cs.iter().map(|c| match *c {
        Constraint::Min(n) => RConstraint::Min(n),
        Constraint::Length(n) => RConstraint::Length(n),
        Constraint::Percentage(n) => RConstraint::Percentage(n),
    });
    let area = RRect { x: area.x, y: area.y, width: area.width, height: area.height };
    let parts = Layout::default().direction(dir).constraints(cs).split(area);
    parts.iter().map(|r| Rect { x: r.x, y: r.y, width: r.width, height: r.height }).collect()
}

/// The row the lists share: the full width of `area`, at the height of the
/// cue list.
pub open spec fn list_row(area: Rect, a: Areas) -> Rect {
    Rect { x: area.x, y: a.cues.y, width: area.width, height: a.cues.height }
}

/// `a` is a layout of the screen `area`: the video, the timeline, the row of
/// lists and the status bar each span its width somewhere within its height,
/// and the cue and chapter lists share that row, each somewhere within it.
pub open spec fn areas_fit(area: Rect, a: Areas) -> bool {
    &&& inside(a.video, area, true)
    &&& inside(a.timeline, area, true)
    &&& inside(list_row(area, a), area, true)
    &&& inside(a.cues, list_row(area, a), false)
    &&& inside(a.chapters, list_row(area, a), false)
    &&& inside(a.status, area, true)
}

/// No room at all: every pane empty at the origin.
pub open spec fn no_areas() -> Areas {
    let z = Rect { x: 0, y: 0, width: 0, height: 0 };
    Areas { video: z, timeline: z, cues: z, chapters: z, status: z }
}

/// The panes of the screen `area`: the video takes what the fixed rows leave
/// (at least five), then a timeline of three rows, eight rows of lists (cues
/// 60%, chapters 40%) and a one-row status bar, as `ratatui`'s layout solver
/// places them.
pub fn layout(area: Rect) -> (a: Areas)
    ensures
        areas_fit(area, a),
{
    let mut vc: Vec<Constraint> = Vec::new();
    vc.push(Constraint::Min(5));
    vc.push(Constraint::Length(3));
    vc.push(Constraint::Length(8));
    vc.push(Constraint::Length(1));
    let v = split(area, true, &vc);
    let mut hc: Vec<Constraint> = Vec::new();
    hc.push(Constraint::Percentage(60));
    hc.push(Constraint::Percentage(40));
    let h = split(v[2], false, &hc);
    proof {
        assert(vc@ =~= seq![
            Constraint::Min(5),
            Constraint::Length(3),
            Constraint::Length(8),
            Constraint::Length(1),
        ]);
        assert(hc@ =~= seq![Constraint::Percentage(60), Constraint::Percentage(40)]);
    }
    let a = Areas { video: v[0], timeline: v[1], cues: h[0], chapters: h[1], status: v[3] };
    proof {
        assert(inside(v@[2], area, true));
        assert(list_row(area, a) == v@[2]);
        assert(inside(h@[0], v@[2], false));
        assert(inside(h@[1], v@[2], false));
    }
    a
}

/// `a - b`, or 0.
pub open spec fn sat_sub(a: int, b: int) -> int {
    if a > b {
        a - b
    } else {
        0
    }
}

/// `a + b`, or the largest `u16`.
pub open spec fn sat_add16(a: int, b: int) -> int {
    if a + b > u16::MAX {
        u16::MAX as int
    } else {
        a + b
    }
}

/// Inset by a 1-cell border, saturating so it never underflows.
pub fn inner(rect: Rect) -> (r: Rect)
    ensures
        r.x == sat_add16(rect.x as int, 1),
        r.y == sat_add16(rect.y as int, 1),
        r.width == sat_sub(rect.width as int, 2),
        r.height == sat_sub(rect.height as int, 2),
{
    Rect {
        x: rect.x.saturating_add(1),
        y: rect.y.saturating_add(1),
        width: rect.width.saturating_sub(2),
        height: rect.height.saturating_sub(2),
    }
}

/// A `width`×`height` rectangle centered within `area` (clamped to fit).
pub fn centered(width: u16, height: u16, area: Rect) -> (r: Rect)
    requires
        area.x + area.width <= u16::MAX,
        area.y + area.height <= u16::MAX,
    ensures
        r.width == (if width < area.width { width } else { area.width }),
        r.height == (if height < area.height { height } else { area.height }),
        r.x == area.x + (area.width - r.width) / 2,
        r.y == area.y + (area.height - r.height) / 2,
{
    let w = if width < area.width { width } else { area.width };
    let h = if height < area.height { height } else { area.height };
    Rect { x: area.x + (area.width - w) / 2, y: area.y + (area.height - h) / 2, width: w, height: h }
}

/// Rows of the caption strip at the foot of the video pane.
pub const CAPTION_ROWS: u16 = 3;

/// The video pane's inside split into the picture and, when there are cues to
/// caption, a strip of up to three rows beneath it.
pub open spec fn split_video(area: Rect, has_cues: bool) -> (Rect, Rect) {
    let x = sat_add16(area.x as int, 1);
    let y = sat_add16(area.y as int, 1);
    let w = sat_sub(area.width as int, 2);
    let h = sat_sub(area.height as int, 2);
    let s = if !has_cues {
        0
    } else if h < 3 {
        h
    } else {
        3
    };
    (
        Rect { x: x as u16, y: y as u16, width: w as u16, height: (h - s) as u16 },
        Rect { x: x as u16, y: sat_add16(y, h - s) as u16, width: w as u16, height: s as u16 },
    )
}

/// The picture and the caption strip of the video pane `area`.
pub fn video_split(area: Rect, has_cues: bool) -> (r: (Rect, Rect))
    ensures
        r == split_video(area, has_cues),
{
    let inside = inner(area);
    let s = if !has_cues {
        0
    } else if inside.height < CAPTION_ROWS {
        inside.height
    } else {
        CAPTION_ROWS
    };
    let picture = Rect { x: inside.x, y: inside.y, width: inside.width, height: inside.height - s };
    let strip = Rect {
        x: inside.x,
        y: inside.y.saturating_add(inside.height - s),
        width: inside.width,
        height: s,
    };
    (picture, strip)
}

/// The column of the `width` cells of the timeline at which time `t` falls,
/// rounded to the nearest; column 0 when the duration or width is zero.
pub open spec fn column_of(t: int, duration: int, width: int) -> int {
    if duration <= 0 || width == 0 {
        0
    } else {
        let c = if t < 0 {
            0
        } else if t > duration {
            duration
        } else {
            t
        };
        (2 * c * (width - 1) + duration) / (2 * duration)
    }
}

/// Map a time (ms) to a column index within `width` cells.
pub fn col_for(t: u64, duration: u64, width: usize) -> (c: usize)
    requires
        width <= u16::MAX,
    ensures
        c == column_of(t as int, duration as int, width as int),
        width > 0 ==> c < width,
{
    if duration == 0 || width == 0 {
        return 0;
    }
    let c: u64 = if t > duration { duration } else { t };
    proof {
        assert((c as int) * ((width as int) - 1) <= 18446744073709551615 * 65535) by (nonlinear_arith)
            requires
                0 <= c as int <= 18446744073709551615,
                0 <= (width as int) - 1 <= 65535,
        ;
    }
    let prod: u128 = (c as u128) * ((width - 1) as u128);
    let num: u128 = 2 * prod + duration as u128;
    let den: u128 = 2 * (duration as u128);
    proof {
        assert(2 * c * (width - 1) <= 2 * duration * (width - 1)) by (nonlinear_arith)
            requires
                c <= duration,
                width >= 1,
        ;
        assert(num < den * width) by (nonlinear_arith)
            requires
                num == 2 * (c * (width - 1)) + duration,
                den == 2 * duration,
                2 * c * (width - 1) <= 2 * duration * (width - 1),
                duration > 0,
        ;
        assert(2 * c * (width - 1) == 2 * (c * (width - 1))) by (nonlinear_arith);
        assert(num / den < width) by (nonlinear_arith)
            requires
                num < den * width,
                den > 0,
        ;
    }
    (num / den) as usize
}

/// What a cell of the timeline shows.
#[derive(Clone, Copy, Debug, PartialEq, Eq, Structural)]
pub enum Tick {
    /// The playhead.
    Head,
    /// The IN marker.
    In,
    /// The OUT marker.
    Out,
    /// Inside the marked span.
    Span,
    /// Anywhere else.
    Rail,
}

/// Cell `c` of a timeline: the playhead wins, then the markers, then the span
/// from IN to OUT (or on from IN when there is no OUT).
pub open spec fn tick_at(c: int, head: int, in_col: Option<int>, out_col: Option<int>) -> Tick {
    let in_span = match (in_col, out_col) {
        (Some(i), Some(o)) => i <= c <= o,
        (Some(i), None) => i <= c,
        _ => false,
    };
    if c == head {
        Tick::Head
    } else if in_col == Some(c) {
        Tick::In
    } else if out_col == Some(c) {
        Tick::Out
    } else if in_span {
        Tick::Span
    } else {
        Tick::Rail
    }
}

/// The cells of a timeline `width` cells wide for the playhead and marks (ms)
/// in a video of `duration` ms.
pub fn timeline_ticks(width: usize, playhead: u64, duration: u64, mark_in: Option<u64>, mark_out: Option<u64>) -> (r: Vec<Tick>)
    requires
        width <= u16::MAX,
    ensures
        r@.len() == width,
        forall|c: int|
            0 <= c < width ==> r@[c] == tick_at(
                c,
                column_of(playhead as int, duration as int, width as int),
                match mark_in {
                    Some(t) => Some(column_of(t as int, duration as int, width as int)),
                    None => None,
                },
                match mark_out {
                    Some(t) => Some(column_of(t as int, duration as int, width as int)),
                    None => None,
                },
            ),
{
    let head = col_for(playhead, duration, width);
    let in_col = match mark_in {
        Some(t) => Some(col_for(t, duration, width)),
        None => None,
    };
    let out_col = match mark_out {
        Some(t) => Some(col_for(t, duration, width)),
        None => None,
    };
    let ghost ic = match mark_in {
        Some(t) => Some(column_of(t as int, duration as int, width as int)),
        None => None::<int>,
    };
    let ghost oc = match mark_out {
        Some(t) => Some(column_of(t as int, duration as int, width as int)),
        None => None::<int>,
    };
    let mut r: Vec<Tick> = Vec::new();
    let mut c: usize = 0;
    while c < width
        invariant
            c <= width,
            r@.len() == c,
            head == column_of(playhead as int, duration as int, width as int),
            ic == (match in_col { Some(x) => Some(x as int), None => None::<int> }),
            oc == (match out_col { Some(x) => Some(x as int), None => None::<int> }),
            ic == (match mark_in {
                Some(t) => Some(column_of(t as int, duration as int, width as int)),
                None => None::<int>,
            }),
            oc == (match mark_out {
                Some(t) => Some(column_of(t as int, duration as int, width as int)),
                None => None::<int>,
            }),
            forall|k: int| 0 <= k < c ==> r@[k] == tick_at(k, head as int, ic, oc),
        decreases width - c,
    {
        let in_span = match (in_col, out_col) {
            (Some(i), Some(o)) => i <= c && c <= o,
            (Some(i), None) => i <= c,
            _ => false,
        };
        let is_in = match in_col {
            Some(i) => i == c,
            None => false,
        };
        let is_out = match out_col {
            Some(o) => o == c,
            None => false,
        };
        let t = if c == head {
            Tick::Head
        } else if is_in {
            Tick::In
        } else if is_out {
            Tick::Out
        } else if in_span {
            Tick::Span
        } else {
            Tick::Rail
        };
        r.push(t);
        c += 1;
    }
    r
}

} // verus!
