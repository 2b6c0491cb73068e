//! What the event loop decides on each turn: whether to decode a scrub frame
//! now, what to do with the picture after the UI is drawn, and how long to
//! wait for a key.

use vstd::prelude::*;
use crate::app::App;

verus! {

/// A scrub frame is decoded only when nothing is streaming, one is wanted,
/// the terminal shows images, and no key is waiting — so a burst of held-key
/// seeks decodes once, after the last of them.
pub open spec fn decode_now(a: App, streaming: bool, key_waiting: bool) -> bool {
    !streaming && a.needs_frame && a.kitty_ok && !key_waiting
}

/// Whether to decode the scrub frame on this turn.
pub fn should_decode(app: &App, streaming: bool, key_waiting: bool) -> (r: bool)
    ensures
        r == decode_now(*app, streaming, key_waiting),
{
    !streaming && app.needs_frame && app.kitty_ok && !key_waiting
}

/// What becomes of the picture once the UI is drawn.
#[derive(Clone, Copy, Debug, PartialEq, Eq, Structural)]
pub enum Paint {
    /// Take the image down: images draw above text, and the help is up.
    Clear,
    /// Paint the current frame into the picture.
    Present,
    /// Leave the screen as it is: the terminal shows no images.
    Leave,
}

/// What to do with the picture after drawing `a`.
pub open spec fn paint_of(a: App) -> Paint {
    if a.show_help {
        Paint::Clear
    } else if a.kitty_ok {
        Paint::Present
    } else {
        Paint::Leave
    }
}

/// What to do with the picture after drawing.
pub fn paint(app: &App) -> (r: Paint)
    ensures
        r == paint_of(*app),
{
    if app.show_help {
        Paint::Clear
    } else if app.kitty_ok {
        Paint::Present
    } else {
        Paint::Leave
    }
}

/// How long to wait for a key, in ms: briefly while streaming, so frames are
/// shown on time, and longer when idle.
pub fn wait_ms(streaming: bool) -> (r: u64)
    ensures
        r == (if streaming { 8u64 } else { 100u64 }),
{
    if streaming {
        8
    } else {
        100
    }
}

} // verus!
