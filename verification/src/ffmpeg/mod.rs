//! What the editor computes around ffmpeg: frame sizing, the cut modes, and
//! the media facts `ffprobe` reports.

pub mod cut;
pub mod frame;
pub mod playback;
pub mod probe;
