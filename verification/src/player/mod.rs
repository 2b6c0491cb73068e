//! Talking to the terminal: detecting kitty-graphics support and the frames
//! drawn through it.

pub mod image_pane;
pub mod probe;
pub mod shm;
