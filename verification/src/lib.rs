//! The core of a terminal typing trainer: word wrapping by display width,
//! the typing session with its per-character states, the frame that a
//! terminal front end paints, and the figures shown at the end.

pub mod width;
pub mod wrap;
pub mod time;
pub mod session;
pub mod render;
pub mod stats;
