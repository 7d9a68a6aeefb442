//! A damage-tracked framebuffer core: a pixel backing store that an external
//! writer fills, a queue of damaged sub-regions with captured snapshots, and
//! the draw step that replays queued snapshots into a presenter's frame.

pub mod buffer;
pub mod geometry;
pub mod laws;
pub mod snapshot;
pub mod world;
