//! Control core of a self-learning network bridge: the value types that
//! travel through it with their written and binary forms, the holder of
//! frames that wait for a probe, the event step of the bridge and of the
//! facility that answers it, the replay schedule, the statistics that a run
//! collects, and the making of test data.

pub mod bridge;
pub mod checksum;
pub mod facility;
pub mod generate;
pub mod holder;
pub mod laws;
pub mod model;
pub mod schedule;
pub mod stat;
pub mod text;
pub mod wire;

pub use model::{Address, Frame, FrameData, Segment};
