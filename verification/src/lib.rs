//! A cancellable streaming producer: reassembles chunked text-generation
//! responses into whole sentences and controls at most one background
//! worker per task name.

pub mod accumulator;
pub mod decode;
pub mod generator;
pub mod lines;
pub mod playback;
pub mod registry;
pub mod worker;
