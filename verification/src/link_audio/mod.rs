//! LinkAudio: peers announce audio channels and stream them to each other.
use vstd::prelude::*;

pub mod encoding;
pub mod error;
pub mod messages;
pub mod network_metrics;
pub mod channels;
pub mod codec;
pub mod engine;
pub mod payload;
pub mod queue;
pub mod receivers;
pub mod sink;

verus! {

} // verus!
