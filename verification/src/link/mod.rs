//! The Link session protocol: beats, node identities, payload entries and
//! their wire encoding.
use vstd::prelude::*;

pub mod beats;
pub mod clock;
pub mod controller;
pub mod node;
pub mod error;
pub mod encoding;
pub mod sessions;
pub mod state;
pub mod timeline;
pub mod measurement;
pub mod audio_endpoint;
pub mod payload;
pub mod pingresponder;
pub mod triple_buffer;

verus! {

} // verus!
