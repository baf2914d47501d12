use vstd::prelude::*;

pub mod bytes;
pub mod encoding;
pub mod discovery;
pub mod link;
pub mod link_audio;
pub mod platform;
pub mod seqs;

verus! {

} // verus!
