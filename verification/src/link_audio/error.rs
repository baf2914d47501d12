//! Errors of the LinkAudio subsystem.
use vstd::prelude::*;

verus! {

#[derive(Debug)]
pub enum AudioError {
    /// The byte stream ended before a complete value could be parsed, or a
    /// length field described more data than the message contains.
    Range(&'static str),
    /// A message was structurally valid but semantically rejected.
    Invalid(&'static str),
    /// The encoded message exceeded the maximum LinkAudio message size.
    MessageTooLarge(usize, usize),
}

} // verus!
