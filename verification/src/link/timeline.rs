//! The `tmln` payload entry: a session's tempo and its beat/time origin.
use vstd::prelude::*;

use crate::encoding::{Decode, DecodeError, Encode, Roundtrip};

use super::beats::Beats;
use super::encoding::PayloadEntryHeader;
use super::error::Error;

verus! {

/// The `tmln` key.
pub const TIMELINE_HEADER_KEY: u32 = 0x746d6c6e;

/// Size in bytes of the body of a `tmln` entry: tempo, beat origin, time origin.
pub const TIMELINE_SIZE: u32 = 24;

/// The header of every `tmln` entry.
pub open spec fn spec_timeline_header() -> PayloadEntryHeader {
    PayloadEntryHeader { key: TIMELINE_HEADER_KEY, size: TIMELINE_SIZE }
}

/// The header of every `tmln` entry.
#[verifier::when_used_as_spec(spec_timeline_header)]
pub fn timeline_header() -> (h: PayloadEntryHeader)
    ensures
        h == spec_timeline_header(),
{
    PayloadEntryHeader { key: TIMELINE_HEADER_KEY, size: TIMELINE_SIZE }
}

/// A timeline as the wire carries it: the tempo as the length of a beat in
/// microseconds, the beat origin, and the time origin in microseconds.
#[derive(PartialEq, Eq, Structural, Clone, Debug, Copy)]
pub struct Timeline {
    pub micros_per_beat: i64,
    pub beat_origin: Beats,
    pub time_origin: i64,
}

impl Default for Timeline {
    fn default() -> (t: Self)
        ensures
            t.micros_per_beat == 0 && t.beat_origin.value == 0 && t.time_origin == 0,
    {
        Timeline { micros_per_beat: 0, beat_origin: Beats { value: 0 }, time_origin: 0 }
    }
}

impl Timeline {
    /// The fields as the tuple that the wire format lays out.
    pub open spec fn parts(self) -> (i64, Beats, i64) {
        (self.micros_per_beat, self.beat_origin, self.time_origin)
    }

    /// The `tmln` entry: its header followed by the timeline.
    pub fn encode(&self) -> (r: Result<Vec<u8>, Error>)
        ensures
            r matches Ok(bytes) && bytes@ == timeline_header().spec_encode() + self.spec_encode(),
    {
        let mut encoded = match timeline_header().encode() {
            Ok(v) => v,
            Err(e) => return Err(e),
        };
        self.encode_to(&mut encoded);
        Ok(encoded)
    }
}

impl Encode for Timeline {
    open spec fn spec_encode(&self) -> Seq<u8> {
        self.parts().spec_encode()
    }

    fn encode_to(&self, out: &mut Vec<u8>) {
        (self.micros_per_beat, self.beat_origin, self.time_origin).encode_to(out);
    }

    fn encoded_size(&self) -> (n: usize) {
        24
    }
}

impl Decode for Timeline {
    open spec fn spec_decode(bytes: Seq<u8>) -> Result<(Timeline, nat), DecodeError> {
        match <(i64, Beats, i64)>::spec_decode(bytes) {
            Ok(((micros_per_beat, beat_origin, time_origin), n)) => Ok(
                (Timeline { micros_per_beat, beat_origin, time_origin }, n),
            ),
            Err(e) => Err(e),
        }
    }

    fn decode_from(bytes: &[u8]) -> (r: Result<(Timeline, usize), DecodeError>) {
        match <(i64, Beats, i64)>::decode_from(bytes) {
            Ok(((micros_per_beat, beat_origin, time_origin), n)) => Ok(
                (Timeline { micros_per_beat, beat_origin, time_origin }, n),
            ),
            Err(e) => Err(e),
        }
    }
}

impl Roundtrip for Timeline {
    proof fn lemma_roundtrip(v: Timeline, rest: Seq<u8>) {
        <(i64, Beats, i64)>::lemma_roundtrip(v.parts(), rest);
    }
}

} // verus!
