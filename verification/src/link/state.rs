//! The `stst` payload entry: whether the session is playing, and since when.
use vstd::prelude::*;

use crate::encoding::{Decode, DecodeError, Encode, Roundtrip};

use super::beats::Beats;
use super::encoding::PayloadEntryHeader;
use super::error::Error;

verus! {

/// The `stst` key.
pub const START_STOP_STATE_HEADER_KEY: u32 = 0x73747374;

/// Size in bytes of the body of a `stst` entry: a bool, beats and a time.
pub const START_STOP_STATE_SIZE: u32 = 17;

/// The header of every `stst` entry.
pub open spec fn spec_start_stop_state_header() -> PayloadEntryHeader {
    PayloadEntryHeader { key: START_STOP_STATE_HEADER_KEY, size: START_STOP_STATE_SIZE }
}

/// The header of every `stst` entry.
#[verifier::when_used_as_spec(spec_start_stop_state_header)]
pub fn start_stop_state_header() -> (h: PayloadEntryHeader)
    ensures
        h == spec_start_stop_state_header(),
{
    PayloadEntryHeader { key: START_STOP_STATE_HEADER_KEY, size: START_STOP_STATE_SIZE }
}

/// Whether a session plays, the beat at which it started or stopped, and the
/// time of that change in microseconds.
#[derive(Debug, Clone, Copy, PartialEq, Eq, Structural)]
pub struct StartStopState {
    pub is_playing: bool,
    pub beats: Beats,
    pub timestamp: i64,
}

impl Default for StartStopState {
    fn default() -> (s: Self)
        ensures
            !s.is_playing && s.beats.value == 0 && s.timestamp == 0,
    {
        StartStopState { is_playing: false, beats: Beats { value: 0 }, timestamp: 0 }
    }
}

impl StartStopState {
    /// The fields as the tuple that the wire format lays out.
    pub open spec fn parts(self) -> (bool, Beats, i64) {
        (self.is_playing, self.beats, self.timestamp)
    }
}

impl Encode for StartStopState {
    open spec fn spec_encode(&self) -> Seq<u8> {
        self.parts().spec_encode()
    }

    fn encode_to(&self, out: &mut Vec<u8>) {
        (self.is_playing, self.beats, self.timestamp).encode_to(out);
    }

    fn encoded_size(&self) -> (n: usize) {
        17
    }
}

impl Decode for StartStopState {
    open spec fn spec_decode(bytes: Seq<u8>) -> Result<(StartStopState, nat), DecodeError> {
        match <(bool, Beats, i64)>::spec_decode(bytes) {
            Ok(((is_playing, beats, timestamp), n)) => Ok(
                (StartStopState { is_playing, beats, timestamp }, n),
            ),
            Err(e) => Err(e),
        }
    }

    fn decode_from(bytes: &[u8]) -> (r: Result<(StartStopState, usize), DecodeError>) {
        match <(bool, Beats, i64)>::decode_from(bytes) {
            Ok(((is_playing, beats, timestamp), n)) => Ok(
                (StartStopState { is_playing, beats, timestamp }, n),
            ),
            Err(e) => Err(e),
        }
    }
}

impl Roundtrip for StartStopState {
    proof fn lemma_roundtrip(v: StartStopState, rest: Seq<u8>) {
        <(bool, Beats, i64)>::lemma_roundtrip(v.parts(), rest);
    }
}

impl StartStopState {
    /// The `stst` entry: its header followed by the state.
    pub fn encode(&self) -> (r: Result<Vec<u8>, Error>)
        ensures
            r matches Ok(bytes) && bytes@ == start_stop_state_header().spec_encode()
                + self.spec_encode(),
    {
        let mut encoded = match start_stop_state_header().encode() {
            Ok(v) => v,
            Err(e) => return Err(e),
        };
        self.encode_to(&mut encoded);
        Ok(encoded)
    }
}

/// The start/stop state as a client sees it: times in microseconds.
#[derive(Debug, Clone, Copy, PartialEq, Eq, Structural)]
pub struct ClientStartStopState {
    pub is_playing: bool,
    pub time: i64,
    pub timestamp: i64,
}

impl Default for ClientStartStopState {
    fn default() -> (s: Self)
        ensures
            !s.is_playing && s.time == 0 && s.timestamp == 0,
    {
        ClientStartStopState { is_playing: false, time: 0, timestamp: 0 }
    }
}

} // verus!
