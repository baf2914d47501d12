//! Node identities.
use vstd::prelude::*;

use crate::encoding::{array_of, copy_array, Decode, DecodeError, Encode, Roundtrip};

use super::payload::{Payload, PayloadEntry};
use super::sessions::SessionId;
use super::state::StartStopState;
use super::timeline::Timeline;

verus! {

pub type NodeIdArray = [u8; 8];

/// The identity of a Link node: eight bytes.
#[derive(Clone, Copy, Debug, Eq, PartialOrd, Ord, Hash)]
pub struct NodeId(pub NodeIdArray);

/// Whether the first `n` bytes of `a` and `b` agree.
pub fn bytes_equal(a: &[u8], b: &[u8], n: usize) -> (r: bool)
    requires
        n <= a@.len(),
        n <= b@.len(),
    ensures
        r == (a@.take(n as int) == b@.take(n as int)),
{
    let mut i: usize = 0;
    while i < n
        invariant
            i <= n,
            n <= a@.len(),
            n <= b@.len(),
            a@.take(i as int) == b@.take(i as int),
        decreases n - i,
    {
        if a[i] != b[i] {
            assert(a@.take(n as int)[i as int] != b@.take(n as int)[i as int]);
            return false;
        }
        assert(a@.take(i + 1) =~= a@.take(i as int).push(a@[i as int]));
        assert(b@.take(i + 1) =~= b@.take(i as int).push(b@[i as int]));
        i = i + 1;
    }
    true
}

impl PartialEq for NodeId {
    fn eq(&self, other: &Self) -> (r: bool) {
        let r = bytes_equal(self.0.as_slice(), other.0.as_slice(), 8);
        proof {
            assert(self.0@.take(8) =~= self.0@);
            assert(other.0@.take(8) =~= other.0@);
            if r {
                assert(self.0 =~= other.0);
            }
        }
        r
    }
}

impl vstd::std_specs::cmp::PartialEqSpecImpl for NodeId {
    open spec fn obeys_eq_spec() -> bool {
        true
    }

    open spec fn eq_spec(&self, other: &NodeId) -> bool {
        *self == *other
    }
}

impl Default for NodeId {
    fn default() -> (id: Self)
        ensures
            id.0@ == seq![0u8, 0, 0, 0, 0, 0, 0, 0],
    {
        let id = NodeId([0u8; 8]);
        assert(id.0@ =~= seq![0u8, 0, 0, 0, 0, 0, 0, 0]);
        id
    }
}

/// The lower-case hexadecimal digit for `n < 16`.
pub open spec fn hex_digit(n: u8) -> char {
    if n < 10 {
        (48 + n) as char
    } else {
        (87 + n) as char
    }
}

/// Two lower-case hexadecimal digits per byte, high nibble first.
pub open spec fn hex_lower(bytes: Seq<u8>) -> Seq<char>
    decreases bytes.len(),
{
    if bytes.len() == 0 {
        seq![]
    } else {
        seq![hex_digit(bytes[0] / 16), hex_digit(bytes[0] % 16)] + hex_lower(bytes.skip(1))
    }
}

/// `hex::encode`: the lower-case hexadecimal form of `bytes`, two digits per
/// byte, high nibble first. The contract restates what hex's source computes
/// (a table lookup per nibble in `HEX_CHARS_LOWER`).
#[verifier::external_body]
fn hex_encode(bytes: &[u8]) -> (s: String)
    ensures
        s@ == hex_lower(bytes@),
{
    hex::encode(bytes)
}

/// One byte drawn by `rand::thread_rng()` from `Uniform::from(low..high)`.
/// The value is random; the contract states only the range, which is what
/// rand's `Uniform` documents for a half-open range. `Uniform::from` panics
/// on an empty range, which `requires` leaves out.
#[verifier::external_body]
fn random_byte_in(low: u8, high: u8) -> (b: u8)
    requires
        low < high,
    ensures
        low <= b < high,
{
    rand::distributions::Distribution::sample(&rand::distributions::Uniform::from(low..high), &mut rand::thread_rng())
}

/// The bytes of a node identity are printable ASCII, `'!'` to `'~'`.
pub const MIN_ID_BYTE: u8 = 33;

/// One past the last byte of a node identity.
pub const MAX_ID_BYTE: u8 = 127;

impl NodeId {
    /// A fresh identity of eight random printable ASCII bytes (`'!'` to `'~'`).
    pub fn new() -> (id: Self)
        ensures
            forall|i: int| 0 <= i < 8 ==> 33 <= #[trigger] id.0@[i] < 127,
    {
        let mut bytes = [0u8; 8];
        let mut i: usize = 0;
        while i < 8
            invariant
                i <= 8,
                forall|j: int| 0 <= j < i ==> MIN_ID_BYTE <= #[trigger] bytes@[j] < MAX_ID_BYTE,
            decreases 8 - i,
        {
            bytes[i] = random_byte_in(MIN_ID_BYTE, MAX_ID_BYTE);
            i = i + 1;
        }
        NodeId(bytes)
    }

    pub fn from_array(rhs: NodeIdArray) -> (id: Self)
        ensures
            id.0 == rhs,
    {
        NodeId(rhs)
    }

    /// The identity in lower-case hexadecimal, as `Display` shows it.
    pub fn to_string(&self) -> (s: String)
        ensures
            s@ == hex_lower(self.0@),
    {
        hex_encode(self.0.as_slice())
    }
}

impl Encode for NodeId {
    open spec fn spec_encode(&self) -> Seq<u8> {
        self.0@
    }

    fn encode_to(&self, out: &mut Vec<u8>) {
        self.0.encode_to(out);
    }

    fn encoded_size(&self) -> (n: usize) {
        8
    }
}

impl Decode for NodeId {
    open spec fn spec_decode(bytes: Seq<u8>) -> Result<(NodeId, nat), DecodeError> {
        if bytes.len() < 8 {
            Err(DecodeError::UnexpectedEnd)
        } else {
            Ok((NodeId(array_of::<8>(bytes.take(8))), 8))
        }
    }

    fn decode_from(bytes: &[u8]) -> (r: Result<(NodeId, usize), DecodeError>) {
        if bytes.len() < 8 {
            return Err(DecodeError::UnexpectedEnd);
        }
        Ok((NodeId(copy_array::<8>(bytes)), 8))
    }
}

impl Roundtrip for NodeId {
    proof fn lemma_roundtrip(v: NodeId, rest: Seq<u8>) {
        <[u8; 8]>::lemma_roundtrip(v.0, rest);
    }
}

/// What a node announces of itself: its identity, its session, the session's
/// timeline and its start/stop state.
#[derive(Debug, Clone, Copy)]
pub struct NodeState {
    pub node_id: NodeId,
    pub session_id: SessionId,
    pub timeline: Timeline,
    pub start_stop_state: StartStopState,
}

/// The timeline of the last `tmln` entry of `es`, if any.
pub open spec fn last_timeline(es: Seq<PayloadEntry>) -> Option<Timeline>
    decreases es.len(),
{
    if es.len() == 0 {
        None
    } else {
        match es.last() {
            PayloadEntry::Timeline(t) => Some(t),
            _ => last_timeline(es.drop_last()),
        }
    }
}

/// The session of the last `sess` entry of `es`, if any.
pub open spec fn last_session(es: Seq<PayloadEntry>) -> Option<SessionId>
    decreases es.len(),
{
    if es.len() == 0 {
        None
    } else {
        match es.last() {
            PayloadEntry::SessionMembership(m) => Some(m.session_id),
            _ => last_session(es.drop_last()),
        }
    }
}

/// The state of the last `stst` entry of `es`, if any.
pub open spec fn last_start_stop_state(es: Seq<PayloadEntry>) -> Option<StartStopState>
    decreases es.len(),
{
    if es.len() == 0 {
        None
    } else {
        match es.last() {
            PayloadEntry::StartStopState(st) => Some(st),
            _ => last_start_stop_state(es.drop_last()),
        }
    }
}

/// Whether `ns` is the state that the entries `es` announce for `node_id`:
/// the last timeline, session and start/stop state among them, each
/// defaulting when they hold none.
pub open spec fn describes(ns: NodeState, node_id: NodeId, es: Seq<PayloadEntry>) -> bool {
    &&& ns.node_id == node_id
    &&& match last_timeline(es) {
        Some(t) => ns.timeline == t,
        None => ns.timeline == (Timeline {
            micros_per_beat: 0,
            beat_origin: super::beats::Beats { value: 0 },
            time_origin: 0,
        }),
    }
    &&& match last_session(es) {
        Some(s) => ns.session_id == s,
        None => is_zero_id(ns.session_id.0),
    }
    &&& match last_start_stop_state(es) {
        Some(st) => ns.start_stop_state == st,
        None => ns.start_stop_state == (StartStopState {
            is_playing: false,
            beats: super::beats::Beats { value: 0 },
            timestamp: 0,
        }),
    }
}

/// Eight zero bytes, the identity that `Default` gives.
pub open spec fn is_zero_id(id: NodeId) -> bool {
    id.0@ == seq![0u8, 0, 0, 0, 0, 0, 0, 0]
}

impl NodeState {
    /// A node with a fresh random identity in `session_id`, with the default
    /// timeline and start/stop state.
    pub fn new(session_id: SessionId) -> (ns: Self)
        ensures
            ns.session_id == session_id,
            forall|i: int| 0 <= i < 8 ==> 33 <= #[trigger] ns.node_id.0@[i] < 127,
            ns.timeline == (Timeline { micros_per_beat: 0, beat_origin: super::beats::Beats { value: 0 }, time_origin: 0 }),
            ns.start_stop_state == (StartStopState { is_playing: false, beats: super::beats::Beats { value: 0 }, timestamp: 0 }),
    {
        NodeState {
            node_id: NodeId::new(),
            session_id,
            timeline: Timeline::default(),
            start_stop_state: StartStopState::default(),
        }
    }

    pub fn ident(&self) -> (id: NodeId)
        ensures
            id == self.node_id,
    {
        self.node_id
    }

    /// The state that a payload announces for `node_id`: the last timeline,
    /// session and start/stop state among its entries, each defaulting when
    /// the payload holds none.
    pub fn from_payload(node_id: NodeId, payload: &Payload) -> (ns: Self)
        ensures
            describes(ns, node_id, payload.entries@),
    {
        let mut node_state = NodeState {
            node_id,
            session_id: SessionId::default(),
            timeline: Timeline::default(),
            start_stop_state: StartStopState::default(),
        };
        let mut i: usize = 0;
        while i < payload.entries.len()
            invariant
                i <= payload.entries@.len(),
                node_state.node_id == node_id,
                match last_timeline(payload.entries@.take(i as int)) {
                    Some(t) => node_state.timeline == t,
                    None => node_state.timeline == (Timeline { micros_per_beat: 0, beat_origin: super::beats::Beats { value: 0 }, time_origin: 0 }),
                },
                match last_session(payload.entries@.take(i as int)) {
                    Some(s) => node_state.session_id == s,
                    None => is_zero_id(node_state.session_id.0),
                },
                match last_start_stop_state(payload.entries@.take(i as int)) {
                    Some(st) => node_state.start_stop_state == st,
                    None => node_state.start_stop_state == (StartStopState { is_playing: false, beats: super::beats::Beats { value: 0 }, timestamp: 0 }),
                },
            decreases payload.entries@.len() - i,
        {
            let ghost prefix = payload.entries@.take(i + 1);
            assert(prefix.drop_last() =~= payload.entries@.take(i as int));
            assert(prefix.last() == payload.entries@[i as int]);
            match &payload.entries[i] {
                PayloadEntry::Timeline(tl) => {
                    node_state.timeline = *tl;
                },
                PayloadEntry::SessionMembership(sm) => {
                    node_state.session_id = sm.session_id;
                },
                PayloadEntry::StartStopState(st) => {
                    node_state.start_stop_state = *st;
                },
                _ => {},
            }
            i = i + 1;
        }
        assert(payload.entries@.take(i as int) =~= payload.entries@);
        node_state
    }
}

} // verus!
