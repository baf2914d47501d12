//! Link payloads: a sequence of entries, each a header (key and body size)
//! followed by its body.
use vstd::prelude::*;

use crate::bytes::{i64_be, lemma_u32_roundtrip, u32_be};
use crate::encoding::{skip_bytes, Decode, DecodeError, Encode, Roundtrip};

use super::encoding::{header_key, header_size, read_entry_header, PayloadEntryHeader};
use super::error::Error;
use super::node::NodeState;
use super::measurement::{Ipv4Endpoint, 
    lemma_measurement_endpoint_roundtrip, MeasurementEndpointV4,
    MEASUREMENT_ENDPOINT_V4_HEADER_KEY, MEASUREMENT_ENDPOINT_V4_SIZE,
};
use super::sessions::{SessionMembership, SESSION_MEMBERSHIP_HEADER_KEY, SESSION_MEMBERSHIP_SIZE};
use super::state::{StartStopState, START_STOP_STATE_HEADER_KEY, START_STOP_STATE_SIZE};
use super::timeline::{Timeline, TIMELINE_HEADER_KEY, TIMELINE_SIZE};

verus! {

/// The `__ht` key.
pub const HOST_TIME_HEADER_KEY: u32 = 0x5f5f6874;

pub const HOST_TIME_SIZE: u32 = 8;

/// The `__gt` key.
pub const GHOST_TIME_HEADER_KEY: u32 = 0x5f5f6774;

pub const GHOST_TIME_SIZE: u32 = 8;

/// The `_pgt` key.
pub const PREV_GHOST_TIME_HEADER_KEY: u32 = 0x5f706774;

pub const PREV_GHOST_TIME_SIZE: u32 = 8;

/// A host time in microseconds (`__ht`).
#[derive(Debug, Clone, Copy, PartialEq, Eq, Structural)]
pub struct HostTime {
    pub time: i64,
}

/// A ghost time in microseconds (`__gt`).
#[derive(Debug, Clone, Copy, PartialEq, Eq, Structural)]
pub struct GhostTime {
    pub time: i64,
}

/// The previous ghost time in microseconds (`_pgt`).
#[derive(Debug, Clone, Copy, PartialEq, Eq, Structural)]
pub struct PrevGhostTime {
    pub time: i64,
}

impl Default for HostTime {
    fn default() -> (t: Self)
        ensures
            t.time == 0,
    {
        HostTime { time: 0 }
    }
}

/// The entry made of `header` and the eight bytes of `time`.
fn encode_time_entry(header: PayloadEntryHeader, time: i64) -> (r: Result<Vec<u8>, Error>)
    ensures
        r matches Ok(bytes) && bytes@ == header.spec_encode() + i64_be(time),
{
    let mut encoded = match header.encode() {
        Ok(v) => v,
        Err(e) => return Err(e),
    };
    time.encode_to(&mut encoded);
    Ok(encoded)
}

impl HostTime {
    pub fn new(time: i64) -> (t: Self)
        ensures
            t.time == time,
    {
        HostTime { time }
    }

    pub fn encode(&self) -> (r: Result<Vec<u8>, Error>)
        ensures
            r matches Ok(bytes) && bytes@ == PayloadEntry::HostTime(*self).spec_bytes(),
    {
        encode_time_entry(PayloadEntryHeader { key: HOST_TIME_HEADER_KEY, size: HOST_TIME_SIZE }, self.time)
    }
}

impl GhostTime {
    pub fn new(time: i64) -> (t: Self)
        ensures
            t.time == time,
    {
        GhostTime { time }
    }

    pub fn encode(&self) -> (r: Result<Vec<u8>, Error>)
        ensures
            r matches Ok(bytes) && bytes@ == PayloadEntry::GhostTime(*self).spec_bytes(),
    {
        encode_time_entry(PayloadEntryHeader { key: GHOST_TIME_HEADER_KEY, size: GHOST_TIME_SIZE }, self.time)
    }
}

impl PrevGhostTime {
    pub fn new(time: i64) -> (t: Self)
        ensures
            t.time == time,
    {
        PrevGhostTime { time }
    }

    pub fn encode(&self) -> (r: Result<Vec<u8>, Error>)
        ensures
            r matches Ok(bytes) && bytes@ == PayloadEntry::PrevGhostTime(*self).spec_bytes(),
    {
        encode_time_entry(
            PayloadEntryHeader { key: PREV_GHOST_TIME_HEADER_KEY, size: PREV_GHOST_TIME_SIZE },
            self.time,
        )
    }
}

impl Decode for HostTime {
    open spec fn spec_decode(bytes: Seq<u8>) -> Result<(HostTime, nat), DecodeError> {
        match i64::spec_decode(bytes) {
            Ok((time, n)) => Ok((HostTime { time }, n)),
            Err(e) => Err(e),
        }
    }

    fn decode_from(bytes: &[u8]) -> (r: Result<(HostTime, usize), DecodeError>) {
        match i64::decode_from(bytes) {
            Ok((time, n)) => Ok((HostTime { time }, n)),
            Err(e) => Err(e),
        }
    }
}

impl Decode for GhostTime {
    open spec fn spec_decode(bytes: Seq<u8>) -> Result<(GhostTime, nat), DecodeError> {
        match i64::spec_decode(bytes) {
            Ok((time, n)) => Ok((GhostTime { time }, n)),
            Err(e) => Err(e),
        }
    }

    fn decode_from(bytes: &[u8]) -> (r: Result<(GhostTime, usize), DecodeError>) {
        match i64::decode_from(bytes) {
            Ok((time, n)) => Ok((GhostTime { time }, n)),
            Err(e) => Err(e),
        }
    }
}

impl Decode for PrevGhostTime {
    open spec fn spec_decode(bytes: Seq<u8>) -> Result<(PrevGhostTime, nat), DecodeError> {
        match i64::spec_decode(bytes) {
            Ok((time, n)) => Ok((PrevGhostTime { time }, n)),
            Err(e) => Err(e),
        }
    }

    fn decode_from(bytes: &[u8]) -> (r: Result<(PrevGhostTime, usize), DecodeError>) {
        match i64::decode_from(bytes) {
            Ok((time, n)) => Ok((PrevGhostTime { time }, n)),
            Err(e) => Err(e),
        }
    }
}

#[derive(Debug, Clone, Copy)]
pub enum PayloadEntry {
    HostTime(HostTime),
    GhostTime(GhostTime),
    PrevGhostTime(PrevGhostTime),
    Timeline(Timeline),
    SessionMembership(SessionMembership),
    StartStopState(StartStopState),
    MeasurementEndpointV4(MeasurementEndpointV4),
}

impl PayloadEntry {
    /// The key that introduces this kind of entry.
    pub open spec fn spec_key(self) -> u32 {
        match self {
            PayloadEntry::HostTime(_) => HOST_TIME_HEADER_KEY,
            PayloadEntry::GhostTime(_) => GHOST_TIME_HEADER_KEY,
            PayloadEntry::PrevGhostTime(_) => PREV_GHOST_TIME_HEADER_KEY,
            PayloadEntry::Timeline(_) => TIMELINE_HEADER_KEY,
            PayloadEntry::SessionMembership(_) => SESSION_MEMBERSHIP_HEADER_KEY,
            PayloadEntry::StartStopState(_) => START_STOP_STATE_HEADER_KEY,
            PayloadEntry::MeasurementEndpointV4(_) => MEASUREMENT_ENDPOINT_V4_HEADER_KEY,
        }
    }

    /// The size of the entry's body.
    pub open spec fn spec_size(self) -> u32 {
        match self {
            PayloadEntry::HostTime(_) => HOST_TIME_SIZE,
            PayloadEntry::GhostTime(_) => GHOST_TIME_SIZE,
            PayloadEntry::PrevGhostTime(_) => PREV_GHOST_TIME_SIZE,
            PayloadEntry::Timeline(_) => TIMELINE_SIZE,
            PayloadEntry::SessionMembership(_) => SESSION_MEMBERSHIP_SIZE,
            PayloadEntry::StartStopState(_) => START_STOP_STATE_SIZE,
            PayloadEntry::MeasurementEndpointV4(_) => MEASUREMENT_ENDPOINT_V4_SIZE,
        }
    }

    /// The bytes of the entry's body.
    pub open spec fn spec_body(self) -> Seq<u8> {
        match self {
            PayloadEntry::HostTime(t) => i64_be(t.time),
            PayloadEntry::GhostTime(t) => i64_be(t.time),
            PayloadEntry::PrevGhostTime(t) => i64_be(t.time),
            PayloadEntry::Timeline(t) => t.spec_encode(),
            PayloadEntry::SessionMembership(m) => m.spec_encode(),
            PayloadEntry::StartStopState(s) => s.spec_encode(),
            PayloadEntry::MeasurementEndpointV4(m) => m.spec_encode(),
        }
    }

    /// The bytes of the whole entry: header, then body.
    pub open spec fn spec_bytes(self) -> Seq<u8> {
        PayloadEntryHeader { key: self.spec_key(), size: self.spec_size() }.spec_encode()
            + self.spec_body()
    }

    /// Whether decoding gives this entry back: a measurement endpoint must be
    /// present, since a decoded one always is.
    pub open spec fn survives_roundtrip(self) -> bool {
        match self {
            PayloadEntry::MeasurementEndpointV4(m) => m.endpoint is Some,
            _ => true,
        }
    }

    /// The size of the entry's body.
    pub fn size(&self) -> (n: u32)
        ensures
            n == self.spec_size(),
    {
        match self {
            PayloadEntry::HostTime(_) => HOST_TIME_SIZE,
            PayloadEntry::GhostTime(_) => GHOST_TIME_SIZE,
            PayloadEntry::PrevGhostTime(_) => PREV_GHOST_TIME_SIZE,
            PayloadEntry::Timeline(_) => TIMELINE_SIZE,
            PayloadEntry::SessionMembership(_) => SESSION_MEMBERSHIP_SIZE,
            PayloadEntry::StartStopState(_) => START_STOP_STATE_SIZE,
            PayloadEntry::MeasurementEndpointV4(_) => MEASUREMENT_ENDPOINT_V4_SIZE,
        }
    }

    /// The entry's header followed by its body.
    pub fn encode(&self) -> (r: Result<Vec<u8>, Error>)
        ensures
            r matches Ok(bytes) && bytes@ == self.spec_bytes(),
    {
        match self {
            PayloadEntry::HostTime(host_time) => host_time.encode(),
            PayloadEntry::GhostTime(ghost_time) => ghost_time.encode(),
            PayloadEntry::PrevGhostTime(prev_ghost_time) => prev_ghost_time.encode(),
            PayloadEntry::Timeline(timeline) => timeline.encode(),
            PayloadEntry::SessionMembership(session_membership) => session_membership.encode(),
            PayloadEntry::StartStopState(start_stop_state) => start_stop_state.encode(),
            PayloadEntry::MeasurementEndpointV4(measurement_endpoint_v4) => {
                measurement_endpoint_v4.encode()
            },
        }
    }
}

/// The bytes of every entry of `es`, in order.
pub open spec fn entries_bytes(es: Seq<PayloadEntry>) -> Seq<u8>
    decreases es.len(),
{
    if es.len() == 0 {
        seq![]
    } else {
        es[0].spec_bytes() + entries_bytes(es.skip(1))
    }
}

/// The number of bytes that encode the entries of `es`.
pub open spec fn entries_size(es: Seq<PayloadEntry>) -> int
    decreases es.len(),
{
    if es.len() == 0 {
        0
    } else {
        8 + es[0].spec_size() + entries_size(es.skip(1))
    }
}

/// Appending an entry appends its bytes.
pub proof fn lemma_entries_bytes_push(es: Seq<PayloadEntry>, e: PayloadEntry)
    ensures
        entries_bytes(es.push(e)) == entries_bytes(es) + e.spec_bytes(),
        entries_size(es.push(e)) == entries_size(es) + 8 + e.spec_size(),
    decreases es.len(),
{
    let s = es.push(e);
    if es.len() == 0 {
        assert(s.skip(1) =~= Seq::<PayloadEntry>::empty());
        assert(entries_bytes(s.skip(1)) == Seq::<u8>::empty());
        assert(entries_size(s.skip(1)) == 0);
        assert(s[0] == e);
        assert(entries_bytes(s) =~= e.spec_bytes());
    } else {
        assert(es.push(e).skip(1) =~= es.skip(1).push(e));
        lemma_entries_bytes_push(es.skip(1), e);
        assert(entries_bytes(es.push(e)) =~= entries_bytes(es) + e.spec_bytes());
    }
}

/// The encoded size of the entries is the length of their bytes.
pub proof fn lemma_entries_size_is_len(es: Seq<PayloadEntry>)
    ensures
        entries_bytes(es).len() == entries_size(es),
    decreases es.len(),
{
    if es.len() > 0 {
        lemma_entries_size_is_len(es.skip(1));
    }
}

#[derive(Debug)]
pub struct Payload {
    pub entries: Vec<PayloadEntry>,
}

impl Default for Payload {
    fn default() -> (p: Self)
        ensures
            p.entries@.len() == 0,
    {
        Payload { entries: Vec::new() }
    }
}

impl Payload {
    /// The number of bytes that encode the payload: the length of what
    /// `encode` gives, eight bytes of header per entry plus its body.
    pub fn size(&self) -> (n: u32)
        requires
            entries_size(self.entries@) <= u32::MAX,
        ensures
            n == entries_size(self.entries@),
            n == entries_bytes(self.entries@).len(),
    {
        proof {
            lemma_entries_size_is_len(self.entries@);
        }
        let mut size: u32 = 0;
        let mut i: usize = 0;
        while i < self.entries.len()
            invariant
                i <= self.entries@.len(),
                entries_size(self.entries@) <= u32::MAX,
                size == entries_size(self.entries@.take(i as int)),
            decreases self.entries@.len() - i,
        {
            let e = &self.entries[i];
            proof {
                assert(self.entries@.take(i + 1) =~= self.entries@.take(i as int).push(*e));
                lemma_entries_bytes_push(self.entries@.take(i as int), *e);
                lemma_entries_size_prefix(self.entries@, i + 1);
            }
            size = size + 8 + e.size();
            i = i + 1;
        }
        assert(self.entries@.take(i as int) =~= self.entries@);
        size
    }

    /// The entries, one after the other.
    pub fn encode(&self) -> (r: Result<Vec<u8>, Error>)
        ensures
            r matches Ok(bytes) && bytes@ == entries_bytes(self.entries@),
    {
        let mut encoded: Vec<u8> = Vec::new();
        let mut i: usize = 0;
        while i < self.entries.len()
            invariant
                i <= self.entries@.len(),
                encoded@ == entries_bytes(self.entries@.take(i as int)),
            decreases self.entries@.len() - i,
        {
            let e = &self.entries[i];
            let mut encoded_entry = match e.encode() {
                Ok(v) => v,
                Err(err) => return Err(err),
            };
            encoded.append(&mut encoded_entry);
            proof {
                assert(self.entries@.take(i + 1) =~= self.entries@.take(i as int).push(*e));
                lemma_entries_bytes_push(self.entries@.take(i as int), *e);
            }
            i = i + 1;
        }
        assert(self.entries@.take(i as int) =~= self.entries@);
        Ok(encoded)
    }
}

/// The size of a prefix of the entries is at most the size of all of them.
pub proof fn lemma_entries_size_prefix(es: Seq<PayloadEntry>, n: int)
    requires
        0 <= n <= es.len(),
    ensures
        0 <= entries_size(es.take(n)) <= entries_size(es),
    decreases es.len(),
{
    if n > 0 {
        assert(es.take(n).skip(1) =~= es.skip(1).take(n - 1));
        lemma_entries_size_prefix(es.skip(1), n - 1);
    } else {
        lemma_entries_size_nonneg(es);
    }
}

proof fn lemma_entries_size_nonneg(es: Seq<PayloadEntry>)
    ensures
        entries_size(es) >= 0,
    decreases es.len(),
{
    if es.len() > 0 {
        lemma_entries_size_nonneg(es.skip(1));
    }
}

// ---------------------------------------------------------------------------
// Decoding
// ---------------------------------------------------------------------------

/// The body size of the entries that decoding knows, by key.
pub open spec fn known_body_size(key: u32) -> Option<nat> {
    if key == HOST_TIME_HEADER_KEY {
        Some(HOST_TIME_SIZE as nat)
    } else if key == TIMELINE_HEADER_KEY {
        Some(TIMELINE_SIZE as nat)
    } else if key == SESSION_MEMBERSHIP_HEADER_KEY {
        Some(SESSION_MEMBERSHIP_SIZE as nat)
    } else if key == START_STOP_STATE_HEADER_KEY {
        Some(START_STOP_STATE_SIZE as nat)
    } else if key == MEASUREMENT_ENDPOINT_V4_HEADER_KEY {
        Some(MEASUREMENT_ENDPOINT_V4_SIZE as nat)
    } else if key == GHOST_TIME_HEADER_KEY {
        Some(GHOST_TIME_SIZE as nat)
    } else if key == PREV_GHOST_TIME_HEADER_KEY {
        Some(PREV_GHOST_TIME_SIZE as nat)
    } else {
        None
    }
}

/// The entry that the body of a known key decodes to.
pub open spec fn decode_entry_body(key: u32, body: Seq<u8>) -> Result<PayloadEntry, DecodeError> {
    if key == HOST_TIME_HEADER_KEY {
        match HostTime::spec_decode(body) {
            Ok((v, _)) => Ok(PayloadEntry::HostTime(v)),
            Err(e) => Err(e),
        }
    } else if key == TIMELINE_HEADER_KEY {
        match Timeline::spec_decode(body) {
            Ok((v, _)) => Ok(PayloadEntry::Timeline(v)),
            Err(e) => Err(e),
        }
    } else if key == SESSION_MEMBERSHIP_HEADER_KEY {
        match SessionMembership::spec_decode(body) {
            Ok((v, _)) => Ok(PayloadEntry::SessionMembership(v)),
            Err(e) => Err(e),
        }
    } else if key == START_STOP_STATE_HEADER_KEY {
        match StartStopState::spec_decode(body) {
            Ok((v, _)) => Ok(PayloadEntry::StartStopState(v)),
            Err(e) => Err(e),
        }
    } else if key == MEASUREMENT_ENDPOINT_V4_HEADER_KEY {
        match MeasurementEndpointV4::spec_decode(body) {
            Ok((v, _)) => Ok(PayloadEntry::MeasurementEndpointV4(v)),
            Err(e) => Err(e),
        }
    } else if key == GHOST_TIME_HEADER_KEY {
        match GhostTime::spec_decode(body) {
            Ok((v, _)) => Ok(PayloadEntry::GhostTime(v)),
            Err(e) => Err(e),
        }
    } else {
        match PrevGhostTime::spec_decode(body) {
            Ok((v, _)) => Ok(PayloadEntry::PrevGhostTime(v)),
            Err(e) => Err(e),
        }
    }
}

/// Whether decoding `data` meets a known entry whose body runs past the end
/// of the data. Decoding does not read such an entry: it has no answer for it.
pub open spec fn payload_decode_truncated(data: Seq<u8>) -> bool
    decreases data.len(),
{
    if data.len() < 8 {
        false
    } else {
        let key = header_key(data);
        let size = header_size(data);
        match known_body_size(key) {
            Some(sz) => if data.len() < 8 + sz {
                true
            } else {
                match decode_entry_body(key, data.subrange(8, (8 + sz) as int)) {
                    Err(_) => false,
                    Ok(_) => payload_decode_truncated(data.skip((8 + sz) as int)),
                }
            },
            None => if 8 + size <= data.len() {
                payload_decode_truncated(data.skip((8 + size) as int))
            } else {
                false
            },
        }
    }
}

/// The entries that decoding `data` yields, in order, and the error that
/// stopped it, if one did. Entries with unknown keys are skipped; decoding
/// stops quietly at fewer than eight remaining bytes or at an unknown entry
/// whose body runs past the end.
pub open spec fn payload_decode(data: Seq<u8>) -> (Seq<PayloadEntry>, Option<DecodeError>)
    decreases data.len(),
{
    if data.len() < 8 {
        (seq![], None)
    } else {
        let key = header_key(data);
        let size = header_size(data);
        match known_body_size(key) {
            Some(sz) => if data.len() < 8 + sz {
                (seq![], None)
            } else {
                match decode_entry_body(key, data.subrange(8, (8 + sz) as int)) {
                    Err(e) => (seq![], Some(e)),
                    Ok(entry) => {
                        let (rest, err) = payload_decode(data.skip((8 + sz) as int));
                        (seq![entry] + rest, err)
                    },
                }
            },
            None => if 8 + size <= data.len() {
                payload_decode(data.skip((8 + size) as int))
            } else {
                (seq![], None)
            },
        }
    }
}

/// The body size of a known key.
pub(crate) fn known_entry_size(key: u32) -> (r: Option<u32>)
    ensures
        match known_body_size(key) {
            Some(n) => r == Some(n as u32),
            None => r is None,
        },
{
    if key == HOST_TIME_HEADER_KEY {
        Some(HOST_TIME_SIZE)
    } else if key == TIMELINE_HEADER_KEY {
        Some(TIMELINE_SIZE)
    } else if key == SESSION_MEMBERSHIP_HEADER_KEY {
        Some(SESSION_MEMBERSHIP_SIZE)
    } else if key == START_STOP_STATE_HEADER_KEY {
        Some(START_STOP_STATE_SIZE)
    } else if key == MEASUREMENT_ENDPOINT_V4_HEADER_KEY {
        Some(MEASUREMENT_ENDPOINT_V4_SIZE)
    } else if key == GHOST_TIME_HEADER_KEY {
        Some(GHOST_TIME_SIZE)
    } else if key == PREV_GHOST_TIME_HEADER_KEY {
        Some(PREV_GHOST_TIME_SIZE)
    } else {
        None
    }
}

/// Decodes the body of an entry with a known key.
pub(crate) fn decode_entry(key: u32, body: &[u8]) -> (r: Result<PayloadEntry, DecodeError>)
    requires
        known_body_size(key) is Some,
    ensures
        r == decode_entry_body(key, body@),
{
    if key == HOST_TIME_HEADER_KEY {
        match HostTime::decode_from(body) {
            Ok((v, _)) => Ok(PayloadEntry::HostTime(v)),
            Err(e) => Err(e),
        }
    } else if key == TIMELINE_HEADER_KEY {
        match Timeline::decode_from(body) {
            Ok((v, _)) => Ok(PayloadEntry::Timeline(v)),
            Err(e) => Err(e),
        }
    } else if key == SESSION_MEMBERSHIP_HEADER_KEY {
        match SessionMembership::decode_from(body) {
            Ok((v, _)) => Ok(PayloadEntry::SessionMembership(v)),
            Err(e) => Err(e),
        }
    } else if key == START_STOP_STATE_HEADER_KEY {
        match StartStopState::decode_from(body) {
            Ok((v, _)) => Ok(PayloadEntry::StartStopState(v)),
            Err(e) => Err(e),
        }
    } else if key == MEASUREMENT_ENDPOINT_V4_HEADER_KEY {
        match MeasurementEndpointV4::decode_from(body) {
            Ok((v, _)) => Ok(PayloadEntry::MeasurementEndpointV4(v)),
            Err(e) => Err(e),
        }
    } else if key == GHOST_TIME_HEADER_KEY {
        match GhostTime::decode_from(body) {
            Ok((v, _)) => Ok(PayloadEntry::GhostTime(v)),
            Err(e) => Err(e),
        }
    } else {
        match PrevGhostTime::decode_from(body) {
            Ok((v, _)) => Ok(PayloadEntry::PrevGhostTime(v)),
            Err(e) => Err(e),
        }
    }
}

/// Decodes the entries of `data` and appends them to `payload`. Entries with
/// unknown keys are skipped. When a known entry fails to decode, the entries
/// before it stay appended and its error is returned.
pub fn decode(payload: &mut Payload, data: &[u8]) -> (r: Result<(), Error>)
    requires
        !payload_decode_truncated(data@),
    ensures
        final(payload).entries@ == old(payload).entries@ + payload_decode(data@).0,
        match payload_decode(data@).1 {
            None => r is Ok,
            Some(e) => r matches Err(Error::Decoding(d)) && d == e,
        },
{
    let mut rest: &[u8] = data;
    assert(payload.entries@ =~= payload.entries@ + Seq::<PayloadEntry>::empty());
    loop
        invariant
            !payload_decode_truncated(rest@),
            old(payload).entries@ + payload_decode(data@).0 == payload.entries@ + payload_decode(
                rest@,
            ).0,
            payload_decode(data@).1 == payload_decode(rest@).1,
        decreases rest@.len(),
    {
        if rest.len() < 8 {
            assert(payload.entries@ + payload_decode(rest@).0 =~= payload.entries@);
            return Ok(());
        }
        let header = read_entry_header(rest);
        match known_entry_size(header.key) {
            Some(size) => {
                let decode_len = 8 + size as usize;
                let body = &rest[8..decode_len];
                match decode_entry(header.key, body) {
                    Ok(entry) => {
                        let ghost prev = payload.entries@;
                        payload.entries.push(entry);
                        let next = skip_bytes(rest, decode_len);
                        assert(prev + payload_decode(rest@).0 =~= payload.entries@
                            + payload_decode(next@).0);
                        rest = next;
                    },
                    Err(e) => {
                        assert(payload.entries@ + payload_decode(rest@).0 =~= payload.entries@);
                        return Err(Error::Decoding(e));
                    },
                }
            },
            None => {
                if header.size as usize <= rest.len() - 8 {
                    rest = skip_bytes(rest, 8 + header.size as usize);
                } else {
                    assert(payload.entries@ + payload_decode(rest@).0 =~= payload.entries@);
                    return Ok(());
                }
            },
        }
    }
}

/// Whether decoding `data` reads every known entry whole and without an
/// error.
pub open spec fn decodes_cleanly(data: Seq<u8>) -> bool {
    !payload_decode_truncated(data) && payload_decode(data).1 is None
}

/// Whether decoding `data` reads every known entry whole and without an
/// error: what `decode` needs, and what lets it succeed.
pub fn check_payload(data: &[u8]) -> (r: bool)
    ensures
        r == decodes_cleanly(data@),
{
    let mut rest: &[u8] = data;
    loop
        invariant
            decodes_cleanly(data@) == decodes_cleanly(rest@),
        decreases rest@.len(),
    {
        if rest.len() < 8 {
            return true;
        }
        let header = read_entry_header(rest);
        match known_entry_size(header.key) {
            Some(size) => {
                let decode_len = 8 + size as usize;
                if rest.len() < decode_len {
                    return false;
                }
                let body = &rest[8..decode_len];
                match decode_entry(header.key, body) {
                    Ok(_) => {
                        rest = skip_bytes(rest, decode_len);
                    },
                    Err(_) => {
                        return false;
                    },
                }
            },
            None => {
                if header.size as usize <= rest.len() - 8 {
                    rest = skip_bytes(rest, 8 + header.size as usize);
                } else {
                    return true;
                }
            },
        }
    }
}

/// The entry that a known key's body decodes to has that key's size.
pub proof fn lemma_decoded_entry_size(key: u32, body: Seq<u8>)
    requires
        known_body_size(key) is Some,
        decode_entry_body(key, body) is Ok,
    ensures
        known_body_size(key) == Some(decode_entry_body(key, body)->Ok_0.spec_size() as nat),
{
}

/// The entries decoded from `data` take no more bytes to encode than `data`
/// has.
pub proof fn lemma_decoded_entries_size(data: Seq<u8>)
    ensures
        entries_size(payload_decode(data).0) <= data.len(),
    decreases data.len(),
{
    if data.len() >= 8 {
        let key = header_key(data);
        let size = header_size(data);
        match known_body_size(key) {
            Some(sz) => {
                if data.len() >= 8 + sz {
                    match decode_entry_body(key, data.subrange(8, (8 + sz) as int)) {
                        Ok(entry) => {
                            lemma_decoded_entry_size(key, data.subrange(8, (8 + sz) as int));
                            lemma_decoded_entries_size(data.skip((8 + sz) as int));
                            let rest = payload_decode(data.skip((8 + sz) as int)).0;
                            assert((seq![entry] + rest).skip(1) =~= rest);
                        },
                        Err(_) => {},
                    }
                }
            },
            None => {
                if 8 + size <= data.len() {
                    lemma_decoded_entries_size(data.skip((8 + size) as int));
                }
            },
        }
    }
}

/// Each entry's body decodes back to the entry under its own key.
pub proof fn lemma_entry_roundtrip(e: PayloadEntry)
    requires
        e.survives_roundtrip(),
    ensures
        known_body_size(e.spec_key()) == Some(e.spec_size() as nat),
        e.spec_body().len() == e.spec_size(),
        decode_entry_body(e.spec_key(), e.spec_body()) == Ok::<PayloadEntry, DecodeError>(e),
{
    let empty = Seq::<u8>::empty();
    assert(e.spec_body() + empty =~= e.spec_body());
    match e {
        PayloadEntry::HostTime(t) => i64::lemma_roundtrip(t.time, empty),
        PayloadEntry::GhostTime(t) => i64::lemma_roundtrip(t.time, empty),
        PayloadEntry::PrevGhostTime(t) => i64::lemma_roundtrip(t.time, empty),
        PayloadEntry::Timeline(t) => Timeline::lemma_roundtrip(t, empty),
        PayloadEntry::SessionMembership(m) => SessionMembership::lemma_roundtrip(m, empty),
        PayloadEntry::StartStopState(st) => StartStopState::lemma_roundtrip(st, empty),
        PayloadEntry::MeasurementEndpointV4(m) => lemma_measurement_endpoint_roundtrip(m, empty),
    }
}

/// Decoding what `Payload::encode` writes gives back the same entries, with no
/// error and without running past the end, provided every measurement
/// endpoint is present (a decoded one always is).
#[verifier::spinoff_prover]
#[verifier::rlimit(40)]
pub proof fn lemma_payload_roundtrip(es: Seq<PayloadEntry>)
    requires
        forall|i: int| 0 <= i < es.len() ==> (#[trigger] es[i]).survives_roundtrip(),
    ensures
        payload_decode(entries_bytes(es)) == (es, None::<DecodeError>),
        !payload_decode_truncated(entries_bytes(es)),
    decreases es.len(),
{
    if es.len() == 0 {
        assert(entries_bytes(es) =~= Seq::<u8>::empty());
        assert(es =~= Seq::<PayloadEntry>::empty());
    } else {
        let e = es[0];
        let tail = es.skip(1);
        let data = entries_bytes(es);
        assert(e.survives_roundtrip());
        assert forall|i: int| 0 <= i < tail.len() implies (#[trigger] tail[i]).survives_roundtrip() by {
            assert(tail[i] == es[i + 1]);
        }
        lemma_payload_roundtrip(tail);
        lemma_entry_roundtrip(e);
        lemma_u32_roundtrip(e.spec_key(), 0, 0, 0, 0);
        lemma_u32_roundtrip(e.spec_size(), 0, 0, 0, 0);
        let sz = e.spec_size() as int;
        assert(data == e.spec_bytes() + entries_bytes(tail));
        assert(header_key(data) == e.spec_key());
        assert(header_size(data) == e.spec_size());
        assert(data.subrange(8, 8 + sz) =~= e.spec_body());
        assert(data.skip(8 + sz) =~= entries_bytes(tail));
        assert(seq![e] + tail =~= es);
    }
}

impl Payload {
    /// The entries that announce a node: its timeline, its session and its
    /// start/stop state, in that order.
    pub fn from_node_state(value: NodeState) -> (p: Payload)
        ensures
            p.entries@ == seq![
                PayloadEntry::Timeline(value.timeline),
                PayloadEntry::SessionMembership(SessionMembership { session_id: value.session_id }),
                PayloadEntry::StartStopState(value.start_stop_state),
            ],
    {
        let mut entries = Vec::new();
        entries.push(PayloadEntry::Timeline(value.timeline));
        entries.push(PayloadEntry::SessionMembership(SessionMembership { session_id: value.session_id }));
        entries.push(PayloadEntry::StartStopState(value.start_stop_state));
        assert(entries@ =~= seq![
            PayloadEntry::Timeline(value.timeline),
            PayloadEntry::SessionMembership(SessionMembership { session_id: value.session_id }),
            PayloadEntry::StartStopState(value.start_stop_state),
        ]);
        Payload { entries }
    }

    /// The entries that announce a peer: those of its node state, then its
    /// measurement endpoint.
    pub fn from_peer_state(value: PeerState) -> (p: Payload)
        ensures
            p.entries@ == seq![
                PayloadEntry::Timeline(value.node_state.timeline),
                PayloadEntry::SessionMembership(SessionMembership { session_id: value.node_state.session_id }),
                PayloadEntry::StartStopState(value.node_state.start_stop_state),
                PayloadEntry::MeasurementEndpointV4(MeasurementEndpointV4 { endpoint: value.measurement_endpoint }),
            ],
    {
        let mut payload = Payload::from_node_state(value.node_state);
        payload.entries.push(
            PayloadEntry::MeasurementEndpointV4(MeasurementEndpointV4 { endpoint: value.measurement_endpoint }),
        );
        assert(payload.entries@ =~= seq![
            PayloadEntry::Timeline(value.node_state.timeline),
            PayloadEntry::SessionMembership(SessionMembership { session_id: value.node_state.session_id }),
            PayloadEntry::StartStopState(value.node_state.start_stop_state),
            PayloadEntry::MeasurementEndpointV4(MeasurementEndpointV4 { endpoint: value.measurement_endpoint }),
        ]);
        payload
    }
}

/// A peer as the discovery layer sees it: its node state and the endpoint on
/// which it answers measurement pings.
#[derive(Debug, Clone, Copy)]
pub struct PeerState {
    pub node_state: NodeState,
    pub measurement_endpoint: Option<Ipv4Endpoint>,
}

impl PeerState {
    pub fn ident(&self) -> (id: super::node::NodeId)
        ensures
            id == self.node_state.node_id,
    {
        self.node_state.ident()
    }

    pub fn session_id(&self) -> (id: super::sessions::SessionId)
        ensures
            id == self.node_state.session_id,
    {
        self.node_state.session_id
    }

    pub fn timeline(&self) -> (t: Timeline)
        ensures
            t == self.node_state.timeline,
    {
        self.node_state.timeline
    }

    pub fn start_stop_state(&self) -> (s: StartStopState)
        ensures
            s == self.node_state.start_stop_state,
    {
        self.node_state.start_stop_state
    }
}

} // verus!
