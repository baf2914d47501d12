//! The `mep4` payload entry: the IPv4 endpoint on which a node answers
//! measurement pings.
use vstd::prelude::*;

use crate::bytes::{u16_be, u32_be};
use crate::encoding::{Decode, DecodeError, Encode, Roundtrip};

use super::encoding::PayloadEntryHeader;
use super::error::Error;
use super::node::{is_zero_id, last_session};
use super::payload::{HostTime, Payload, PayloadEntry, PrevGhostTime};
use super::pingresponder::{has_message_headers, parse_message_header, PONG};
use super::sessions::SessionId;
use crate::discovery::messages::{is_payload, parse_payload};
use crate::encoding::skip_bytes;
use super::payload::payload_decode;

verus! {

/// The `mep4` key.
pub const MEASUREMENT_ENDPOINT_V4_HEADER_KEY: u32 = 0x6d657034;

/// Size in bytes of the body of a `mep4` entry: an IPv4 address and a port.
pub const MEASUREMENT_ENDPOINT_V4_SIZE: u32 = 6;

/// The header of every `mep4` entry.
pub open spec fn spec_measurement_endpoint_v4_header() -> PayloadEntryHeader {
    PayloadEntryHeader { key: MEASUREMENT_ENDPOINT_V4_HEADER_KEY, size: MEASUREMENT_ENDPOINT_V4_SIZE }
}

/// The header of every `mep4` entry.
#[verifier::when_used_as_spec(spec_measurement_endpoint_v4_header)]
pub fn measurement_endpoint_v4_header() -> (h: PayloadEntryHeader)
    ensures
        h == spec_measurement_endpoint_v4_header(),
{
    PayloadEntryHeader { key: MEASUREMENT_ENDPOINT_V4_HEADER_KEY, size: MEASUREMENT_ENDPOINT_V4_SIZE }
}

/// An IPv4 socket address: the address as the big-endian number of its four
/// octets (as `u32::from(Ipv4Addr)` gives it), and a port.
#[derive(Debug, Clone, Copy, PartialEq, Eq, Structural)]
pub struct Ipv4Endpoint {
    pub ip: u32,
    pub port: u16,
}

impl Ipv4Endpoint {
    /// The endpoint with address 0.0.0.0 and port 0.
    pub open spec fn unspecified() -> Ipv4Endpoint {
        Ipv4Endpoint { ip: 0, port: 0 }
    }
}

/// The six bytes of an endpoint: the address, then the port, big-endian.
pub open spec fn endpoint_bytes(e: Ipv4Endpoint) -> Seq<u8> {
    u32_be(e.ip) + u16_be(e.port)
}

/// Appends the six bytes of `e` to `out`.
pub fn write_endpoint(out: &mut Vec<u8>, e: Ipv4Endpoint)
    ensures
        final(out)@ == old(out)@ + endpoint_bytes(e),
{
    e.ip.encode_to(out);
    e.port.encode_to(out);
    assert(out@ =~= old(out)@ + endpoint_bytes(e));
}

#[derive(Debug, Clone, Copy, PartialEq, Eq, Structural)]
pub struct MeasurementEndpointV4 {
    pub endpoint: Option<Ipv4Endpoint>,
}

impl Encode for MeasurementEndpointV4 {
    /// A missing endpoint is written as 0.0.0.0, port 0.
    open spec fn spec_encode(&self) -> Seq<u8> {
        match self.endpoint {
            Some(e) => endpoint_bytes(e),
            None => endpoint_bytes(Ipv4Endpoint::unspecified()),
        }
    }

    fn encode_to(&self, out: &mut Vec<u8>) {
        match self.endpoint {
            Some(e) => write_endpoint(out, e),
            None => write_endpoint(out, Ipv4Endpoint { ip: 0, port: 0 }),
        }
    }

    fn encoded_size(&self) -> (n: usize) {
        6
    }
}

impl Decode for MeasurementEndpointV4 {
    /// Whatever the bytes, the decoded endpoint is present.
    open spec fn spec_decode(bytes: Seq<u8>) -> Result<(MeasurementEndpointV4, nat), DecodeError> {
        match <(u32, u16)>::spec_decode(bytes) {
            Ok(((ip, port), n)) => Ok(
                (MeasurementEndpointV4 { endpoint: Some(Ipv4Endpoint { ip, port }) }, n),
            ),
            Err(e) => Err(e),
        }
    }

    fn decode_from(bytes: &[u8]) -> (r: Result<(MeasurementEndpointV4, usize), DecodeError>) {
        match <(u32, u16)>::decode_from(bytes) {
            Ok(((ip, port), n)) => Ok(
                (MeasurementEndpointV4 { endpoint: Some(Ipv4Endpoint { ip, port }) }, n),
            ),
            Err(e) => Err(e),
        }
    }
}

/// A present measurement endpoint survives encoding and decoding.
pub proof fn lemma_measurement_endpoint_roundtrip(v: MeasurementEndpointV4, rest: Seq<u8>)
    requires
        v.endpoint is Some,
    ensures
        MeasurementEndpointV4::spec_decode(v.spec_encode() + rest) == Ok::<
            (MeasurementEndpointV4, nat),
            DecodeError,
        >((v, 6)),
{
    let e = v.endpoint->Some_0;
    <(u32, u16)>::lemma_roundtrip((e.ip, e.port), rest);
}

impl MeasurementEndpointV4 {
    /// The `mep4` entry: its header followed by the endpoint.
    pub fn encode(&self) -> (r: Result<Vec<u8>, Error>)
        ensures
            r matches Ok(bytes) && bytes@ == measurement_endpoint_v4_header().spec_encode()
                + self.spec_encode(),
    {
        let mut encoded = match measurement_endpoint_v4_header().encode() {
            Ok(v) => v,
            Err(e) => return Err(e),
        };
        self.encode_to(&mut encoded);
        Ok(encoded)
    }
}

// ---------------------------------------------------------------------------
// Reading pongs
// ---------------------------------------------------------------------------

/// The number of measurement points after which a measurement is done.
pub const NUMBER_DATA_POINTS: usize = 100;

/// The number of pings sent before a measurement without answer fails.
pub const NUMBER_MEASUREMENTS: usize = 5;

/// What a pong carries: the session of the node that answered, its ghost
/// time, the previous ghost time and the host time of the ping it answers;
/// each the last of its kind, zero (or the zero session) when absent.
#[derive(Debug, Clone, Copy)]
pub struct PongTimes {
    pub session_id: SessionId,
    pub ghost_time: i64,
    pub prev_ghost_time: i64,
    pub prev_host_time: i64,
}

/// The time of the last `__gt` entry of `es`, or zero.
pub open spec fn last_ghost_time(es: Seq<PayloadEntry>) -> i64
    decreases es.len(),
{
    if es.len() == 0 {
        0
    } else {
        match es.last() {
            PayloadEntry::GhostTime(t) => t.time,
            _ => last_ghost_time(es.drop_last()),
        }
    }
}

/// The time of the last `_pgt` entry of `es`, or zero.
pub open spec fn last_prev_ghost_time(es: Seq<PayloadEntry>) -> i64
    decreases es.len(),
{
    if es.len() == 0 {
        0
    } else {
        match es.last() {
            PayloadEntry::PrevGhostTime(t) => t.time,
            _ => last_prev_ghost_time(es.drop_last()),
        }
    }
}

/// The time of the last `__ht` entry of `es`, or zero.
pub open spec fn last_host_time(es: Seq<PayloadEntry>) -> i64
    decreases es.len(),
{
    if es.len() == 0 {
        0
    } else {
        match es.last() {
            PayloadEntry::HostTime(t) => t.time,
            _ => last_host_time(es.drop_last()),
        }
    }
}

/// Reads the times that a pong's payload carries.
pub fn read_pong(payload: &Payload) -> (p: PongTimes)
    ensures
        match last_session(payload.entries@) {
            Some(s) => p.session_id == s,
            None => is_zero_id(p.session_id.0),
        },
        p.ghost_time == last_ghost_time(payload.entries@),
        p.prev_ghost_time == last_prev_ghost_time(payload.entries@),
        p.prev_host_time == last_host_time(payload.entries@),
{
    let mut p = PongTimes {
        session_id: SessionId::default(),
        ghost_time: 0,
        prev_ghost_time: 0,
        prev_host_time: 0,
    };
    let mut i: usize = 0;
    while i < payload.entries.len()
        invariant
            i <= payload.entries@.len(),
            match last_session(payload.entries@.take(i as int)) {
                Some(s) => p.session_id == s,
                None => is_zero_id(p.session_id.0),
            },
            p.ghost_time == last_ghost_time(payload.entries@.take(i as int)),
            p.prev_ghost_time == last_prev_ghost_time(payload.entries@.take(i as int)),
            p.prev_host_time == last_host_time(payload.entries@.take(i as int)),
        decreases payload.entries.len() - i,
    {
        proof {
            assert(payload.entries@.take(i + 1).drop_last() =~= payload.entries@.take(i as int));
        }
        match payload.entries[i] {
            PayloadEntry::SessionMembership(m) => p.session_id = m.session_id,
            PayloadEntry::GhostTime(t) => p.ghost_time = t.time,
            PayloadEntry::PrevGhostTime(t) => p.prev_ghost_time = t.time,
            PayloadEntry::HostTime(t) => p.prev_host_time = t.time,
            _ => {},
        }
        i = i + 1;
    }
    proof {
        assert(payload.entries@.take(payload.entries@.len() as int) =~= payload.entries@);
    }
    p
}

/// The ping that follows a pong, sent at host time `host_time`: the host
/// time, then the pong's previous ghost time.
pub fn ping_after_pong(host_time: i64, pong: &PongTimes) -> (p: Payload)
    ensures
        p.entries@ == seq![
            PayloadEntry::HostTime(HostTime { time: host_time }),
            PayloadEntry::PrevGhostTime(PrevGhostTime { time: pong.prev_ghost_time }),
        ],
{
    let mut entries: Vec<PayloadEntry> = Vec::new();
    entries.push(PayloadEntry::HostTime(HostTime { time: host_time }));
    entries.push(PayloadEntry::PrevGhostTime(PrevGhostTime { time: pong.prev_ghost_time }));
    Payload { entries }
}

/// How many measurement points a pong yields: one when it carries a ghost
/// time and the host time of its ping, and a second when it carries a
/// previous ghost time as well; none otherwise.
pub fn pong_point_count(pong: &PongTimes) -> (n: usize)
    ensures
        n == if pong.ghost_time != 0 && pong.prev_host_time != 0 {
            if pong.prev_ghost_time != 0 {
                2usize
            } else {
                1usize
            }
        } else {
            0usize
        },
{
    if pong.ghost_time != 0 && pong.prev_host_time != 0 {
        if pong.prev_ghost_time != 0 {
            2
        } else {
            1
        }
    } else {
        0
    }
}

/// Whether a measurement with `num_points` points is done.
pub fn measurement_is_done(num_points: usize) -> (done: bool)
    ensures
        done == (num_points > NUMBER_DATA_POINTS),
{
    num_points > NUMBER_DATA_POINTS
}

/// The first ping of a measurement, sent at host time `host_time`, and the
/// ping its timer sends again: the host time alone.
pub fn first_ping(host_time: i64) -> (p: Payload)
    ensures
        p.entries@ == seq![PayloadEntry::HostTime(HostTime { time: host_time })],
{
    let mut entries: Vec<PayloadEntry> = Vec::new();
    entries.push(PayloadEntry::HostTime(HostTime { time: host_time }));
    Payload { entries }
}

/// Whether the measurement timer, when it fires with `measurements_started`
/// pings sent, sends another ping; once `NUMBER_MEASUREMENTS` have gone
/// unanswered it gives up and the measurement fails.
pub fn timer_sends_ping(measurements_started: usize) -> (send: bool)
    ensures
        send == (measurements_started < NUMBER_MEASUREMENTS),
{
    measurements_started < NUMBER_MEASUREMENTS
}

/// Whether the entries `es` of a pong come from the session `own`: their
/// last session entry names it, or, with none, `own` is the zero session.
pub open spec fn pong_session_is(es: Seq<PayloadEntry>, own: SessionId) -> bool {
    match last_session(es) {
        Some(s) => s == own,
        None => is_zero_id(own.0),
    }
}

/// What the measurement listener does with the message `data`, received at
/// host time `host_time` by a node measuring the session `own_session`: a
/// pong of that session yields the ping to answer it with and the times it
/// carries; anything else is ignored.
pub fn on_pong(data: &[u8], own_session: SessionId, host_time: i64) -> (r: Option<(Payload, PongTimes)>)
    requires
        has_message_headers(data@),
        data@[8] == PONG ==> is_payload(data@.skip(9)),
    ensures
        ({
            let es = payload_decode(data@.skip(9)).0;
            &&& r is Some <==> (data@[8] == PONG && pong_session_is(es, own_session))
            &&& r matches Some((ping, t)) ==> {
                &&& t.session_id == own_session
                &&& t.ghost_time == last_ghost_time(es)
                &&& t.prev_ghost_time == last_prev_ghost_time(es)
                &&& t.prev_host_time == last_host_time(es)
                &&& ping.entries@ == seq![
                    PayloadEntry::HostTime(HostTime { time: host_time }),
                    PayloadEntry::PrevGhostTime(PrevGhostTime { time: t.prev_ghost_time }),
                ]
            }
        }),
{
    let (header, header_len) = match parse_message_header(data) {
        Ok(h) => h,
        Err(_) => return None,
    };
    if header.message_type != PONG {
        return None;
    }
    let body = skip_bytes(data, header_len);
    let payload = match parse_payload(body) {
        Ok(p) => p,
        Err(_) => return None,
    };
    let times = read_pong(&payload);
    proof {
        if last_session(payload.entries@) is None && is_zero_id(own_session.0) {
            assert(times.session_id.0.0 =~= own_session.0.0);
        }
    }
    if times.session_id == own_session {
        Some((ping_after_pong(host_time, &times), times))
    } else {
        None
    }
}

} // verus!
