//! Measurement pings and pongs: a protocol header, a one-byte message type,
//! and a payload.
use vstd::prelude::*;

use crate::encoding::{skip_bytes, write_bytes, Decode, DecodeError, Encode, Roundtrip};

use super::error::Error;
use super::payload::{
    decode, decodes_cleanly, entries_bytes, entries_size, lemma_decoded_entries_size,
    lemma_entries_bytes_push, payload_decode, GhostTime, Payload, PayloadEntry,
};
use super::sessions::{SessionId, SessionMembership};

verus! {

pub const MAX_MESSAGE_SIZE: usize = 512;

pub const PROTOCOL_HEADER_SIZE: usize = 8;

pub type MessageType = u8;

pub type ProtocolHeader = [u8; 8];

pub const PING: MessageType = 1;

pub const PONG: MessageType = 2;

pub const MESSAGE_HEADER_SIZE: usize = 1;

/// The names of the message types, listed from index 0: `PING`, `PONG`.
pub fn message_type_name(index: usize) -> (s: &'static str)
    requires
        index < 2,
    ensures
        index == 0 ==> s@ == "PING"@,
        index == 1 ==> s@ == "PONG"@,
{
    if index == 0 {
        "PING"
    } else {
        "PONG"
    }
}

/// The most payload bytes a ping may carry to be answered.
pub const MAX_PING_PAYLOAD_SIZE: usize = 40;

/// `_link_v` followed by the version, 1.
pub open spec fn spec_protocol_header() -> Seq<u8> {
    seq![95u8, 108, 105, 110, 107, 95, 118, 1]
}

/// The protocol header that starts every measurement message.
pub fn protocol_header() -> (h: ProtocolHeader)
    ensures
        h@ == spec_protocol_header(),
{
    let h: ProtocolHeader = [95u8, 108, 105, 110, 107, 95, 118, 1];
    assert(h@ =~= spec_protocol_header());
    h
}

#[derive(Debug, Clone, Copy, PartialEq, Eq, Structural)]
pub struct MessageHeader {
    pub message_type: MessageType,
}

impl Encode for MessageHeader {
    open spec fn spec_encode(&self) -> Seq<u8> {
        seq![self.message_type]
    }

    fn encode_to(&self, out: &mut Vec<u8>) {
        self.message_type.encode_to(out);
    }

    fn encoded_size(&self) -> (n: usize) {
        1
    }
}

impl Decode for MessageHeader {
    open spec fn spec_decode(bytes: Seq<u8>) -> Result<(MessageHeader, nat), DecodeError> {
        match u8::spec_decode(bytes) {
            Ok((message_type, n)) => Ok((MessageHeader { message_type }, n)),
            Err(e) => Err(e),
        }
    }

    fn decode_from(bytes: &[u8]) -> (r: Result<(MessageHeader, usize), DecodeError>) {
        match u8::decode_from(bytes) {
            Ok((message_type, n)) => Ok((MessageHeader { message_type }, n)),
            Err(e) => Err(e),
        }
    }
}

impl Roundtrip for MessageHeader {
    proof fn lemma_roundtrip(v: MessageHeader, rest: Seq<u8>) {
    }
}

/// The bytes of a measurement message of type `message_type`.
pub open spec fn message_bytes(message_type: MessageType, entries: Seq<PayloadEntry>) -> Seq<u8> {
    spec_protocol_header() + seq![message_type] + entries_bytes(entries)
}

/// Encodes a measurement message. A message must fit in `MAX_MESSAGE_SIZE`
/// bytes.
pub fn encode_message(message_type: MessageType, payload: &Payload) -> (r: Result<Vec<u8>, Error>)
    requires
        PROTOCOL_HEADER_SIZE + MESSAGE_HEADER_SIZE + entries_size(payload.entries@) <= MAX_MESSAGE_SIZE,
    ensures
        r matches Ok(bytes) && bytes@ == message_bytes(message_type, payload.entries@),
{
    let header = MessageHeader { message_type };
    let _size = payload.size();
    let mut encoded: Vec<u8> = Vec::new();
    let ph = protocol_header();
    write_bytes(&mut encoded, ph.as_slice());
    header.encode_to(&mut encoded);
    let mut body = match payload.encode() {
        Ok(v) => v,
        Err(e) => return Err(e),
    };
    encoded.append(&mut body);
    assert(encoded@ =~= message_bytes(message_type, payload.entries@));
    Ok(encoded)
}

/// Whether `data` holds both headers; the parser has no answer for any other
/// data.
pub open spec fn has_message_headers(data: Seq<u8>) -> bool {
    &&& data.len() >= PROTOCOL_HEADER_SIZE + MESSAGE_HEADER_SIZE
    &&& data.take(8) == spec_protocol_header()
}

/// Parses the message type that follows the protocol header, and gives the
/// offset of the payload.
pub fn parse_message_header(data: &[u8]) -> (r: Result<(MessageHeader, usize), Error>)
    requires
        has_message_headers(data@),
    ensures
        r matches Ok((h, n)) && n == PROTOCOL_HEADER_SIZE + MESSAGE_HEADER_SIZE && h.message_type
            == data@[8],
{
    let min_message_size = PROTOCOL_HEADER_SIZE + MESSAGE_HEADER_SIZE;
    match MessageHeader::decode_from(&data[PROTOCOL_HEADER_SIZE..min_message_size]) {
        Ok((header, consumed)) => Ok((header, PROTOCOL_HEADER_SIZE + consumed)),
        Err(e) => Err(Error::Decoding(e)),
    }
}

/// The host-time and previous-ghost-time entries of `es`, in order.
pub open spec fn echoed_entries(es: Seq<PayloadEntry>) -> Seq<PayloadEntry>
    decreases es.len(),
{
    if es.len() == 0 {
        seq![]
    } else {
        let rest = echoed_entries(es.drop_last());
        match es.last() {
            PayloadEntry::HostTime(_) | PayloadEntry::PrevGhostTime(_) => rest.push(es.last()),
            _ => rest,
        }
    }
}

proof fn lemma_echoed_entries_len(es: Seq<PayloadEntry>)
    ensures
        echoed_entries(es).len() <= es.len(),
    decreases es.len(),
{
    if es.len() > 0 {
        lemma_echoed_entries_len(es.drop_last());
    }
}

/// The payload of the pong that answers a ping with payload `ping`: the
/// ping's host times and previous ghost times, then this node's session and
/// its current ghost time.
pub fn pong_payload(ping: &Payload, session_id: SessionId, ghost_time: i64) -> (p: Payload)
    ensures
        p.entries@ == echoed_entries(ping.entries@) + seq![
            PayloadEntry::SessionMembership(SessionMembership { session_id }),
            PayloadEntry::GhostTime(GhostTime { time: ghost_time }),
        ],
{
    let mut entries: Vec<PayloadEntry> = Vec::new();
    let mut i: usize = 0;
    while i < ping.entries.len()
        invariant
            i <= ping.entries@.len(),
            entries@ == echoed_entries(ping.entries@.take(i as int)),
        decreases ping.entries@.len() - i,
    {
        let e = ping.entries[i];
        let ghost prefix = ping.entries@.take(i + 1);
        assert(prefix.drop_last() =~= ping.entries@.take(i as int));
        assert(prefix.last() == e);
        match e {
            PayloadEntry::HostTime(_) | PayloadEntry::PrevGhostTime(_) => entries.push(e),
            _ => {},
        }
        i = i + 1;
    }
    assert(ping.entries@.take(i as int) =~= ping.entries@);
    let ghost echoed = entries@;
    entries.push(PayloadEntry::SessionMembership(SessionMembership { session_id }));
    entries.push(PayloadEntry::GhostTime(GhostTime { time: ghost_time }));
    assert(entries@ =~= echoed + seq![
        PayloadEntry::SessionMembership(SessionMembership { session_id }),
        PayloadEntry::GhostTime(GhostTime { time: ghost_time }),
    ]);
    Payload { entries }
}

/// Echoing entries never takes more bytes than the entries they come from.
proof fn lemma_echoed_entries_size(es: Seq<PayloadEntry>)
    ensures
        0 <= entries_size(echoed_entries(es)) <= entries_size(es),
    decreases es.len(),
{
    if es.len() > 0 {
        let d = es.drop_last();
        lemma_echoed_entries_size(d);
        assert(d.push(es.last()) =~= es);
        lemma_entries_bytes_push(d, es.last());
        lemma_entries_bytes_push(echoed_entries(d), es.last());
    }
}

/// The entries of the pong that answers a ping whose payload holds the
/// entries `ping`.
pub open spec fn pong_entries(ping: Seq<PayloadEntry>, session_id: SessionId, ghost_time: i64) -> Seq<PayloadEntry> {
    echoed_entries(ping) + seq![
        PayloadEntry::SessionMembership(SessionMembership { session_id }),
        PayloadEntry::GhostTime(GhostTime { time: ghost_time }),
    ]
}

/// The pong message that answers the ping message `data`, when this node is
/// in session `session_id` and its ghost time is `ghost_time`: none if the
/// ping's payload is larger than a ping's may be, else a pong that echoes
/// the ping's host times and previous ghost times, then gives the session
/// and the ghost time.
pub fn pong_for_ping(data: &[u8], session_id: SessionId, ghost_time: i64) -> (r: Option<Vec<u8>>)
    requires
        has_message_headers(data@),
        data@.len() - 9 <= MAX_PING_PAYLOAD_SIZE ==> decodes_cleanly(data@.skip(9)),
    ensures
        data@.len() - 9 > MAX_PING_PAYLOAD_SIZE ==> r is None,
        data@.len() - 9 <= MAX_PING_PAYLOAD_SIZE ==> (r matches Some(v) && v@ == message_bytes(
            PONG,
            pong_entries(payload_decode(data@.skip(9)).0, session_id, ghost_time),
        )),
{
    let (_, header_len) = match parse_message_header(data) {
        Ok(h) => h,
        Err(_) => return None,
    };
    let body = skip_bytes(data, header_len);
    if body.len() > MAX_PING_PAYLOAD_SIZE {
        return None;
    }
    let mut ping = Payload { entries: Vec::new() };
    let _ = decode(&mut ping, body);
    assert(ping.entries@ =~= payload_decode(body@).0);
    let pong = pong_payload(&ping, session_id, ghost_time);
    proof {
        lemma_decoded_entries_size(body@);
        lemma_echoed_entries_size(ping.entries@);
        let e = echoed_entries(ping.entries@);
        let m = PayloadEntry::SessionMembership(SessionMembership { session_id });
        let g = PayloadEntry::GhostTime(GhostTime { time: ghost_time });
        assert(pong.entries@ =~= e.push(m).push(g));
        lemma_entries_bytes_push(e, m);
        lemma_entries_bytes_push(e.push(m), g);
    }
    match encode_message(PONG, &pong) {
        Ok(bytes) => Some(bytes),
        Err(_) => None,
    }
}


} // verus!
