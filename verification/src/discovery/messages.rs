//! Discovery messages: a protocol header, a message header, and a payload.
use vstd::prelude::*;

use crate::bytes::{lemma_u16_roundtrip, u16_be, u16_of_be};
use crate::encoding::{array_of, copy_array, write_bytes, Decode, DecodeError, Encode, Roundtrip};
use crate::link::error::Error;
use crate::link::node::NodeId;
use crate::link::payload::{
    decode, entries_bytes, entries_size, lemma_entries_size_is_len, lemma_payload_roundtrip,
    payload_decode, payload_decode_truncated, Payload, PayloadEntry,
};

verus! {

pub const MAX_MESSAGE_SIZE: usize = 512;

pub const PROTOCOL_HEADER_SIZE: usize = 8;

pub type MessageType = u8;

pub type SessionGroupId = u16;

pub type ProtocolHeader = [u8; 8];

pub const INVALID: MessageType = 0;

pub const ALIVE: MessageType = 1;

pub const RESPONSE: MessageType = 2;

pub const BYEBYE: MessageType = 3;

/// Message type, ttl, group id and node id.
pub const MESSAGE_HEADER_SIZE: usize = 12;

/// `_asdp_v` followed by the version, 1.
pub open spec fn spec_protocol_header() -> Seq<u8> {
    seq![95u8, 97, 115, 100, 112, 95, 118, 1]
}

/// The protocol header that starts every discovery message.
pub fn protocol_header() -> (h: ProtocolHeader)
    ensures
        h@ == spec_protocol_header(),
{
    let h: ProtocolHeader = [95u8, 97, 115, 100, 112, 95, 118, 1];
    assert(h@ =~= spec_protocol_header());
    h
}

/// The name of each message type, by its number.
pub fn message_type_name(t: MessageType) -> (s: &'static str)
    requires
        t <= BYEBYE,
    ensures
        t == INVALID ==> s@ == "INVALID"@,
        t == ALIVE ==> s@ == "ALIVE"@,
        t == RESPONSE ==> s@ == "RESPONSE"@,
        t == BYEBYE ==> s@ == "BYEBYE"@,
{
    if t == INVALID {
        "INVALID"
    } else if t == ALIVE {
        "ALIVE"
    } else if t == RESPONSE {
        "RESPONSE"
    } else {
        "BYEBYE"
    }
}

#[derive(Debug, Clone, Copy)]
pub struct MessageHeader {
    pub message_type: MessageType,
    pub ttl: u8,
    pub group_id: SessionGroupId,
    pub ident: NodeId,
}

impl PartialEq for MessageHeader {
    fn eq(&self, other: &Self) -> (r: bool) {
        self.message_type == other.message_type && self.ttl == other.ttl && self.group_id
            == other.group_id && self.ident == other.ident
    }
}

impl vstd::std_specs::cmp::PartialEqSpecImpl for MessageHeader {
    open spec fn obeys_eq_spec() -> bool {
        true
    }

    open spec fn eq_spec(&self, other: &MessageHeader) -> bool {
        *self == *other
    }
}

impl Eq for MessageHeader {
}

impl Default for MessageHeader {
    fn default() -> (h: Self)
        ensures
            h.message_type == 0 && h.ttl == 0 && h.group_id == 0 && h.ident.0@ == seq![
                0u8,
                0,
                0,
                0,
                0,
                0,
                0,
                0,
            ],
    {
        MessageHeader { message_type: 0, ttl: 0, group_id: 0, ident: NodeId::default() }
    }
}

impl MessageHeader {
    /// The fields as the tuple that the wire format lays out.
    pub open spec fn parts(self) -> (u8, u8, u16, NodeId) {
        (self.message_type, self.ttl, self.group_id, self.ident)
    }
}

impl Encode for MessageHeader {
    open spec fn spec_encode(&self) -> Seq<u8> {
        seq![self.message_type, self.ttl] + u16_be(self.group_id) + self.ident.0@
    }

    fn encode_to(&self, out: &mut Vec<u8>) {
        self.message_type.encode_to(out);
        self.ttl.encode_to(out);
        self.group_id.encode_to(out);
        self.ident.encode_to(out);
        assert(out@ =~= old(out)@ + self.spec_encode());
    }

    fn encoded_size(&self) -> (n: usize) {
        12
    }
}

impl Decode for MessageHeader {
    open spec fn spec_decode(bytes: Seq<u8>) -> Result<(MessageHeader, nat), DecodeError> {
        if bytes.len() < 12 {
            Err(DecodeError::UnexpectedEnd)
        } else {
            Ok(
                (
                    MessageHeader {
                        message_type: bytes[0],
                        ttl: bytes[1],
                        group_id: u16_of_be(bytes[2], bytes[3]),
                        ident: NodeId(array_of::<8>(bytes.subrange(4, 12))),
                    },
                    12,
                ),
            )
        }
    }

    fn decode_from(bytes: &[u8]) -> (r: Result<(MessageHeader, usize), DecodeError>) {
        if bytes.len() < 12 {
            return Err(DecodeError::UnexpectedEnd);
        }
        let (group_id, _) = match u16::decode_from(&bytes[2..4]) {
            Ok(x) => x,
            Err(e) => return Err(e),
        };
        let id_bytes = &bytes[4..12];
        let ident = NodeId(copy_array::<8>(id_bytes));
        assert(id_bytes@.take(8) =~= bytes@.subrange(4, 12));
        Ok((MessageHeader { message_type: bytes[0], ttl: bytes[1], group_id, ident }, 12))
    }
}

impl Roundtrip for MessageHeader {
    proof fn lemma_roundtrip(v: MessageHeader, rest: Seq<u8>) {
        let b = v.spec_encode() + rest;
        lemma_u16_roundtrip(v.group_id, 0, 0);
        assert(b.subrange(4, 12) =~= v.ident.0@);
        let c = array_of::<8>(v.ident.0@);
        assert(c@ == v.ident.0@);
        assert(c =~= v.ident.0);
    }
}

/// The bytes of a discovery message: protocol header, message header, payload.
pub open spec fn message_bytes(header: MessageHeader, entries: Seq<PayloadEntry>) -> Seq<u8> {
    spec_protocol_header() + header.spec_encode() + entries_bytes(entries)
}

/// Encodes a message from `from` of type `message_type`. A message must fit
/// in `MAX_MESSAGE_SIZE` bytes.
pub fn encode_message(
    from: NodeId,
    ttl: u8,
    message_type: MessageType,
    payload: &Payload,
    group_id: SessionGroupId,
) -> (r: Result<Vec<u8>, Error>)
    requires
        PROTOCOL_HEADER_SIZE + MESSAGE_HEADER_SIZE + entries_size(payload.entries@) <= MAX_MESSAGE_SIZE,
    ensures
        r matches Ok(bytes) && bytes@ == message_bytes(
            MessageHeader { message_type, ttl, group_id, ident: from },
            payload.entries@,
        ),
{
    let header = MessageHeader { message_type, ttl, group_id, ident: from };
    let size = payload.size();
    let message_size = PROTOCOL_HEADER_SIZE + MESSAGE_HEADER_SIZE + size as usize;
    let mut encoded: Vec<u8> = Vec::new();
    let ph = protocol_header();
    write_bytes(&mut encoded, ph.as_slice());
    header.encode_to(&mut encoded);
    let mut body = match payload.encode() {
        Ok(v) => v,
        Err(e) => return Err(e),
    };
    encoded.append(&mut body);
    Ok(encoded)
}

pub fn alive_message(from: NodeId, ttl: u8, payload: &Payload, group_id: SessionGroupId) -> (r:
    Result<Vec<u8>, Error>)
    requires
        PROTOCOL_HEADER_SIZE + MESSAGE_HEADER_SIZE + entries_size(payload.entries@) <= MAX_MESSAGE_SIZE,
    ensures
        r matches Ok(bytes) && bytes@ == message_bytes(
            MessageHeader { message_type: ALIVE, ttl, group_id, ident: from },
            payload.entries@,
        ),
{
    encode_message(from, ttl, ALIVE, payload, group_id)
}

pub fn response_message(from: NodeId, ttl: u8, payload: &Payload, group_id: SessionGroupId) -> (r:
    Result<Vec<u8>, Error>)
    requires
        PROTOCOL_HEADER_SIZE + MESSAGE_HEADER_SIZE + entries_size(payload.entries@) <= MAX_MESSAGE_SIZE,
    ensures
        r matches Ok(bytes) && bytes@ == message_bytes(
            MessageHeader { message_type: RESPONSE, ttl, group_id, ident: from },
            payload.entries@,
        ),
{
    encode_message(from, ttl, RESPONSE, payload, group_id)
}

/// The message by which a node says goodbye: ttl 0, group 0, no payload.
pub fn byebye_message(from: NodeId) -> (r: Result<Vec<u8>, Error>)
    ensures
        r matches Ok(bytes) && bytes@ == message_bytes(
            MessageHeader { message_type: BYEBYE, ttl: 0, group_id: 0, ident: from },
            seq![],
        ),
{
    let payload = Payload::default();
    assert(entries_size(payload.entries@) == 0);
    encode_message(from, 0, BYEBYE, &payload, 0)
}

/// Whether `data` is long enough for both headers and starts with the
/// protocol header; the parser has no answer for any other data.
pub open spec fn has_message_headers(data: Seq<u8>) -> bool {
    &&& data.len() >= PROTOCOL_HEADER_SIZE + MESSAGE_HEADER_SIZE
    &&& data.take(8) == spec_protocol_header()
}

/// Parses the message header that follows the protocol header, and gives the
/// offset of the payload.
pub fn parse_message_header(data: &[u8]) -> (r: Result<(MessageHeader, usize), Error>)
    requires
        has_message_headers(data@),
    ensures
        r matches Ok((h, n)) && n == PROTOCOL_HEADER_SIZE + MESSAGE_HEADER_SIZE
            && MessageHeader::spec_decode(data@.subrange(8, 20)) == Ok::<(MessageHeader, nat), DecodeError>((h, 12)),
{
    let min_message_size = PROTOCOL_HEADER_SIZE + MESSAGE_HEADER_SIZE;
    match MessageHeader::decode_from(&data[PROTOCOL_HEADER_SIZE..min_message_size]) {
        Ok((header, consumed)) => Ok((header, PROTOCOL_HEADER_SIZE + consumed)),
        Err(e) => Err(Error::Decoding(e)),
    }
}

/// Whether `data` decodes as a payload without error and without running
/// past its end; the payload parser has no answer for any other data.
pub open spec fn is_payload(data: Seq<u8>) -> bool {
    !payload_decode_truncated(data) && payload_decode(data).1 is None
}

/// Decodes a payload.
pub fn parse_payload(data: &[u8]) -> (r: Result<Payload, Error>)
    requires
        is_payload(data@),
    ensures
        r matches Ok(p) && p.entries@ == payload_decode(data@).0,
{
    let mut payload = Payload::default();
    let _ = decode(&mut payload, data);
    assert(payload.entries@ =~= payload_decode(data@).0);
    Ok(payload)
}

/// A message parses back into the header and payload it was encoded from,
/// provided every measurement endpoint in the payload is present.
pub proof fn lemma_message_roundtrip(header: MessageHeader, entries: Seq<PayloadEntry>)
    requires
        forall|i: int| 0 <= i < entries.len() ==> (#[trigger] entries[i]).survives_roundtrip(),
    ensures
        has_message_headers(message_bytes(header, entries)),
        MessageHeader::spec_decode(message_bytes(header, entries).subrange(8, 20)) == Ok::<
            (MessageHeader, nat),
            DecodeError,
        >((header, 12)),
        is_payload(message_bytes(header, entries).skip(20)),
        payload_decode(message_bytes(header, entries).skip(20)).0 == entries,
{
    let m = message_bytes(header, entries);
    let body = entries_bytes(entries);
    assert(m.take(8) =~= spec_protocol_header());
    assert(m.subrange(8, 20) =~= header.spec_encode() + Seq::<u8>::empty());
    MessageHeader::lemma_roundtrip(header, Seq::<u8>::empty());
    assert(m.skip(20) =~= body);
    lemma_payload_roundtrip(entries);
}

/// Whether `data` starts with `prefix`.
pub fn bytes_start_with(data: &[u8], prefix: &[u8]) -> (r: bool)
    ensures
        r == (prefix@.len() <= data@.len() && data@.take(prefix@.len() as int) == prefix@),
{
    if prefix.len() > data.len() {
        return false;
    }
    let r = crate::link::node::bytes_equal(data, prefix, prefix.len());
    assert(prefix@.take(prefix@.len() as int) =~= prefix@);
    r
}

} // verus!
