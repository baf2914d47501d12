//! LinkAudio v1 wire messages: a protocol header, a message header and an
//! already encoded payload.
use vstd::prelude::*;

use crate::bytes::{lemma_u16_roundtrip, u16_be, u16_of_be};
use crate::discovery::messages::bytes_start_with;
use crate::encoding::{array_of, write_bytes, Encode};
use crate::link::node::NodeId;

use super::encoding::{ByteStreamReader, ByteStreamWrite};
use super::error::AudioError;

verus! {

/// To avoid fragmentation a message stays below the network MTU.
pub const MAX_MESSAGE_SIZE: usize = 1200;

pub const HEADER_SIZE: usize = 24;

pub const MAX_PAYLOAD_SIZE: usize = 1176;

/// Peer and channel names are truncated to this many bytes on the wire.
pub const MAX_NAME_SIZE: usize = 256;

pub const PROTOCOL_HEADER_SIZE: usize = 8;

/// Message type (1) + ttl (1) + group id (2) + node id (8).
pub const MESSAGE_HEADER_SIZE: usize = 12;

pub type MessageType = u8;

pub type SessionGroupId = u16;

pub const INVALID: MessageType = 0;

pub const PEER_ANNOUNCEMENT: MessageType = 1;

pub const CHANNEL_BYES: MessageType = 2;

pub const PONG: MessageType = 3;

pub const CHANNEL_REQUEST: MessageType = 4;

pub const STOP_CHANNEL_REQUEST: MessageType = 5;

pub const AUDIO_BUFFER: MessageType = 6;

/// `chnnlsv` followed by the version, 1.
pub open spec fn spec_protocol_header() -> Seq<u8> {
    seq![99u8, 104, 110, 110, 108, 115, 118, 1]
}

/// The protocol header that starts every LinkAudio message.
pub fn protocol_header() -> (h: [u8; 8])
    ensures
        h@ == spec_protocol_header(),
{
    let h: [u8; 8] = [99u8, 104, 110, 110, 108, 115, 118, 1];
    assert(h@ =~= spec_protocol_header());
    h
}

#[derive(Debug, Clone, Copy)]
pub struct MessageHeader {
    pub message_type: MessageType,
    pub ttl: u8,
    pub group_id: SessionGroupId,
    pub ident: NodeId,
}

impl PartialEq for MessageHeader {
    fn eq(&self, other: &Self) -> (r: bool) {
        self.message_type == other.message_type && self.ttl == other.ttl && self.group_id
            == other.group_id && self.ident == other.ident
    }
}

impl vstd::std_specs::cmp::PartialEqSpecImpl for MessageHeader {
    open spec fn obeys_eq_spec() -> bool {
        true
    }

    open spec fn eq_spec(&self, other: &MessageHeader) -> bool {
        *self == *other
    }
}

impl Eq for MessageHeader {
}

impl Default for MessageHeader {
    fn default() -> (h: Self)
        ensures
            h.message_type == 0 && h.ttl == 0 && h.group_id == 0,
    {
        MessageHeader { message_type: 0, ttl: 0, group_id: 0, ident: NodeId::default() }
    }
}

/// The twelve bytes of a message header.
pub open spec fn header_bytes(h: MessageHeader) -> Seq<u8> {
    seq![h.message_type, h.ttl] + u16_be(h.group_id) + h.ident.0@
}

/// The message header held by twelve bytes.
pub open spec fn header_of(b: Seq<u8>) -> MessageHeader {
    MessageHeader {
        message_type: b[0],
        ttl: b[1],
        group_id: u16_of_be(b[2], b[3]),
        ident: NodeId(array_of::<8>(b.subrange(4, 12))),
    }
}

impl MessageHeader {
    pub fn size_in_byte_stream(&self) -> (n: usize)
        ensures
            n == MESSAGE_HEADER_SIZE,
    {
        MESSAGE_HEADER_SIZE
    }

    pub fn encode(&self, out: &mut Vec<u8>)
        ensures
            final(out)@ == old(out)@ + header_bytes(*self),
    {
        out.write_u8(self.message_type);
        out.write_u8(self.ttl);
        out.write_u16(self.group_id);
        write_bytes(out, self.ident.0.as_slice());
        assert(out@ =~= old(out)@ + header_bytes(*self));
    }

    pub fn decode(reader: &mut ByteStreamReader<'_>) -> (r: Result<Self, AudioError>)
        ensures
            final(reader).bytes() == old(reader).bytes(),
            old(reader).unread().len() >= 12 ==> (r matches Ok(h) && h == header_of(
                old(reader).unread(),
            ) && final(reader).pos() == old(reader).pos() + 12),
            old(reader).unread().len() < 12 ==> (r matches Err(e) && e is Range),
    {
        let ghost u = reader.unread();
        let message_type = match reader.read_u8() {
            Ok(v) => v,
            Err(e) => return Err(e),
        };
        let ttl = match reader.read_u8() {
            Ok(v) => v,
            Err(e) => return Err(e),
        };
        let group_id = match reader.read_u16() {
            Ok(v) => v,
            Err(e) => return Err(e),
        };
        let ident = match reader.read_array::<8>() {
            Ok(a) => NodeId(a),
            Err(e) => return Err(e),
        };
        proof {
            assert(u.skip(1).skip(1).skip(2).take(8) =~= u.subrange(4, 12));
            let c = array_of::<8>(u.subrange(4, 12));
            assert(c@ == u.subrange(4, 12));
            assert(c =~= ident.0);
        }
        Ok(MessageHeader { message_type, ttl, group_id, ident })
    }
}

/// The bytes of a LinkAudio message: protocol header, message header, payload.
pub open spec fn message_bytes(h: MessageHeader, payload: Seq<u8>) -> Seq<u8> {
    spec_protocol_header() + header_bytes(h) + payload
}

/// Encodes a complete message from `from`, in group 0. A message larger than
/// `MAX_MESSAGE_SIZE` is refused.
pub fn encode_message(from: NodeId, ttl: u8, message_type: MessageType, payload: &[u8]) -> (r:
    Result<Vec<u8>, AudioError>)
    requires
        payload@.len() + PROTOCOL_HEADER_SIZE + MESSAGE_HEADER_SIZE <= usize::MAX,
    ensures
        PROTOCOL_HEADER_SIZE + MESSAGE_HEADER_SIZE + payload@.len() <= MAX_MESSAGE_SIZE ==> (r matches Ok(
            bytes,
        ) && bytes@ == message_bytes(
            MessageHeader { message_type, ttl, group_id: 0, ident: from },
            payload@,
        )),
        PROTOCOL_HEADER_SIZE + MESSAGE_HEADER_SIZE + payload@.len() > MAX_MESSAGE_SIZE ==> (r matches Err(
            AudioError::MessageTooLarge(size, max),
        ) && size == PROTOCOL_HEADER_SIZE + MESSAGE_HEADER_SIZE + payload@.len() && max
            == MAX_MESSAGE_SIZE),
{
    let header = MessageHeader { message_type, ttl, group_id: 0, ident: from };
    if payload.len() > MAX_MESSAGE_SIZE - PROTOCOL_HEADER_SIZE - MESSAGE_HEADER_SIZE {
        return Err(
            AudioError::MessageTooLarge(
                PROTOCOL_HEADER_SIZE + MESSAGE_HEADER_SIZE + payload.len(),
                MAX_MESSAGE_SIZE,
            ),
        );
    }
    let mut out: Vec<u8> = Vec::new();
    let ph = protocol_header();
    write_bytes(&mut out, ph.as_slice());
    header.encode(&mut out);
    write_bytes(&mut out, payload);
    Ok(out)
}

/// An [`AUDIO_BUFFER`] message, always sent with a ttl of zero.
pub fn audio_buffer_message(from: NodeId, payload: &[u8]) -> (r: Result<Vec<u8>, AudioError>)
    requires
        payload@.len() + PROTOCOL_HEADER_SIZE + MESSAGE_HEADER_SIZE <= usize::MAX,
    ensures
        PROTOCOL_HEADER_SIZE + MESSAGE_HEADER_SIZE + payload@.len() <= MAX_MESSAGE_SIZE ==> (r matches Ok(
            bytes,
        ) && bytes@ == message_bytes(
            MessageHeader { message_type: AUDIO_BUFFER, ttl: 0, group_id: 0, ident: from },
            payload@,
        )),
        PROTOCOL_HEADER_SIZE + MESSAGE_HEADER_SIZE + payload@.len() > MAX_MESSAGE_SIZE ==> (r matches Err(
            AudioError::MessageTooLarge(_, _),
        )),
{
    encode_message(from, 0, AUDIO_BUFFER, payload)
}

/// Parses the protocol and message headers, returning the header and the
/// offset of the first payload byte.
pub fn parse_message_header(data: &[u8]) -> (r: Result<(MessageHeader, usize), AudioError>)
    ensures
        data@.len() < 20 ==> (r matches Err(e) && e is Range),
        data@.len() >= 20 && data@.take(8) != spec_protocol_header() ==> (r matches Err(e)
            && e is Invalid),
        data@.len() >= 20 && data@.take(8) == spec_protocol_header() ==> (r matches Ok((h, n))
            && h == header_of(data@.subrange(8, 20)) && n == 20),
{
    let min_message_size = PROTOCOL_HEADER_SIZE + MESSAGE_HEADER_SIZE;
    if data.len() < min_message_size {
        return Err(AudioError::Range("message shorter than header"));
    }
    let ph = protocol_header();
    if !bytes_start_with(data, ph.as_slice()) {
        return Err(AudioError::Invalid("unexpected protocol header"));
    }
    let header_data = &data[PROTOCOL_HEADER_SIZE..min_message_size];
    let mut reader = ByteStreamReader::new(header_data);
    match MessageHeader::decode(&mut reader) {
        Ok(header) => Ok((header, min_message_size)),
        Err(e) => Err(e),
    }
}

/// A message parses back into its header, with the payload after it.
pub proof fn lemma_message_roundtrip(h: MessageHeader, payload: Seq<u8>)
    ensures
        message_bytes(h, payload).len() >= 20,
        message_bytes(h, payload).take(8) == spec_protocol_header(),
        header_of(message_bytes(h, payload).subrange(8, 20)) == h,
        message_bytes(h, payload).skip(20) == payload,
{
    let m = message_bytes(h, payload);
    assert(m.take(8) =~= spec_protocol_header());
    let b = m.subrange(8, 20);
    assert(b =~= header_bytes(h));
    lemma_u16_roundtrip(h.group_id, 0, 0);
    assert(b.subrange(4, 12) =~= h.ident.0@);
    let c = array_of::<8>(h.ident.0@);
    assert(c@ == h.ident.0@);
    assert(c =~= h.ident.0);
    assert(m.skip(20) =~= payload);
}

} // verus!
