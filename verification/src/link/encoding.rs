//! The header that precedes every payload entry: a four-character key and the
//! size of the entry's body.
use vstd::prelude::*;

use crate::bytes::{lemma_u32_roundtrip, u32_be, u32_of_be};
use crate::encoding::{decode_from_slice, encode_to_vec, read_u32_be, Decode, DecodeError, Encode, Roundtrip};

use super::error::Error;

verus! {

/// Size in bytes of an encoded [`PayloadEntryHeader`].
pub const PAYLOAD_ENTRY_HEADER_SIZE: usize = 8;

#[derive(Debug, Clone, Copy, PartialEq, Eq, Structural)]
pub struct PayloadEntryHeader {
    pub key: u32,
    pub size: u32,
}

impl Default for PayloadEntryHeader {
    fn default() -> (h: Self)
        ensures
            h.key == 0 && h.size == 0,
    {
        PayloadEntryHeader { key: 0, size: 0 }
    }
}

/// The key of the entry header at the front of `bytes`.
pub open spec fn header_key(bytes: Seq<u8>) -> u32 {
    u32_of_be(bytes[0], bytes[1], bytes[2], bytes[3])
}

/// The body size of the entry header at the front of `bytes`.
pub open spec fn header_size(bytes: Seq<u8>) -> u32 {
    u32_of_be(bytes[4], bytes[5], bytes[6], bytes[7])
}

impl Encode for PayloadEntryHeader {
    open spec fn spec_encode(&self) -> Seq<u8> {
        u32_be(self.key) + u32_be(self.size)
    }

    fn encode_to(&self, out: &mut Vec<u8>) {
        self.key.encode_to(out);
        self.size.encode_to(out);
        assert(out@ =~= old(out)@ + self.spec_encode());
    }

    fn encoded_size(&self) -> (n: usize) {
        8
    }
}

impl Decode for PayloadEntryHeader {
    open spec fn spec_decode(bytes: Seq<u8>) -> Result<(PayloadEntryHeader, nat), DecodeError> {
        if bytes.len() < 8 {
            Err(DecodeError::UnexpectedEnd)
        } else {
            Ok((PayloadEntryHeader { key: header_key(bytes), size: header_size(bytes) }, 8))
        }
    }

    fn decode_from(bytes: &[u8]) -> (r: Result<(PayloadEntryHeader, usize), DecodeError>) {
        if bytes.len() < 8 {
            return Err(DecodeError::UnexpectedEnd);
        }
        Ok((PayloadEntryHeader { key: read_u32_be(bytes, 0), size: read_u32_be(bytes, 4) }, 8))
    }
}

impl Roundtrip for PayloadEntryHeader {
    proof fn lemma_roundtrip(v: PayloadEntryHeader, rest: Seq<u8>) {
        lemma_u32_roundtrip(v.key, 0, 0, 0, 0);
        lemma_u32_roundtrip(v.size, 0, 0, 0, 0);
    }
}

impl PayloadEntryHeader {
    pub fn encode(&self) -> (r: Result<Vec<u8>, Error>)
        ensures
            r matches Ok(bytes) && bytes@ == self.spec_encode(),
    {
        match encode_to_vec(self) {
            Ok(v) => Ok(v),
            Err(e) => Err(Error::Encoding(e)),
        }
    }
}

/// Decodes the entry header at the front of `bytes`, which holds at least one.
pub fn read_entry_header(bytes: &[u8]) -> (h: PayloadEntryHeader)
    requires
        bytes@.len() >= 8,
    ensures
        h.key == header_key(bytes@),
        h.size == header_size(bytes@),
{
    match decode_from_slice::<PayloadEntryHeader>(bytes) {
        Ok((h, _)) => h,
        Err(_) => PayloadEntryHeader { key: 0, size: 0 },
    }
}

} // verus!
