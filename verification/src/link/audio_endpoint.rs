//! The `aep4` payload entry: the IPv4 endpoint on which a node receives
//! audio, if it offers any.
use vstd::prelude::*;

use crate::encoding::{Decode, DecodeError, Encode, Roundtrip};

use super::encoding::PayloadEntryHeader;
use super::error::Error;
use super::measurement::{endpoint_bytes, write_endpoint, Ipv4Endpoint};

verus! {

/// The `aep4` key.
pub const AUDIO_ENDPOINT_V4_HEADER_KEY: u32 = 0x61657034;

/// Size in bytes of the body of an `aep4` entry.
pub const AUDIO_ENDPOINT_V4_SIZE: u32 = 6;

/// The `aep6` key.
pub const AUDIO_ENDPOINT_V6_HEADER_KEY: u32 = 0x61657036;

/// Size in bytes of the body of an `aep6` entry: an IPv6 address and a port.
pub const AUDIO_ENDPOINT_V6_SIZE: u32 = 18;

/// The header of every `aep4` entry.
pub open spec fn spec_audio_endpoint_v4_header() -> PayloadEntryHeader {
    PayloadEntryHeader { key: AUDIO_ENDPOINT_V4_HEADER_KEY, size: AUDIO_ENDPOINT_V4_SIZE }
}

/// The header of every `aep4` entry.
#[verifier::when_used_as_spec(spec_audio_endpoint_v4_header)]
pub fn audio_endpoint_v4_header() -> (h: PayloadEntryHeader)
    ensures
        h == spec_audio_endpoint_v4_header(),
{
    PayloadEntryHeader { key: AUDIO_ENDPOINT_V4_HEADER_KEY, size: AUDIO_ENDPOINT_V4_SIZE }
}

#[derive(Debug, Clone, Copy, PartialEq, Eq, Structural)]
pub struct AudioEndpointV4 {
    pub endpoint: Option<Ipv4Endpoint>,
}

impl Encode for AudioEndpointV4 {
    /// A missing endpoint is written as 0.0.0.0, port 0.
    open spec fn spec_encode(&self) -> Seq<u8> {
        match self.endpoint {
            Some(e) => endpoint_bytes(e),
            None => endpoint_bytes(Ipv4Endpoint::unspecified()),
        }
    }

    fn encode_to(&self, out: &mut Vec<u8>) {
        match self.endpoint {
            Some(e) => write_endpoint(out, e),
            None => write_endpoint(out, Ipv4Endpoint { ip: 0, port: 0 }),
        }
    }

    fn encoded_size(&self) -> (n: usize) {
        6
    }
}

impl Decode for AudioEndpointV4 {
    /// The unspecified address, or port 0, means that no endpoint is offered.
    open spec fn spec_decode(bytes: Seq<u8>) -> Result<(AudioEndpointV4, nat), DecodeError> {
        match <(u32, u16)>::spec_decode(bytes) {
            Ok(((ip, port), n)) => Ok(
                (
                    AudioEndpointV4 {
                        endpoint: if ip == 0 || port == 0 {
                            None
                        } else {
                            Some(Ipv4Endpoint { ip, port })
                        },
                    },
                    n,
                ),
            ),
            Err(e) => Err(e),
        }
    }

    fn decode_from(bytes: &[u8]) -> (r: Result<(AudioEndpointV4, usize), DecodeError>) {
        match <(u32, u16)>::decode_from(bytes) {
            Ok(((ip, port), n)) => {
                let endpoint = if ip == 0 || port == 0 {
                    None
                } else {
                    Some(Ipv4Endpoint { ip, port })
                };
                Ok((AudioEndpointV4 { endpoint }, n))
            },
            Err(e) => Err(e),
        }
    }
}

/// An audio endpoint survives encoding and decoding unless it names the
/// unspecified address or port 0, which read back as no endpoint.
pub proof fn lemma_audio_endpoint_roundtrip(v: AudioEndpointV4, rest: Seq<u8>)
    ensures
        AudioEndpointV4::spec_decode(v.spec_encode() + rest) == Ok::<(AudioEndpointV4, nat), DecodeError>(
            (
                AudioEndpointV4 {
                    endpoint: match v.endpoint {
                        Some(e) => if e.ip == 0 || e.port == 0 {
                            None
                        } else {
                            Some(e)
                        },
                        None => None,
                    },
                },
                6,
            ),
        ),
{
    let e = match v.endpoint {
        Some(e) => e,
        None => Ipv4Endpoint::unspecified(),
    };
    <(u32, u16)>::lemma_roundtrip((e.ip, e.port), rest);
}

impl AudioEndpointV4 {
    /// The `aep4` entry: its header followed by the endpoint.
    pub fn encode(&self) -> (r: Result<Vec<u8>, Error>)
        ensures
            r matches Ok(bytes) && bytes@ == audio_endpoint_v4_header().spec_encode()
                + self.spec_encode(),
    {
        let mut encoded = match audio_endpoint_v4_header().encode() {
            Ok(v) => v,
            Err(e) => return Err(e),
        };
        self.encode_to(&mut encoded);
        Ok(encoded)
    }
}

} // verus!
