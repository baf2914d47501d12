//! Errors of the Link protocol layer.
use vstd::prelude::*;

use crate::encoding::{DecodeError, EncodeError};

verus! {

#[derive(Debug)]
pub enum Error {
    Encoding(EncodeError),
    Decoding(DecodeError),
}

impl From<DecodeError> for Error {
    fn from(e: DecodeError) -> (r: Error) {
        Error::Decoding(e)
    }
}

impl vstd::std_specs::convert::FromSpecImpl<DecodeError> for Error {
    open spec fn obeys_from_spec() -> bool {
        true
    }

    open spec fn from_spec(e: DecodeError) -> Error {
        Error::Decoding(e)
    }
}

} // verus!
