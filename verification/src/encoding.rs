//! Big-endian fixed-width encoding used by the Link wire protocol.
//!
//! Every encodable value has a byte layout (`spec_encode`), and every
//! decodable type has a decoding function on byte sequences (`spec_decode`)
//! that yields the value and the number of bytes it consumed. Types that are
//! both satisfy the roundtrip law of [`Roundtrip`]: decoding what was encoded,
//! followed by any trailing bytes, gives back the value and its length.
use vstd::prelude::*;

use crate::bytes::{i64_be, i64_of_be, lemma_i64_roundtrip, lemma_u16_roundtrip, lemma_u32_roundtrip, lemma_u64_roundtrip, u16_be, u16_of_be, u32_be, u32_of_be, u64_be, u64_of_be};

verus! {

/// Encoding into a `Vec<u8>` cannot fail: no function of this crate returns
/// this error. It exists so that callers can propagate encoding results with `?`.
#[derive(Debug)]
pub struct EncodeError;

#[derive(Debug, Clone, Copy, PartialEq, Eq)]
pub enum DecodeError {
    UnexpectedEnd,
    InvalidBool(u8),
}

/// A decoding result of an executable decoder agrees with the mathematical one.
pub open spec fn decoded_as<T>(r: Result<(T, usize), DecodeError>, s: Result<(T, nat), DecodeError>) -> bool {
    match (r, s) {
        (Ok((v, n)), Ok((w, m))) => v == w && n as nat == m,
        (Err(e), Err(f)) => e == f,
        _ => false,
    }
}

pub trait Encode {
    /// The bytes that encode `self`.
    spec fn spec_encode(&self) -> Seq<u8>;

    /// Appends the encoding of `self` to `out`.
    fn encode_to(&self, out: &mut Vec<u8>)
        ensures
            final(out)@ == old(out)@ + self.spec_encode(),
    ;

    /// The number of bytes that encode `self`.
    fn encoded_size(&self) -> (n: usize)
        requires
            self.spec_encode().len() <= usize::MAX,
        ensures
            n as int == self.spec_encode().len(),
    ;
}

pub trait Decode: Sized {
    /// Decodes a value from the front of `bytes`, with the number of bytes used.
    spec fn spec_decode(bytes: Seq<u8>) -> Result<(Self, nat), DecodeError>;

    /// Decodes from the front of `bytes`, returning the value and the bytes consumed.
    fn decode_from(bytes: &[u8]) -> (r: Result<(Self, usize), DecodeError>)
        ensures
            decoded_as(r, Self::spec_decode(bytes@)),
            r matches Ok((_, n)) ==> n <= bytes@.len(),
    ;
}

/// Types whose decoding inverts their encoding.
pub trait Roundtrip: Encode + Decode {
    /// Decoding the encoding of `v`, whatever follows it, gives `v` and the
    /// length of its encoding.
    proof fn lemma_roundtrip(v: Self, rest: Seq<u8>)
        ensures
            Self::spec_decode(v.spec_encode() + rest) == Ok::<(Self, nat), DecodeError>(
                (v, v.spec_encode().len()),
            ),
    ;
}

/// Encodes `v` into a fresh vector.
pub fn encode_to_vec<T: Encode>(v: &T) -> (r: Result<Vec<u8>, EncodeError>)
    requires
        v.spec_encode().len() <= usize::MAX,
    ensures
        r matches Ok(buf) && buf@ == v.spec_encode(),
{
    let mut buf = Vec::with_capacity(v.encoded_size());
    v.encode_to(&mut buf);
    assert(buf@ =~= v.spec_encode());
    Ok(buf)
}

/// Decodes a `T` from the front of `bytes`.
pub fn decode_from_slice<T: Decode>(bytes: &[u8]) -> (r: Result<(T, usize), DecodeError>)
    ensures
        decoded_as(r, T::spec_decode(bytes@)),
        r matches Ok((_, n)) ==> n <= bytes@.len(),
{
    T::decode_from(bytes)
}

// ---------------------------------------------------------------------------
// Primitive types
// ---------------------------------------------------------------------------

impl Encode for u8 {
    open spec fn spec_encode(&self) -> Seq<u8> {
        seq![*self]
    }

    fn encode_to(&self, out: &mut Vec<u8>) {
        out.push(*self);
        assert(out@ =~= old(out)@ + self.spec_encode());
    }

    fn encoded_size(&self) -> (n: usize) {
        1
    }
}

impl Decode for u8 {
    open spec fn spec_decode(bytes: Seq<u8>) -> Result<(u8, nat), DecodeError> {
        if bytes.len() < 1 {
            Err(DecodeError::UnexpectedEnd)
        } else {
            Ok((bytes[0], 1))
        }
    }

    fn decode_from(bytes: &[u8]) -> (r: Result<(u8, usize), DecodeError>) {
        if bytes.len() < 1 {
            return Err(DecodeError::UnexpectedEnd);
        }
        Ok((bytes[0], 1))
    }
}

impl Roundtrip for u8 {
    proof fn lemma_roundtrip(v: u8, rest: Seq<u8>) {
    }
}

impl Encode for u16 {
    open spec fn spec_encode(&self) -> Seq<u8> {
        u16_be(*self)
    }

    fn encode_to(&self, out: &mut Vec<u8>) {
        let v = *self;
        out.push((v >> 8u16) as u8);
        out.push(v as u8);
        assert(out@ =~= old(out)@ + u16_be(v));
        assert(out@ == old(out)@ + self.spec_encode());
    }

    fn encoded_size(&self) -> (n: usize) {
        2
    }
}

impl Decode for u16 {
    open spec fn spec_decode(bytes: Seq<u8>) -> Result<(u16, nat), DecodeError> {
        if bytes.len() < 2 {
            Err(DecodeError::UnexpectedEnd)
        } else {
            Ok((u16_of_be(bytes[0], bytes[1]), 2))
        }
    }

    fn decode_from(bytes: &[u8]) -> (r: Result<(u16, usize), DecodeError>) {
        if bytes.len() < 2 {
            return Err(DecodeError::UnexpectedEnd);
        }
        Ok((((bytes[0] as u16) << 8u16) | (bytes[1] as u16), 2))
    }
}

impl Roundtrip for u16 {
    proof fn lemma_roundtrip(v: u16, rest: Seq<u8>) {
        lemma_u16_roundtrip(v, 0, 0);
    }
}

impl Encode for u32 {
    open spec fn spec_encode(&self) -> Seq<u8> {
        u32_be(*self)
    }

    fn encode_to(&self, out: &mut Vec<u8>) {
        let v = *self;
        out.push((v >> 24u32) as u8);
        out.push((v >> 16u32) as u8);
        out.push((v >> 8u32) as u8);
        out.push(v as u8);
        assert(out@ =~= old(out)@ + u32_be(v));
        assert(out@ == old(out)@ + self.spec_encode());
    }

    fn encoded_size(&self) -> (n: usize) {
        4
    }
}

impl Decode for u32 {
    open spec fn spec_decode(bytes: Seq<u8>) -> Result<(u32, nat), DecodeError> {
        if bytes.len() < 4 {
            Err(DecodeError::UnexpectedEnd)
        } else {
            Ok((u32_of_be(bytes[0], bytes[1], bytes[2], bytes[3]), 4))
        }
    }

    fn decode_from(bytes: &[u8]) -> (r: Result<(u32, usize), DecodeError>) {
        if bytes.len() < 4 {
            return Err(DecodeError::UnexpectedEnd);
        }
        Ok((read_u32_be(bytes, 0), 4))
    }
}

impl Roundtrip for u32 {
    proof fn lemma_roundtrip(v: u32, rest: Seq<u8>) {
        lemma_u32_roundtrip(v, 0, 0, 0, 0);
    }
}

/// The big-endian `u32` at `pos` in `bytes`.
pub fn read_u32_be(bytes: &[u8], pos: usize) -> (v: u32)
    requires
        pos + 4 <= bytes@.len(),
    ensures
        v == u32_of_be(bytes@[pos as int], bytes@[pos + 1], bytes@[pos + 2], bytes@[pos + 3]),
{
    ((bytes[pos] as u32) << 24u32) | ((bytes[pos + 1] as u32) << 16u32) | ((bytes[pos
        + 2] as u32) << 8u32) | (bytes[pos + 3] as u32)
}

/// The big-endian `u64` at `pos` in `bytes`.
pub fn read_u64_be(bytes: &[u8], pos: usize) -> (v: u64)
    requires
        pos + 8 <= bytes@.len(),
    ensures
        v == u64_of_be(bytes@.subrange(pos as int, pos + 8)),
{
    let ghost b = bytes@.subrange(pos as int, pos + 8);
    assert(b[0] == bytes@[pos as int] && b[1] == bytes@[pos + 1] && b[2] == bytes@[pos + 2]
        && b[3] == bytes@[pos + 3] && b[4] == bytes@[pos + 4] && b[5] == bytes@[pos + 5]
        && b[6] == bytes@[pos + 6] && b[7] == bytes@[pos + 7]);
    ((bytes[pos] as u64) << 56u64) | ((bytes[pos + 1] as u64) << 48u64) | ((bytes[pos
        + 2] as u64) << 40u64) | ((bytes[pos + 3] as u64) << 32u64) | ((bytes[pos + 4] as u64)
        << 24u64) | ((bytes[pos + 5] as u64) << 16u64) | ((bytes[pos + 6] as u64) << 8u64) | (
    bytes[pos + 7] as u64)
}

/// Appends the eight big-endian bytes of `v` to `out`.
pub fn write_u64_be(out: &mut Vec<u8>, v: u64)
    ensures
        final(out)@ == old(out)@ + u64_be(v),
{
    out.push((v >> 56u64) as u8);
    out.push((v >> 48u64) as u8);
    out.push((v >> 40u64) as u8);
    out.push((v >> 32u64) as u8);
    out.push((v >> 24u64) as u8);
    out.push((v >> 16u64) as u8);
    out.push((v >> 8u64) as u8);
    out.push(v as u8);
    assert(out@ =~= old(out)@ + u64_be(v));
}

impl Encode for u64 {
    open spec fn spec_encode(&self) -> Seq<u8> {
        u64_be(*self)
    }

    fn encode_to(&self, out: &mut Vec<u8>) {
        let v = *self;
        write_u64_be(out, v);
        assert(out@ == old(out)@ + u64_be(v));
        assert(out@ == old(out)@ + self.spec_encode());
    }

    fn encoded_size(&self) -> (n: usize) {
        8
    }
}

impl Decode for u64 {
    open spec fn spec_decode(bytes: Seq<u8>) -> Result<(u64, nat), DecodeError> {
        if bytes.len() < 8 {
            Err(DecodeError::UnexpectedEnd)
        } else {
            Ok((u64_of_be(bytes.take(8)), 8))
        }
    }

    fn decode_from(bytes: &[u8]) -> (r: Result<(u64, usize), DecodeError>) {
        if bytes.len() < 8 {
            return Err(DecodeError::UnexpectedEnd);
        }
        let v = read_u64_be(bytes, 0);
        assert(bytes@.subrange(0, 8) =~= bytes@.take(8));
        Ok((v, 8))
    }
}

impl Roundtrip for u64 {
    proof fn lemma_roundtrip(v: u64, rest: Seq<u8>) {
        lemma_u64_roundtrip(v, seq![]);
        assert((u64_be(v) + rest).take(8) =~= u64_be(v));
    }
}

impl Encode for i64 {
    open spec fn spec_encode(&self) -> Seq<u8> {
        i64_be(*self)
    }

    fn encode_to(&self, out: &mut Vec<u8>) {
        let v = *self;
        let u = #[verifier::truncate] (v as u64);
        write_u64_be(out, u);
        assert(out@ == old(out)@ + i64_be(v));
        assert(out@ == old(out)@ + self.spec_encode());
    }

    fn encoded_size(&self) -> (n: usize) {
        8
    }
}

impl Decode for i64 {
    open spec fn spec_decode(bytes: Seq<u8>) -> Result<(i64, nat), DecodeError> {
        if bytes.len() < 8 {
            Err(DecodeError::UnexpectedEnd)
        } else {
            Ok((i64_of_be(bytes.take(8)), 8))
        }
    }

    fn decode_from(bytes: &[u8]) -> (r: Result<(i64, usize), DecodeError>) {
        if bytes.len() < 8 {
            return Err(DecodeError::UnexpectedEnd);
        }
        let v = read_u64_be(bytes, 0);
        assert(bytes@.subrange(0, 8) =~= bytes@.take(8));
        Ok((#[verifier::truncate] (v as i64), 8))
    }
}

impl Roundtrip for i64 {
    proof fn lemma_roundtrip(v: i64, rest: Seq<u8>) {
        lemma_i64_roundtrip(v, seq![]);
        assert((i64_be(v) + rest).take(8) =~= i64_be(v));
    }
}

impl Encode for bool {
    open spec fn spec_encode(&self) -> Seq<u8> {
        if *self {
            seq![1u8]
        } else {
            seq![0u8]
        }
    }

    fn encode_to(&self, out: &mut Vec<u8>) {
        out.push(if *self { 1 } else { 0 });
        assert(out@ =~= old(out)@ + self.spec_encode());
    }

    fn encoded_size(&self) -> (n: usize) {
        1
    }
}

impl Decode for bool {
    open spec fn spec_decode(bytes: Seq<u8>) -> Result<(bool, nat), DecodeError> {
        if bytes.len() < 1 {
            Err(DecodeError::UnexpectedEnd)
        } else if bytes[0] == 0 {
            Ok((false, 1))
        } else if bytes[0] == 1 {
            Ok((true, 1))
        } else {
            Err(DecodeError::InvalidBool(bytes[0]))
        }
    }

    fn decode_from(bytes: &[u8]) -> (r: Result<(bool, usize), DecodeError>) {
        if bytes.len() < 1 {
            return Err(DecodeError::UnexpectedEnd);
        }
        match bytes[0] {
            0 => Ok((false, 1)),
            1 => Ok((true, 1)),
            v => Err(DecodeError::InvalidBool(v)),
        }
    }
}

impl Roundtrip for bool {
    proof fn lemma_roundtrip(v: bool, rest: Seq<u8>) {
    }
}

// ---------------------------------------------------------------------------
// Fixed-size byte arrays
// ---------------------------------------------------------------------------

impl<const N: usize> Encode for [u8; N] {
    open spec fn spec_encode(&self) -> Seq<u8> {
        self@
    }

    fn encode_to(&self, out: &mut Vec<u8>) {
        let s = self.as_slice();
        assert(s@ == self@);
        write_bytes(out, s);
        assert(out@ == old(out)@ + self@);
        assert(out@ == old(out)@ + self.spec_encode());
    }

    fn encoded_size(&self) -> (n: usize) {
        N
    }
}

/// Appends `bytes` to `out`.
pub fn write_bytes(out: &mut Vec<u8>, bytes: &[u8])
    ensures
        final(out)@ == old(out)@ + bytes@,
{
    let mut i: usize = 0;
    while i < bytes.len()
        invariant
            i <= bytes@.len(),
            out@ == old(out)@ + bytes@.take(i as int),
        decreases bytes@.len() - i,
    {
        out.push(bytes[i]);
        assert(bytes@.take(i + 1) =~= bytes@.take(i as int).push(bytes@[i as int]));
        i = i + 1;
    }
    assert(bytes@.take(i as int) =~= bytes@);
}

/// The array that holds exactly the bytes `s`.
pub open spec fn array_of<const N: usize>(s: Seq<u8>) -> [u8; N] {
    choose|a: [u8; N]| a@ == s
}

/// Copies the first `N` bytes of `bytes` into an array.
pub fn copy_array<const N: usize>(bytes: &[u8]) -> (a: [u8; N])
    requires
        N <= bytes@.len(),
    ensures
        a@ == bytes@.take(N as int),
        a == array_of::<N>(bytes@.take(N as int)),
{
    let mut a: [u8; N] = [0u8; N];
    let mut i: usize = 0;
    while i < N
        invariant
            i <= N,
            N <= bytes@.len(),
            a@.len() == N,
            forall|j: int| 0 <= j < i ==> a@[j] == bytes@[j],
        decreases N - i,
    {
        a[i] = bytes[i];
        i = i + 1;
    }
    assert(a@ =~= bytes@.take(N as int));
    let ghost c = array_of::<N>(bytes@.take(N as int));
    assert(c@ == bytes@.take(N as int));
    assert(a =~= c);
    a
}

impl<const N: usize> Decode for [u8; N] {
    open spec fn spec_decode(bytes: Seq<u8>) -> Result<([u8; N], nat), DecodeError> {
        if bytes.len() < N {
            Err(DecodeError::UnexpectedEnd)
        } else {
            Ok((array_of::<N>(bytes.take(N as int)), N as nat))
        }
    }

    fn decode_from(bytes: &[u8]) -> (r: Result<([u8; N], usize), DecodeError>) {
        if bytes.len() < N {
            return Err(DecodeError::UnexpectedEnd);
        }
        Ok((copy_array::<N>(bytes), N))
    }
}

impl<const N: usize> Roundtrip for [u8; N] {
    proof fn lemma_roundtrip(v: [u8; N], rest: Seq<u8>) {
        assert((v@ + rest).take(N as int) =~= v@);
        let c = array_of::<N>(v@);
        assert(c@ == v@);
        assert(c =~= v);
    }
}

// ---------------------------------------------------------------------------
// Tuples
// ---------------------------------------------------------------------------

/// The remainder of `bytes` after the first `n`.
pub fn skip_bytes(bytes: &[u8], n: usize) -> (r: &[u8])
    requires
        n <= bytes@.len(),
    ensures
        r@ == bytes@.skip(n as int),
{
    let r = &bytes[n..bytes.len()];
    assert(r@ =~= bytes@.skip(n as int));
    r
}

impl<A: Encode, B: Encode> Encode for (A, B) {
    open spec fn spec_encode(&self) -> Seq<u8> {
        self.0.spec_encode() + self.1.spec_encode()
    }

    fn encode_to(&self, out: &mut Vec<u8>) {
        self.0.encode_to(out);
        self.1.encode_to(out);
        assert(out@ =~= old(out)@ + self.spec_encode());
    }

    fn encoded_size(&self) -> (n: usize) {
        self.0.encoded_size() + self.1.encoded_size()
    }
}

impl<A: Decode, B: Decode> Decode for (A, B) {
    open spec fn spec_decode(bytes: Seq<u8>) -> Result<((A, B), nat), DecodeError> {
        match A::spec_decode(bytes) {
            Err(e) => Err(e),
            Ok((a, n1)) => match B::spec_decode(bytes.skip(n1 as int)) {
                Err(e) => Err(e),
                Ok((b, n2)) => Ok(((a, b), n1 + n2)),
            },
        }
    }

    fn decode_from(bytes: &[u8]) -> (r: Result<((A, B), usize), DecodeError>) {
        let _total = bytes.len();
        let (a, n1) = match A::decode_from(bytes) {
            Ok(x) => x,
            Err(e) => return Err(e),
        };
        let rest = skip_bytes(bytes, n1);
        let rb = B::decode_from(rest);
        let (b, n2) = match rb {
            Ok(x) => x,
            Err(e) => return Err(e),
        };
        assert(n2 <= rest@.len());
        Ok(((a, b), n1 + n2))
    }
}

impl<A: Roundtrip, B: Roundtrip> Roundtrip for (A, B) {
    proof fn lemma_roundtrip(v: (A, B), rest: Seq<u8>) {
        let ea = v.0.spec_encode();
        let eb = v.1.spec_encode();
        assert(ea + eb + rest =~= ea + (eb + rest));
        A::lemma_roundtrip(v.0, eb + rest);
        assert((ea + (eb + rest)).skip(ea.len() as int) =~= eb + rest);
        B::lemma_roundtrip(v.1, rest);
    }
}

impl<A: Encode, B: Encode, C: Encode> Encode for (A, B, C) {
    open spec fn spec_encode(&self) -> Seq<u8> {
        self.0.spec_encode() + self.1.spec_encode() + self.2.spec_encode()
    }

    fn encode_to(&self, out: &mut Vec<u8>) {
        self.0.encode_to(out);
        self.1.encode_to(out);
        self.2.encode_to(out);
        assert(out@ =~= old(out)@ + self.spec_encode());
    }

    fn encoded_size(&self) -> (n: usize) {
        self.0.encoded_size() + self.1.encoded_size() + self.2.encoded_size()
    }
}

impl<A: Decode, B: Decode, C: Decode> Decode for (A, B, C) {
    open spec fn spec_decode(bytes: Seq<u8>) -> Result<((A, B, C), nat), DecodeError> {
        match A::spec_decode(bytes) {
            Err(e) => Err(e),
            Ok((a, n1)) => match B::spec_decode(bytes.skip(n1 as int)) {
                Err(e) => Err(e),
                Ok((b, n2)) => match C::spec_decode(bytes.skip((n1 + n2) as int)) {
                    Err(e) => Err(e),
                    Ok((c, n3)) => Ok(((a, b, c), n1 + n2 + n3)),
                },
            },
        }
    }

    fn decode_from(bytes: &[u8]) -> (r: Result<((A, B, C), usize), DecodeError>) {
        let _total = bytes.len();
        let (a, n1) = match A::decode_from(bytes) {
            Ok(x) => x,
            Err(e) => return Err(e),
        };
        let (b, n2) = match B::decode_from(skip_bytes(bytes, n1)) {
            Ok(x) => x,
            Err(e) => return Err(e),
        };
        let (c, n3) = match C::decode_from(skip_bytes(bytes, n1 + n2)) {
            Ok(x) => x,
            Err(e) => return Err(e),
        };
        Ok(((a, b, c), n1 + n2 + n3))
    }
}

impl<A: Roundtrip, B: Roundtrip, C: Roundtrip> Roundtrip for (A, B, C) {
    proof fn lemma_roundtrip(v: (A, B, C), rest: Seq<u8>) {
        let ea = v.0.spec_encode();
        let eb = v.1.spec_encode();
        let ec = v.2.spec_encode();
        let all = ea + eb + ec + rest;
        assert(all =~= ea + (eb + ec + rest));
        A::lemma_roundtrip(v.0, eb + ec + rest);
        assert(all.skip(ea.len() as int) =~= eb + (ec + rest));
        B::lemma_roundtrip(v.1, ec + rest);
        assert(all.skip((ea.len() + eb.len()) as int) =~= ec + rest);
        C::lemma_roundtrip(v.2, rest);
    }
}

} // verus!
