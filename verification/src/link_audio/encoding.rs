//! Network byte stream serialization for LinkAudio: values in network
//! (big-endian) byte order; strings and sequences prefixed by a `u32` count.
use vstd::prelude::*;
use vstd::utf8::{decode_utf8, encode_utf8, valid_utf8};

use crate::bytes::{lemma_u16_roundtrip, lemma_u32_roundtrip, lemma_u64_roundtrip, u16_be, u16_of_be, u32_be, u32_of_be, u64_be, u64_of_be};
use crate::encoding::{copy_array, array_of, read_u32_be, read_u64_be, skip_bytes, write_bytes, write_u64_be, Encode};

use super::error::AudioError;

verus! {

/// What `String::from_utf8_lossy` makes of bytes that are not valid UTF-8:
/// their characters, with each invalid sequence replaced by U+FFFD. The rules
/// of replacement are not restated; this names their result.
pub uninterp spec fn utf8_lossy_invalid(bytes: Seq<u8>) -> Seq<char>;

/// The characters that `String::from_utf8_lossy` reads from `bytes`: valid
/// UTF-8 decodes unchanged.
pub open spec fn utf8_lossy(bytes: Seq<u8>) -> Seq<char> {
    if valid_utf8(bytes) {
        decode_utf8(bytes)
    } else {
        utf8_lossy_invalid(bytes)
    }
}

/// `String::from_utf8_lossy(..).into_owned()`. Its documentation promises
/// that valid UTF-8 decodes unchanged; what it makes of invalid input is
/// named `utf8_lossy_invalid` and not restated.
#[verifier::external_body]
fn string_from_utf8_lossy(bytes: &[u8]) -> (s: String)
    ensures
        s@ == (if valid_utf8(bytes@) {
            decode_utf8(bytes@)
        } else {
            utf8_lossy_invalid(bytes@)
        }),
{
    String::from_utf8_lossy(bytes).into_owned()
}

/// The bytes of a `u32`-length-prefixed string: the length in bytes of its
/// UTF-8 form, then that form.
pub open spec fn string_bytes(s: Seq<char>) -> Seq<u8> {
    u32_be(encode_utf8(s).len() as u32) + encode_utf8(s)
}

/// A cursor over a byte slice that decodes values in network byte order.
#[derive(Debug)]
pub struct ByteStreamReader<'a> {
    data: &'a [u8],
    pos: usize,
}

impl<'a> Clone for ByteStreamReader<'a> {
    fn clone(&self) -> (r: Self)
        ensures
            r == *self,
    {
        proof {
            use_type_invariant(self);
        }
        ByteStreamReader { data: self.data, pos: self.pos }
    }
}

/// Skipping twice is skipping the sum.
pub proof fn lemma_skip_skip<T>(s: Seq<T>, a: int, b: int)
    requires
        0 <= a,
        0 <= b,
        a + b <= s.len(),
    ensures
        s.skip(a).skip(b) == s.skip(a + b),
{
    assert(s.skip(a).skip(b) =~= s.skip(a + b));
}

impl<'a> ByteStreamReader<'a> {
    #[verifier::type_invariant]
    spec fn inv(self) -> bool {
        self.pos <= self.data@.len()
    }

    /// All the bytes of the stream.
    pub closed spec fn bytes(self) -> Seq<u8> {
        self.data@
    }

    /// The number of bytes already read.
    pub closed spec fn pos(self) -> int {
        self.pos as int
    }

    /// The bytes not read yet.
    pub open spec fn unread(self) -> Seq<u8> {
        self.bytes().skip(self.pos())
    }

    pub fn new(data: &'a [u8]) -> (r: Self)
        ensures
            r.bytes() == data@,
            r.pos() == 0,
            r.unread() == data@,
    {
        let r = Self { data, pos: 0 };
        assert(data@.skip(0) =~= data@);
        r
    }

    pub fn position(&self) -> (n: usize)
        ensures
            n == self.pos(),
    {
        self.pos
    }

    pub fn remaining(&self) -> (n: usize)
        ensures
            n == self.unread().len(),
            n == self.bytes().len() - self.pos(),
    {
        proof {
            use_type_invariant(self);
        }
        self.data.len() - self.pos
    }

    pub fn is_empty(&self) -> (b: bool)
        ensures
            b == (self.unread().len() == 0),
    {
        self.remaining() == 0
    }

    /// The bytes not read yet.
    pub fn rest(&self) -> (s: &'a [u8])
        ensures
            s@ == self.unread(),
    {
        proof {
            use_type_invariant(self);
        }
        skip_bytes(self.data, self.pos)
    }

    /// Takes the next `n` bytes, or fails with a range error if fewer remain.
    fn take(&mut self, n: usize) -> (r: Result<&'a [u8], AudioError>)
        ensures
            final(self).bytes() == old(self).bytes(),
            match r {
                Ok(s) => n <= old(self).unread().len() && s@ == old(self).unread().take(n as int)
                    && final(self).pos() == old(self).pos() + n
                    && final(self).unread() == old(self).unread().skip(n as int),
                Err(e) => n > old(self).unread().len() && e is Range && final(self).pos()
                    == old(self).pos() && final(self).unread() == old(self).unread(),
            },
    {
        proof {
            use_type_invariant(&*self);
        }
        let len = self.data.len();
        if len - self.pos < n {
            return Err(AudioError::Range("parsing type from byte stream failed"));
        }
        let out = &self.data[self.pos..self.pos + n];
        assert(out@ =~= self.unread().take(n as int));
        proof {
            lemma_skip_skip(self.data@, self.pos as int, n as int);
        }
        self.pos = self.pos + n;
        Ok(out)
    }

    pub fn read_u8(&mut self) -> (r: Result<u8, AudioError>)
        ensures
            final(self).bytes() == old(self).bytes(),
            match r {
                Ok(v) => 1 <= old(self).unread().len() && v == old(self).unread()[0]
                    && final(self).pos() == old(self).pos() + 1
                    && final(self).unread() == old(self).unread().skip(1 as int),
                Err(e) => old(self).unread().len() < 1 && e is Range && final(self).pos()
                    == old(self).pos() && final(self).unread() == old(self).unread(),
            },
    {
        match self.take(1) {
            Ok(b) => Ok(b[0]),
            Err(e) => Err(e),
        }
    }

    pub fn read_i8(&mut self) -> (r: Result<i8, AudioError>)
        ensures
            final(self).bytes() == old(self).bytes(),
            match r {
                Ok(v) => 1 <= old(self).unread().len() && v == old(self).unread()[0] as i8
                    && final(self).pos() == old(self).pos() + 1
                    && final(self).unread() == old(self).unread().skip(1 as int),
                Err(e) => old(self).unread().len() < 1 && e is Range && final(self).pos()
                    == old(self).pos() && final(self).unread() == old(self).unread(),
            },
    {
        match self.read_u8() {
            Ok(v) => Ok(#[verifier::truncate] (v as i8)),
            Err(e) => Err(e),
        }
    }

    pub fn read_u16(&mut self) -> (r: Result<u16, AudioError>)
        ensures
            final(self).bytes() == old(self).bytes(),
            match r {
                Ok(v) => 2 <= old(self).unread().len() && v == u16_of_be(
                    old(self).unread()[0],
                    old(self).unread()[1],
                ) && final(self).pos() == old(self).pos() + 2
                    && final(self).unread() == old(self).unread().skip(2 as int),
                Err(e) => old(self).unread().len() < 2 && e is Range && final(self).pos()
                    == old(self).pos() && final(self).unread() == old(self).unread(),
            },
    {
        match self.take(2) {
            Ok(b) => Ok(((b[0] as u16) << 8u16) | (b[1] as u16)),
            Err(e) => Err(e),
        }
    }

    pub fn read_i16(&mut self) -> (r: Result<i16, AudioError>)
        ensures
            final(self).bytes() == old(self).bytes(),
            match r {
                Ok(v) => 2 <= old(self).unread().len() && v == u16_of_be(
                    old(self).unread()[0],
                    old(self).unread()[1],
                ) as i16 && final(self).pos() == old(self).pos() + 2
                    && final(self).unread() == old(self).unread().skip(2 as int),
                Err(e) => old(self).unread().len() < 2 && e is Range && final(self).pos()
                    == old(self).pos() && final(self).unread() == old(self).unread(),
            },
    {
        match self.read_u16() {
            Ok(v) => Ok(#[verifier::truncate] (v as i16)),
            Err(e) => Err(e),
        }
    }

    pub fn read_u32(&mut self) -> (r: Result<u32, AudioError>)
        ensures
            final(self).bytes() == old(self).bytes(),
            match r {
                Ok(v) => 4 <= old(self).unread().len() && v == u32_of_be(
                    old(self).unread()[0],
                    old(self).unread()[1],
                    old(self).unread()[2],
                    old(self).unread()[3],
                ) && final(self).pos() == old(self).pos() + 4
                    && final(self).unread() == old(self).unread().skip(4 as int),
                Err(e) => old(self).unread().len() < 4 && e is Range && final(self).pos()
                    == old(self).pos() && final(self).unread() == old(self).unread(),
            },
    {
        match self.take(4) {
            Ok(b) => Ok(read_u32_be(b, 0)),
            Err(e) => Err(e),
        }
    }

    pub fn read_i32(&mut self) -> (r: Result<i32, AudioError>)
        ensures
            final(self).bytes() == old(self).bytes(),
            match r {
                Ok(v) => 4 <= old(self).unread().len() && v == u32_of_be(
                    old(self).unread()[0],
                    old(self).unread()[1],
                    old(self).unread()[2],
                    old(self).unread()[3],
                ) as i32 && final(self).pos() == old(self).pos() + 4
                    && final(self).unread() == old(self).unread().skip(4 as int),
                Err(e) => old(self).unread().len() < 4 && e is Range && final(self).pos()
                    == old(self).pos() && final(self).unread() == old(self).unread(),
            },
    {
        match self.read_u32() {
            Ok(v) => Ok(#[verifier::truncate] (v as i32)),
            Err(e) => Err(e),
        }
    }

    pub fn read_u64(&mut self) -> (r: Result<u64, AudioError>)
        ensures
            final(self).bytes() == old(self).bytes(),
            match r {
                Ok(v) => 8 <= old(self).unread().len() && v == u64_of_be(old(self).unread().take(8))
                    && final(self).pos() == old(self).pos() + 8
                    && final(self).unread() == old(self).unread().skip(8 as int),
                Err(e) => old(self).unread().len() < 8 && e is Range && final(self).pos()
                    == old(self).pos() && final(self).unread() == old(self).unread(),
            },
    {
        match self.take(8) {
            Ok(b) => {
                let v = read_u64_be(b, 0);
                assert(b@.subrange(0, 8) =~= b@);
                Ok(v)
            },
            Err(e) => Err(e),
        }
    }

    pub fn read_i64(&mut self) -> (r: Result<i64, AudioError>)
        ensures
            final(self).bytes() == old(self).bytes(),
            match r {
                Ok(v) => 8 <= old(self).unread().len() && v == u64_of_be(
                    old(self).unread().take(8),
                ) as i64 && final(self).pos() == old(self).pos() + 8
                    && final(self).unread() == old(self).unread().skip(8 as int),
                Err(e) => old(self).unread().len() < 8 && e is Range && final(self).pos()
                    == old(self).pos() && final(self).unread() == old(self).unread(),
            },
    {
        match self.read_u64() {
            Ok(v) => Ok(#[verifier::truncate] (v as i64)),
            Err(e) => Err(e),
        }
    }

    /// The next `n` bytes.
    pub fn read_bytes(&mut self, n: usize) -> (r: Result<&'a [u8], AudioError>)
        ensures
            final(self).bytes() == old(self).bytes(),
            match r {
                Ok(s) => n <= old(self).unread().len() && s@ == old(self).unread().take(n as int)
                    && final(self).pos() == old(self).pos() + n
                    && final(self).unread() == old(self).unread().skip(n as int),
                Err(e) => n > old(self).unread().len() && e is Range && final(self).pos()
                    == old(self).pos() && final(self).unread() == old(self).unread(),
            },
    {
        self.take(n)
    }

    /// The next `N` bytes, as an array.
    pub fn read_array<const N: usize>(&mut self) -> (r: Result<[u8; N], AudioError>)
        ensures
            final(self).bytes() == old(self).bytes(),
            match r {
                Ok(a) => N <= old(self).unread().len() && a@ == old(self).unread().take(N as int)
                    && final(self).pos() == old(self).pos() + N
                    && final(self).unread() == old(self).unread().skip(N as int),
                Err(e) => N > old(self).unread().len() && e is Range && final(self).pos()
                    == old(self).pos() && final(self).unread() == old(self).unread(),
            },
    {
        match self.take(N) {
            Ok(b) => {
                let a = copy_array::<N>(b);
                assert(b@.take(N as int) =~= b@);
                Ok(a)
            },
            Err(e) => Err(e),
        }
    }

    /// Reads a `u32`-length-prefixed string. Invalid UTF-8 is replaced rather
    /// than rejected, so that a peer with a non-UTF-8 name does not
    /// invalidate an otherwise well-formed message.
    pub fn read_string(&mut self) -> (r: Result<String, AudioError>)
        ensures
            final(self).bytes() == old(self).bytes(),
            match read_string_spec(old(self).unread()) {
                Some((s, n)) => r matches Ok(v) && v@ == s && final(self).pos() == old(self).pos() + n
                    && final(self).unread() == old(self).unread().skip(n as int),
                None => r matches Err(e) && e is Range && final(self).pos() == if old(self).unread().len()
                    < 4 {
                    old(self).pos()
                } else {
                    old(self).pos() + 4
                },
            },
    {
        let len = match self.read_u32() {
            Ok(v) => v as usize,
            Err(e) => return Err(e),
        };
        proof {
            use_type_invariant(&*self);
            lemma_skip_skip(self.bytes(), old(self).pos(), 4);
        }
        match self.take(len) {
            Ok(bytes) => {
                assert(bytes@ =~= old(self).unread().subrange(4, 4 + len as int));
                proof {
                    use_type_invariant(&*self);
                    lemma_skip_skip(self.bytes(), old(self).pos(), 4 + len);
                }
                Ok(string_from_utf8_lossy(bytes))
            },
            Err(e) => Err(e),
        }
    }

    /// Reads a `u32`-count-prefixed sequence of `T`. Reading stops early,
    /// without error, when the stream runs out before the count is reached.
    pub fn read_vec<T: StreamRead>(&mut self) -> (r: Result<Vec<T>, AudioError>)
        ensures
            final(self).bytes() == old(self).bytes(),
            match read_vec_spec::<T>(old(self).unread()) {
                Some((vs, n)) => r matches Ok(v) && v@.map_values(|x: T| x@) == vs && final(self).pos()
                    == old(self).pos() + n && final(self).unread() == old(self).unread().skip(
                    n as int,
                ),
                None => r matches Err(e) && e is Range,
            },
            old(self).unread().len() < 4 ==> final(self).pos() == old(self).pos(),
            final(self).pos() >= old(self).pos(),
    {
        let count = match self.read_u32() {
            Ok(v) => v,
            Err(e) => return Err(e),
        };
        let ghost start = self.pos();
        let ghost total = read_elems_spec::<T>(self.unread(), count as nat);
        let mut out: Vec<T> = Vec::new();
        let mut i: u32 = 0;
        let mut done = false;
        proof {
            use_type_invariant(&*self);
            lemma_skip_skip(self.bytes(), old(self).pos(), 4);
            assert(out@.map_values(|x: T| x@) + Seq::<T::V>::empty() =~= Seq::<T::V>::empty());
        }
        while i < count && !done
            invariant
                i <= count,
                self.bytes() == old(self).bytes(),
                old(self).unread().len() >= 4,
                start == old(self).pos() + 4,
                self.pos() >= start,
                total == read_elems_spec::<T>(self.bytes().skip(start), count as nat),
                read_vec_spec::<T>(old(self).unread()) == match total {
                    None => None,
                    Some((vs, n)) => Some((vs, n + 4)),
                },
                done ==> self.unread().len() == 0,
                match read_elems_spec::<T>(self.unread(), (count - i) as nat) {
                    Some((vs, n)) => total == Some(
                        (out@.map_values(|x: T| x@) + vs, (self.pos() - start + n) as nat),
                    ),
                    None => total is None,
                },
            decreases count - i, if done { 0int } else { 1int },
        {
            if self.is_empty() {
                done = true;
            } else {
                let ghost before = self.unread();
                let ghost p0 = self.pos();
                let v = match T::read_from(self) {
                    Ok(v) => v,
                    Err(e) => return Err(e),
                };
                proof {
                    use_type_invariant(&*self);
                    let (w, k) = T::spec_read(before)->Some_0;
                    lemma_skip_skip(self.bytes(), p0, k as int);
                    assert(self.unread() == before.skip(k as int));
                    match read_elems_spec::<T>(self.unread(), (count - i - 1) as nat) {
                        Some((vs, m)) => {
                            assert(out@.push(v).map_values(|x: T| x@) + vs =~= out@.map_values(
                                |x: T| x@,
                            ) + (seq![v@] + vs));
                        },
                        None => {},
                    }
                }
                out.push(v);
                i = i + 1;
            }
        }
        proof {
            assert(out@.map_values(|x: T| x@) + Seq::<T::V>::empty() =~= out@.map_values(|x: T| x@));
            use_type_invariant(&*self);
            lemma_skip_skip(self.bytes(), old(self).pos(), self.pos() - old(self).pos());
        }
        Ok(out)
    }
}

/// The string at the front of `bytes` and the number of bytes it spans, or
/// nothing if the bytes end too soon.
pub open spec fn read_string_spec(bytes: Seq<u8>) -> Option<(Seq<char>, nat)> {
    if bytes.len() < 4 {
        None
    } else {
        let len = u32_of_be(bytes[0], bytes[1], bytes[2], bytes[3]) as int;
        if bytes.len() < 4 + len {
            None
        } else {
            Some((utf8_lossy(bytes.subrange(4, 4 + len)), (4 + len) as nat))
        }
    }
}

/// Values that can be read from the front of a byte stream.
pub trait StreamRead: Sized + View {
    /// The value (as its view) at the front of `bytes` and the number of
    /// bytes it spans, or nothing if they do not hold one.
    spec fn spec_read(bytes: Seq<u8>) -> Option<(Self::V, nat)>;

    fn read_from(reader: &mut ByteStreamReader) -> (r: Result<Self, AudioError>)
        ensures
            final(reader).bytes() == old(reader).bytes(),
            match Self::spec_read(old(reader).unread()) {
                Some((v, n)) => r matches Ok(x) && x@ == v && final(reader).pos() == old(
                    reader,
                ).pos() + n,
                None => r matches Err(e) && e is Range,
            },
            final(reader).pos() >= old(reader).pos(),
    ;
}

/// The first `count` values of type `T` at the front of `bytes`, stopping
/// early when the bytes run out, and the number of bytes they span.
pub open spec fn read_elems_spec<T: StreamRead>(bytes: Seq<u8>, count: nat) -> Option<(Seq<T::V>, nat)>
    decreases count,
{
    if count == 0 || bytes.len() == 0 {
        Some((seq![], 0))
    } else {
        match T::spec_read(bytes) {
            None => None,
            Some((v, n)) => match read_elems_spec::<T>(bytes.skip(n as int), (count - 1) as nat) {
                None => None,
                Some((vs, m)) => Some((seq![v] + vs, n + m)),
            },
        }
    }
}

/// A `u32`-count-prefixed sequence at the front of `bytes`.
pub open spec fn read_vec_spec<T: StreamRead>(bytes: Seq<u8>) -> Option<(Seq<T::V>, nat)> {
    if bytes.len() < 4 {
        None
    } else {
        match read_elems_spec::<T>(bytes.skip(4), u32_of_be(bytes[0], bytes[1], bytes[2], bytes[3]) as nat) {
            None => None,
            Some((vs, n)) => Some((vs, n + 4)),
        }
    }
}

impl StreamRead for u16 {
    open spec fn spec_read(bytes: Seq<u8>) -> Option<(u16, nat)> {
        if bytes.len() < 2 {
            None
        } else {
            Some((u16_of_be(bytes[0], bytes[1]), 2))
        }
    }

    fn read_from(reader: &mut ByteStreamReader) -> (r: Result<u16, AudioError>) {
        reader.read_u16()
    }
}

/// Appends values to a byte buffer in network byte order.
pub trait ByteStreamWrite {
    /// The bytes held.
    spec fn written(&self) -> Seq<u8>;

    fn write_u8(&mut self, v: u8)
        ensures
            final(self).written() == old(self).written() + seq![v],
    ;

    fn write_i8(&mut self, v: i8)
        ensures
            final(self).written() == old(self).written() + seq![v as u8],
    ;

    fn write_u16(&mut self, v: u16)
        ensures
            final(self).written() == old(self).written() + u16_be(v),
    ;

    fn write_i16(&mut self, v: i16)
        ensures
            final(self).written() == old(self).written() + u16_be(v as u16),
    ;

    fn write_u32(&mut self, v: u32)
        ensures
            final(self).written() == old(self).written() + u32_be(v),
    ;

    fn write_i32(&mut self, v: i32)
        ensures
            final(self).written() == old(self).written() + u32_be(v as u32),
    ;

    fn write_u64(&mut self, v: u64)
        ensures
            final(self).written() == old(self).written() + u64_be(v),
    ;

    fn write_i64(&mut self, v: i64)
        ensures
            final(self).written() == old(self).written() + u64_be(v as u64),
    ;

    /// Writes the length of `v` in bytes (as a `u32`), then its UTF-8 bytes.
    fn write_string(&mut self, v: &str)
        ensures
            final(self).written() == old(self).written() + u32_be(encode_utf8(v@).len() as u32)
                + encode_utf8(v@),
    ;
}

impl ByteStreamWrite for Vec<u8> {
    open spec fn written(&self) -> Seq<u8> {
        self@
    }

    fn write_u8(&mut self, v: u8) {
        self.push(v);
    }

    fn write_i8(&mut self, v: i8) {
        self.push(#[verifier::truncate] (v as u8));
    }

    fn write_u16(&mut self, v: u16) {
        v.encode_to(self);
        assert(v.spec_encode() == u16_be(v));
    }

    fn write_i16(&mut self, v: i16) {
        let u = #[verifier::truncate] (v as u16);
        u.encode_to(self);
        assert(u.spec_encode() == u16_be(u));
    }

    fn write_u32(&mut self, v: u32) {
        v.encode_to(self);
        assert(v.spec_encode() == u32_be(v));
        assert(self@ == old(self)@ + u32_be(v));
        assert(self.written() == old(self).written() + u32_be(v));
    }

    fn write_i32(&mut self, v: i32) {
        let u = #[verifier::truncate] (v as u32);
        u.encode_to(self);
        assert(u.spec_encode() == u32_be(u));
    }

    fn write_u64(&mut self, v: u64) {
        write_u64_be(self, v);
    }

    fn write_i64(&mut self, v: i64) {
        write_u64_be(self, #[verifier::truncate] (v as u64));
    }

    fn write_string(&mut self, v: &str) {
        let b = v.as_bytes();
        let n = #[verifier::truncate] (b.len() as u32);
        n.encode_to(self);
        assert(n.spec_encode() == u32_be(n));
        write_bytes(self, b);
        assert(self@ =~= old(self)@ + u32_be(encode_utf8(v@).len() as u32) + encode_utf8(v@));
    }
}

/// Size of a `u32`-length-prefixed string in the byte stream.
pub fn size_of_string(s: &str) -> (n: u32)
    requires
        encode_utf8(s@).len() + 4 <= u32::MAX,
    ensures
        n == 4 + encode_utf8(s@).len(),
{
    4 + s.len() as u32
}

/// A string written with `write_string` reads back unchanged, provided its
/// length fits the `u32` prefix.
pub proof fn lemma_string_roundtrip(s: Seq<char>, rest: Seq<u8>)
    requires
        encode_utf8(s).len() <= u32::MAX,
    ensures
        read_string_spec(u32_be(encode_utf8(s).len() as u32) + encode_utf8(s) + rest) == Some(
            (s, 4 + encode_utf8(s).len()),
        ),
{
    let e = encode_utf8(s);
    let b = u32_be(e.len() as u32) + e + rest;
    lemma_u32_roundtrip(e.len() as u32, 0, 0, 0, 0);
    assert(b.subrange(4, 4 + e.len() as int) =~= e);
    vstd::utf8::encode_utf8_valid_utf8(s);
    vstd::utf8::encode_utf8_decode_utf8(s);
}

} // verus!
