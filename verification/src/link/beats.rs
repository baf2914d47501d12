//! Beat values in micro-beats.
use core::cmp::Ordering;
use vstd::prelude::*;
use vstd::std_specs::cmp::PartialOrdSpec;
use vstd::std_specs::cmp::PartialOrdSpecImpl;

use crate::bytes::i64_be;
use crate::encoding::{Decode, DecodeError, Encode, Roundtrip};

verus! {

/// Size in bytes of an encoded [`Beats`].
pub const BEATS_SIZE: u32 = 8;

/// A beat position or duration, held as an integral number of micro-beats.
#[derive(PartialEq, Eq, Structural, Copy, Clone, Ord, Debug)]
pub struct Beats {
    pub value: i64,
}

impl Default for Beats {
    fn default() -> (b: Self)
        ensures
            b.value == 0,
    {
        Beats { value: 0 }
    }
}

impl Beats {
    pub const SIZE: u32 = 8;

    pub fn from_microbeats(micro_beats: i64) -> (b: Self)
        ensures
            b.value == micro_beats,
    {
        Self { value: micro_beats }
    }

    pub fn micro_beats(self) -> (v: i64)
        ensures
            v == self.value,
    {
        self.value
    }

    /// The absolute value; `i64::MIN` micro-beats has none.
    pub fn abs(self) -> (b: Self)
        requires
            self.value != i64::MIN,
        ensures
            b.value == if self.value < 0 { -self.value } else { self.value as int },
    {
        Self { value: if self.value < 0 { -self.value } else { self.value } }
    }

    /// The remainder of `self` divided by `rhs`, with the sign of `self`
    /// (Rust's `%` on integers).
    pub fn modulo(self, rhs: Beats) -> (b: Self)
        requires
            rhs.value != 0,
            !(self.value == i64::MIN && rhs.value == -1),
        ensures
            b.value == truncated_rem(self.value as int, rhs.value as int),
    {
        // Rust's `%` takes the sign of the dividend and ignores the divisor's
        // sign; the divisor is made positive first where that is representable.
        let r = if rhs.value == i64::MIN {
            if self.value == i64::MIN {
                0
            } else {
                self.value
            }
        } else if rhs.value < 0 {
            self.value % (-rhs.value)
        } else {
            self.value % rhs.value
        };
        proof {
            let a = self.value as int;
            let m = if rhs.value < 0 { -rhs.value } else { rhs.value as int };
            if a >= 0 {
                assert(r == a % m);
            } else {
                assert(r == -((-a) % m));
            }
        }
        Self { value: r }
    }
}

/// The remainder of truncating division: `a - b * trunc(a / b)`, which takes
/// the sign of `a`.
pub open spec fn truncated_rem(a: int, b: int) -> int
    recommends
        b != 0,
{
    let m = if b < 0 { -b } else { b };
    if a >= 0 {
        a % m
    } else {
        -((-a) % m)
    }
}

/// The order of two beat values: that of their micro-beat counts.
pub open spec fn beats_order(x: Beats, y: Beats) -> Ordering {
    if x.value < y.value {
        Ordering::Less
    } else if x.value == y.value {
        Ordering::Equal
    } else {
        Ordering::Greater
    }
}

impl PartialOrd for Beats {
    fn partial_cmp(&self, other: &Beats) -> (r: Option<Ordering>) {
        if self.value < other.value {
            Some(Ordering::Less)
        } else if self.value == other.value {
            Some(Ordering::Equal)
        } else {
            Some(Ordering::Greater)
        }
    }
}

impl PartialOrdSpecImpl for Beats {
    open spec fn obeys_partial_cmp_spec() -> bool {
        true
    }

    open spec fn partial_cmp_spec(&self, other: &Beats) -> Option<Ordering> {
        Some(beats_order(*self, *other))
    }
}

/// Beat values are ordered as their micro-beat counts are: one is less than,
/// equal to or greater than another exactly when its count is.
pub proof fn lemma_beats_ordering(x: Beats, y: Beats)
    ensures
        PartialOrdSpec::partial_cmp_spec(&x, &y) == Some(Ordering::Less) <==> x.value < y.value,
        PartialOrdSpec::partial_cmp_spec(&x, &y) == Some(Ordering::Equal) <==> x == y,
        PartialOrdSpec::partial_cmp_spec(&x, &y) == Some(Ordering::Greater) <==> x.value > y.value,
{
}

impl core::ops::Neg for Beats {
    type Output = Beats;

    fn neg(self) -> (b: Beats) {
        Beats { value: -self.value }
    }
}

impl vstd::std_specs::ops::NegSpecImpl for Beats {
    open spec fn obeys_neg_spec() -> bool {
        true
    }

    open spec fn neg_req(self) -> bool {
        self.value != i64::MIN
    }

    open spec fn neg_spec(self) -> Beats {
        Beats { value: (-self.value) as i64 }
    }
}

impl core::ops::Add for Beats {
    type Output = Beats;

    fn add(self, rhs: Beats) -> (b: Beats) {
        Beats { value: self.value + rhs.value }
    }
}

impl vstd::std_specs::ops::AddSpecImpl for Beats {
    open spec fn obeys_add_spec() -> bool {
        true
    }

    open spec fn add_req(self, rhs: Beats) -> bool {
        i64::MIN <= self.value + rhs.value <= i64::MAX
    }

    open spec fn add_spec(self, rhs: Beats) -> Beats {
        Beats { value: (self.value + rhs.value) as i64 }
    }
}

impl core::ops::Sub for Beats {
    type Output = Beats;

    fn sub(self, rhs: Beats) -> (b: Beats) {
        Beats { value: self.value - rhs.value }
    }
}

impl vstd::std_specs::ops::SubSpecImpl for Beats {
    open spec fn obeys_sub_spec() -> bool {
        true
    }

    open spec fn sub_req(self, rhs: Beats) -> bool {
        i64::MIN <= self.value - rhs.value <= i64::MAX
    }

    open spec fn sub_spec(self, rhs: Beats) -> Beats {
        Beats { value: (self.value - rhs.value) as i64 }
    }
}

impl Encode for Beats {
    open spec fn spec_encode(&self) -> Seq<u8> {
        i64_be(self.value)
    }

    fn encode_to(&self, out: &mut Vec<u8>) {
        self.micro_beats().encode_to(out);
    }

    fn encoded_size(&self) -> (n: usize) {
        8
    }
}

impl Decode for Beats {
    open spec fn spec_decode(bytes: Seq<u8>) -> Result<(Beats, nat), DecodeError> {
        match i64::spec_decode(bytes) {
            Ok((value, n)) => Ok((Beats { value }, n)),
            Err(e) => Err(e),
        }
    }

    fn decode_from(bytes: &[u8]) -> (r: Result<(Beats, usize), DecodeError>) {
        match i64::decode_from(bytes) {
            Ok((value, n)) => Ok((Beats { value }, n)),
            Err(e) => Err(e),
        }
    }
}

impl Roundtrip for Beats {
    proof fn lemma_roundtrip(v: Beats, rest: Seq<u8>) {
        i64::lemma_roundtrip(v.value, rest);
    }
}

} // verus!
