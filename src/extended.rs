//! The 80-bit IEEE 754 extended-precision format that holds a sample rate:
//! one sign bit, a 15-bit exponent biased by 16383, and a 64-bit significand
//! whose top bit is the explicit integer bit.

use vstd::prelude::*;

use crate::chunks::ChunkError;
use crate::reader::be32;
use vstd::arithmetic::div_mod::{lemma_fundamental_div_mod, lemma_fundamental_div_mod_converse};

verus! {

/// The exponent bias of the format.
pub const EXP_BIAS: u16 = 16383;

/// A decoded extended-precision number: its value is
/// `(-1)^negative * significand * 2^(exponent - 16383 - 63)`.
#[derive(Debug, Clone, Copy, PartialEq, Eq)]
pub struct Extended {
    pub negative: bool,
    pub exponent: u16,
    pub significand: u64,
}

/// Big-endian value of the eight bytes at `i`.
pub open spec fn be64(b: Seq<u8>, i: int) -> int {
    be32(b, i) * 0x1_0000_0000 + be32(b, i + 4)
}

/// A normal number with its integer bit set: the numbers that are decoded.
pub open spec fn is_decodable(e: Extended) -> bool {
    &&& 0 < e.exponent < 0x7FFF
    &&& e.significand >= 0x8000_0000_0000_0000
}

/// The fields that ten bytes hold.
pub open spec fn fields_of(b: Seq<u8>) -> Extended {
    Extended {
        negative: b[0] >= 0x80,
        exponent: ((b[0] % 0x80) as int * 256 + b[1] as int) as u16,
        significand: be64(b, 2) as u64,
    }
}

/// What ten bytes decode to.
pub open spec fn extended_of(b: Seq<u8>) -> Result<Extended, ChunkError> {
    if is_decodable(fields_of(b)) {
        Ok(fields_of(b))
    } else {
        Err(ChunkError::MalformedNumeric)
    }
}

/// `s` divided by 256, `k` times.
pub open spec fn shr8(s: int, k: nat) -> int
    decreases k,
{
    if k == 0 { s } else { shr8(s, (k - 1) as nat) / 256 }
}

/// The byte of `s` that stands `k` places from the lowest.
pub open spec fn byte_of(s: int, k: nat) -> u8 {
    (shr8(s, k) % 256) as u8
}

/// The ten bytes that encode `e`.
pub open spec fn encoding_of(e: Extended) -> Seq<u8> {
    let s = e.significand as int;
    seq![
        ((if e.negative { 0x80int } else { 0 }) + e.exponent / 256) as u8,
        (e.exponent % 256) as u8,
        byte_of(s, 7),
        byte_of(s, 6),
        byte_of(s, 5),
        byte_of(s, 4),
        byte_of(s, 3),
        byte_of(s, 2),
        byte_of(s, 1),
        byte_of(s, 0),
    ]
}

/// Decodes the ten bytes of an extended-precision number. Zero, denormals,
/// infinities, NaNs and numbers without the integer bit are refused.
pub fn parse_extended_precision_bytes(b: [u8; 10]) -> (r: Result<Extended, ChunkError>)
    ensures
        r == extended_of(b@),
{
    let negative = b[0] >= 0x80;
    let exponent: u16 = (b[0] % 0x80) as u16 * 256 + b[1] as u16;
    let hi: u64 = (b[2] as u64) * 0x100_0000 + (b[3] as u64) * 0x1_0000 + (b[4] as u64) * 0x100
        + b[5] as u64;
    let lo: u64 = (b[6] as u64) * 0x100_0000 + (b[7] as u64) * 0x1_0000 + (b[8] as u64) * 0x100
        + b[9] as u64;
    let significand: u64 = hi * 0x1_0000_0000 + lo;
    let e = Extended { negative, exponent, significand };
    if 0 < exponent && exponent < 0x7FFF && significand >= 0x8000_0000_0000_0000 {
        Ok(e)
    } else {
        Err(ChunkError::MalformedNumeric)
    }
}

/// Encodes a number whose exponent fits in fifteen bits.
pub fn encode_extended(e: Extended) -> (r: [u8; 10])
    requires
        e.exponent < 0x8000,
    ensures
        r@ == encoding_of(e),
{
    let q0 = e.significand;
    let q1 = q0 / 256;
    let q2 = q1 / 256;
    let q3 = q2 / 256;
    let q4 = q3 / 256;
    let q5 = q4 / 256;
    let q6 = q5 / 256;
    let q7 = q6 / 256;
    let sign: u16 = if e.negative { 0x80 } else { 0 };
    let r: [u8; 10] = [
        (sign + e.exponent / 256) as u8,
        (e.exponent % 256) as u8,
        (q7 % 256) as u8,
        (q6 % 256) as u8,
        (q5 % 256) as u8,
        (q4 % 256) as u8,
        (q3 % 256) as u8,
        (q2 % 256) as u8,
        (q1 % 256) as u8,
        (q0 % 256) as u8,
    ];
    proof {
        reveal_with_fuel(shr8, 8);
    }
    assert(r@ =~= encoding_of(e));
    r
}

/// `v` halved `k` times, where every halving leaves no remainder.
pub open spec fn exact_halvings(v: int, k: nat) -> Option<int>
    decreases k,
{
    if k == 0 {
        Some(v)
    } else if v % 2 != 0 {
        None
    } else {
        exact_halvings(v / 2, (k - 1) as nat)
    }
}

/// The value of `e` where it is a whole number of at most 64 bits whose
/// significand has its integer bit at or above the binary point.
pub open spec fn whole_value_of(e: Extended) -> Option<int> {
    if e.negative || e.exponent < EXP_BIAS || e.exponent > EXP_BIAS + 63 {
        None
    } else {
        exact_halvings(e.significand as int, (EXP_BIAS + 63 - e.exponent) as nat)
    }
}

impl Extended {
    /// The number as a whole number, such as a sample rate in hertz.
    pub fn whole_value(&self) -> (r: Option<u64>)
        ensures
            match whole_value_of(*self) {
                Some(n) => r == Some(n as u64),
                None => r is None,
            },
    {
        if self.negative || self.exponent < EXP_BIAS || self.exponent > EXP_BIAS + 63 {
            return None;
        }
        let shift: u16 = EXP_BIAS + 63 - self.exponent;
        let mut v: u64 = self.significand;
        let mut k: u16 = shift;
        while k > 0
            invariant
                exact_halvings(v as int, k as nat) == exact_halvings(
                    self.significand as int,
                    shift as nat,
                ),
                shift == EXP_BIAS + 63 - self.exponent,
            decreases k,
        {
            if v % 2 != 0 {
                return None;
            }
            v = v / 2;
            k = k - 1;
        }
        Some(v)
    }
}

/// Decoding the encoding of a decodable number gives the number back.
pub proof fn lemma_decode_encode(e: Extended)
    requires
        is_decodable(e),
    ensures
        extended_of(encoding_of(e)) == Ok::<Extended, ChunkError>(e),
{
    let b = encoding_of(e);
    let s = e.significand as int;
    reveal_with_fuel(shr8, 8);
    let q1 = s / 256;
    let q2 = q1 / 256;
    let q3 = q2 / 256;
    let q4 = q3 / 256;
    let q5 = q4 / 256;
    let q6 = q5 / 256;
    let q7 = q6 / 256;
    lemma_fundamental_div_mod(s, 256);
    lemma_fundamental_div_mod(q1, 256);
    lemma_fundamental_div_mod(q2, 256);
    lemma_fundamental_div_mod(q3, 256);
    lemma_fundamental_div_mod(q4, 256);
    lemma_fundamental_div_mod(q5, 256);
    lemma_fundamental_div_mod(q6, 256);
    lemma_fundamental_div_mod(q7, 256);
    assert(q7 < 256);
    assert(be64(b, 2) == s);
    assert(fields_of(b) == e);
}

/// Encoding what ten bytes decode to gives the same ten bytes.
pub proof fn lemma_encode_decode(b: Seq<u8>)
    requires
        b.len() == 10,
        extended_of(b) is Ok,
    ensures
        encoding_of(fields_of(b)) == b,
{
    let s = be64(b, 2);
    reveal_with_fuel(shr8, 8);
    let q7 = b[2] as int;
    let q6 = q7 * 256 + b[3];
    let q5 = q6 * 256 + b[4];
    let q4 = q5 * 256 + b[5];
    let q3 = q4 * 256 + b[6];
    let q2 = q3 * 256 + b[7];
    let q1 = q2 * 256 + b[8];
    assert(s == q1 * 256 + b[9]);
    lemma_fundamental_div_mod_converse(s, 256, q1, b[9] as int);
    lemma_fundamental_div_mod_converse(q1, 256, q2, b[8] as int);
    lemma_fundamental_div_mod_converse(q2, 256, q3, b[7] as int);
    lemma_fundamental_div_mod_converse(q3, 256, q4, b[6] as int);
    lemma_fundamental_div_mod_converse(q4, 256, q5, b[5] as int);
    lemma_fundamental_div_mod_converse(q5, 256, q6, b[4] as int);
    lemma_fundamental_div_mod_converse(q6, 256, q7, b[3] as int);
    lemma_fundamental_div_mod_converse(q7, 256, 0, b[2] as int);
    let e = fields_of(b);
    assert(e.exponent / 256 == b[0] % 0x80);
    assert(encoding_of(e) =~= b);
}

} // verus!
