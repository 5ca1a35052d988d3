//! Specification of the consensus wire format for fixed-width little-endian
//! integers and the variable-width CompactSize integer.
//!
//! Encoding functions give the exact byte sequence a value serializes to;
//! decoding functions consume a prefix of a byte sequence and return the
//! value together with the remaining suffix.  Round-trip lemmas connect the
//! two directions.

use vstd::prelude::*;

verus! {

use vstd::arithmetic::div_mod::{
    lemma_fundamental_div_mod,
    lemma_fundamental_div_mod_converse,
    lemma_div_denominator,
    lemma_small_mod,
};

// ---------------------------------------------------------------------------
// Little-endian encodings of fixed-width integers.
// ---------------------------------------------------------------------------

pub open spec fn enc_u8(v: u8) -> Seq<u8> {
    seq![v]
}

pub open spec fn enc_u16(v: u16) -> Seq<u8> {
    seq![(v % 256) as u8, (v / 256) as u8]
}

pub open spec fn enc_u32(v: u32) -> Seq<u8> {
    seq![
        (v % 256) as u8,
        ((v / 256) % 256) as u8,
        ((v / 65536) % 256) as u8,
        ((v / 16777216) % 256) as u8,
    ]
}

pub open spec fn enc_u64(v: u64) -> Seq<u8> {
    seq![
        (v % 256) as u8,
        ((v / 256) % 256) as u8,
        ((v / 65536) % 256) as u8,
        ((v / 16777216) % 256) as u8,
        ((v / 4294967296) % 256) as u8,
        ((v / 1099511627776) % 256) as u8,
        ((v / 281474976710656) % 256) as u8,
        ((v / 72057594037927936) % 256) as u8,
    ]
}

// ---------------------------------------------------------------------------
// Little-endian decodings: value of a prefix, plus the remaining suffix.
// ---------------------------------------------------------------------------

pub open spec fn dec_u8(b: Seq<u8>) -> Option<(u8, Seq<u8>)> {
    if b.len() >= 1 {
        Some((b[0], b.skip(1)))
    } else {
        None
    }
}

pub open spec fn dec_u16(b: Seq<u8>) -> Option<(u16, Seq<u8>)> {
    if b.len() >= 2 {
        Some(((b[0] + 256 * b[1]) as u16, b.skip(2)))
    } else {
        None
    }
}

pub open spec fn dec_u32(b: Seq<u8>) -> Option<(u32, Seq<u8>)> {
    if b.len() >= 4 {
        Some(((b[0] + 256 * b[1] + 65536 * b[2] + 16777216 * b[3]) as u32, b.skip(4)))
    } else {
        None
    }
}

pub open spec fn dec_u64(b: Seq<u8>) -> Option<(u64, Seq<u8>)> {
    if b.len() >= 8 {
        Some((
            (b[0] + 256 * b[1] + 65536 * b[2] + 16777216 * b[3] + 4294967296 * b[4]
                + 1099511627776 * b[5] + 281474976710656 * b[6] + 72057594037927936 * b[7]) as u64,
            b.skip(8),
        ))
    } else {
        None
    }
}

// ---------------------------------------------------------------------------
// CompactSize: minimal-width encoding, width-tolerant decoding.
// ---------------------------------------------------------------------------

/// The minimal-width wire form of a CompactSize value.
pub open spec fn enc_compact(v: u64) -> Seq<u8> {
    if v <= 252 {
        seq![v as u8]
    } else if v <= 65535 {
        seq![253u8] + enc_u16(v as u16)
    } else if v <= 4294967295 {
        seq![254u8] + enc_u32(v as u32)
    } else {
        seq![255u8] + enc_u64(v)
    }
}

/// Reads a CompactSize: a discriminant byte, then 0, 2, 4 or 8 payload
/// bytes.  All four width classes are accepted, minimal or not.
pub open spec fn dec_compact(b: Seq<u8>) -> Option<(u64, Seq<u8>)> {
    if b.len() < 1 {
        None
    } else if b[0] == 253 {
        match dec_u16(b.skip(1)) {
            Some((v, rest)) => Some((v as u64, rest)),
            None => None,
        }
    } else if b[0] == 254 {
        match dec_u32(b.skip(1)) {
            Some((v, rest)) => Some((v as u64, rest)),
            None => None,
        }
    } else if b[0] == 255 {
        match dec_u64(b.skip(1)) {
            Some((v, rest)) => Some((v, rest)),
            None => None,
        }
    } else {
        Some((b[0] as u64, b.skip(1)))
    }
}

// ---------------------------------------------------------------------------
// Round-trip lemmas: decoding an encoding yields the value back and leaves
// exactly the suffix that followed it.
// ---------------------------------------------------------------------------

pub proof fn lemma_dec_enc_u16(v: u16, rest: Seq<u8>)
    ensures
        dec_u16(enc_u16(v) + rest) == Some((v, rest)),
{
    lemma_fundamental_div_mod(v as int, 256);
    assert((enc_u16(v) + rest).skip(2) =~= rest);
}

pub proof fn lemma_dec_enc_u32(v: u32, rest: Seq<u8>)
    ensures
        dec_u32(enc_u32(v) + rest) == Some((v, rest)),
{
    lemma_fundamental_div_mod(v as int, 256);
    lemma_fundamental_div_mod(v as int / 256, 256);
    lemma_div_denominator(v as int, 256, 256);
    lemma_fundamental_div_mod(v as int / 65536, 256);
    lemma_div_denominator(v as int, 65536, 256);
    lemma_small_mod((v as int / 16777216) as nat, 256);
    assert((enc_u32(v) + rest).skip(4) =~= rest);
}

pub proof fn lemma_dec_enc_u64(v: u64, rest: Seq<u8>)
    ensures
        dec_u64(enc_u64(v) + rest) == Some((v, rest)),
{
    lemma_fundamental_div_mod(v as int, 256);
    lemma_fundamental_div_mod(v as int / 256, 256);
    lemma_div_denominator(v as int, 256, 256);
    lemma_fundamental_div_mod(v as int / 65536, 256);
    lemma_div_denominator(v as int, 65536, 256);
    lemma_fundamental_div_mod(v as int / 16777216, 256);
    lemma_div_denominator(v as int, 16777216, 256);
    lemma_fundamental_div_mod(v as int / 4294967296, 256);
    lemma_div_denominator(v as int, 4294967296, 256);
    lemma_fundamental_div_mod(v as int / 1099511627776, 256);
    lemma_div_denominator(v as int, 1099511627776, 256);
    lemma_fundamental_div_mod(v as int / 281474976710656, 256);
    lemma_div_denominator(v as int, 281474976710656, 256);
    lemma_small_mod((v as int / 72057594037927936) as nat, 256);
    assert((enc_u64(v) + rest).skip(8) =~= rest);
}

/// The CompactSize codec is a bijection on encodings: decoding the minimal
/// encoding of any 64-bit value yields that value and consumes nothing more.
pub proof fn lemma_dec_enc_compact(v: u64, rest: Seq<u8>)
    ensures
        dec_compact(enc_compact(v) + rest) == Some((v, rest)),
{
    if v <= 252 {
        assert((enc_compact(v) + rest)[0] == v as u8);
        assert((enc_compact(v) + rest).skip(1) =~= rest);
    } else if v <= 65535 {
        assert((enc_compact(v) + rest).skip(1) =~= enc_u16(v as u16) + rest);
        lemma_dec_enc_u16(v as u16, rest);
    } else if v <= 4294967295 {
        assert((enc_compact(v) + rest).skip(1) =~= enc_u32(v as u32) + rest);
        lemma_dec_enc_u32(v as u32, rest);
    } else {
        assert((enc_compact(v) + rest).skip(1) =~= enc_u64(v) + rest);
        lemma_dec_enc_u64(v, rest);
    }
}

/// CompactSize encoding always selects the narrowest width class: one byte
/// up to 252, three up to 65535, five up to 4294967295, nine beyond.
pub proof fn lemma_enc_compact_minimal_width(v: u64)
    ensures
        v <= 252 ==> enc_compact(v).len() == 1,
        253 <= v <= 65535 ==> enc_compact(v).len() == 3,
        65536 <= v <= 4294967295 ==> enc_compact(v).len() == 5,
        v >= 4294967296 ==> enc_compact(v).len() == 9,
{
}

// ---------------------------------------------------------------------------
// Converse round trip: re-encoding a decoded value reproduces the bytes it
// was decoded from, bit for bit.
// ---------------------------------------------------------------------------

pub proof fn lemma_enc_dec_u16(b: Seq<u8>, v: u16, rest: Seq<u8>)
    requires
        dec_u16(b) == Some((v, rest)),
    ensures
        b == enc_u16(v) + rest,
{
    lemma_fundamental_div_mod_converse(v as int, 256, b[1] as int, b[0] as int);
    assert(b =~= enc_u16(v) + rest);
}

pub proof fn lemma_enc_dec_u32(b: Seq<u8>, v: u32, rest: Seq<u8>)
    requires
        dec_u32(b) == Some((v, rest)),
    ensures
        b == enc_u32(v) + rest,
{
    let q1 = b[1] + 256 * b[2] + 65536 * b[3];
    let q2 = b[2] + 256 * b[3];
    lemma_fundamental_div_mod_converse(v as int, 256, q1, b[0] as int);
    lemma_fundamental_div_mod_converse(q1, 256, q2, b[1] as int);
    lemma_div_denominator(v as int, 256, 256);
    lemma_fundamental_div_mod_converse(q2, 256, b[3] as int, b[2] as int);
    lemma_div_denominator(v as int, 65536, 256);
    lemma_small_mod(b[3] as nat, 256);
    assert(b =~= enc_u32(v) + rest);
}

pub proof fn lemma_enc_dec_u64(b: Seq<u8>, v: u64, rest: Seq<u8>)
    requires
        dec_u64(b) == Some((v, rest)),
    ensures
        b == enc_u64(v) + rest,
{
    let q1 = b[1] + 256 * b[2] + 65536 * b[3] + 16777216 * b[4] + 4294967296 * b[5]
        + 1099511627776 * b[6] + 281474976710656 * b[7];
    let q2 = b[2] + 256 * b[3] + 65536 * b[4] + 16777216 * b[5] + 4294967296 * b[6]
        + 1099511627776 * b[7];
    let q3 = b[3] + 256 * b[4] + 65536 * b[5] + 16777216 * b[6] + 4294967296 * b[7];
    let q4 = b[4] + 256 * b[5] + 65536 * b[6] + 16777216 * b[7];
    let q5 = b[5] + 256 * b[6] + 65536 * b[7];
    let q6 = b[6] + 256 * b[7];
    lemma_fundamental_div_mod_converse(v as int, 256, q1, b[0] as int);
    lemma_fundamental_div_mod_converse(q1, 256, q2, b[1] as int);
    lemma_div_denominator(v as int, 256, 256);
    lemma_fundamental_div_mod_converse(q2, 256, q3, b[2] as int);
    lemma_div_denominator(v as int, 65536, 256);
    lemma_fundamental_div_mod_converse(q3, 256, q4, b[3] as int);
    lemma_div_denominator(v as int, 16777216, 256);
    lemma_fundamental_div_mod_converse(q4, 256, q5, b[4] as int);
    lemma_div_denominator(v as int, 4294967296, 256);
    lemma_fundamental_div_mod_converse(q5, 256, q6, b[5] as int);
    lemma_div_denominator(v as int, 1099511627776, 256);
    lemma_fundamental_div_mod_converse(q6, 256, b[7] as int, b[6] as int);
    lemma_div_denominator(v as int, 281474976710656, 256);
    lemma_small_mod(b[7] as nat, 256);
    assert(b =~= enc_u64(v) + rest);
}

/// Whether a CompactSize prefix is in minimal form: a wide discriminant is
/// only used for a value that does not fit the next narrower class.
pub open spec fn compact_prefix_minimal(b: Seq<u8>) -> bool {
    b.len() >= 1 ==> {
        &&& (b[0] == 253 ==> (dec_u16(b.skip(1)) matches Some(p) ==> p.0 > 252))
        &&& (b[0] == 254 ==> (dec_u32(b.skip(1)) matches Some(p) ==> p.0 > 65535))
        &&& (b[0] == 255 ==> (dec_u64(b.skip(1)) matches Some(p) ==> p.0 > 4294967295))
    }
}

/// Re-encoding a value decoded from a minimal CompactSize prefix reproduces
/// the consumed bytes exactly: together with `lemma_dec_enc_compact` the
/// codec is a bijection between values and minimal prefixes.
pub proof fn lemma_enc_dec_compact(b: Seq<u8>, v: u64, rest: Seq<u8>)
    requires
        dec_compact(b) == Some((v, rest)),
        compact_prefix_minimal(b),
    ensures
        b == enc_compact(v) + rest,
{
    if b[0] == 253 {
        let (x, r) = dec_u16(b.skip(1))->Some_0;
        lemma_enc_dec_u16(b.skip(1), x, r);
        assert(b =~= seq![253u8] + b.skip(1));
        assert(b =~= enc_compact(v) + rest);
    } else if b[0] == 254 {
        let (x, r) = dec_u32(b.skip(1))->Some_0;
        lemma_enc_dec_u32(b.skip(1), x, r);
        assert(b =~= seq![254u8] + b.skip(1));
        assert(b =~= enc_compact(v) + rest);
    } else if b[0] == 255 {
        let (x, r) = dec_u64(b.skip(1))->Some_0;
        lemma_enc_dec_u64(b.skip(1), x, r);
        assert(b =~= seq![255u8] + b.skip(1));
        assert(b =~= enc_compact(v) + rest);
    } else {
        assert(b =~= enc_compact(v) + rest);
    }
}

} // verus!
