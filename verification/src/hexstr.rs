//! Hex text representation of opaque byte strings.
//!
//! Scripts and identifiers are carried as hex-encoded text.  The spec
//! functions here fix the meaning of that text exactly; the executable
//! conversions are delegated to the `hex` crate through trusted wrappers
//! whose contracts are stated over these spec functions.

use vstd::prelude::*;

verus! {

use vstd::arithmetic::div_mod::lemma_fundamental_div_mod_converse;
use crate::transaction::Error;

/// A character that hex decoding accepts, in either case.
pub open spec fn is_hex_digit(c: char) -> bool {
    ('0' <= c && c <= '9') || ('a' <= c && c <= 'f') || ('A' <= c && c <= 'F')
}

/// A character that hex encoding produces: digits and lowercase letters only.
pub open spec fn is_lower_hex_digit(c: char) -> bool {
    ('0' <= c && c <= '9') || ('a' <= c && c <= 'f')
}

/// Text that hex decoding accepts: an even number of hex digits.
pub open spec fn valid_hex(s: Seq<char>) -> bool {
    s.len() % 2 == 0 && forall|i: int| 0 <= i < s.len() ==> is_hex_digit(#[trigger] s[i])
}

/// Text in the exact form hex encoding produces.
pub open spec fn canonical_hex(s: Seq<char>) -> bool {
    s.len() % 2 == 0 && forall|i: int| 0 <= i < s.len() ==> is_lower_hex_digit(#[trigger] s[i])
}

/// The numeric value of one hex digit (zero on other characters).
pub open spec fn hex_val(c: char) -> u8 {
    if '0' <= c && c <= '9' {
        (c as int - 48) as u8
    } else if 'a' <= c && c <= 'f' {
        (c as int - 87) as u8
    } else if 'A' <= c && c <= 'F' {
        (c as int - 55) as u8
    } else {
        0u8
    }
}

/// The lowercase hex digit for a nibble below 16.
pub open spec fn hex_char(n: u8) -> char {
    if n < 10 {
        ((n + 48) as u8) as char
    } else {
        ((n + 87) as u8) as char
    }
}

/// The bytes a hex text stands for: one byte per digit pair.
pub open spec fn hex_bytes(s: Seq<char>) -> Seq<u8> {
    Seq::new((s.len() / 2) as nat, |i: int| (16 * hex_val(s[2 * i]) + hex_val(s[2 * i + 1])) as u8)
}

/// The lowercase hex text for a byte sequence: two digits per byte.
pub open spec fn hex_of(b: Seq<u8>) -> Seq<char> {
    Seq::new(
        (2 * b.len()) as nat,
        |i: int| if i % 2 == 0 {
            hex_char(b[i / 2] / 16)
        } else {
            hex_char(b[i / 2] % 16)
        },
    )
}

/// Hex encoding produces canonical hex text of twice the byte length.
pub proof fn lemma_hex_of_canonical(b: Seq<u8>)
    ensures
        canonical_hex(hex_of(b)),
        valid_hex(hex_of(b)),
        hex_of(b).len() == 2 * b.len(),
{
    assert forall|i: int| 0 <= i < hex_of(b).len() implies is_lower_hex_digit(
        #[trigger] hex_of(b)[i],
    ) by {
        let n = if i % 2 == 0 {
            b[i / 2] / 16
        } else {
            b[i / 2] % 16
        };
        assert(n < 16);
        assert(is_lower_hex_digit(hex_char(n)));
    }
    assert forall|i: int| 0 <= i < hex_of(b).len() implies is_hex_digit(
        #[trigger] hex_of(b)[i],
    ) by {
        assert(is_lower_hex_digit(hex_of(b)[i]));
    }
}

/// Decoding the hex text of a byte sequence gives the bytes back.
pub proof fn lemma_hex_bytes_of_hex_of(b: Seq<u8>)
    ensures
        hex_bytes(hex_of(b)) == b,
{
    assert forall|i: int| 0 <= i < b.len() implies hex_bytes(hex_of(b))[i] == b[i] by {
        let hi = b[i] / 16;
        let lo = b[i] % 16;
        assert(hex_of(b)[2 * i] == hex_char(hi));
        assert(hex_of(b)[2 * i + 1] == hex_char(lo));
        assert(hex_val(hex_char(hi)) == hi);
        assert(hex_val(hex_char(lo)) == lo);
        assert(16 * hi + lo == b[i]);
    }
    assert(hex_bytes(hex_of(b)) =~= b);
}

/// Re-encoding the bytes of canonical hex text gives the text back.
pub proof fn lemma_hex_of_hex_bytes(s: Seq<char>)
    requires
        canonical_hex(s),
    ensures
        hex_of(hex_bytes(s)) == s,
{
    assert forall|i: int| 0 <= i < s.len() implies hex_of(hex_bytes(s))[i] == s[i] by {
        let j = i / 2;
        let hi = hex_val(s[2 * j]);
        let lo = hex_val(s[2 * j + 1]);
        assert(hi < 16 && lo < 16);
        let byte = hex_bytes(s)[j];
        assert(byte == 16 * hi + lo);
        lemma_fundamental_div_mod_converse(byte as int, 16, hi as int, lo as int);
        assert(byte / 16 == hi && byte % 16 == lo);
        if i % 2 == 0 {
            assert(2 * j == i);
            assert(is_lower_hex_digit(s[i]));
            assert(hex_char(hi) == s[i]);
        } else {
            assert(2 * j + 1 == i);
            assert(is_lower_hex_digit(s[i]));
            assert(hex_char(lo) == s[i]);
        }
    }
    assert(hex_of(hex_bytes(s)) =~= s);
}

/// Relies on `hex::encode`: two lowercase hex digits per input byte, in
/// input order.
#[verifier::external_body]
pub fn hex_encode_bytes(b: &Vec<u8>) -> (r: String)
    ensures
        r@ == hex_of(b@),
{
    hex::encode(b)
}

/// Relies on `hex::decode`: accepts an even number of hex digits of either
/// case, returns the corresponding bytes, and rejects all other text.
#[verifier::external_body]
pub fn hex_decode_text(s: &String) -> (r: Result<Vec<u8>, Error>)
    ensures
        r is Ok <==> valid_hex(s@),
        r is Ok ==> r->Ok_0@ == hex_bytes(s@),
        r is Err ==> r->Err_0 == Error::HexDecodeError,
{
    match hex::decode(s.as_str()) {
        Ok(v) => Ok(v),
        Err(_) => Err(Error::HexDecodeError),
    }
}

} // verus!
