//! Decoder for raw Bitcoin transactions.
//!
//! The crate parses a raw transaction byte stream (legacy or segregated
//! witness) into a structured [`transaction::Transaction`], re-encodes the
//! canonical witness-excluded form, and computes the double-SHA-256
//! transaction identifier.

use vstd::prelude::*;

pub mod cursor;
pub mod hashing;
pub mod hexstr;
pub mod props;
pub mod transaction;
pub mod wire;

verus! {

use crate::hexstr::{valid_hex, hex_bytes, hex_decode_text};
use crate::transaction::{Transaction, Error, Decodable, SpecTxResult, spec_tx_decode, tx_encodable};
use crate::props::lemma_parsed_encodable;
use crate::cursor::Cursor;

/// Decodes a hex-encoded raw transaction string into a [`Transaction`].
///
/// The hex text is converted to bytes first; the structural decoder then
/// consumes those bytes from the front.  Trailing bytes after a complete
/// transaction are ignored, as they are by the wire decoder itself.
/// A decoded transaction is always encodable, so its identifier can be
/// computed.
pub fn decode(raw_transaction_hex: String) -> (res: Result<Transaction, Error>)
    ensures
        !valid_hex(raw_transaction_hex@) ==> res == Err::<Transaction, Error>(Error::HexDecodeError),
        res is Ok ==> tx_encodable(res->Ok_0@),
        valid_hex(raw_transaction_hex@) ==> match spec_tx_decode(hex_bytes(raw_transaction_hex@)) {
            SpecTxResult::Parsed(t, _) => res is Ok && res->Ok_0@ == t,
            SpecTxResult::Short => res == Err::<Transaction, Error>(Error::TruncatedInput),
            SpecTxResult::WrongFlag(flag, _) => res == Err::<Transaction, Error>(
                Error::UnsupportedSegwitFlag(flag),
            ),
            SpecTxResult::NoWitnessData => res is Err && (res->Err_0 matches Error::ParseFailed(
                m,
            ) && m@ == "witness flag set but no witnesses present"@),
        },
{
    let bytes = match hex_decode_text(&raw_transaction_hex) {
        Ok(b) => b,
        Err(e) => {
            return Err(e);
        },
    };
    let mut reader = Cursor::new(bytes);
    let res = Transaction::consensus_decode(&mut reader);
    proof {
        match spec_tx_decode(hex_bytes(raw_transaction_hex@)) {
            SpecTxResult::Parsed(t, rest) => lemma_parsed_encodable(
                hex_bytes(raw_transaction_hex@),
                t,
                rest,
            ),
            _ => {},
        }
    }
    res
}

} // verus!
