//! Transaction entities, their wire codec, and identifier computation.
//!
//! The spec model mirrors the consensus encoding: `spec_tx_encode` gives the
//! canonical witness-excluded byte form, `spec_tx_decode` gives the meaning
//! of a raw byte stream, legacy or segwit.  The executable codec is verified
//! against both.

use vstd::prelude::*;

verus! {

use crate::cursor::Cursor;
use crate::hashing::{sha256, sha256_of};
use crate::hexstr::{
    hex_bytes,
    hex_decode_text,
    hex_encode_bytes,
    hex_of,
    valid_hex,
};
use crate::wire::{
    dec_compact,
    dec_u16,
    dec_u32,
    dec_u64,
    dec_u8,
    enc_compact,
    enc_u16,
    enc_u32,
    enc_u64,
    enc_u8,
};

// ---------------------------------------------------------------------------
// Errors
// ---------------------------------------------------------------------------

/// A failure of the decode pipeline.  The first failure aborts the whole
/// decode; no partial transaction is ever returned.
#[derive(Debug, Clone, Copy, PartialEq, Eq)]
pub enum Error {
    /// Fewer bytes remain than a field requires.
    TruncatedInput,
    /// Every field was readable but the content is structurally invalid.
    ParseFailed(&'static str),
    /// A segwit marker was read but the flag byte is not the one supported
    /// value; the unsupported value is carried along.
    UnsupportedSegwitFlag(u8),
    /// The outer hex-encoded argument is not valid hex.
    HexDecodeError,
}

impl Error {
    /// A human-readable description, mirroring the wording of the decoder's
    /// diagnostics.
    pub fn kind_message(&self) -> (r: &'static str)
        ensures
            self is TruncatedInput ==> r@ == "unexpected end of input"@,
            self is ParseFailed ==> r == self->ParseFailed_0,
            self is UnsupportedSegwitFlag ==> r@ == "unsupported segwit version"@,
            self is HexDecodeError ==> r@ == "hex decode error"@,
    {
        match self {
            Error::TruncatedInput => "unexpected end of input",
            Error::ParseFailed(s) => s,
            Error::UnsupportedSegwitFlag(_) => "unsupported segwit version",
            Error::HexDecodeError => "hex decode error",
        }
    }
}

// ---------------------------------------------------------------------------
// Spec views of the transaction entities
// ---------------------------------------------------------------------------

pub ghost struct SpecTxIn {
    pub previous_txid: Seq<u8>,
    pub previous_vout: u32,
    pub script_sig: Seq<char>,
    pub sequence: u32,
    pub witness: Seq<Seq<u8>>,
}

pub ghost struct SpecTxOut {
    pub amount: u64,
    pub script_pubkey: Seq<char>,
}

pub ghost struct SpecTransaction {
    pub version: u32,
    pub inputs: Seq<SpecTxIn>,
    pub outputs: Seq<SpecTxOut>,
    pub lock_time: u32,
}

// ---------------------------------------------------------------------------
// Exec types
// ---------------------------------------------------------------------------

/// A transaction version number.
#[derive(Debug)]
pub struct Version(pub u32);

/// A variable-width integer used for lengths and counts.
#[derive(Debug)]
pub struct CompactSize(pub u64);

/// An output value in integer satoshi units.
#[derive(Debug)]
pub struct Amount(u64);

impl View for Amount {
    type V = u64;

    closed spec fn view(&self) -> u64 {
        self.0
    }
}

impl Amount {
    pub fn from_sat(satoshi: u64) -> (r: Amount)
        ensures
            r@ == satoshi,
    {
        Amount(satoshi)
    }

    /// The stored satoshi count, exact and lossless.
    pub fn to_sat(&self) -> (r: u64)
        ensures
            r == self@,
    {
        self.0
    }
}

/// A 32-byte content-derived identifier, kept in internal (hash output)
/// byte order.  Reversal happens only at the display boundary.
#[derive(Debug)]
pub struct Txid(Vec<u8>);

impl View for Txid {
    type V = Seq<u8>;

    closed spec fn view(&self) -> Seq<u8> {
        self.0@
    }
}

impl Txid {
    /// An identifier always holds exactly 32 bytes.
    pub open spec fn wf(&self) -> bool {
        self@.len() == 32
    }

    pub fn from_bytes(bytes: [u8; 32]) -> (r: Txid)
        ensures
            r@ == bytes@,
            r.wf(),
    {
        let mut content: Vec<u8> = Vec::new();
        let mut i: usize = 0;
        while i < 32
            invariant
                i <= 32,
                content@ =~= bytes@.take(i as int),
            decreases 32 - i,
        {
            content.push(bytes[i]);
            i = i + 1;
            proof {
                assert(content@ =~= bytes@.take(i as int));
            }
        }
        proof {
            assert(bytes@.take(32) =~= bytes@);
        }
        Txid(content)
    }

    /// The double-SHA-256 of the given bytes, in internal order.
    fn new(data: Vec<u8>) -> (r: Txid)
        ensures
            r@ == sha256_of(sha256_of(data@)),
            r.wf(),
    {
        let first = sha256(&data);
        let second = sha256(&first);
        Txid(second)
    }

    /// The display form: the 32 bytes reversed, hex-encoded.  Purely a
    /// display convention; comparisons use the internal order.
    pub fn display_hex(&self) -> (r: String)
        requires
            self.wf(),
        ensures
            r@ == hex_of(self@.reverse()),
    {
        let mut reversed: Vec<u8> = Vec::new();
        let mut i: usize = 0;
        while i < 32
            invariant
                self.wf(),
                i <= 32,
                reversed@.len() == i,
                forall|j: int| 0 <= j < i ==> reversed@[j] == self@[31 - j],
            decreases 32 - i,
        {
            reversed.push(self.0[31 - i]);
            i = i + 1;
        }
        proof {
            assert(reversed@ =~= self@.reverse());
        }
        hex_encode_bytes(&reversed)
    }
}

/// A per-input stack of opaque byte strings, present only on segwit inputs.
#[derive(Debug)]
pub struct Witness {
    content: Vec<Vec<u8>>,
}

impl View for Witness {
    type V = Seq<Seq<u8>>;

    closed spec fn view(&self) -> Seq<Seq<u8>> {
        Seq::new(self.content@.len(), |i: int| self.content@[i]@)
    }
}

impl Witness {
    pub fn new() -> (r: Witness)
        ensures
            r@ == Seq::<Seq<u8>>::empty(),
    {
        let r = Witness { content: Vec::new() };
        proof {
            assert(r@ =~= Seq::<Seq<u8>>::empty());
        }
        r
    }

    /// Whether the stack holds no items at all.
    pub fn is_empty(&self) -> (r: bool)
        ensures
            r == (self@.len() == 0),
    {
        self.content.is_empty()
    }

    /// The stack items, outermost first.
    pub fn items(&self) -> (r: &Vec<Vec<u8>>)
        ensures
            r@.len() == self@.len(),
            forall|i: int| 0 <= i < r@.len() ==> r@[i]@ == self@[i],
    {
        &self.content
    }
}

/// A transaction input; the witness stack is empty unless the segwit path
/// attached one.
#[derive(Debug)]
pub struct TxIn {
    pub previous_txid: Txid,
    pub previous_vout: u32,
    pub script_sig: String,
    pub sequence: u32,
    pub witness: Witness,
}

impl View for TxIn {
    type V = SpecTxIn;

    open spec fn view(&self) -> SpecTxIn {
        SpecTxIn {
            previous_txid: self.previous_txid@,
            previous_vout: self.previous_vout,
            script_sig: self.script_sig@,
            sequence: self.sequence,
            witness: self.witness@,
        }
    }
}

/// A transaction output.
#[derive(Debug)]
pub struct TxOut {
    pub amount: Amount,
    pub script_pubkey: String,
}

impl View for TxOut {
    type V = SpecTxOut;

    open spec fn view(&self) -> SpecTxOut {
        SpecTxOut { amount: self.amount@, script_pubkey: self.script_pubkey@ }
    }
}

/// A fully decoded transaction, immutable once constructed.
#[derive(Debug)]
pub struct Transaction {
    pub version: Version,
    pub inputs: Vec<TxIn>,
    pub outputs: Vec<TxOut>,
    pub lock_time: u32,
}

pub open spec fn txins_view(s: Seq<TxIn>) -> Seq<SpecTxIn> {
    Seq::new(s.len(), |i: int| s[i]@)
}

pub open spec fn txouts_view(s: Seq<TxOut>) -> Seq<SpecTxOut> {
    Seq::new(s.len(), |i: int| s[i]@)
}

impl View for Transaction {
    type V = SpecTransaction;

    open spec fn view(&self) -> SpecTransaction {
        SpecTransaction {
            version: self.version.0,
            inputs: txins_view(self.inputs@),
            outputs: txouts_view(self.outputs@),
            lock_time: self.lock_time,
        }
    }
}

// ---------------------------------------------------------------------------
// Spec encoding: the canonical witness-excluded serialization
// ---------------------------------------------------------------------------

/// A length-prefixed byte string carried as hex text.
pub open spec fn enc_script(s: Seq<char>) -> Seq<u8> {
    enc_compact((s.len() / 2) as u64) + hex_bytes(s)
}

pub open spec fn enc_txin(i: SpecTxIn) -> Seq<u8> {
    i.previous_txid + enc_u32(i.previous_vout) + enc_script(i.script_sig) + enc_u32(i.sequence)
}

pub open spec fn enc_txins(s: Seq<SpecTxIn>) -> Seq<u8>
    decreases s.len(),
{
    if s.len() == 0 {
        Seq::empty()
    } else {
        enc_txin(s[0]) + enc_txins(s.skip(1))
    }
}

pub open spec fn enc_txout(o: SpecTxOut) -> Seq<u8> {
    enc_u64(o.amount) + enc_script(o.script_pubkey)
}

pub open spec fn enc_txouts(s: Seq<SpecTxOut>) -> Seq<u8>
    decreases s.len(),
{
    if s.len() == 0 {
        Seq::empty()
    } else {
        enc_txout(s[0]) + enc_txouts(s.skip(1))
    }
}

/// The canonical encoding: version, count-prefixed inputs (without witness
/// data), count-prefixed outputs, locktime.  This is the only encoding path;
/// its sole purpose is feeding identifier computation.
pub open spec fn spec_tx_encode(t: SpecTransaction) -> Seq<u8> {
    enc_u32(t.version) + enc_compact(t.inputs.len() as u64) + enc_txins(t.inputs) + enc_compact(
        t.outputs.len() as u64,
    ) + enc_txouts(t.outputs) + enc_u32(t.lock_time)
}

/// The identifier: the double SHA-256 of the canonical encoding.
pub open spec fn spec_txid_of(t: SpecTransaction) -> Seq<u8> {
    sha256_of(sha256_of(spec_tx_encode(t)))
}

// ---------------------------------------------------------------------------
// Spec well-formedness: what the canonical encoder requires
// ---------------------------------------------------------------------------

pub open spec fn txin_encodable(i: SpecTxIn) -> bool {
    i.previous_txid.len() == 32 && valid_hex(i.script_sig)
}

pub open spec fn txout_encodable(o: SpecTxOut) -> bool {
    valid_hex(o.script_pubkey)
}

pub open spec fn tx_encodable(t: SpecTransaction) -> bool {
    &&& forall|i: int| 0 <= i < t.inputs.len() ==> txin_encodable(#[trigger] t.inputs[i])
    &&& forall|i: int| 0 <= i < t.outputs.len() ==> txout_encodable(#[trigger] t.outputs[i])
    &&& t.inputs.len() <= 0xffff_ffff_ffff_ffff
    &&& t.outputs.len() <= 0xffff_ffff_ffff_ffff
}

// ---------------------------------------------------------------------------
// Spec decoding
// ---------------------------------------------------------------------------

/// A length-prefixed byte string, surfaced as lowercase hex text.
pub open spec fn dec_script(b: Seq<u8>) -> Option<(Seq<char>, Seq<u8>)> {
    match dec_compact(b) {
        Some((n, r)) => if r.len() >= n {
            Some((hex_of(r.take(n as int)), r.skip(n as int)))
        } else {
            None
        },
        None => None,
    }
}

/// Exactly 32 raw bytes, in the order read.
pub open spec fn dec_txid(b: Seq<u8>) -> Option<(Seq<u8>, Seq<u8>)> {
    if b.len() >= 32 {
        Some((b.take(32), b.skip(32)))
    } else {
        None
    }
}

/// One input: previous id, previous index, script-sig, sequence; the
/// witness stack is left empty at this stage.
pub open spec fn dec_txin(b: Seq<u8>) -> Option<(SpecTxIn, Seq<u8>)> {
    match dec_txid(b) {
        Some((txid, r1)) => match dec_u32(r1) {
            Some((vout, r2)) => match dec_script(r2) {
                Some((script, r3)) => match dec_u32(r3) {
                    Some((sequence, r4)) => Some(
                        (
                            SpecTxIn {
                                previous_txid: txid,
                                previous_vout: vout,
                                script_sig: script,
                                sequence: sequence,
                                witness: Seq::empty(),
                            },
                            r4,
                        ),
                    ),
                    None => None,
                },
                None => None,
            },
            None => None,
        },
        None => None,
    }
}

pub open spec fn dec_txins(b: Seq<u8>, n: nat) -> Option<(Seq<SpecTxIn>, Seq<u8>)>
    decreases n,
{
    if n == 0 {
        Some((Seq::empty(), b))
    } else {
        match dec_txin(b) {
            Some((i, r)) => match dec_txins(r, (n - 1) as nat) {
                Some((s, r2)) => Some((seq![i] + s, r2)),
                None => None,
            },
            None => None,
        }
    }
}

/// A count-prefixed input list.
pub open spec fn dec_txin_list(b: Seq<u8>) -> Option<(Seq<SpecTxIn>, Seq<u8>)> {
    match dec_compact(b) {
        Some((n, r)) => dec_txins(r, n as nat),
        None => None,
    }
}

pub open spec fn dec_txout(b: Seq<u8>) -> Option<(SpecTxOut, Seq<u8>)> {
    match dec_u64(b) {
        Some((amount, r1)) => match dec_script(r1) {
            Some((script, r2)) => Some((SpecTxOut { amount: amount, script_pubkey: script }, r2)),
            None => None,
        },
        None => None,
    }
}

pub open spec fn dec_txouts(b: Seq<u8>, n: nat) -> Option<(Seq<SpecTxOut>, Seq<u8>)>
    decreases n,
{
    if n == 0 {
        Some((Seq::empty(), b))
    } else {
        match dec_txout(b) {
            Some((o, r)) => match dec_txouts(r, (n - 1) as nat) {
                Some((s, r2)) => Some((seq![o] + s, r2)),
                None => None,
            },
            None => None,
        }
    }
}

/// A count-prefixed output list.
pub open spec fn dec_txout_list(b: Seq<u8>) -> Option<(Seq<SpecTxOut>, Seq<u8>)> {
    match dec_compact(b) {
        Some((n, r)) => dec_txouts(r, n as nat),
        None => None,
    }
}

/// The items of one witness stack, after its one-byte count was read.
pub open spec fn dec_witness_items(b: Seq<u8>, n: nat) -> Option<(Seq<Seq<u8>>, Seq<u8>)>
    decreases n,
{
    if n == 0 {
        Some((Seq::empty(), b))
    } else {
        match dec_compact(b) {
            Some((len, r)) => if r.len() >= len {
                match dec_witness_items(r.skip(len as int), (n - 1) as nat) {
                    Some((s, r2)) => Some((seq![r.take(len as int)] + s, r2)),
                    None => None,
                }
            } else {
                None
            },
            None => None,
        }
    }
}

/// One witness stack: an 8-bit item count — a structural peculiarity of the
/// witness encoding, not a CompactSize — then that many length-prefixed
/// byte strings.
pub open spec fn dec_witness(b: Seq<u8>) -> Option<(Seq<Seq<u8>>, Seq<u8>)> {
    match dec_u8(b) {
        Some((n, r)) => dec_witness_items(r, n as nat),
        None => None,
    }
}

/// One witness stack per input, in input order.
pub open spec fn dec_witnesses(b: Seq<u8>, n: nat) -> Option<(Seq<Seq<Seq<u8>>>, Seq<u8>)>
    decreases n,
{
    if n == 0 {
        Some((Seq::empty(), b))
    } else {
        match dec_witness(b) {
            Some((w, r)) => match dec_witnesses(r, (n - 1) as nat) {
                Some((s, r2)) => Some((seq![w] + s, r2)),
                None => None,
            },
            None => None,
        }
    }
}

pub open spec fn all_witnesses_empty(w: Seq<Seq<Seq<u8>>>) -> bool {
    forall|i: int| 0 <= i < w.len() ==> #[trigger] w[i].len() == 0
}

pub open spec fn attach_witnesses(inputs: Seq<SpecTxIn>, w: Seq<Seq<Seq<u8>>>) -> Seq<SpecTxIn> {
    Seq::new(
        inputs.len(),
        |i: int| SpecTxIn {
            previous_txid: inputs[i].previous_txid,
            previous_vout: inputs[i].previous_vout,
            script_sig: inputs[i].script_sig,
            sequence: inputs[i].sequence,
            witness: w[i],
        },
    )
}

/// The outcome of one decode pass over a byte stream.
pub ghost enum SpecTxResult {
    /// A well-formed transaction, and the bytes left after it.
    Parsed(SpecTransaction, Seq<u8>),
    /// Some field needed more bytes than remained.
    Short,
    /// A segwit marker followed by an unsupported flag value; carries the
    /// flag and the bytes left unconsumed after it.
    WrongFlag(u8, Seq<u8>),
    /// The witness flag was set but every input's witness stack was empty.
    NoWitnessData,
}

/// The decoder's state machine over a single forward-only byte stream.
pub open spec fn spec_tx_decode(b: Seq<u8>) -> SpecTxResult {
    match dec_u32(b) {
        None => SpecTxResult::Short,
        Some((version, r1)) => match dec_txin_list(r1) {
            None => SpecTxResult::Short,
            Some((first_inputs, r2)) => if first_inputs.len() > 0 {
                // Non-segwit path: outputs and locktime follow directly.
                match dec_txout_list(r2) {
                    None => SpecTxResult::Short,
                    Some((outputs, r3)) => match dec_u32(r3) {
                        None => SpecTxResult::Short,
                        Some((lock_time, r4)) => SpecTxResult::Parsed(
                            SpecTransaction {
                                version: version,
                                inputs: first_inputs,
                                outputs: outputs,
                                lock_time: lock_time,
                            },
                            r4,
                        ),
                    },
                }
            } else {
                // The zero count is a segwit marker; a flag byte follows.
                match dec_u8(r2) {
                    None => SpecTxResult::Short,
                    Some((flag, r3)) => if flag != 1 {
                        SpecTxResult::WrongFlag(flag, r3)
                    } else {
                        match dec_txin_list(r3) {
                            None => SpecTxResult::Short,
                            Some((inputs, r4)) => match dec_txout_list(r4) {
                                None => SpecTxResult::Short,
                                Some((outputs, r5)) => match dec_witnesses(r5, inputs.len()) {
                                    None => SpecTxResult::Short,
                                    Some((stacks, r6)) => if inputs.len() > 0
                                        && all_witnesses_empty(stacks) {
                                        SpecTxResult::NoWitnessData
                                    } else {
                                        match dec_u32(r6) {
                                            None => SpecTxResult::Short,
                                            Some((lock_time, r7)) => SpecTxResult::Parsed(
                                                SpecTransaction {
                                                    version: version,
                                                    inputs: attach_witnesses(inputs, stacks),
                                                    outputs: outputs,
                                                    lock_time: lock_time,
                                                },
                                                r7,
                                            ),
                                        }
                                    },
                                },
                            },
                        }
                    },
                }
            },
        },
    }
}

// ---------------------------------------------------------------------------
// Helper: prepending an already-decoded prefix to a list-decode outcome
// ---------------------------------------------------------------------------

pub open spec fn cons_all<T>(prefix: Seq<T>, o: Option<(Seq<T>, Seq<u8>)>) -> Option<
    (Seq<T>, Seq<u8>),
> {
    match o {
        Some((s, rest)) => Some((prefix + s, rest)),
        None => None,
    }
}

pub proof fn lemma_cons_all_merge<T>(a: Seq<T>, b: Seq<T>, o: Option<(Seq<T>, Seq<u8>)>)
    ensures
        cons_all(a, cons_all(b, o)) == cons_all(a + b, o),
{
    match o {
        Some((s, rest)) => {
            assert(a + (b + s) =~= (a + b) + s);
        },
        None => {},
    }
}

// ---------------------------------------------------------------------------
// Decoding
// ---------------------------------------------------------------------------

/// The decode half of the codec: one pass over a byte cursor.  Every
/// implementation leaves the underlying buffer unchanged and only moves the
/// read position forward.
pub trait Decodable: Sized {
    fn consensus_decode(r: &mut Cursor) -> (res: Result<Self, Error>)
        requires
            old(r).wf(),
        ensures
            final(r).wf(),
            final(r).data() == old(r).data(),
    ;
}

impl Decodable for u8 {
    fn consensus_decode(r: &mut Cursor) -> (res: Result<u8, Error>)
        ensures
            match res {
                Ok(v) => dec_u8(old(r).remaining()) == Some((v, final(r).remaining())),
                Err(e) => dec_u8(old(r).remaining()) is None && e == Error::TruncatedInput,
            },
    {
        r.read_byte()
    }
}

impl Decodable for u16 {
    fn consensus_decode(r: &mut Cursor) -> (res: Result<u16, Error>)
        ensures
            match res {
                Ok(v) => dec_u16(old(r).remaining()) == Some((v, final(r).remaining())),
                Err(e) => dec_u16(old(r).remaining()) is None && e == Error::TruncatedInput,
            },
    {
        let b = match r.read_bytes(2) {
            Ok(b) => b,
            Err(e) => {
                return Err(e);
            },
        };
        Ok((b[0] as u16) + 256 * (b[1] as u16))
    }
}

impl Decodable for u32 {
    fn consensus_decode(r: &mut Cursor) -> (res: Result<u32, Error>)
        ensures
            match res {
                Ok(v) => dec_u32(old(r).remaining()) == Some((v, final(r).remaining())),
                Err(e) => dec_u32(old(r).remaining()) is None && e == Error::TruncatedInput,
            },
    {
        let b = match r.read_bytes(4) {
            Ok(b) => b,
            Err(e) => {
                return Err(e);
            },
        };
        Ok(
            (b[0] as u32) + 256 * (b[1] as u32) + 65536 * (b[2] as u32) + 16777216 * (
            b[3] as u32),
        )
    }
}

impl Decodable for u64 {
    fn consensus_decode(r: &mut Cursor) -> (res: Result<u64, Error>)
        ensures
            match res {
                Ok(v) => dec_u64(old(r).remaining()) == Some((v, final(r).remaining())),
                Err(e) => dec_u64(old(r).remaining()) is None && e == Error::TruncatedInput,
            },
    {
        let b = match r.read_bytes(8) {
            Ok(b) => b,
            Err(e) => {
                return Err(e);
            },
        };
        Ok(
            (b[0] as u64) + 256 * (b[1] as u64) + 65536 * (b[2] as u64) + 16777216 * (b[3] as u64)
                + 4294967296 * (b[4] as u64) + 1099511627776 * (b[5] as u64) + 281474976710656 * (
            b[6] as u64) + 72057594037927936 * (b[7] as u64),
        )
    }
}

impl Decodable for Version {
    fn consensus_decode(r: &mut Cursor) -> (res: Result<Version, Error>)
        ensures
            match res {
                Ok(v) => dec_u32(old(r).remaining()) == Some((v.0, final(r).remaining())),
                Err(e) => dec_u32(old(r).remaining()) is None && e == Error::TruncatedInput,
            },
    {
        match u32::consensus_decode(r) {
            Ok(v) => Ok(Version(v)),
            Err(e) => Err(e),
        }
    }
}

impl Decodable for CompactSize {
    fn consensus_decode(r: &mut Cursor) -> (res: Result<CompactSize, Error>)
        ensures
            match res {
                Ok(v) => dec_compact(old(r).remaining()) == Some((v.0, final(r).remaining())),
                Err(e) => dec_compact(old(r).remaining()) is None && e == Error::TruncatedInput,
            },
    {
        let n = match u8::consensus_decode(r) {
            Ok(n) => n,
            Err(e) => {
                return Err(e);
            },
        };
        match n {
            0xFF => {
                match u64::consensus_decode(r) {
                    Ok(x) => Ok(CompactSize(x)),
                    Err(e) => Err(e),
                }
            },
            0xFE => {
                match u32::consensus_decode(r) {
                    Ok(x) => Ok(CompactSize(x as u64)),
                    Err(e) => Err(e),
                }
            },
            0xFD => {
                match u16::consensus_decode(r) {
                    Ok(x) => Ok(CompactSize(x as u64)),
                    Err(e) => Err(e),
                }
            },
            n => Ok(CompactSize(n as u64)),
        }
    }
}

impl Decodable for String {
    fn consensus_decode(r: &mut Cursor) -> (res: Result<String, Error>)
        ensures
            match res {
                Ok(v) => dec_script(old(r).remaining()) == Some((v@, final(r).remaining())),
                Err(e) => dec_script(old(r).remaining()) is None && e == Error::TruncatedInput,
            },
    {
        let length = match CompactSize::consensus_decode(r) {
            Ok(l) => l,
            Err(e) => {
                return Err(e);
            },
        };
        let avail = r.remaining_len();
        if length.0 > avail as u64 {
            return Err(Error::TruncatedInput);
        }
        let buffer = match r.read_bytes(length.0 as usize) {
            Ok(b) => b,
            Err(e) => {
                return Err(e);
            },
        };
        Ok(hex_encode_bytes(&buffer))
    }
}

impl Decodable for Txid {
    fn consensus_decode(r: &mut Cursor) -> (res: Result<Txid, Error>)
        ensures
            match res {
                Ok(v) => dec_txid(old(r).remaining()) == Some((v@, final(r).remaining()))
                    && v.wf(),
                Err(e) => dec_txid(old(r).remaining()) is None && e == Error::TruncatedInput,
            },
    {
        let buffer = match r.read_bytes(32) {
            Ok(b) => b,
            Err(e) => {
                return Err(e);
            },
        };
        Ok(Txid(buffer))
    }
}

impl Decodable for TxIn {
    fn consensus_decode(r: &mut Cursor) -> (res: Result<TxIn, Error>)
        ensures
            match res {
                Ok(v) => dec_txin(old(r).remaining()) == Some((v@, final(r).remaining())),
                Err(e) => dec_txin(old(r).remaining()) is None && e == Error::TruncatedInput,
            },
    {
        let previous_txid = match Txid::consensus_decode(r) {
            Ok(t) => t,
            Err(e) => {
                return Err(e);
            },
        };
        let previous_vout = match u32::consensus_decode(r) {
            Ok(v) => v,
            Err(e) => {
                return Err(e);
            },
        };
        let script_sig = match String::consensus_decode(r) {
            Ok(s) => s,
            Err(e) => {
                return Err(e);
            },
        };
        let sequence = match u32::consensus_decode(r) {
            Ok(v) => v,
            Err(e) => {
                return Err(e);
            },
        };
        Ok(TxIn { previous_txid, previous_vout, script_sig, sequence, witness: Witness::new() })
    }
}

impl Decodable for Vec<TxIn> {
    fn consensus_decode(r: &mut Cursor) -> (res: Result<Vec<TxIn>, Error>)
        ensures
            match res {
                Ok(v) => dec_txin_list(old(r).remaining()) == Some(
                    (txins_view(v@), final(r).remaining()),
                ),
                Err(e) => dec_txin_list(old(r).remaining()) is None && e == Error::TruncatedInput,
            },
    {
        let len = match CompactSize::consensus_decode(r) {
            Ok(l) => l,
            Err(e) => {
                return Err(e);
            },
        };
        let count = len.0;
        let ghost mid = r.remaining();
        let mut ret: Vec<TxIn> = Vec::new();
        let mut k: u64 = 0;
        while k < count
            invariant
                r.wf(),
                r.data() == old(r).data(),
                k <= count,
                txins_view(ret@).len() == k as int,
                dec_txin_list(old(r).remaining()) == dec_txins(mid, count as nat),
                dec_txins(mid, count as nat) == cons_all(
                    txins_view(ret@),
                    dec_txins(r.remaining(), (count - k) as nat),
                ),
            decreases count - k,
        {
            let ghost cur = r.remaining();
            let ghost prefix = txins_view(ret@);
            let txin = match TxIn::consensus_decode(r) {
                Ok(t) => t,
                Err(e) => {
                    return Err(e);
                },
            };
            ret.push(txin);
            k = k + 1;
            proof {
                assert(dec_txins(cur, (count - k + 1) as nat) == cons_all(
                    seq![txin@],
                    dec_txins(r.remaining(), (count - k) as nat),
                ));
                lemma_cons_all_merge(
                    prefix,
                    seq![txin@],
                    dec_txins(r.remaining(), (count - k) as nat),
                );
                assert(txins_view(ret@) =~= prefix + seq![txin@]);
            }
        }
        proof {
            assert(txins_view(ret@) + Seq::<SpecTxIn>::empty() =~= txins_view(ret@));
        }
        Ok(ret)
    }
}

impl Decodable for TxOut {
    fn consensus_decode(r: &mut Cursor) -> (res: Result<TxOut, Error>)
        ensures
            match res {
                Ok(v) => dec_txout(old(r).remaining()) == Some((v@, final(r).remaining())),
                Err(e) => dec_txout(old(r).remaining()) is None && e == Error::TruncatedInput,
            },
    {
        let amount = match u64::consensus_decode(r) {
            Ok(v) => Amount::from_sat(v),
            Err(e) => {
                return Err(e);
            },
        };
        let script_pubkey = match String::consensus_decode(r) {
            Ok(s) => s,
            Err(e) => {
                return Err(e);
            },
        };
        Ok(TxOut { amount, script_pubkey })
    }
}

impl Decodable for Vec<TxOut> {
    fn consensus_decode(r: &mut Cursor) -> (res: Result<Vec<TxOut>, Error>)
        ensures
            match res {
                Ok(v) => dec_txout_list(old(r).remaining()) == Some(
                    (txouts_view(v@), final(r).remaining()),
                ),
                Err(e) => dec_txout_list(old(r).remaining()) is None && e == Error::TruncatedInput,
            },
    {
        let len = match CompactSize::consensus_decode(r) {
            Ok(l) => l,
            Err(e) => {
                return Err(e);
            },
        };
        let count = len.0;
        let ghost mid = r.remaining();
        let mut ret: Vec<TxOut> = Vec::new();
        let mut k: u64 = 0;
        while k < count
            invariant
                r.wf(),
                r.data() == old(r).data(),
                k <= count,
                txouts_view(ret@).len() == k as int,
                dec_txout_list(old(r).remaining()) == dec_txouts(mid, count as nat),
                dec_txouts(mid, count as nat) == cons_all(
                    txouts_view(ret@),
                    dec_txouts(r.remaining(), (count - k) as nat),
                ),
            decreases count - k,
        {
            let ghost cur = r.remaining();
            let ghost prefix = txouts_view(ret@);
            let txout = match TxOut::consensus_decode(r) {
                Ok(t) => t,
                Err(e) => {
                    return Err(e);
                },
            };
            ret.push(txout);
            k = k + 1;
            proof {
                assert(dec_txouts(cur, (count - k + 1) as nat) == cons_all(
                    seq![txout@],
                    dec_txouts(r.remaining(), (count - k) as nat),
                ));
                lemma_cons_all_merge(
                    prefix,
                    seq![txout@],
                    dec_txouts(r.remaining(), (count - k) as nat),
                );
                assert(txouts_view(ret@) =~= prefix + seq![txout@]);
            }
        }
        proof {
            assert(txouts_view(ret@) + Seq::<SpecTxOut>::empty() =~= txouts_view(ret@));
        }
        Ok(ret)
    }
}

pub open spec fn vecs_view(s: Seq<Vec<u8>>) -> Seq<Seq<u8>> {
    Seq::new(s.len(), |i: int| s[i]@)
}

impl Decodable for Witness {
    fn consensus_decode(r: &mut Cursor) -> (res: Result<Witness, Error>)
        ensures
            match res {
                Ok(v) => dec_witness(old(r).remaining()) == Some((v@, final(r).remaining())),
                Err(e) => dec_witness(old(r).remaining()) is None && e == Error::TruncatedInput,
            },
    {
        let count = match u8::consensus_decode(r) {
            Ok(n) => n,
            Err(e) => {
                return Err(e);
            },
        };
        let ghost mid = r.remaining();
        let mut witness_items: Vec<Vec<u8>> = Vec::new();
        let mut k: u8 = 0;
        while k < count
            invariant
                r.wf(),
                r.data() == old(r).data(),
                k <= count,
                vecs_view(witness_items@).len() == k as int,
                dec_witness(old(r).remaining()) == dec_witness_items(mid, count as nat),
                dec_witness_items(mid, count as nat) == cons_all(
                    vecs_view(witness_items@),
                    dec_witness_items(r.remaining(), (count - k) as nat),
                ),
            decreases count - k,
        {
            let ghost cur = r.remaining();
            let ghost prefix = vecs_view(witness_items@);
            let len = match CompactSize::consensus_decode(r) {
                Ok(l) => l,
                Err(e) => {
                    return Err(e);
                },
            };
            let avail = r.remaining_len();
            if len.0 > avail as u64 {
                return Err(Error::TruncatedInput);
            }
            let buffer = match r.read_bytes(len.0 as usize) {
                Ok(b) => b,
                Err(e) => {
                    return Err(e);
                },
            };
            witness_items.push(buffer);
            k = k + 1;
            proof {
                assert(dec_witness_items(cur, (count - k + 1) as nat) == cons_all(
                    seq![buffer@],
                    dec_witness_items(r.remaining(), (count - k) as nat),
                ));
                lemma_cons_all_merge(
                    prefix,
                    seq![buffer@],
                    dec_witness_items(r.remaining(), (count - k) as nat),
                );
                assert(vecs_view(witness_items@) =~= prefix + seq![buffer@]);
            }
        }
        proof {
            assert(vecs_view(witness_items@) + Seq::<Seq<u8>>::empty() =~= vecs_view(
                witness_items@,
            ));
        }
        let w = Witness { content: witness_items };
        proof {
            assert(w@ =~= vecs_view(witness_items@));
        }
        Ok(w)
    }
}

pub open spec fn stacks_of(s: Seq<SpecTxIn>) -> Seq<Seq<Seq<u8>>> {
    Seq::new(s.len(), |i: int| s[i].witness)
}

/// The second sub-pass of the segwit path: one witness stack per input, in
/// input order, attached by rebuilding each input rather than mutating it.
fn decode_witness_stacks(r: &mut Cursor, inputs: Vec<TxIn>) -> (res: Result<Vec<TxIn>, Error>)
    requires
        old(r).wf(),
    ensures
        final(r).wf(),
        final(r).data() == old(r).data(),
        match res {
            Ok(v) => {
                &&& dec_witnesses(old(r).remaining(), inputs@.len() as nat) == Some(
                    (stacks_of(txins_view(v@)), final(r).remaining()),
                )
                &&& txins_view(v@) == attach_witnesses(
                    txins_view(inputs@),
                    stacks_of(txins_view(v@)),
                )
            },
            Err(e) => dec_witnesses(old(r).remaining(), inputs@.len() as nat) is None && e
                == Error::TruncatedInput,
        },
{
    let ghost ins0 = txins_view(inputs@);
    let mut staged = inputs;
    let n = staged.len();
    let mut with_witness: Vec<TxIn> = Vec::new();
    let mut i: usize = 0;
    while i < n
        invariant
            r.wf(),
            r.data() == old(r).data(),
            i <= n,
            n == ins0.len(),
            n == inputs@.len(),
            ins0 == txins_view(inputs@),
            staged@.len() == n - i,
            txins_view(staged@) =~= ins0.skip(i as int),
            with_witness@.len() == i,
            dec_witnesses(old(r).remaining(), n as nat) == cons_all(
                stacks_of(txins_view(with_witness@)),
                dec_witnesses(r.remaining(), (n - i) as nat),
            ),
            forall|j: int| 0 <= j < i ==> {
                &&& (#[trigger] txins_view(with_witness@)[j]).previous_txid
                    == ins0[j].previous_txid
                &&& txins_view(with_witness@)[j].previous_vout == ins0[j].previous_vout
                &&& txins_view(with_witness@)[j].script_sig == ins0[j].script_sig
                &&& txins_view(with_witness@)[j].sequence == ins0[j].sequence
            },
        decreases n - i,
    {
        let ghost prefix = stacks_of(txins_view(with_witness@));
        let ghost before = txins_view(with_witness@);
        let w = match Witness::consensus_decode(r) {
            Ok(w) => w,
            Err(e) => {
                return Err(e);
            },
        };
        let ghost staged_pre = staged@;
        let staged_in = staged.remove(0);
        let rebuilt = TxIn {
            previous_txid: staged_in.previous_txid,
            previous_vout: staged_in.previous_vout,
            script_sig: staged_in.script_sig,
            sequence: staged_in.sequence,
            witness: w,
        };
        with_witness.push(rebuilt);
        i = i + 1;
        proof {
            lemma_cons_all_merge(prefix, seq![w@], dec_witnesses(r.remaining(), (n - i) as nat));
            assert(txins_view(with_witness@) =~= before.push(rebuilt@));
            assert(stacks_of(txins_view(with_witness@)) =~= prefix + seq![w@]);
            assert forall|j: int| 0 <= j < txins_view(staged@).len() implies txins_view(staged@)[j]
                == ins0.skip(i as int)[j] by {
                assert(staged@[j] == staged_pre[j + 1]);
                assert(txins_view(staged_pre)[j + 1] == ins0.skip(i as int - 1)[j + 1]);
            }
            assert(txins_view(staged@) =~= ins0.skip(i as int));
            assert(staged_in@ == txins_view(staged_pre)[0]);
            assert(staged_in@ == ins0[i as int - 1]);
            assert forall|j: int| 0 <= j < i implies {
                &&& (#[trigger] txins_view(with_witness@)[j]).previous_txid
                    == ins0[j].previous_txid
                &&& txins_view(with_witness@)[j].previous_vout == ins0[j].previous_vout
                &&& txins_view(with_witness@)[j].script_sig == ins0[j].script_sig
                &&& txins_view(with_witness@)[j].sequence == ins0[j].sequence
            } by {
                if j == i - 1 {
                    assert(txins_view(with_witness@)[j] == rebuilt@);
                } else {
                    assert(txins_view(with_witness@)[j] == before[j]);
                }
            }
        }
    }
    proof {
        assert(stacks_of(txins_view(with_witness@)) + Seq::<Seq<Seq<u8>>>::empty() =~= stacks_of(
            txins_view(with_witness@),
        ));
        assert(txins_view(with_witness@) =~= attach_witnesses(
            ins0,
            stacks_of(txins_view(with_witness@)),
        ));
    }
    Ok(with_witness)
}

/// Whether every input's witness stack is empty, as the flag-backing check
/// requires.
fn all_witness_stacks_empty(inputs: &Vec<TxIn>) -> (r: bool)
    ensures
        r == all_witnesses_empty(stacks_of(txins_view(inputs@))),
{
    let n = inputs.len();
    let mut i: usize = 0;
    let mut all_empty = true;
    while i < n
        invariant
            n == inputs@.len(),
            i <= n,
            all_empty == (forall|j: int|
                0 <= j < i ==> (#[trigger] stacks_of(txins_view(inputs@))[j]).len() == 0),
        decreases n - i,
    {
        let empty_here = inputs[i].witness.is_empty();
        proof {
            assert(stacks_of(txins_view(inputs@))[i as int] == inputs@[i as int]@.witness);
        }
        if !empty_here {
            all_empty = false;
        }
        i = i + 1;
        proof {
            if all_empty {
                assert forall|j: int| 0 <= j < i implies (#[trigger] stacks_of(
                    txins_view(inputs@),
                )[j]).len() == 0 by {
                    if j == i - 1 {
                        assert(stacks_of(txins_view(inputs@))[j] == inputs@[j]@.witness);
                    }
                }
            }
        }
    }
    proof {
        assert(stacks_of(txins_view(inputs@)).len() == inputs@.len());
    }
    all_empty
}

impl Decodable for Transaction {
    fn consensus_decode(r: &mut Cursor) -> (res: Result<Transaction, Error>)
        ensures
            match spec_tx_decode(old(r).remaining()) {
                SpecTxResult::Parsed(t, rest) => res is Ok && res->Ok_0@ == t
                    && final(r).remaining() == rest,
                SpecTxResult::Short => res == Err::<Transaction, Error>(Error::TruncatedInput),
                SpecTxResult::WrongFlag(flag, rest) => res == Err::<Transaction, Error>(
                    Error::UnsupportedSegwitFlag(flag),
                ) && final(r).remaining() == rest,
                SpecTxResult::NoWitnessData => res is Err && (res->Err_0 matches
                    Error::ParseFailed(m) && m@ == "witness flag set but no witnesses present"@),
            },
    {
        let version = match Version::consensus_decode(r) {
            Ok(v) => v,
            Err(e) => {
                return Err(e);
            },
        };
        let first_inputs = match Vec::<TxIn>::consensus_decode(r) {
            Ok(v) => v,
            Err(e) => {
                return Err(e);
            },
        };
        if first_inputs.len() > 0 {
            // Non-segwit path.
            let outputs = match Vec::<TxOut>::consensus_decode(r) {
                Ok(v) => v,
                Err(e) => {
                    return Err(e);
                },
            };
            let lock_time = match u32::consensus_decode(r) {
                Ok(v) => v,
                Err(e) => {
                    return Err(e);
                },
            };
            Ok(Transaction { version, inputs: first_inputs, outputs, lock_time })
        } else {
            // The zero input count is a segwit marker; the flag byte follows.
            let segwit_flag = match u8::consensus_decode(r) {
                Ok(v) => v,
                Err(e) => {
                    return Err(e);
                },
            };
            if segwit_flag == 1 {
                let inputs = match Vec::<TxIn>::consensus_decode(r) {
                    Ok(v) => v,
                    Err(e) => {
                        return Err(e);
                    },
                };
                let outputs = match Vec::<TxOut>::consensus_decode(r) {
                    Ok(v) => v,
                    Err(e) => {
                        return Err(e);
                    },
                };
                let with_witness = match decode_witness_stacks(r, inputs) {
                    Ok(v) => v,
                    Err(e) => {
                        return Err(e);
                    },
                };
                let all_empty = all_witness_stacks_empty(&with_witness);
                if with_witness.len() > 0 && all_empty {
                    Err(Error::ParseFailed("witness flag set but no witnesses present"))
                } else {
                    let lock_time = match u32::consensus_decode(r) {
                        Ok(v) => v,
                        Err(e) => {
                            return Err(e);
                        },
                    };
                    Ok(Transaction { version, inputs: with_witness, outputs, lock_time })
                }
            } else {
                Err(Error::UnsupportedSegwitFlag(segwit_flag))
            }
        }
    }
}

// ---------------------------------------------------------------------------
// Encoding
// ---------------------------------------------------------------------------

/// Concatenating input lists concatenates their encodings.
pub proof fn lemma_enc_txins_append(a: Seq<SpecTxIn>, b: Seq<SpecTxIn>)
    ensures
        enc_txins(a + b) == enc_txins(a) + enc_txins(b),
    decreases a.len(),
{
    if a.len() == 0 {
        assert(a + b =~= b);
        assert(enc_txins(a) + enc_txins(b) =~= enc_txins(b));
    } else {
        assert((a + b).skip(1) =~= a.skip(1) + b);
        lemma_enc_txins_append(a.skip(1), b);
        assert((a + b)[0] == a[0]);
        assert(enc_txin(a[0]) + (enc_txins(a.skip(1)) + enc_txins(b)) =~= (enc_txin(a[0])
            + enc_txins(a.skip(1))) + enc_txins(b));
    }
}

/// Concatenating output lists concatenates their encodings.
pub proof fn lemma_enc_txouts_append(a: Seq<SpecTxOut>, b: Seq<SpecTxOut>)
    ensures
        enc_txouts(a + b) == enc_txouts(a) + enc_txouts(b),
    decreases a.len(),
{
    if a.len() == 0 {
        assert(a + b =~= b);
        assert(enc_txouts(a) + enc_txouts(b) =~= enc_txouts(b));
    } else {
        assert((a + b).skip(1) =~= a.skip(1) + b);
        lemma_enc_txouts_append(a.skip(1), b);
        assert((a + b)[0] == a[0]);
        assert(enc_txout(a[0]) + (enc_txouts(a.skip(1)) + enc_txouts(b)) =~= (enc_txout(a[0])
            + enc_txouts(a.skip(1))) + enc_txouts(b));
    }
}

pub proof fn lemma_enc_txins_one(x: SpecTxIn)
    ensures
        enc_txins(seq![x]) == enc_txin(x),
{
    let s = seq![x];
    assert(s.skip(1) =~= Seq::<SpecTxIn>::empty());
    assert(enc_txins(s.skip(1)) == Seq::<u8>::empty());
    assert(enc_txins(s) == enc_txin(x) + Seq::<u8>::empty());
    assert(enc_txin(x) + Seq::<u8>::empty() =~= enc_txin(x));
}

pub proof fn lemma_enc_txouts_one(x: SpecTxOut)
    ensures
        enc_txouts(seq![x]) == enc_txout(x),
{
    let s = seq![x];
    assert(s.skip(1) =~= Seq::<SpecTxOut>::empty());
    assert(enc_txouts(s.skip(1)) == Seq::<u8>::empty());
    assert(enc_txouts(s) == enc_txout(x) + Seq::<u8>::empty());
    assert(enc_txout(x) + Seq::<u8>::empty() =~= enc_txout(x));
}

/// The encode half of the codec.  An implementation appends exactly its
/// value's wire encoding to the sink and reports how many bytes it wrote.
pub trait Encodable {
    /// When the value can be serialized at all (for script fields: the hex
    /// text is well formed).
    spec fn encodable(&self) -> bool;

    /// The exact bytes the value serializes to.
    spec fn encoding(&self) -> Seq<u8>;

    fn consensus_encode(&self, w: &mut Vec<u8>) -> (res: Result<usize, Error>)
        requires
            self.encodable(),
        ensures
            final(w)@ == old(w)@ + self.encoding(),
            res matches Ok(n) && n == self.encoding().len(),
    ;
}

impl Encodable for u8 {
    open spec fn encodable(&self) -> bool {
        true
    }

    open spec fn encoding(&self) -> Seq<u8> {
        enc_u8(*self)
    }

    fn consensus_encode(&self, w: &mut Vec<u8>) -> (res: Result<usize, Error>) {
        w.push(*self);
        proof {
            assert(w@ =~= old(w)@ + enc_u8(*self));
        }
        Ok(1)
    }
}

impl Encodable for u16 {
    open spec fn encodable(&self) -> bool {
        true
    }

    open spec fn encoding(&self) -> Seq<u8> {
        enc_u16(*self)
    }

    fn consensus_encode(&self, w: &mut Vec<u8>) -> (res: Result<usize, Error>) {
        let v = *self;
        w.push((v % 256) as u8);
        w.push((v / 256) as u8);
        proof {
            assert(w@ =~= old(w)@ + enc_u16(v));
        }
        Ok(2)
    }
}

impl Encodable for u32 {
    open spec fn encodable(&self) -> bool {
        true
    }

    open spec fn encoding(&self) -> Seq<u8> {
        enc_u32(*self)
    }

    fn consensus_encode(&self, w: &mut Vec<u8>) -> (res: Result<usize, Error>) {
        let v = *self;
        w.push((v % 256) as u8);
        w.push(((v / 256) % 256) as u8);
        w.push(((v / 65536) % 256) as u8);
        w.push(((v / 16777216) % 256) as u8);
        proof {
            assert(w@ =~= old(w)@ + enc_u32(v));
        }
        Ok(4)
    }
}

impl Encodable for u64 {
    open spec fn encodable(&self) -> bool {
        true
    }

    open spec fn encoding(&self) -> Seq<u8> {
        enc_u64(*self)
    }

    fn consensus_encode(&self, w: &mut Vec<u8>) -> (res: Result<usize, Error>) {
        let v = *self;
        w.push((v % 256) as u8);
        w.push(((v / 256) % 256) as u8);
        w.push(((v / 65536) % 256) as u8);
        w.push(((v / 16777216) % 256) as u8);
        w.push(((v / 4294967296) % 256) as u8);
        w.push(((v / 1099511627776) % 256) as u8);
        w.push(((v / 281474976710656) % 256) as u8);
        w.push(((v / 72057594037927936) % 256) as u8);
        proof {
            assert(w@ =~= old(w)@ + enc_u64(v));
        }
        Ok(8)
    }
}

impl Encodable for Version {
    open spec fn encodable(&self) -> bool {
        true
    }

    open spec fn encoding(&self) -> Seq<u8> {
        enc_u32(self.0)
    }

    fn consensus_encode(&self, w: &mut Vec<u8>) -> (res: Result<usize, Error>) {
        self.0.consensus_encode(w)
    }
}

impl Encodable for Amount {
    open spec fn encodable(&self) -> bool {
        true
    }

    open spec fn encoding(&self) -> Seq<u8> {
        enc_u64(self@)
    }

    fn consensus_encode(&self, w: &mut Vec<u8>) -> (res: Result<usize, Error>) {
        self.0.consensus_encode(w)
    }
}

impl Encodable for Txid {
    open spec fn encodable(&self) -> bool {
        self.wf()
    }

    open spec fn encoding(&self) -> Seq<u8> {
        self@
    }

    fn consensus_encode(&self, w: &mut Vec<u8>) -> (res: Result<usize, Error>) {
        let n = self.0.len();
        w.extend_from_slice(self.0.as_slice());
        proof {
            assert(w@ =~= old(w)@ + self@);
        }
        Ok(n)
    }
}

impl Encodable for CompactSize {
    open spec fn encodable(&self) -> bool {
        true
    }

    open spec fn encoding(&self) -> Seq<u8> {
        enc_compact(self.0)
    }

    fn consensus_encode(&self, w: &mut Vec<u8>) -> (res: Result<usize, Error>) {
        if self.0 <= 0xfc {
            w.push(self.0 as u8);
            proof {
                assert(w@ =~= old(w)@ + enc_compact(self.0));
            }
            Ok(1)
        } else if self.0 <= 0xffff {
            let v = self.0 as u16;
            w.push(0xfd);
            w.push((v % 256) as u8);
            w.push((v / 256) as u8);
            proof {
                assert(w@ =~= old(w)@ + enc_compact(self.0));
            }
            Ok(3)
        } else if self.0 <= 0xffffffff {
            let v = self.0 as u32;
            w.push(0xfe);
            w.push((v % 256) as u8);
            w.push(((v / 256) % 256) as u8);
            w.push(((v / 65536) % 256) as u8);
            w.push(((v / 16777216) % 256) as u8);
            proof {
                assert(w@ =~= old(w)@ + enc_compact(self.0));
            }
            Ok(5)
        } else {
            let v = self.0;
            w.push(0xff);
            w.push((v % 256) as u8);
            w.push(((v / 256) % 256) as u8);
            w.push(((v / 65536) % 256) as u8);
            w.push(((v / 16777216) % 256) as u8);
            w.push(((v / 4294967296) % 256) as u8);
            w.push(((v / 1099511627776) % 256) as u8);
            w.push(((v / 281474976710656) % 256) as u8);
            w.push(((v / 72057594037927936) % 256) as u8);
            proof {
                assert(w@ =~= old(w)@ + enc_compact(self.0));
            }
            Ok(9)
        }
    }
}

impl Encodable for String {
    open spec fn encodable(&self) -> bool {
        valid_hex(self@)
    }

    open spec fn encoding(&self) -> Seq<u8> {
        enc_script(self@)
    }

    fn consensus_encode(&self, w: &mut Vec<u8>) -> (res: Result<usize, Error>) {
        let start = w.len();
        let mut bytes = match hex_decode_text(self) {
            Ok(b) => b,
            Err(e) => {
                return Err(e);
            },
        };
        match CompactSize(bytes.len() as u64).consensus_encode(w) {
            Ok(_) => (),
            Err(e) => {
                return Err(e);
            },
        }
        w.append(&mut bytes);
        proof {
            assert(w@ =~= old(w)@ + enc_script(self@));
        }
        let total = w.len();
        Ok(total - start)
    }
}

impl Encodable for TxOut {
    open spec fn encodable(&self) -> bool {
        txout_encodable(self@)
    }

    open spec fn encoding(&self) -> Seq<u8> {
        enc_txout(self@)
    }

    fn consensus_encode(&self, w: &mut Vec<u8>) -> (res: Result<usize, Error>) {
        let start = w.len();
        match self.amount.consensus_encode(w) {
            Ok(_) => (),
            Err(e) => {
                return Err(e);
            },
        }
        match self.script_pubkey.consensus_encode(w) {
            Ok(_) => (),
            Err(e) => {
                return Err(e);
            },
        }
        proof {
            assert(w@ =~= old(w)@ + enc_txout(self@));
        }
        let total = w.len();
        Ok(total - start)
    }
}

impl Encodable for TxIn {
    open spec fn encodable(&self) -> bool {
        txin_encodable(self@)
    }

    open spec fn encoding(&self) -> Seq<u8> {
        enc_txin(self@)
    }

    fn consensus_encode(&self, w: &mut Vec<u8>) -> (res: Result<usize, Error>) {
        let start = w.len();
        match self.previous_txid.consensus_encode(w) {
            Ok(_) => (),
            Err(e) => {
                return Err(e);
            },
        }
        match self.previous_vout.consensus_encode(w) {
            Ok(_) => (),
            Err(e) => {
                return Err(e);
            },
        }
        match self.script_sig.consensus_encode(w) {
            Ok(_) => (),
            Err(e) => {
                return Err(e);
            },
        }
        match self.sequence.consensus_encode(w) {
            Ok(_) => (),
            Err(e) => {
                return Err(e);
            },
        }
        proof {
            assert(w@ =~= old(w)@ + enc_txin(self@));
        }
        let total = w.len();
        Ok(total - start)
    }
}

impl Encodable for Vec<TxIn> {
    open spec fn encodable(&self) -> bool {
        forall|i: int| 0 <= i < self@.len() ==> txin_encodable(#[trigger] txins_view(self@)[i])
    }

    open spec fn encoding(&self) -> Seq<u8> {
        enc_compact(self@.len() as u64) + enc_txins(txins_view(self@))
    }

    #[verifier::rlimit(100)]
    fn consensus_encode(&self, w: &mut Vec<u8>) -> (res: Result<usize, Error>) {
        let start = w.len();
        match CompactSize(self.len() as u64).consensus_encode(w) {
            Ok(_) => (),
            Err(e) => {
                return Err(e);
            },
        }
        let mut i: usize = 0;
        while i < self.len()
            invariant
                i <= self@.len(),
                self.encodable(),
                w@ == old(w)@ + enc_compact(self@.len() as u64) + enc_txins(
                    txins_view(self@).take(i as int),
                ),
            decreases self@.len() - i,
        {
            let ghost done = txins_view(self@).take(i as int);
            proof {
                assert(txin_encodable(txins_view(self@)[i as int]));
            }
            match self[i].consensus_encode(w) {
                Ok(_) => (),
                Err(e) => {
                    return Err(e);
                },
            }
            i = i + 1;
            proof {
                lemma_enc_txins_append(done, seq![txins_view(self@)[i - 1]]);
                assert(txins_view(self@).take(i as int) =~= done + seq![
                    txins_view(self@)[i - 1],
                ]);
                lemma_enc_txins_one(txins_view(self@)[i - 1]);
                assert(w@ =~= old(w)@ + enc_compact(self@.len() as u64) + enc_txins(
                    txins_view(self@).take(i as int),
                ));
            }
        }
        proof {
            assert(txins_view(self@).take(self@.len() as int) =~= txins_view(self@));
            assert(w@ =~= old(w)@ + self.encoding());
        }
        let total = w.len();
        Ok(total - start)
    }
}

impl Encodable for Vec<TxOut> {
    open spec fn encodable(&self) -> bool {
        forall|i: int| 0 <= i < self@.len() ==> txout_encodable(#[trigger] txouts_view(self@)[i])
    }

    open spec fn encoding(&self) -> Seq<u8> {
        enc_compact(self@.len() as u64) + enc_txouts(txouts_view(self@))
    }

    #[verifier::rlimit(100)]
    fn consensus_encode(&self, w: &mut Vec<u8>) -> (res: Result<usize, Error>) {
        let start = w.len();
        match CompactSize(self.len() as u64).consensus_encode(w) {
            Ok(_) => (),
            Err(e) => {
                return Err(e);
            },
        }
        let mut i: usize = 0;
        while i < self.len()
            invariant
                i <= self@.len(),
                self.encodable(),
                w@ == old(w)@ + enc_compact(self@.len() as u64) + enc_txouts(
                    txouts_view(self@).take(i as int),
                ),
            decreases self@.len() - i,
        {
            let ghost done = txouts_view(self@).take(i as int);
            proof {
                assert(txout_encodable(txouts_view(self@)[i as int]));
            }
            match self[i].consensus_encode(w) {
                Ok(_) => (),
                Err(e) => {
                    return Err(e);
                },
            }
            i = i + 1;
            proof {
                lemma_enc_txouts_append(done, seq![txouts_view(self@)[i - 1]]);
                assert(txouts_view(self@).take(i as int) =~= done + seq![
                    txouts_view(self@)[i - 1],
                ]);
                lemma_enc_txouts_one(txouts_view(self@)[i - 1]);
                assert(w@ =~= old(w)@ + enc_compact(self@.len() as u64) + enc_txouts(
                    txouts_view(self@).take(i as int),
                ));
            }
        }
        proof {
            assert(txouts_view(self@).take(self@.len() as int) =~= txouts_view(self@));
            assert(w@ =~= old(w)@ + self.encoding());
        }
        let total = w.len();
        Ok(total - start)
    }
}

impl Transaction {
    /// The content-addressed identifier: the double SHA-256 of the canonical
    /// witness-excluded encoding, in internal byte order.
    pub fn txid(&self) -> (r: Txid)
        requires
            tx_encodable(self@),
        ensures
            r@ == spec_txid_of(self@),
            r.wf(),
    {
        let mut txid_data: Vec<u8> = Vec::new();
        self.version.consensus_encode(&mut txid_data).unwrap();
        self.inputs.consensus_encode(&mut txid_data).unwrap();
        self.outputs.consensus_encode(&mut txid_data).unwrap();
        self.lock_time.consensus_encode(&mut txid_data).unwrap();
        proof {
            assert(txid_data@ =~= spec_tx_encode(self@));
        }
        Txid::new(txid_data)
    }
}

} // verus!
