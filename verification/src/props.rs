//! The codec's global laws: round-trip identity for the legacy wire form,
//! and content-addressing of the identifier.

use vstd::prelude::*;

verus! {

use vstd::seq_lib::lemma_concat_associative;

use crate::hexstr::{
    canonical_hex,
    hex_bytes,
    lemma_hex_bytes_of_hex_of,
    lemma_hex_of_canonical,
    lemma_hex_of_hex_bytes,
};
use crate::transaction::{
    SpecTransaction,
    SpecTxIn,
    SpecTxOut,
    SpecTxResult,
    dec_script,
    dec_txin,
    dec_txin_list,
    dec_txins,
    dec_txout,
    dec_txout_list,
    dec_txouts,
    dec_witnesses,
    enc_script,
    enc_txin,
    enc_txins,
    enc_txout,
    enc_txouts,
    spec_tx_decode,
    spec_tx_encode,
    spec_txid_of,
    txin_encodable,
    txout_encodable,
    tx_encodable,
};
use crate::wire::{
    compact_prefix_minimal,
    dec_compact,
    dec_u32,
    dec_u64,
    dec_u8,
    enc_compact,
    enc_u32,
    enc_u64,
    lemma_dec_enc_compact,
    lemma_dec_enc_u32,
    lemma_dec_enc_u64,
    lemma_enc_dec_compact,
    lemma_enc_dec_u32,
    lemma_enc_dec_u64,
};

/// A script field in the exact text form decoding produces, with a byte
/// length the wire format can carry.
pub open spec fn script_canonical(s: Seq<char>) -> bool {
    canonical_hex(s) && s.len() / 2 <= u64::MAX
}

/// An input as the non-segwit decode path produces it: a 32-byte previous
/// identifier, a canonical script, and no witness data.
pub open spec fn legacy_txin(i: SpecTxIn) -> bool {
    &&& i.previous_txid.len() == 32
    &&& script_canonical(i.script_sig)
    &&& i.witness == Seq::<Seq<u8>>::empty()
}

pub open spec fn legacy_txout(o: SpecTxOut) -> bool {
    script_canonical(o.script_pubkey)
}

/// A legacy (non-segwit) transaction: at least one input, wire-expressible
/// counts, canonical fields and no witness data anywhere.
pub open spec fn legacy_tx(t: SpecTransaction) -> bool {
    &&& 1 <= t.inputs.len() <= u64::MAX
    &&& t.outputs.len() <= u64::MAX
    &&& forall|i: int| 0 <= i < t.inputs.len() ==> legacy_txin(#[trigger] t.inputs[i])
    &&& forall|i: int| 0 <= i < t.outputs.len() ==> legacy_txout(#[trigger] t.outputs[i])
}

/// Decoding the encoding of a script field yields the field back.
pub proof fn lemma_dec_enc_script(s: Seq<char>, rest: Seq<u8>)
    requires
        script_canonical(s),
    ensures
        dec_script(enc_script(s) + rest) == Some((s, rest)),
{
    let b = hex_bytes(s);
    let n = (s.len() / 2) as u64;
    assert(b.len() == n);
    assert(enc_script(s) + rest =~= enc_compact(n) + (b + rest));
    lemma_dec_enc_compact(n, b + rest);
    assert((b + rest).take(n as int) =~= b);
    assert((b + rest).skip(n as int) =~= rest);
    lemma_hex_of_hex_bytes(s);
}

/// Decoding the encoding of one input yields the input back.
#[verifier::rlimit(100)]
#[verifier::spinoff_prover]
pub proof fn lemma_dec_enc_txin(i: SpecTxIn, rest: Seq<u8>)
    requires
        legacy_txin(i),
    ensures
        dec_txin(enc_txin(i) + rest) == Some((i, rest)),
{
    let r3 = enc_u32(i.sequence) + rest;
    let r2 = enc_script(i.script_sig) + r3;
    let r1 = enc_u32(i.previous_vout) + r2;
    assert(enc_txin(i) + rest =~= i.previous_txid + r1);
    assert((i.previous_txid + r1).take(32) =~= i.previous_txid);
    assert((i.previous_txid + r1).skip(32) =~= r1);
    lemma_dec_enc_u32(i.previous_vout, r2);
    lemma_dec_enc_script(i.script_sig, r3);
    lemma_dec_enc_u32(i.sequence, rest);
}

/// Decoding the encoding of an input list yields the list back.
#[verifier::rlimit(100)]
#[verifier::spinoff_prover]
pub proof fn lemma_dec_enc_txins(s: Seq<SpecTxIn>, rest: Seq<u8>)
    requires
        forall|i: int| 0 <= i < s.len() ==> legacy_txin(#[trigger] s[i]),
    ensures
        dec_txins(enc_txins(s) + rest, s.len()) == Some((s, rest)),
    decreases s.len(),
{
    if s.len() == 0 {
        assert(enc_txins(s) + rest =~= rest);
    } else {
        let tail = s.skip(1);
        lemma_concat_associative(enc_txin(s[0]), enc_txins(tail), rest);
        lemma_dec_enc_txin(s[0], enc_txins(tail) + rest);
        lemma_dec_enc_txins(tail, rest);
        assert(seq![s[0]] + tail =~= s);
    }
}

/// Decoding the encoding of one output yields the output back.
#[verifier::rlimit(100)]
#[verifier::spinoff_prover]
pub proof fn lemma_dec_enc_txout(o: SpecTxOut, rest: Seq<u8>)
    requires
        legacy_txout(o),
    ensures
        dec_txout(enc_txout(o) + rest) == Some((o, rest)),
{
    let r1 = enc_script(o.script_pubkey) + rest;
    assert(enc_txout(o) + rest =~= enc_u64(o.amount) + r1);
    lemma_dec_enc_u64(o.amount, r1);
    lemma_dec_enc_script(o.script_pubkey, rest);
}

/// Decoding the encoding of an output list yields the list back.
#[verifier::rlimit(100)]
pub proof fn lemma_dec_enc_txouts(s: Seq<SpecTxOut>, rest: Seq<u8>)
    requires
        forall|i: int| 0 <= i < s.len() ==> legacy_txout(#[trigger] s[i]),
    ensures
        dec_txouts(enc_txouts(s) + rest, s.len()) == Some((s, rest)),
    decreases s.len(),
{
    if s.len() == 0 {
        assert(enc_txouts(s) + rest =~= rest);
    } else {
        let tail = s.skip(1);
        lemma_concat_associative(enc_txout(s[0]), enc_txouts(tail), rest);
        lemma_dec_enc_txout(s[0], enc_txouts(tail) + rest);
        lemma_dec_enc_txouts(tail, rest);
        assert(seq![s[0]] + tail =~= s);
    }
}

/// Round-trip identity: structurally decoding the canonical encoding of any
/// legacy transaction reproduces the transaction exactly, consuming every
/// byte.  Legacy transactions never carry witness data, so nothing is lost
/// by the witness-excluded encoding.
#[verifier::rlimit(100)]
#[verifier::spinoff_prover]
pub proof fn lemma_legacy_round_trip(t: SpecTransaction)
    requires
        legacy_tx(t),
    ensures
        spec_tx_decode(spec_tx_encode(t)) == SpecTxResult::Parsed(t, Seq::<u8>::empty()),
{
    let n_in = t.inputs.len() as u64;
    let n_out = t.outputs.len() as u64;
    let a1 = enc_u32(t.version);
    let a2 = enc_compact(n_in);
    let a3 = enc_txins(t.inputs);
    let a4 = enc_compact(n_out);
    let a5 = enc_txouts(t.outputs);
    let a6 = enc_u32(t.lock_time);
    let r3 = a5 + a6;
    let r2 = a4 + r3;
    let r1 = a3 + r2;
    let r0 = a2 + r1;
    lemma_concat_associative(a1 + a2 + a3 + a4, a5, a6);
    lemma_concat_associative(a1 + a2 + a3, a4, r3);
    lemma_concat_associative(a1 + a2, a3, r2);
    lemma_concat_associative(a1, a2, r1);
    assert(spec_tx_encode(t) == a1 + r0);
    lemma_dec_enc_u32(t.version, r0);
    lemma_dec_enc_compact(n_in, r1);
    lemma_dec_enc_txins(t.inputs, r2);
    assert(dec_txin_list(r0) == Some((t.inputs, r2)));
    lemma_dec_enc_compact(n_out, r3);
    lemma_dec_enc_txouts(t.outputs, a6);
    assert(dec_txout_list(r2) == Some((t.outputs, a6)));
    assert(a6 =~= enc_u32(t.lock_time) + Seq::<u8>::empty());
    lemma_dec_enc_u32(t.lock_time, Seq::empty());
}

/// A decoded input list has exactly as many entries as were asked for.
pub proof fn lemma_dec_txins_len(b: Seq<u8>, n: nat)
    requires
        dec_txins(b, n) is Some,
    ensures
        dec_txins(b, n)->Some_0.0.len() == n,
    decreases n,
{
    if n != 0 {
        let (_, r) = dec_txin(b)->Some_0;
        lemma_dec_txins_len(r, (n - 1) as nat);
    }
}

/// A decoded output list has exactly as many entries as were asked for.
pub proof fn lemma_dec_txouts_len(b: Seq<u8>, n: nat)
    requires
        dec_txouts(b, n) is Some,
    ensures
        dec_txouts(b, n)->Some_0.0.len() == n,
    decreases n,
{
    if n != 0 {
        let (_, r) = dec_txout(b)->Some_0;
        lemma_dec_txouts_len(r, (n - 1) as nat);
    }
}

/// An input's length prefix sits after its 32-byte previous identifier and
/// 4-byte previous index.
pub open spec fn txin_minimal(b: Seq<u8>) -> bool {
    compact_prefix_minimal(b.skip(36))
}

pub open spec fn txins_minimal(b: Seq<u8>, n: nat) -> bool
    decreases n,
{
    if n == 0 {
        true
    } else {
        txin_minimal(b) && match dec_txin(b) {
            Some((_, r)) => txins_minimal(r, (n - 1) as nat),
            None => true,
        }
    }
}

/// An output's length prefix sits after its 8-byte amount.
pub open spec fn txout_minimal(b: Seq<u8>) -> bool {
    compact_prefix_minimal(b.skip(8))
}

pub open spec fn txouts_minimal(b: Seq<u8>, n: nat) -> bool
    decreases n,
{
    if n == 0 {
        true
    } else {
        txout_minimal(b) && match dec_txout(b) {
            Some((_, r)) => txouts_minimal(r, (n - 1) as nat),
            None => true,
        }
    }
}

/// Every CompactSize prefix of a legacy byte stream is in minimal form, as
/// real wire encodings are: the input count, each script length, the output
/// count.
pub open spec fn legacy_stream_minimal(b: Seq<u8>) -> bool {
    compact_prefix_minimal(b.skip(4)) && match dec_compact(b.skip(4)) {
        Some((n, r)) => txins_minimal(r, n as nat) && match dec_txins(r, n as nat) {
            Some((_, r2)) => compact_prefix_minimal(r2) && match dec_compact(r2) {
                Some((m, r3)) => txouts_minimal(r3, m as nat),
                None => true,
            },
            None => true,
        },
        None => true,
    }
}

/// Re-encoding a decoded script field reproduces the bytes it came from.
#[verifier::rlimit(100)]
#[verifier::spinoff_prover]
pub proof fn lemma_enc_dec_script(b: Seq<u8>, s: Seq<char>, rest: Seq<u8>)
    requires
        dec_script(b) == Some((s, rest)),
        compact_prefix_minimal(b),
    ensures
        b == enc_script(s) + rest,
{
    let (n, m) = dec_compact(b)->Some_0;
    lemma_enc_dec_compact(b, n, m);
    let raw = m.take(n as int);
    lemma_hex_bytes_of_hex_of(raw);
    assert(enc_script(s) =~= enc_compact(n) + raw);
    assert(m =~= raw + m.skip(n as int));
    assert(b =~= enc_script(s) + rest);
}

/// Re-encoding a decoded input reproduces the bytes it came from.
#[verifier::rlimit(100)]
#[verifier::spinoff_prover]
pub proof fn lemma_enc_dec_txin(b: Seq<u8>, i: SpecTxIn, rest: Seq<u8>)
    requires
        dec_txin(b) == Some((i, rest)),
        txin_minimal(b),
    ensures
        b == enc_txin(i) + rest,
{
    let txid = b.take(32);
    let r1 = b.skip(32);
    let (vout, r2) = dec_u32(r1)->Some_0;
    let (sig, r3) = dec_script(r2)->Some_0;
    let (seqn, r4) = dec_u32(r3)->Some_0;
    lemma_enc_dec_u32(r1, vout, r2);
    assert(r2 =~= b.skip(36));
    lemma_enc_dec_script(r2, sig, r3);
    lemma_enc_dec_u32(r3, seqn, r4);
    assert(b =~= txid + r1);
    lemma_concat_associative(txid + enc_u32(vout) + enc_script(sig), enc_u32(seqn), r4);
    lemma_concat_associative(txid + enc_u32(vout), enc_script(sig), r3);
    lemma_concat_associative(txid, enc_u32(vout), r2);
    assert(enc_txin(i) + rest == txid + r1);
}

/// Re-encoding a decoded input list reproduces the bytes it came from.
#[verifier::rlimit(100)]
#[verifier::spinoff_prover]
pub proof fn lemma_enc_dec_txins(b: Seq<u8>, n: nat, s: Seq<SpecTxIn>, rest: Seq<u8>)
    requires
        dec_txins(b, n) == Some((s, rest)),
        txins_minimal(b, n),
    ensures
        b == enc_txins(s) + rest,
    decreases n,
{
    if n == 0 {
        assert(b =~= enc_txins(s) + rest);
    } else {
        let (i, r) = dec_txin(b)->Some_0;
        let (tail, _) = dec_txins(r, (n - 1) as nat)->Some_0;
        lemma_enc_dec_txin(b, i, r);
        lemma_enc_dec_txins(r, (n - 1) as nat, tail, rest);
        assert(s[0] == i && s.skip(1) =~= tail);
        lemma_concat_associative(enc_txin(i), enc_txins(tail), rest);
        assert(enc_txins(s) + rest == enc_txin(i) + r);
    }
}

/// Re-encoding a decoded output reproduces the bytes it came from.
#[verifier::rlimit(100)]
#[verifier::spinoff_prover]
pub proof fn lemma_enc_dec_txout(b: Seq<u8>, o: SpecTxOut, rest: Seq<u8>)
    requires
        dec_txout(b) == Some((o, rest)),
        txout_minimal(b),
    ensures
        b == enc_txout(o) + rest,
{
    let (amount, r1) = dec_u64(b)->Some_0;
    let (script, r2) = dec_script(r1)->Some_0;
    lemma_enc_dec_u64(b, amount, r1);
    assert(r1 =~= b.skip(8));
    lemma_enc_dec_script(r1, script, r2);
    assert(b =~= enc_txout(o) + rest);
}

/// Re-encoding a decoded output list reproduces the bytes it came from.
#[verifier::rlimit(100)]
#[verifier::spinoff_prover]
pub proof fn lemma_enc_dec_txouts(b: Seq<u8>, n: nat, s: Seq<SpecTxOut>, rest: Seq<u8>)
    requires
        dec_txouts(b, n) == Some((s, rest)),
        txouts_minimal(b, n),
    ensures
        b == enc_txouts(s) + rest,
    decreases n,
{
    if n == 0 {
        assert(b =~= enc_txouts(s) + rest);
    } else {
        let (o, r) = dec_txout(b)->Some_0;
        let (tail, _) = dec_txouts(r, (n - 1) as nat)->Some_0;
        lemma_enc_dec_txout(b, o, r);
        lemma_enc_dec_txouts(r, (n - 1) as nat, tail, rest);
        assert(s[0] == o && s.skip(1) =~= tail);
        lemma_concat_associative(enc_txout(o), enc_txouts(tail), rest);
        assert(enc_txouts(s) + rest == enc_txout(o) + r);
    }
}

/// The byte-level round trip: re-encoding a transaction decoded through the
/// non-segwit path reproduces its wire bytes bit for bit, provided every
/// length prefix of the stream was minimal, as real encodings are.
#[verifier::rlimit(100)]
#[verifier::spinoff_prover]
pub proof fn lemma_legacy_byte_round_trip(b: Seq<u8>, t: SpecTransaction, rest: Seq<u8>)
    requires
        spec_tx_decode(b) == SpecTxResult::Parsed(t, rest),
        (dec_txin_list(b.skip(4)) matches Some(p) && p.0.len() > 0),
        legacy_stream_minimal(b),
    ensures
        b == spec_tx_encode(t) + rest,
{
    let (ver, r1) = dec_u32(b)->Some_0;
    lemma_enc_dec_u32(b, ver, r1);
    let (nin, rr) = dec_compact(r1)->Some_0;
    lemma_enc_dec_compact(r1, nin, rr);
    let (ins, r2) = dec_txins(rr, nin as nat)->Some_0;
    lemma_dec_txins_len(rr, nin as nat);
    lemma_enc_dec_txins(rr, nin as nat, ins, r2);
    let (nout, r3) = dec_compact(r2)->Some_0;
    lemma_enc_dec_compact(r2, nout, r3);
    let (outs, r4) = dec_txouts(r3, nout as nat)->Some_0;
    lemma_dec_txouts_len(r3, nout as nat);
    lemma_enc_dec_txouts(r3, nout as nat, outs, r4);
    let (lt, r5) = dec_u32(r4)->Some_0;
    lemma_enc_dec_u32(r4, lt, r5);
    assert(t.inputs == ins && t.outputs == outs && t.version == ver && t.lock_time == lt);
    let a1 = enc_u32(ver);
    let a2 = enc_compact(nin);
    let a3 = enc_txins(ins);
    let a4 = enc_compact(nout);
    let a5 = enc_txouts(outs);
    let a6 = enc_u32(lt);
    lemma_concat_associative(a1 + a2 + a3 + a4 + a5, a6, rest);
    lemma_concat_associative(a1 + a2 + a3 + a4, a5, r4);
    lemma_concat_associative(a1 + a2 + a3, a4, r3);
    lemma_concat_associative(a1 + a2, a3, r2);
    lemma_concat_associative(a1, a2, rr);
    assert(spec_tx_encode(t) + rest == a1 + r1);
}

/// A decoded input can always be re-encoded: its previous identifier has 32
/// bytes and its script text is well-formed hex.
pub proof fn lemma_dec_txin_encodable(b: Seq<u8>)
    requires
        dec_txin(b) is Some,
    ensures
        txin_encodable(dec_txin(b)->Some_0.0),
{
    let (n, m) = dec_compact(b.skip(36))->Some_0;
    lemma_hex_of_canonical(m.take(n as int));
}

/// Every input of a decoded input list can be re-encoded.
pub proof fn lemma_dec_txins_encodable(b: Seq<u8>, n: nat)
    requires
        dec_txins(b, n) is Some,
    ensures
        forall|i: int|
            0 <= i < dec_txins(b, n)->Some_0.0.len() ==> txin_encodable(
                #[trigger] dec_txins(b, n)->Some_0.0[i],
            ),
    decreases n,
{
    if n != 0 {
        let (first, r) = dec_txin(b)->Some_0;
        lemma_dec_txin_encodable(b);
        lemma_dec_txins_encodable(r, (n - 1) as nat);
        let s = dec_txins(b, n)->Some_0.0;
        let tail = dec_txins(r, (n - 1) as nat)->Some_0.0;
        assert forall|i: int| 0 <= i < s.len() implies txin_encodable(#[trigger] s[i]) by {
            if i == 0 {
                assert(s[i] == first);
            } else {
                assert(s[i] == tail[i - 1]);
            }
        }
    }
}

/// A decoded output can always be re-encoded.
pub proof fn lemma_dec_txout_encodable(b: Seq<u8>)
    requires
        dec_txout(b) is Some,
    ensures
        txout_encodable(dec_txout(b)->Some_0.0),
{
    let (n, m) = dec_compact(b.skip(8))->Some_0;
    lemma_hex_of_canonical(m.take(n as int));
}

/// Every output of a decoded output list can be re-encoded.
pub proof fn lemma_dec_txouts_encodable(b: Seq<u8>, n: nat)
    requires
        dec_txouts(b, n) is Some,
    ensures
        forall|i: int|
            0 <= i < dec_txouts(b, n)->Some_0.0.len() ==> txout_encodable(
                #[trigger] dec_txouts(b, n)->Some_0.0[i],
            ),
    decreases n,
{
    if n != 0 {
        let (first, r) = dec_txout(b)->Some_0;
        lemma_dec_txout_encodable(b);
        lemma_dec_txouts_encodable(r, (n - 1) as nat);
        let s = dec_txouts(b, n)->Some_0.0;
        let tail = dec_txouts(r, (n - 1) as nat)->Some_0.0;
        assert forall|i: int| 0 <= i < s.len() implies txout_encodable(#[trigger] s[i]) by {
            if i == 0 {
                assert(s[i] == first);
            } else {
                assert(s[i] == tail[i - 1]);
            }
        }
    }
}

/// Whatever the decoder accepts, the canonical encoder can serialize: a
/// parsed transaction always has an identifier.
#[verifier::rlimit(100)]
#[verifier::spinoff_prover]
pub proof fn lemma_parsed_encodable(b: Seq<u8>, t: SpecTransaction, rest: Seq<u8>)
    requires
        spec_tx_decode(b) == SpecTxResult::Parsed(t, rest),
    ensures
        tx_encodable(t),
{
    let (_, r1) = dec_u32(b)->Some_0;
    let (nin, rr) = dec_compact(r1)->Some_0;
    let (first_inputs, r2) = dec_txins(rr, nin as nat)->Some_0;
    lemma_dec_txins_len(rr, nin as nat);
    lemma_dec_txins_encodable(rr, nin as nat);
    if first_inputs.len() > 0 {
        let (nout, r3) = dec_compact(r2)->Some_0;
        lemma_dec_txouts_len(r3, nout as nat);
        lemma_dec_txouts_encodable(r3, nout as nat);
    } else {
        let (_, r3) = dec_u8(r2)->Some_0;
        let (nin2, rr2) = dec_compact(r3)->Some_0;
        let (inputs, r4) = dec_txins(rr2, nin2 as nat)->Some_0;
        lemma_dec_txins_len(rr2, nin2 as nat);
        lemma_dec_txins_encodable(rr2, nin2 as nat);
        let (nout, r5) = dec_compact(r4)->Some_0;
        lemma_dec_txouts_len(r5, nout as nat);
        lemma_dec_txouts_encodable(r5, nout as nat);
        let (stacks, _) = dec_witnesses(dec_txouts(r5, nout as nat)->Some_0.1, inputs.len())->Some_0;
        assert forall|i: int| 0 <= i < t.inputs.len() implies txin_encodable(
            #[trigger] t.inputs[i],
        ) by {
            assert(t.inputs[i].previous_txid == inputs[i].previous_txid);
            assert(t.inputs[i].script_sig == inputs[i].script_sig);
        }
    }
}

/// Identifier computation is deterministic and content-addressed: two
/// transactions with identical canonical bytes have identical identifiers.
pub proof fn lemma_txid_content_addressed(a: SpecTransaction, b: SpecTransaction)
    ensures
        spec_tx_encode(a) == spec_tx_encode(b) ==> spec_txid_of(a) == spec_txid_of(b),
{
}

/// The canonical encoding is injective on legacy transactions: two distinct
/// legacy transactions never share their canonical bytes, so an identifier
/// stands for one transaction content.
pub proof fn lemma_legacy_encoding_injective(a: SpecTransaction, b: SpecTransaction)
    requires
        legacy_tx(a),
        legacy_tx(b),
        spec_tx_encode(a) == spec_tx_encode(b),
    ensures
        a == b,
{
    lemma_legacy_round_trip(a);
    lemma_legacy_round_trip(b);
}

} // verus!
