use transactiondecoder::cursor::Cursor;
use transactiondecoder::decode;
use transactiondecoder::transaction::{
    Amount, CompactSize, Decodable, Encodable, Error, Transaction, Txid, Witness,
};

const GOLDEN_HEX: &str = "0100000001d4f92ee4e8ad1a99c4a76f562ddc2345191a76d6c0db7e766859e01d3bedfe0a000000006b483045022100cab4dbf51074f2ed4255824fe7a4723217415fbe4209561e031ca54400f5243c022034960b9f49685952ce88971288f057e1394ea591982d5df9bc6ede95be35f4e3012103a3deb6df91d41e4d062b429004a31f9e070182b8e548c43d165e863a08119df9ffffffff0158020000000000001976a9142b1da6ec2d055aa03cad386841a4b4dc62acd5b688ac00000000";

const GOLDEN_TXID: &str = "7ea6fe9c866db77005ae8f25e2a94bd6d98c2d2e863c711de1b77a6879b971a7";

fn compact_round_trip(v: u64) -> (usize, u64) {
    let mut encoded: Vec<u8> = Vec::new();
    let written = CompactSize(v).consensus_encode(&mut encoded).unwrap();
    assert_eq!(written, encoded.len());
    let mut cursor = Cursor::new(encoded);
    let decoded = CompactSize::consensus_decode(&mut cursor).unwrap();
    (written, decoded.0)
}

#[test]
fn compact_size_boundaries() {
    let cases: Vec<(u64, usize)> = vec![
        (0, 1),
        (1, 1),
        (252, 1),
        (253, 3),
        (65535, 3),
        (65536, 5),
        (4294967295, 5),
        (4294967296, 9),
        (u64::MAX, 9),
    ];
    for (value, width) in cases {
        let (written, back) = compact_round_trip(value);
        assert_eq!(written, width, "width for {}", value);
        assert_eq!(back, value, "round trip for {}", value);
    }
}

#[test]
fn compact_size_wide_forms_accepted() {
    // A non-minimal encoding of 1 through each width class still decodes.
    let wide: Vec<Vec<u8>> = vec![
        vec![0xfd, 0x01, 0x00],
        vec![0xfe, 0x01, 0x00, 0x00, 0x00],
        vec![0xff, 0x01, 0x00, 0x00, 0x00, 0x00, 0x00, 0x00, 0x00],
    ];
    for bytes in wide {
        let mut cursor = Cursor::new(bytes);
        let decoded = CompactSize::consensus_decode(&mut cursor).unwrap();
        assert_eq!(decoded.0, 1);
    }
}

#[test]
fn golden_transaction_decodes() {
    let tx = decode(GOLDEN_HEX.to_string()).unwrap();
    assert_eq!(tx.version.0, 1);
    assert_eq!(tx.lock_time, 0);
    assert_eq!(tx.inputs.len(), 1);
    assert_eq!(tx.outputs.len(), 1);
    let input = &tx.inputs[0];
    assert_eq!(input.previous_vout, 0);
    assert_eq!(input.sequence, 0xffffffff);
    assert!(input.witness.is_empty());
    assert_eq!(
        input.previous_txid.display_hex(),
        "0afeed3b1de05968767edbc0d6761a194523dc2d566fa7c4991aade8e42ef9d4"
    );
    assert_eq!(input.script_sig.len(), 0x6b * 2);
    let output = &tx.outputs[0];
    assert_eq!(output.amount.to_sat(), 600);
    assert_eq!(
        output.script_pubkey,
        "76a9142b1da6ec2d055aa03cad386841a4b4dc62acd5b688ac"
    );
}

#[test]
fn golden_transaction_id() {
    let tx = decode(GOLDEN_HEX.to_string()).unwrap();
    let txid = tx.txid();
    assert_eq!(txid.display_hex(), GOLDEN_TXID);
}

#[test]
fn legacy_round_trip_bytes() {
    // Re-encoding every decoded field reproduces the raw bytes exactly.
    let tx = decode(GOLDEN_HEX.to_string()).unwrap();
    let mut encoded: Vec<u8> = Vec::new();
    tx.version.consensus_encode(&mut encoded).unwrap();
    tx.inputs.consensus_encode(&mut encoded).unwrap();
    tx.outputs.consensus_encode(&mut encoded).unwrap();
    tx.lock_time.consensus_encode(&mut encoded).unwrap();
    assert_eq!(hex::encode(&encoded), GOLDEN_HEX);
}

#[test]
fn txid_deterministic_and_sensitive_to_flips() {
    let first = decode(GOLDEN_HEX.to_string()).unwrap().txid();
    let second = decode(GOLDEN_HEX.to_string()).unwrap().txid();
    assert_eq!(first.display_hex(), second.display_hex());

    // Flip one bit of the locktime: the identifier must change.
    let mut bytes = hex::decode(GOLDEN_HEX).unwrap();
    let last = bytes.len() - 1;
    bytes[last] ^= 0x01;
    let mut cursor = Cursor::new(bytes);
    let mutated = Transaction::consensus_decode(&mut cursor).unwrap();
    assert_eq!(mutated.lock_time, 0x01000000);
    assert_ne!(mutated.txid().display_hex(), GOLDEN_TXID);

    // Flip one bit of the version: the identifier must change too.
    let mut bytes = hex::decode(GOLDEN_HEX).unwrap();
    bytes[0] ^= 0x02;
    let mut cursor = Cursor::new(bytes);
    let mutated = Transaction::consensus_decode(&mut cursor).unwrap();
    assert_ne!(mutated.txid().display_hex(), GOLDEN_TXID);
}

#[test]
fn unsupported_segwit_flag_reports_value() {
    // Version, a zero input count (the marker), then flag byte 2.
    let result = decode("010000000002".to_string());
    assert_eq!(result.unwrap_err(), Error::UnsupportedSegwitFlag(2));

    let result = decode("0100000000ff".to_string());
    assert_eq!(result.unwrap_err(), Error::UnsupportedSegwitFlag(0xff));
}

fn segwit_skeleton(witness_suffix: &str) -> String {
    let mut raw = String::new();
    raw.push_str("01000000"); // version
    raw.push_str("00"); // segwit marker
    raw.push_str("01"); // flag
    raw.push_str("01"); // input count
    raw.push_str(&"00".repeat(32)); // previous txid
    raw.push_str("00000000"); // previous vout
    raw.push_str("00"); // empty script sig
    raw.push_str("ffffffff"); // sequence
    raw.push_str("01"); // output count
    raw.push_str("5802000000000000"); // amount: 600 satoshi
    raw.push_str("00"); // empty script pubkey
    raw.push_str(witness_suffix);
    raw
}

#[test]
fn segwit_all_empty_witnesses_rejected() {
    // One input whose witness stack decodes empty: the flag is unbacked.
    let raw = segwit_skeleton("00");
    let result = decode(raw);
    match result.unwrap_err() {
        Error::ParseFailed(reason) => {
            assert_eq!(reason, "witness flag set but no witnesses present")
        },
        other => panic!("expected ParseFailed, got {:?}", other),
    }
}

#[test]
fn segwit_with_witness_data_accepted() {
    // One witness stack holding the single item [0xaa], then the locktime.
    let raw = segwit_skeleton("0101aa00000000");
    let tx = decode(raw).unwrap();
    assert_eq!(tx.inputs.len(), 1);
    assert_eq!(tx.lock_time, 0);
    let witness = &tx.inputs[0].witness;
    assert!(!witness.is_empty());
    assert_eq!(witness.items().len(), 1);
    assert_eq!(witness.items()[0], vec![0xaa]);
    assert_eq!(tx.outputs[0].amount.to_sat(), 600);
}

#[test]
fn segwit_marker_with_no_real_inputs_accepted() {
    // Marker, flag 1, a real input count of zero, no outputs, locktime.
    // With no inputs there are no witness stacks for the flag to back.
    let tx = decode("010000000001000000000000".to_string()).unwrap();
    assert_eq!(tx.inputs.len(), 0);
    assert_eq!(tx.outputs.len(), 0);
    assert_eq!(tx.lock_time, 0);
}

#[test]
fn trailing_bytes_ignored() {
    let mut raw = GOLDEN_HEX.to_string();
    raw.push_str("deadbeef");
    let tx = decode(raw).unwrap();
    assert_eq!(tx.txid().display_hex(), GOLDEN_TXID);
}

#[test]
fn truncated_input_reported() {
    assert_eq!(decode("01".to_string()).unwrap_err(), Error::TruncatedInput);
    assert_eq!(decode("".to_string()).unwrap_err(), Error::TruncatedInput);
    // A count promising more inputs than the bytes hold.
    assert_eq!(
        decode("0100000002".to_string()).unwrap_err(),
        Error::TruncatedInput
    );
}

#[test]
fn invalid_hex_reported() {
    assert_eq!(decode("zz".to_string()).unwrap_err(), Error::HexDecodeError);
    // An odd number of digits is not valid hex either.
    assert_eq!(decode("010".to_string()).unwrap_err(), Error::HexDecodeError);
}

#[test]
fn txid_from_bytes_keeps_internal_order() {
    let mut bytes = [0u8; 32];
    bytes[0] = 0xab;
    bytes[31] = 0x01;
    let txid = Txid::from_bytes(bytes);
    let shown = txid.display_hex();
    // Display reverses the bytes: the last byte comes first.
    assert!(shown.starts_with("01"));
    assert!(shown.ends_with("ab"));
    assert_eq!(shown.len(), 64);
}

#[test]
fn witness_new_is_empty() {
    let witness = Witness::new();
    assert!(witness.is_empty());
    assert_eq!(witness.items().len(), 0);
}

#[test]
fn amount_keeps_satoshi_exactly() {
    assert_eq!(Amount::from_sat(0).to_sat(), 0);
    assert_eq!(Amount::from_sat(100_000_000).to_sat(), 100_000_000);
    assert_eq!(Amount::from_sat(u64::MAX).to_sat(), u64::MAX);
}

#[test]
fn error_messages() {
    assert_eq!(Error::TruncatedInput.kind_message(), "unexpected end of input");
    assert_eq!(Error::ParseFailed("bad").kind_message(), "bad");
}
