use txcodec::transaction::{read_script_hex, read_txid, CompactSize, Decodable, Encodable,
    Transaction, Txid, Witness};
use txcodec::hexstr::push_blob_hex;
use txcodec::{decode, Error};

/// A legacy transaction with one input and two outputs, version 1.
const SAMPLE_TX_HEX: &str = "010000000142d5c1d6f7308bbe95c0f6e1301dd73a8da77d2155b0773bc297ac47f9cd7380010000006a4730440220771361aae55e84496b9e7b06e0a53dd122a1425f85840af7a52b20fa329816070220221dd92132e82ef9c133cb1a106b64893892a11acf2cfa1adb7698dcdc02f01b0121030077be25dc482e7f4abad60115416881fe4ef98af33c924cd8b20ca4e57e8bd5feffffff02ebb10f00000000001976a9144ef88a0b04e3ad6d1888da4be260d6735e0d308488ac508c1e000000000017a91476c0c8f2fc403c5edaea365f6a284317b9cdf7258700000000";

#[test]
fn end_to_end_sample_transaction() {
    let tx = decode(SAMPLE_TX_HEX).unwrap();
    assert_eq!(tx.version, 1);
    assert_eq!(tx.inputs.len(), 1);
    assert_eq!(tx.outputs.len(), 2);
    assert_eq!(tx.lock_time, 0);

    let input = &tx.inputs[0];
    assert_eq!(
        input.txid.to_hex(),
        "8073cdf947ac97c23b77b055217da78d3ad71d30e1f6c095be8b30f7d6c1d542"
    );
    assert_eq!(input.output_index, 1);
    assert_eq!(input.sequence, 0xFFFFFFFE);
    assert_eq!(
        hex::encode(&input.script_sig),
        "4730440220771361aae55e84496b9e7b06e0a53dd122a1425f85840af7a52b20fa329816070220221dd92132e82ef9c133cb1a106b64893892a11acf2cfa1adb7698dcdc02f01b0121030077be25dc482e7f4abad60115416881fe4ef98af33c924cd8b20ca4e57e8bd5"
    );
    assert!(input.witness.items().is_empty());

    assert_eq!(tx.outputs[0].amount.to_sat(), 1_028_587);
    assert_eq!(
        hex::encode(&tx.outputs[0].script_pubkey),
        "76a9144ef88a0b04e3ad6d1888da4be260d6735e0d308488ac"
    );
    assert_eq!(tx.outputs[1].amount.to_sat(), 2_002_000);
    assert_eq!(
        hex::encode(&tx.outputs[1].script_pubkey),
        "a91476c0c8f2fc403c5edaea365f6a284317b9cdf72587"
    );

    assert_eq!(
        tx.compute_txid().to_hex(),
        "60b3fd0e0a748b3beb30522972fd97c91cdefb051e75e73ff600bb933aeb81f9"
    );
}

#[test]
fn txid_is_deterministic_across_decodes() {
    let tx1 = decode(SAMPLE_TX_HEX).unwrap();
    let tx2 = decode(SAMPLE_TX_HEX).unwrap();
    assert_eq!(tx1.compute_txid().to_hex(), tx2.compute_txid().to_hex());
}

#[test]
fn txid_display_reverses_raw_hash_bytes() {
    let mut raw = [0_u8; 32];
    for (i, b) in raw.iter_mut().enumerate() {
        *b = i as u8;
    }
    let txid = Txid::from_hash(raw);
    let mut reversed = raw;
    reversed.reverse();
    assert_eq!(txid.to_hex(), hex::encode(reversed));
    assert_eq!(txid.to_hex().len(), 64);
}

#[test]
fn legacy_round_trip_reproduces_input_bytes() {
    let original = hex::decode(SAMPLE_TX_HEX).unwrap();
    let tx = decode(SAMPLE_TX_HEX).unwrap();
    assert_eq!(tx.serialize(), original);

    let mut out: Vec<u8> = Vec::new();
    let written = tx.consensus_encoder(&mut out);
    assert_eq!(written, original.len());
    assert_eq!(out, original);
}

#[test]
fn decode_ignores_trailing_bytes() {
    let mut bytes = hex::decode(SAMPLE_TX_HEX).unwrap();
    let expected_len = bytes.len();
    bytes.extend_from_slice(&[0xAA, 0xBB]);
    let (tx, consumed) = Transaction::consensus_decode(&bytes, 0).unwrap();
    assert_eq!(consumed, expected_len);
    assert_eq!(tx.version, 1);
}

#[test]
fn truncated_header_fails() {
    // shorter than a 4-byte version plus one count byte
    assert!(matches!(decode(""), Err(Error::Truncated)));
    assert!(matches!(decode("01"), Err(Error::Truncated)));
    assert!(matches!(decode("01000000"), Err(Error::Truncated)));
}

#[test]
fn truncated_input_fails() {
    // version, one input promised, but the buffer ends inside its txid
    assert!(matches!(decode("010000000142d5c1"), Err(Error::Truncated)));
}

#[test]
fn uppercase_hex_decodes_the_same() {
    let upper = SAMPLE_TX_HEX.to_uppercase();
    let tx = decode(&upper).unwrap();
    assert_eq!(
        tx.compute_txid().to_hex(),
        "60b3fd0e0a748b3beb30522972fd97c91cdefb051e75e73ff600bb933aeb81f9"
    );
}

#[test]
fn invalid_hex_is_rejected() {
    assert!(matches!(decode("abc"), Err(Error::InvalidHex)));
    assert!(matches!(decode("zz00"), Err(Error::InvalidHex)));
}

#[test]
fn unsupported_segwit_flag_is_reported() {
    // version, zero input count, then marker byte 2
    assert!(matches!(decode("010000000002"), Err(Error::UnsupportedSegwitFlag(2))));
    assert!(matches!(decode("0100000000ff"), Err(Error::UnsupportedSegwitFlag(255))));
}

#[test]
fn errors_describe_themselves() {
    assert_eq!(decode("zz").unwrap_err().describe(), "invalid hex input");
    assert_eq!(decode("01").unwrap_err().describe(), "transaction data is truncated");
    assert_eq!(
        decode("0100000000fe").unwrap_err().describe(),
        "unsupported segwit flag: 254"
    );
    assert_eq!(
        Error::SerializationFailure.describe(),
        "could not render the decoded transaction"
    );
}

#[test]
fn segwit_layout_decodes_witness_stacks() {
    // version 1 | count 0 | marker 1 | one input (txid, index, empty script,
    // sequence) | one output | a two-item witness stack | lock time
    let tx_hex = "010000000001 01 aaaaaaaaaaaaaaaaaaaaaaaaaaaaaaaaaaaaaaaaaaaaaaaaaaaaaaaaaaaaaaaa 00000000 00 ffffffff 01 0100000000000000 0151 02 02dead 0101 00000000";
    let tx_hex: String = tx_hex.chars().filter(|c| *c != ' ').collect();
    let tx = decode(&tx_hex).unwrap();
    assert_eq!(tx.version, 1);
    assert_eq!(tx.inputs.len(), 1);
    assert_eq!(tx.outputs.len(), 1);
    let witness = tx.inputs[0].witness.items();
    assert_eq!(witness.len(), 2);
    assert_eq!(witness[0], vec![0xDE, 0xAD]);
    assert_eq!(witness[1], vec![0x01]);
    assert_eq!(tx.outputs[0].amount.to_sat(), 1);
    assert_eq!(tx.outputs[0].script_pubkey, vec![0x51]);
}

#[test]
fn zero_input_marker_needs_a_byte() {
    // a zero count with nothing after it is truncated, not a legacy decode
    assert!(matches!(decode("0100000000"), Err(Error::Truncated)));
}

#[test]
fn compact_size_type_round_trip() {
    let bytes = hex::decode("fd204e").unwrap();
    let (cs, end) = CompactSize::consensus_decode(&bytes, 0).unwrap();
    assert_eq!(cs, CompactSize(20_000));
    assert_eq!(end, 3);
    let mut out: Vec<u8> = Vec::new();
    cs.consensus_encoder(&mut out);
    assert_eq!(out, bytes);
}

#[test]
fn script_hex_reading_and_writing() {
    let bytes = [0x02_u8, 0xAB, 0xCD];
    let (text, end) = read_script_hex(&bytes, 0).unwrap();
    assert_eq!(text, "abcd");
    assert_eq!(end, 3);

    let mut out: Vec<u8> = Vec::new();
    let written = push_blob_hex(&mut out, "deadbeef").unwrap();
    assert_eq!(written, 5);
    assert_eq!(out, vec![0x04, 0xDE, 0xAD, 0xBE, 0xEF]);

    let mut out: Vec<u8> = vec![0x77];
    assert_eq!(push_blob_hex(&mut out, "xyz"), Err(Error::InvalidHex));
    assert_eq!(out, vec![0x77]);
}

#[test]
fn read_txid_copies_raw_bytes() {
    let mut bytes = [0_u8; 33];
    for (i, b) in bytes.iter_mut().enumerate() {
        *b = i as u8;
    }
    let (txid, end) = read_txid(&bytes, 1).unwrap();
    assert_eq!(end, 33);
    // displayed reversed: 32, 31, ..., 1
    let mut expected: Vec<u8> = (1..=32_u8).collect();
    expected.reverse();
    assert_eq!(txid.to_hex(), hex::encode(expected));
    assert!(matches!(read_txid(&bytes, 2), Err(Error::Truncated)));
}

#[test]
fn fresh_witness_is_empty() {
    let w = Witness::new();
    assert!(w.items().is_empty());
}
