use txcodec::amount::Amount;
use txcodec::transaction::Encodable;

#[test]
fn one_unit_renders_with_eight_decimals() {
    assert_eq!(Amount::from_sat(100_000_000).to_btc_string(), "1.00000000");
}

#[test]
fn one_satoshi_renders_as_smallest_fraction() {
    assert_eq!(Amount::from_sat(1).to_btc_string(), "0.00000001");
}

#[test]
fn amount_rendering_edge_values() {
    assert_eq!(Amount::from_sat(0).to_btc_string(), "0.00000000");
    assert_eq!(Amount::from_sat(1_028_587).to_btc_string(), "0.01028587");
    assert_eq!(Amount::from_sat(2_002_000).to_btc_string(), "0.02002000");
    assert_eq!(Amount::from_sat(2_100_000_000_000_000).to_btc_string(), "21000000.00000000");
    assert_eq!(Amount::from_sat(123_456_789).to_btc_string(), "1.23456789");
    assert_eq!(Amount::from_sat(u64::MAX).to_btc_string(), "184467440737.09551615");
}

#[test]
fn amount_stores_integer_base_units() {
    let a = Amount::from_sat(100_000_001);
    assert_eq!(a.to_sat(), 100_000_001);
}

#[test]
fn amount_encodes_as_little_endian_u64() {
    let mut out: Vec<u8> = Vec::new();
    Amount::from_sat(0x0102030405060708).consensus_encoder(&mut out);
    assert_eq!(out, vec![8, 7, 6, 5, 4, 3, 2, 1]);
}
