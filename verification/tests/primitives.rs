use zcash_light_client::primitives::{Amount, BlockHash, MAX_MONEY};

#[test]
fn amount_range_is_checked() {
    assert!(Amount::from_i64(MAX_MONEY).is_ok());
    assert!(Amount::from_i64(MAX_MONEY + 1).is_err());
    assert!(Amount::from_i64(-MAX_MONEY - 1).is_err());
    assert_eq!(Amount::from_u64(5).unwrap().to_i64(), 5);
}

#[test]
fn block_hash_from_slice_keeps_bytes() {
    let bytes = [7u8; 32];
    assert_eq!(BlockHash::from_slice(&bytes).0, bytes);
}
