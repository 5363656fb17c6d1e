use zcash_light_client::encoding::{Bech32DecodeError, TransparentCodecError, Variant};
use zcash_light_client::error::{ChainError, ChainInvalid, MemoError, SqliteClientError};
use zcash_light_client::primitives::{AccountId, BlockHeight, TxId};

#[test]
fn errors_are_worded() {
    let cases: Vec<(SqliteClientError, &str)> = vec![
        (SqliteClientError::CorruptedData("x".to_string()), "Data DB is corrupted: x"),
        (SqliteClientError::IncorrectHrpExtFvk, "Incorrect HRP for extfvk"),
        (SqliteClientError::InvalidNote, "Invalid note"),
        (
            SqliteClientError::InvalidNoteId,
            "The note ID associated with an inserted witness must correspond to a received note.",
        ),
        (SqliteClientError::TableNotEmpty, "Table is not empty"),
        (
            SqliteClientError::RequestedRewindInvalid(BlockHeight(900), BlockHeight(5)),
            "A rewind must be either of less than 100 blocks, or at least back to block 900 for your wallet; the requested height was 5.",
        ),
        (
            SqliteClientError::DiversifierIndexOutOfRange,
            "The space of available diversifier indices is exhausted",
        ),
        (
            SqliteClientError::KeyDerivationError(AccountId(3)),
            "Key derivation failed for account AccountId(3)",
        ),
        (
            SqliteClientError::AccountIdDiscontinuity,
            "Wallet account identifiers must be sequential.",
        ),
        (
            SqliteClientError::AccountIdOutOfRange,
            "Wallet account identifiers must be less than 0x7FFFFFFF.",
        ),
        (
            SqliteClientError::BackendError(ChainError::InvalidChain(
                BlockHeight(4_294_967_295),
                ChainInvalid::PrevHashMismatch,
            )),
            "Invalid chain (upper bound: 4294967295): PrevHashMismatch",
        ),
        (
            SqliteClientError::Bech32DecodeError(Bech32DecodeError::ReadError),
            "Failed to decode key from its binary representation.",
        ),
        (
            SqliteClientError::Bech32DecodeError(Bech32DecodeError::IncorrectVariant(
                Variant::Bech32m,
            )),
            "Incorrect bech32 encoding (wrong variant: Bech32m)",
        ),
        (
            SqliteClientError::Bech32DecodeError(Bech32DecodeError::HrpMismatch {
                expected: "zs".to_string(),
                actual: "ztestsapling".to_string(),
            }),
            "Key was encoded for a different network: expected zs, got ztestsapling.",
        ),
        (
            SqliteClientError::Bech32DecodeError(Bech32DecodeError::Bech32Error(
                bech32::Error::InvalidChecksum,
            )),
            "invalid checksum",
        ),
        (
            SqliteClientError::TransparentAddress(TransparentCodecError::UnsupportedAddressType(
                "abc".to_string(),
            )),
            "Could not recognize abc as a supported p2sh or p2pkh address.",
        ),
        (
            SqliteClientError::InvalidMemo(MemoError::TooLong(513)),
            "Memo length 513 is larger than maximum of 512",
        ),
        (
            SqliteClientError::Io(std::io::Error::new(std::io::ErrorKind::Other, "disk gone")),
            "disk gone",
        ),
        (
            SqliteClientError::DbError(rusqlite::Error::QueryReturnedNoRows),
            "Query returned no rows",
        ),
    ];
    for (error, text) in cases {
        assert_eq!(error.to_string(), text);
    }
    let mut txid = [0u8; 32];
    txid[0] = 0x01;
    txid[31] = 0xfe;
    assert_eq!(
        SqliteClientError::TransactionIsMined(TxId(txid)).to_string(),
        "Cannot remove transaction fe00000000000000000000000000000000000000000000000000000000000001 which has already been mined"
    );
    let bad = std::str::from_utf8(&[0xff]).unwrap_err();
    assert_eq!(
        SqliteClientError::InvalidMemo(MemoError::InvalidUtf8(bad)).to_string(),
        format!("Invalid UTF-8: {}", bad)
    );
    let base58 = bs58::decode("0").into_vec().unwrap_err();
    assert_eq!(
        SqliteClientError::Base58(base58.clone()).to_string(),
        format!("{}", base58)
    );
    assert_eq!(
        TransparentCodecError::Base58(base58.clone()).to_string(),
        format!("{}", base58)
    );
}

#[test]
fn errors_are_wrapped_by_their_variants() {
    assert!(matches!(
        SqliteClientError::from(rusqlite::Error::QueryReturnedNoRows),
        SqliteClientError::DbError(rusqlite::Error::QueryReturnedNoRows)
    ));
    assert!(matches!(
        SqliteClientError::from(std::io::Error::from(std::io::ErrorKind::NotFound)),
        SqliteClientError::Io(_)
    ));
    assert!(matches!(
        SqliteClientError::from(Bech32DecodeError::ReadError),
        SqliteClientError::Bech32DecodeError(Bech32DecodeError::ReadError)
    ));
    assert!(matches!(
        SqliteClientError::from(bs58::decode("0").into_vec().unwrap_err()),
        SqliteClientError::Base58(_)
    ));
    assert!(matches!(
        SqliteClientError::from(hdwallet::error::Error::KeyIndexOutOfRange),
        SqliteClientError::HdwalletError(hdwallet::error::Error::KeyIndexOutOfRange)
    ));
    assert!(matches!(
        SqliteClientError::from(MemoError::TooLong(600)),
        SqliteClientError::InvalidMemo(MemoError::TooLong(600))
    ));
    assert!(matches!(
        SqliteClientError::from(ChainInvalid::prev_hash_mismatch(BlockHeight(7))),
        SqliteClientError::BackendError(ChainError::InvalidChain(
            BlockHeight(7),
            ChainInvalid::PrevHashMismatch
        ))
    ));
    assert_eq!(
        Bech32DecodeError::from(bech32::Error::MixedCase),
        Bech32DecodeError::Bech32Error(bech32::Error::MixedCase)
    );
}
