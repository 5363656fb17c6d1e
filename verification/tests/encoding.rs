use group::{Group, GroupEncoding};
use rand_core::SeedableRng;
use rand_xorshift::XorShiftRng;
use zcash_light_client::constants::{MainNetwork, Parameters, TestNetwork};
use zcash_light_client::encoding::{
    decode_extended_full_viewing_key, decode_extended_spending_key, decode_payment_address,
    decode_transparent_address, encode_extended_full_viewing_key, encode_extended_spending_key,
    encode_payment_address, encode_payment_address_p, encode_transparent_address,
    encode_transparent_address_p, AddressCodec, Bech32DecodeError, TransparentCodecError, Variant,
};
use zcash_light_client::keys::{
    ExtendedFullViewingKey, ExtendedSpendingKey, PaymentAddress, TransparentAddress,
};

/// The master spending key of the seed of 32 zero bytes.
const MASTER_SPENDING_KEY: [u8; 169] = [
    0x00, 0x00, 0x00, 0x00, 0x00, 0x00, 0x00, 0x00, 0x00, 0xf3, 0x88, 0xa5, 0x2d, 0xb2, 0xf7, 0x19,
    0xe9, 0x5e, 0x12, 0x20, 0xb8, 0x5b, 0xd8, 0xef, 0xf1, 0xad, 0xfa, 0x97, 0x9a, 0x27, 0x38, 0xa8,
    0x3f, 0x5e, 0xb0, 0x5d, 0x6c, 0x18, 0x27, 0x40, 0x24, 0x00, 0xe8, 0x44, 0xd7, 0xd0, 0x37, 0x7e,
    0xf9, 0x13, 0xef, 0x94, 0x98, 0x2a, 0x75, 0xc7, 0xe7, 0x82, 0x89, 0x04, 0x6a, 0x95, 0x0d, 0x50,
    0xe9, 0xd5, 0x03, 0x93, 0x57, 0x26, 0xcd, 0x34, 0x09, 0x5a, 0x81, 0x04, 0x8a, 0xc4, 0xb4, 0x1e,
    0x6a, 0x5b, 0x79, 0x61, 0x43, 0x81, 0x64, 0xd7, 0x01, 0xe2, 0xf9, 0x4b, 0xc7, 0x13, 0x04, 0x19,
    0x84, 0x13, 0xeb, 0xcf, 0xa0, 0xed, 0xa3, 0xfa, 0x01, 0x9d, 0x6b, 0x95, 0x72, 0xfb, 0xf5, 0xdf,
    0x78, 0x75, 0x09, 0x65, 0xad, 0x59, 0xfa, 0x7a, 0x9a, 0x72, 0x3d, 0x72, 0x9e, 0x61, 0x71, 0xdc,
    0x1e, 0xab, 0xf4, 0xfe, 0xa1, 0x2e, 0xef, 0x30, 0x48, 0x9c, 0xa1, 0xee, 0x50, 0x54, 0xe6, 0x28,
    0x93, 0xd4, 0xa6, 0x55, 0x47, 0xbd, 0x13, 0xd8, 0xde, 0xef, 0xef, 0xf7, 0xf4, 0xfe, 0xdf, 0xa1,
    0xb6, 0xb2, 0x9c, 0x5c, 0x86, 0x71, 0x20, 0x36, 0x4a,
];

/// The full viewing key of the master spending key of the seed of 32 zero bytes.
const MASTER_FULL_VIEWING_KEY: [u8; 169] = [
    0x00, 0x00, 0x00, 0x00, 0x00, 0x00, 0x00, 0x00, 0x00, 0xf3, 0x88, 0xa5, 0x2d, 0xb2, 0xf7, 0x19,
    0xe9, 0x5e, 0x12, 0x20, 0xb8, 0x5b, 0xd8, 0xef, 0xf1, 0xad, 0xfa, 0x97, 0x9a, 0x27, 0x38, 0xa8,
    0x3f, 0x5e, 0xb0, 0x5d, 0x6c, 0x18, 0x27, 0x40, 0x24, 0x44, 0xea, 0xbb, 0x0a, 0xae, 0xba, 0xe2,
    0x8f, 0xe9, 0x22, 0x29, 0x36, 0xfd, 0xcc, 0x9e, 0x7d, 0xb7, 0x34, 0x0f, 0x06, 0x74, 0xc3, 0x7e,
    0xaa, 0x08, 0x37, 0x84, 0x9c, 0x2c, 0xde, 0xdb, 0x48, 0x7f, 0x72, 0x33, 0x78, 0x0e, 0x97, 0x2c,
    0x46, 0x65, 0xa7, 0x76, 0x2b, 0xba, 0xa8, 0xfa, 0x18, 0x15, 0x9a, 0x10, 0x33, 0x37, 0x65, 0x88,
    0xcd, 0x6a, 0x8c, 0x2d, 0x92, 0xe9, 0x3d, 0x81, 0x4c, 0x9d, 0x6b, 0x95, 0x72, 0xfb, 0xf5, 0xdf,
    0x78, 0x75, 0x09, 0x65, 0xad, 0x59, 0xfa, 0x7a, 0x9a, 0x72, 0x3d, 0x72, 0x9e, 0x61, 0x71, 0xdc,
    0x1e, 0xab, 0xf4, 0xfe, 0xa1, 0x2e, 0xef, 0x30, 0x48, 0x9c, 0xa1, 0xee, 0x50, 0x54, 0xe6, 0x28,
    0x93, 0xd4, 0xa6, 0x55, 0x47, 0xbd, 0x13, 0xd8, 0xde, 0xef, 0xef, 0xf7, 0xf4, 0xfe, 0xdf, 0xa1,
    0xb6, 0xb2, 0x9c, 0x5c, 0x86, 0x71, 0x20, 0x36, 0x4a,
];

fn random_point() -> [u8; 32] {
    let rng = &mut XorShiftRng::from_seed([
        0x59, 0x62, 0xbe, 0x3d, 0x76, 0x3d, 0x31, 0x8d, 0x17, 0xdb, 0x37, 0x32, 0x54, 0x06, 0xbc,
        0xe5,
    ]);
    jubjub::SubgroupPoint::random(rng).to_bytes()
}

#[test]
fn extended_spending_key() {
    let extsk = ExtendedSpendingKey::read(&MASTER_SPENDING_KEY[..]).unwrap();

    let encoded_main = "secret-extended-key-main1qqqqqqqqqqqqqq8n3zjjmvhhr854uy3qhpda3ml34haf0x388z5r7h4st4kpsf6qysqws3xh6qmha7gna72fs2n4clnc9zgyd22s658f65pex4exe56qjk5pqj9vfdq7dfdhjc2rs9jdwq0zl99uwycyrxzp86705rk687spn44e2uhm7h0hsagfvkk4n7n6nfer6u57v9cac84t7nl2zth0xpyfeg0w2p2wv2yn6jn923aaz0vdaml07l60ahapk6efchyxwysrvjs87qvlj";
    let encoded_test = "secret-extended-key-test1qqqqqqqqqqqqqq8n3zjjmvhhr854uy3qhpda3ml34haf0x388z5r7h4st4kpsf6qysqws3xh6qmha7gna72fs2n4clnc9zgyd22s658f65pex4exe56qjk5pqj9vfdq7dfdhjc2rs9jdwq0zl99uwycyrxzp86705rk687spn44e2uhm7h0hsagfvkk4n7n6nfer6u57v9cac84t7nl2zth0xpyfeg0w2p2wv2yn6jn923aaz0vdaml07l60ahapk6efchyxwysrvjsvzyw8j";

    assert_eq!(
        encode_extended_spending_key(MainNetwork {}.hrp_sapling_extended_spending_key(), &extsk),
        encoded_main
    );
    assert_eq!(
        decode_extended_spending_key(
            MainNetwork {}.hrp_sapling_extended_spending_key(),
            encoded_main
        )
        .unwrap(),
        extsk
    );

    assert_eq!(
        encode_extended_spending_key(TestNetwork {}.hrp_sapling_extended_spending_key(), &extsk),
        encoded_test
    );
    assert_eq!(
        decode_extended_spending_key(
            TestNetwork {}.hrp_sapling_extended_spending_key(),
            encoded_test
        )
        .unwrap(),
        extsk
    );
}

#[test]
fn extended_full_viewing_key() {
    let extfvk = ExtendedFullViewingKey::read(&MASTER_FULL_VIEWING_KEY[..]).unwrap();

    let encoded_main = "zxviews1qqqqqqqqqqqqqq8n3zjjmvhhr854uy3qhpda3ml34haf0x388z5r7h4st4kpsf6qy3zw4wc246aw9rlfyg5ndlwvne7mwdq0qe6vxl42pqmcf8pvmmd5slmjxduqa9evgej6wa3th2505xq4nggrxdm93rxk4rpdjt5nmq2vn44e2uhm7h0hsagfvkk4n7n6nfer6u57v9cac84t7nl2zth0xpyfeg0w2p2wv2yn6jn923aaz0vdaml07l60ahapk6efchyxwysrvjsxmansf";
    let encoded_test = "zxviewtestsapling1qqqqqqqqqqqqqq8n3zjjmvhhr854uy3qhpda3ml34haf0x388z5r7h4st4kpsf6qy3zw4wc246aw9rlfyg5ndlwvne7mwdq0qe6vxl42pqmcf8pvmmd5slmjxduqa9evgej6wa3th2505xq4nggrxdm93rxk4rpdjt5nmq2vn44e2uhm7h0hsagfvkk4n7n6nfer6u57v9cac84t7nl2zth0xpyfeg0w2p2wv2yn6jn923aaz0vdaml07l60ahapk6efchyxwysrvjs8evfkz";

    assert_eq!(
        encode_extended_full_viewing_key(
            MainNetwork {}.hrp_sapling_extended_full_viewing_key(),
            &extfvk
        ),
        encoded_main
    );
    assert_eq!(
        decode_extended_full_viewing_key(
            MainNetwork {}.hrp_sapling_extended_full_viewing_key(),
            encoded_main
        )
        .unwrap(),
        extfvk
    );

    assert_eq!(
        encode_extended_full_viewing_key(
            TestNetwork {}.hrp_sapling_extended_full_viewing_key(),
            &extfvk
        ),
        encoded_test
    );
    assert_eq!(
        decode_extended_full_viewing_key(
            TestNetwork {}.hrp_sapling_extended_full_viewing_key(),
            encoded_test
        )
        .unwrap(),
        extfvk
    );
}

#[test]
fn payment_address() {
    let addr = PaymentAddress::from_parts([0u8; 11], random_point()).unwrap();

    let encoded_main =
        "zs1qqqqqqqqqqqqqqqqqqcguyvaw2vjk4sdyeg0lc970u659lvhqq7t0np6hlup5lusxle75c8v35z";
    let encoded_test =
        "ztestsapling1qqqqqqqqqqqqqqqqqqcguyvaw2vjk4sdyeg0lc970u659lvhqq7t0np6hlup5lusxle75ss7jnk";

    assert_eq!(
        encode_payment_address(MainNetwork {}.hrp_sapling_payment_address(), &addr),
        encoded_main
    );
    assert_eq!(
        decode_payment_address(MainNetwork {}.hrp_sapling_payment_address(), encoded_main)
            .unwrap(),
        addr
    );

    assert_eq!(
        encode_payment_address(TestNetwork {}.hrp_sapling_payment_address(), &addr),
        encoded_test
    );
    assert_eq!(
        decode_payment_address(TestNetwork {}.hrp_sapling_payment_address(), encoded_test)
            .unwrap(),
        addr
    );
}

#[test]
fn invalid_diversifier() {
    let addr = PaymentAddress::from_parts([1u8; 11], random_point()).unwrap();

    let encoded_main =
        encode_payment_address(MainNetwork {}.hrp_sapling_payment_address(), &addr);

    assert_eq!(
        decode_payment_address(MainNetwork {}.hrp_sapling_payment_address(), &encoded_main),
        Err(Bech32DecodeError::ReadError)
    );
}

#[test]
fn payment_address_of_network() {
    let addr = PaymentAddress::from_parts([0u8; 11], random_point()).unwrap();
    assert_eq!(
        encode_payment_address_p(&TestNetwork {}, &addr),
        "ztestsapling1qqqqqqqqqqqqqqqqqqcguyvaw2vjk4sdyeg0lc970u659lvhqq7t0np6hlup5lusxle75ss7jnk"
    );
}

#[test]
fn decode_reports_wrong_prefix_and_variant() {
    let main = MainNetwork {}.hrp_sapling_payment_address();
    let encoded_test =
        "ztestsapling1qqqqqqqqqqqqqqqqqqcguyvaw2vjk4sdyeg0lc970u659lvhqq7t0np6hlup5lusxle75ss7jnk";
    assert_eq!(
        decode_payment_address(main, encoded_test),
        Err(Bech32DecodeError::HrpMismatch {
            expected: "zs".to_string(),
            actual: "ztestsapling".to_string()
        })
    );
    // A string with the checksum of the later variant.
    assert_eq!(
        decode_payment_address("a", "a1lqfn3a"),
        Err(Bech32DecodeError::IncorrectVariant(Variant::Bech32m))
    );
    assert_eq!(
        decode_payment_address(main, "zs1qqqqqqqqqqqqqqqqqqcguyvaw2vjk4sdyeg0lc970u659lvhqq7t0np6hlup5lusxle75c8v35q"),
        Err(Bech32DecodeError::Bech32Error(bech32::Error::InvalidChecksum))
    );
    // A Bech32 string whose bytes are too few for an address.
    assert_eq!(
        decode_payment_address("a", "a12uel5l"),
        Err(Bech32DecodeError::ReadError)
    );
}

#[test]
fn key_with_scalar_out_of_range_is_refused() {
    let mut bytes = MASTER_SPENDING_KEY;
    for b in bytes[41..73].iter_mut() {
        *b = 0xff;
    }
    assert!(ExtendedSpendingKey::read(&bytes[..]).is_none());
    assert!(ExtendedSpendingKey::read(&MASTER_SPENDING_KEY[..168]).is_none());
    // The identity is no authorizing key.
    let mut fvk = MASTER_FULL_VIEWING_KEY;
    for b in fvk[41..73].iter_mut() {
        *b = 0;
    }
    fvk[41] = 1;
    assert!(ExtendedFullViewingKey::read(&fvk[..]).is_none());
    assert!(PaymentAddress::from_parts([0u8; 11], {
        let mut id = [0u8; 32];
        id[0] = 1;
        id
    })
    .is_none());
}

#[test]
fn transparent_addresses() {
    let pubkey = TestNetwork {}.b58_pubkey_address_prefix();
    let script = TestNetwork {}.b58_script_address_prefix();
    assert_eq!(
        encode_transparent_address(&pubkey, &script, &TransparentAddress::PublicKey([0; 20])),
        "tm9iMLAuYMzJ6jtFLcA7rzUmfreGuKvr7Ma"
    );
    assert_eq!(
        encode_transparent_address(&pubkey, &script, &TransparentAddress::Script([0; 20])),
        "t26YoyZ1iPgiMEWL4zGUm74eVWfhyDMXzY2"
    );
    assert_eq!(
        encode_transparent_address_p(&TestNetwork {}, &TransparentAddress::Script([0; 20])),
        "t26YoyZ1iPgiMEWL4zGUm74eVWfhyDMXzY2"
    );
    assert_eq!(
        decode_transparent_address(&pubkey, &script, "tm9iMLAuYMzJ6jtFLcA7rzUmfreGuKvr7Ma")
            .unwrap(),
        Some(TransparentAddress::PublicKey([0; 20]))
    );
    assert_eq!(
        decode_transparent_address(&pubkey, &script, "t26YoyZ1iPgiMEWL4zGUm74eVWfhyDMXzY2")
            .unwrap(),
        Some(TransparentAddress::Script([0; 20]))
    );
    // An address of the test network is none of the main network.
    let main_pubkey = MainNetwork {}.b58_pubkey_address_prefix();
    let main_script = MainNetwork {}.b58_script_address_prefix();
    assert_eq!(
        decode_transparent_address(
            &main_pubkey,
            &main_script,
            "tm9iMLAuYMzJ6jtFLcA7rzUmfreGuKvr7Ma"
        )
        .unwrap(),
        None
    );
    assert!(decode_transparent_address(&pubkey, &script, "tm9iMLAuYMzJ6jtFLcA7rzUmfreGuKvr7Mb")
        .is_err());
    let addr = TransparentAddress::PublicKey([0; 20]);
    assert_eq!(
        AddressCodec::encode(&addr, &TestNetwork {}),
        "tm9iMLAuYMzJ6jtFLcA7rzUmfreGuKvr7Ma"
    );
    assert_eq!(
        <TransparentAddress as AddressCodec<TestNetwork>>::decode(
            &TestNetwork {},
            "tm9iMLAuYMzJ6jtFLcA7rzUmfreGuKvr7Ma"
        )
        .unwrap(),
        addr
    );
    assert!(matches!(
        <TransparentAddress as AddressCodec<MainNetwork>>::decode(
            &MainNetwork {},
            "tm9iMLAuYMzJ6jtFLcA7rzUmfreGuKvr7Ma"
        ),
        Err(TransparentCodecError::UnsupportedAddressType(s)) if s == "tm9iMLAuYMzJ6jtFLcA7rzUmfreGuKvr7Ma"
    ));
}
