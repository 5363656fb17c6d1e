//! What differs between the networks: the prefixes of encoded keys and
//! addresses, the coin type, and the height at which the shielded pool starts.

use vstd::prelude::*;
use crate::primitives::BlockHeight;

verus! {

/// Whether a character is a lower-case letter.
pub open spec fn is_lower(c: char) -> bool {
    'a' <= c <= 'z'
}

/// Whether a character is an upper-case letter.
pub open spec fn is_upper(c: char) -> bool {
    'A' <= c <= 'Z'
}

/// Whether `hrp` can be the human-readable part of a Bech32 string: between 1
/// and 83 characters, each a printable character other than the space, and
/// not both a lower-case and an upper-case letter among them.
pub open spec fn valid_hrp(hrp: Seq<char>) -> bool {
    &&& 1 <= hrp.len() <= 83
    &&& forall|i: int| 0 <= i < hrp.len() ==> 33 <= (#[trigger] hrp[i]) as u32 <= 126
    &&& !((exists|i: int| 0 <= i < hrp.len() && is_lower(#[trigger] hrp[i])) && (exists|i: int|
        0 <= i < hrp.len() && is_upper(#[trigger] hrp[i])))
}

/// The parameters of a network.
pub trait Parameters {
    /// The human-readable part of an encoded extended spending key.
    spec fn spending_key_hrp(&self) -> Seq<char>;

    /// The human-readable part of an encoded extended full viewing key.
    spec fn full_viewing_key_hrp(&self) -> Seq<char>;

    /// The human-readable part of an encoded payment address.
    spec fn payment_address_hrp(&self) -> Seq<char>;

    /// The bytes before the hash in an encoded address of a public key.
    spec fn pubkey_address_prefix(&self) -> Seq<u8>;

    /// The bytes before the hash in an encoded address of a script.
    spec fn script_address_prefix(&self) -> Seq<u8>;

    /// The height of the first block that can hold shielded outputs.
    spec fn sapling_activation(&self) -> u32;

    /// The number of the coin in the derivation of keys.
    spec fn coin(&self) -> u32;

    fn coin_type(&self) -> (r: u32)
        ensures
            r == self.coin(),
    ;

    fn hrp_sapling_extended_spending_key(&self) -> (r: &'static str)
        ensures
            r@ == self.spending_key_hrp(),
            valid_hrp(r@),
    ;

    fn hrp_sapling_extended_full_viewing_key(&self) -> (r: &'static str)
        ensures
            r@ == self.full_viewing_key_hrp(),
            valid_hrp(r@),
    ;

    fn hrp_sapling_payment_address(&self) -> (r: &'static str)
        ensures
            r@ == self.payment_address_hrp(),
            valid_hrp(r@),
    ;

    fn b58_pubkey_address_prefix(&self) -> (r: [u8; 2])
        ensures
            r@ == self.pubkey_address_prefix(),
    ;

    fn b58_script_address_prefix(&self) -> (r: [u8; 2])
        ensures
            r@ == self.script_address_prefix(),
    ;

    fn sapling_activation_height(&self) -> (r: BlockHeight)
        ensures
            r.0 == self.sapling_activation(),
    ;
}

/// The main network.
#[derive(Clone, Copy, Debug, PartialEq, Eq)]
pub struct MainNetwork {}

/// The test network.
#[derive(Clone, Copy, Debug, PartialEq, Eq)]
pub struct TestNetwork {}

/// A human-readable part of lower-case letters, digits and hyphens is valid.
proof fn lemma_plain_hrp(hrp: Seq<char>)
    requires
        1 <= hrp.len() <= 83,
        forall|i: int|
            0 <= i < hrp.len() ==> is_lower(#[trigger] hrp[i]) || hrp[i] == '-' || ('0' <= hrp[i]
                <= '9'),
    ensures
        valid_hrp(hrp),
{
    assert forall|i: int| 0 <= i < hrp.len() implies !is_upper(#[trigger] hrp[i]) by {}
}

impl Parameters for MainNetwork {
    open spec fn spending_key_hrp(&self) -> Seq<char> {
        "secret-extended-key-main"@
    }

    open spec fn full_viewing_key_hrp(&self) -> Seq<char> {
        "zxviews"@
    }

    open spec fn payment_address_hrp(&self) -> Seq<char> {
        "zs"@
    }

    open spec fn pubkey_address_prefix(&self) -> Seq<u8> {
        seq![0x1cu8, 0xb8u8]
    }

    open spec fn script_address_prefix(&self) -> Seq<u8> {
        seq![0x1cu8, 0xbdu8]
    }

    open spec fn sapling_activation(&self) -> u32 {
        419_200
    }

    open spec fn coin(&self) -> u32 {
        133
    }

    fn coin_type(&self) -> (r: u32) {
        133
    }

    fn hrp_sapling_extended_spending_key(&self) -> (r: &'static str) {
        proof {
            reveal_strlit("secret-extended-key-main");
            lemma_plain_hrp("secret-extended-key-main"@);
        }
        "secret-extended-key-main"
    }

    fn hrp_sapling_extended_full_viewing_key(&self) -> (r: &'static str) {
        proof {
            reveal_strlit("zxviews");
            lemma_plain_hrp("zxviews"@);
        }
        "zxviews"
    }

    fn hrp_sapling_payment_address(&self) -> (r: &'static str) {
        proof {
            reveal_strlit("zs");
            lemma_plain_hrp("zs"@);
        }
        "zs"
    }

    fn b58_pubkey_address_prefix(&self) -> (r: [u8; 2]) {
        let r: [u8; 2] = [0x1c, 0xb8];
        assert(r@ =~= seq![0x1cu8, 0xb8u8]);
        r
    }

    fn b58_script_address_prefix(&self) -> (r: [u8; 2]) {
        let r: [u8; 2] = [0x1c, 0xbd];
        assert(r@ =~= seq![0x1cu8, 0xbdu8]);
        r
    }

    fn sapling_activation_height(&self) -> (r: BlockHeight) {
        BlockHeight(419_200)
    }
}

impl Parameters for TestNetwork {
    open spec fn spending_key_hrp(&self) -> Seq<char> {
        "secret-extended-key-test"@
    }

    open spec fn full_viewing_key_hrp(&self) -> Seq<char> {
        "zxviewtestsapling"@
    }

    open spec fn payment_address_hrp(&self) -> Seq<char> {
        "ztestsapling"@
    }

    open spec fn pubkey_address_prefix(&self) -> Seq<u8> {
        seq![0x1du8, 0x25u8]
    }

    open spec fn script_address_prefix(&self) -> Seq<u8> {
        seq![0x1cu8, 0xbau8]
    }

    open spec fn sapling_activation(&self) -> u32 {
        280_000
    }

    open spec fn coin(&self) -> u32 {
        1
    }

    fn coin_type(&self) -> (r: u32) {
        1
    }

    fn hrp_sapling_extended_spending_key(&self) -> (r: &'static str) {
        proof {
            reveal_strlit("secret-extended-key-test");
            lemma_plain_hrp("secret-extended-key-test"@);
        }
        "secret-extended-key-test"
    }

    fn hrp_sapling_extended_full_viewing_key(&self) -> (r: &'static str) {
        proof {
            reveal_strlit("zxviewtestsapling");
            lemma_plain_hrp("zxviewtestsapling"@);
        }
        "zxviewtestsapling"
    }

    fn hrp_sapling_payment_address(&self) -> (r: &'static str) {
        proof {
            reveal_strlit("ztestsapling");
            lemma_plain_hrp("ztestsapling"@);
        }
        "ztestsapling"
    }

    fn b58_pubkey_address_prefix(&self) -> (r: [u8; 2]) {
        let r: [u8; 2] = [0x1d, 0x25];
        assert(r@ =~= seq![0x1du8, 0x25u8]);
        r
    }

    fn b58_script_address_prefix(&self) -> (r: [u8; 2]) {
        let r: [u8; 2] = [0x1c, 0xba];
        assert(r@ =~= seq![0x1cu8, 0xbau8]);
        r
    }

    fn sapling_activation_height(&self) -> (r: BlockHeight) {
        BlockHeight(280_000)
    }
}

} // verus!
