//! Keys and addresses of the shielded pool, as the bytes that spell them, and
//! transparent addresses.

use vstd::prelude::*;
use crate::primitives::array32_at;
use group::Group;
use group::GroupEncoding;
use group::ff::PrimeField;

verus! {

/// The number that the bytes spell, lowest byte first.
pub open spec fn le_nat(bytes: Seq<u8>) -> nat
    decreases bytes.len(),
{
    if bytes.len() == 0 {
        0
    } else {
        bytes[0] as nat + 256 * le_nat(bytes.drop_first())
    }
}

/// Two to the power of 64.
pub open spec fn two_64() -> nat {
    0x1_0000_0000_0000_0000
}

/// The order of the prime-order subgroup of the Jubjub curve.
pub open spec fn jubjub_scalar_modulus() -> nat {
    0xd097_0e5e_d6f7_2cb7nat + 0xa668_2093_ccc8_1082nat * two_64() + 0x0667_3b01_0134_3b00nat
        * two_64() * two_64() + 0x0e7d_b4ea_6533_afa9nat * two_64() * two_64() * two_64()
}

/// Whether the 32 bytes spell a scalar of the Jubjub curve in its one form.
pub open spec fn is_jubjub_scalar(bytes: Seq<u8>) -> bool {
    bytes.len() == 32 && le_nat(bytes) < jubjub_scalar_modulus()
}

/// Whether the bytes are the encoding of a point of the Jubjub curve.
pub uninterp spec fn curve_point_encoding(bytes: Seq<u8>) -> bool;

/// Whether the point that the bytes encode has an order of eight or less.
pub uninterp spec fn small_order_encoding(bytes: Seq<u8>) -> bool;

/// Whether the bytes are the encoding of a point of the prime-order subgroup
/// of the Jubjub curve.
pub uninterp spec fn subgroup_point_encoding(bytes: Seq<u8>) -> bool;

/// Whether the bytes are the encoding of the identity, the one point of the
/// subgroup that is no key: the byte 1, then 31 zero bytes.
pub open spec fn identity_encoding(bytes: Seq<u8>) -> bool {
    &&& bytes.len() == 32
    &&& bytes[0] == 1
    &&& forall|i: int| 1 <= i < 32 ==> bytes[i] == 0
}

/// The digest of the two messages, one after the other, under the BLAKE2s
/// hash with 32 bytes of output and the personalization `personal`.
pub uninterp spec fn blake2s_digest(personal: Seq<u8>, first: Seq<u8>, second: Seq<u8>) -> Seq<u8>;

/// `jubjub::Fr::from_repr`: there is a scalar exactly when the number that the
/// bytes spell, lowest byte first, is below the order of the subgroup.
#[verifier::external_body]
fn scalar_is_canonical(bytes: &[u8; 32]) -> (r: bool)
    ensures
        r == is_jubjub_scalar(bytes@),
{
    jubjub::Fr::from_repr(*bytes).is_some().into()
}

/// `jubjub::ExtendedPoint::from_bytes`: whether the bytes decode to a point
/// of the curve.
#[verifier::external_body]
fn is_curve_point(bytes: &[u8; 32]) -> (r: bool)
    ensures
        r == curve_point_encoding(bytes@),
{
    jubjub::ExtendedPoint::from_bytes(bytes).is_some().into()
}

/// `jubjub::ExtendedPoint::is_small_order` on the point that the bytes decode to.
#[verifier::external_body]
fn has_small_order(bytes: &[u8; 32]) -> (r: bool)
    requires
        curve_point_encoding(bytes@),
    ensures
        r == small_order_encoding(bytes@),
{
    jubjub::ExtendedPoint::from_bytes(bytes).unwrap().is_small_order().into()
}

/// `jubjub::SubgroupPoint::from_bytes`: whether the bytes decode to a point
/// of the prime-order subgroup.
#[verifier::external_body]
fn is_subgroup_point(bytes: &[u8; 32]) -> (r: bool)
    ensures
        r == subgroup_point_encoding(bytes@),
{
    jubjub::SubgroupPoint::from_bytes(bytes).is_some().into()
}

/// `jubjub::SubgroupPoint::is_identity` on the point that the bytes decode
/// to: among the encodings of points of the subgroup, that of the identity is
/// the byte 1 followed by 31 zero bytes, and no other.
#[verifier::external_body]
fn is_identity_point(bytes: &[u8; 32]) -> (r: bool)
    requires
        subgroup_point_encoding(bytes@),
    ensures
        r == identity_encoding(bytes@),
{
    jubjub::SubgroupPoint::from_bytes(bytes).unwrap().is_identity().into()
}

/// `blake2s_simd::Params`, set to 32 bytes of output and the given
/// personalization, over `first` and then `second`.
#[verifier::external_body]
fn blake2s_personal(personal: &[u8; 8], first: &[u8], second: &[u8]) -> (r: [u8; 32])
    ensures
        r@ == blake2s_digest(personal@, first@, second@),
{
    let mut params = blake2s_simd::Params::new();
    params.hash_length(32).personal(personal);
    *params.to_state().update(first).update(second).finalize().as_array()
}

/// Whether the bytes encode a point of the subgroup other than the identity.
pub open spec fn prime_order_encoding(bytes: Seq<u8>) -> bool {
    subgroup_point_encoding(bytes) && !identity_encoding(bytes)
}

fn has_prime_order(bytes: &[u8; 32]) -> (r: bool)
    ensures
        r == prime_order_encoding(bytes@),
{
    is_subgroup_point(bytes) && !is_identity_point(bytes)
}

/// The length of the encoding of an extended key.
pub const EXTENDED_KEY_LEN: usize = 169;

/// Whether `s` spells an extended spending key: one byte of depth, four of
/// the parent's tag, four of the child index, 32 of the chain code, then the
/// two scalars `ask` and `nsk`, the outgoing viewing key and the diversifier
/// key, of 32 bytes each. Both scalars must be in their one form.
pub open spec fn valid_extsk(s: Seq<u8>) -> bool {
    &&& s.len() == EXTENDED_KEY_LEN
    &&& is_jubjub_scalar(s.subrange(41, 73))
    &&& is_jubjub_scalar(s.subrange(73, 105))
}

/// Whether `s` spells an extended full viewing key: laid out as an extended
/// spending key, with the points `ak` and `nk` in place of the scalars. `ak`
/// must be a point of the subgroup other than the identity, `nk` a point of
/// the subgroup.
pub open spec fn valid_extfvk(s: Seq<u8>) -> bool {
    &&& s.len() == EXTENDED_KEY_LEN
    &&& prime_order_encoding(s.subrange(41, 73))
    &&& subgroup_point_encoding(s.subrange(73, 105))
}

/// Copies the first `n` bytes of `data`.
fn take_bytes(data: &[u8], n: usize) -> (r: Vec<u8>)
    requires
        n <= data.len(),
    ensures
        r@ == data@.take(n as int),
{
    let mut out: Vec<u8> = Vec::new();
    let mut i: usize = 0;
    while i < n
        invariant
            i <= n <= data.len(),
            out@ == data@.take(i as int),
        decreases n - i,
    {
        out.push(data[i]);
        assert(data@.take(i + 1) =~= data@.take(i as int).push(data@[i as int]));
        i += 1;
    }
    out
}

/// An extended spending key of the shielded pool.
#[derive(Debug, PartialEq, Eq)]
pub struct ExtendedSpendingKey {
    bytes: Vec<u8>,
}

impl Clone for ExtendedSpendingKey {
    fn clone(&self) -> (r: Self)
        ensures
            r.encoding() == self.encoding(),
    {
        proof {
            use_type_invariant(self);
        }
        let bytes = take_bytes(self.bytes.as_slice(), EXTENDED_KEY_LEN);
        assert(self.bytes@.take(EXTENDED_KEY_LEN as int) =~= self.bytes@);
        ExtendedSpendingKey { bytes }
    }
}

impl ExtendedSpendingKey {
    #[verifier::type_invariant]
    closed spec fn inv(&self) -> bool {
        valid_extsk(self.bytes@)
    }

    /// The bytes that spell the key.
    pub closed spec fn encoding(&self) -> Seq<u8> {
        self.bytes@
    }

    /// Reads a key from the start of `data`; what follows the key is left alone.
    pub fn read(data: &[u8]) -> (r: Option<ExtendedSpendingKey>)
        ensures
            r is Some <==> data@.len() >= EXTENDED_KEY_LEN && valid_extsk(
                data@.take(EXTENDED_KEY_LEN as int),
            ),
            r is Some ==> r->Some_0.encoding() == data@.take(EXTENDED_KEY_LEN as int),
    {
        if data.len() < EXTENDED_KEY_LEN {
            return None;
        }
        let ask = array32_at(data, 41);
        let nsk = array32_at(data, 73);
        proof {
            let s = data@.take(EXTENDED_KEY_LEN as int);
            assert(s.subrange(41, 73) =~= data@.subrange(41, 73));
            assert(s.subrange(73, 105) =~= data@.subrange(73, 105));
        }
        if !scalar_is_canonical(&ask) || !scalar_is_canonical(&nsk) {
            return None;
        }
        Some(ExtendedSpendingKey { bytes: take_bytes(data, EXTENDED_KEY_LEN) })
    }

    /// The bytes that spell the key.
    pub fn write(&self) -> (r: Vec<u8>)
        ensures
            r@ == self.encoding(),
            valid_extsk(r@),
    {
        proof {
            use_type_invariant(self);
        }
        let r = take_bytes(self.bytes.as_slice(), EXTENDED_KEY_LEN);
        assert(self.bytes@.take(EXTENDED_KEY_LEN as int) =~= self.bytes@);
        r
    }
}

/// An extended full viewing key of the shielded pool.
#[derive(Debug, PartialEq, Eq)]
pub struct ExtendedFullViewingKey {
    bytes: Vec<u8>,
}

impl Clone for ExtendedFullViewingKey {
    fn clone(&self) -> (r: Self)
        ensures
            r.encoding() == self.encoding(),
    {
        proof {
            use_type_invariant(self);
        }
        let bytes = take_bytes(self.bytes.as_slice(), EXTENDED_KEY_LEN);
        assert(self.bytes@.take(EXTENDED_KEY_LEN as int) =~= self.bytes@);
        ExtendedFullViewingKey { bytes }
    }
}

impl ExtendedFullViewingKey {
    #[verifier::type_invariant]
    closed spec fn inv(&self) -> bool {
        valid_extfvk(self.bytes@)
    }

    /// The bytes that spell the key.
    pub closed spec fn encoding(&self) -> Seq<u8> {
        self.bytes@
    }

    /// Reads a key from the start of `data`; what follows the key is left alone.
    pub fn read(data: &[u8]) -> (r: Option<ExtendedFullViewingKey>)
        ensures
            r is Some <==> data@.len() >= EXTENDED_KEY_LEN && valid_extfvk(
                data@.take(EXTENDED_KEY_LEN as int),
            ),
            r is Some ==> r->Some_0.encoding() == data@.take(EXTENDED_KEY_LEN as int),
    {
        if data.len() < EXTENDED_KEY_LEN {
            return None;
        }
        let ak = array32_at(data, 41);
        let nk = array32_at(data, 73);
        proof {
            let s = data@.take(EXTENDED_KEY_LEN as int);
            assert(s.subrange(41, 73) =~= data@.subrange(41, 73));
            assert(s.subrange(73, 105) =~= data@.subrange(73, 105));
        }
        if !has_prime_order(&ak) || !is_subgroup_point(&nk) {
            return None;
        }
        Some(ExtendedFullViewingKey { bytes: take_bytes(data, EXTENDED_KEY_LEN) })
    }

    /// The bytes that spell the key.
    pub fn write(&self) -> (r: Vec<u8>)
        ensures
            r@ == self.encoding(),
            valid_extfvk(r@),
    {
        proof {
            use_type_invariant(self);
        }
        let r = take_bytes(self.bytes.as_slice(), EXTENDED_KEY_LEN);
        assert(self.bytes@.take(EXTENDED_KEY_LEN as int) =~= self.bytes@);
        r
    }
}

/// The length of the encoding of a payment address.
pub const PAYMENT_ADDRESS_LEN: usize = 43;

/// The personalization of the hash that maps diversifiers to points.
pub open spec fn diversify_personal() -> Seq<u8> {
    seq![0x5au8, 0x63u8, 0x61u8, 0x73u8, 0x68u8, 0x5fu8, 0x67u8, 0x64u8]
}

/// The first message of every hash that maps to a point: 64 characters.
pub open spec fn group_hash_first_block() -> Seq<u8> {
    "096b36a5804bfacef1691e173c366a47ff5ba84a44f26ddd7e8d9f79d5b42df0"@.map_values(
        |c: char| c as u8,
    )
}

/// Whether the diversifier of 11 bytes maps to a point: its hash must be the
/// encoding of a point of the curve whose order is above eight.
pub open spec fn valid_diversifier(d: Seq<u8>) -> bool {
    let h = blake2s_digest(diversify_personal(), group_hash_first_block(), d);
    curve_point_encoding(h) && !small_order_encoding(h)
}

/// Whether `s` spells a payment address: a diversifier of 11 bytes that maps
/// to a point, and the encoding of a point of the subgroup other than the
/// identity.
pub open spec fn valid_payment_address(s: Seq<u8>) -> bool {
    &&& s.len() == PAYMENT_ADDRESS_LEN
    &&& valid_diversifier(s.subrange(0, 11))
    &&& prime_order_encoding(s.subrange(11, 43))
}

/// `str::as_bytes` of the first message of the hash to a point.
fn first_block() -> (r: Vec<u8>)
    ensures
        r@ == group_hash_first_block(),
{
    let text = "096b36a5804bfacef1691e173c366a47ff5ba84a44f26ddd7e8d9f79d5b42df0";
    proof {
        reveal_strlit("096b36a5804bfacef1691e173c366a47ff5ba84a44f26ddd7e8d9f79d5b42df0");
    }
    let mut out: Vec<u8> = Vec::new();
    let mut i: usize = 0;
    while i < 64
        invariant
            i <= 64,
            text@.len() == 64,
            out@ == text@.map_values(|c: char| c as u8).take(i as int),
            forall|j: int| 0 <= j < 64 ==> #[trigger] text@[j] as u32 <= 127,
        decreases 64 - i,
    {
        let c = text.get_char(i);
        out.push(c as u8);
        assert(text@.map_values(|c: char| c as u8).take(i + 1) =~= text@.map_values(
            |c: char| c as u8,
        ).take(i as int).push(text@[i as int] as u8));
        i += 1;
    }
    assert(text@.map_values(|c: char| c as u8).take(64) =~= group_hash_first_block());
    out
}

/// Whether a diversifier maps to a point.
pub fn diversifier_is_valid(d: &[u8]) -> (r: bool)
    ensures
        r == valid_diversifier(d@),
{
    let personal: [u8; 8] = [0x5a, 0x63, 0x61, 0x73, 0x68, 0x5f, 0x67, 0x64];
    assert(personal@ =~= diversify_personal());
    let first = first_block();
    let h = blake2s_personal(&personal, first.as_slice(), d);
    is_curve_point(&h) && !has_small_order(&h)
}

/// A payment address of the shielded pool.
#[derive(Debug, PartialEq, Eq)]
pub struct PaymentAddress {
    bytes: Vec<u8>,
}

impl Clone for PaymentAddress {
    fn clone(&self) -> (r: Self)
        ensures
            r.encoding() == self.encoding(),
    {
        proof {
            use_type_invariant(self);
        }
        let bytes = take_bytes(self.bytes.as_slice(), PAYMENT_ADDRESS_LEN);
        assert(self.bytes@.take(PAYMENT_ADDRESS_LEN as int) =~= self.bytes@);
        PaymentAddress { bytes }
    }
}

impl PaymentAddress {
    #[verifier::type_invariant]
    closed spec fn inv(&self) -> bool {
        self.bytes@.len() == PAYMENT_ADDRESS_LEN && prime_order_encoding(
            self.bytes@.subrange(11, 43),
        )
    }

    /// The bytes that spell the address.
    pub closed spec fn encoding(&self) -> Seq<u8> {
        self.bytes@
    }

    /// An address of a diversifier and the encoding of a point. The point
    /// must be one of the subgroup other than the identity; the diversifier
    /// is taken as it is.
    pub fn from_parts(diversifier: [u8; 11], pk_d: [u8; 32]) -> (r: Option<PaymentAddress>)
        ensures
            r is Some <==> prime_order_encoding(pk_d@),
            r is Some ==> r->Some_0.encoding() == diversifier@ + pk_d@,
    {
        if !has_prime_order(&pk_d) {
            return None;
        }
        let mut bytes: Vec<u8> = Vec::new();
        let mut i: usize = 0;
        while i < 11
            invariant
                i <= 11,
                bytes@ == diversifier@.take(i as int),
            decreases 11 - i,
        {
            bytes.push(diversifier[i]);
            assert(diversifier@.take(i + 1) =~= diversifier@.take(i as int).push(
                diversifier@[i as int],
            ));
            i += 1;
        }
        let mut j: usize = 0;
        while j < 32
            invariant
                j <= 32,
                bytes@ == diversifier@.take(11) + pk_d@.take(j as int),
            decreases 32 - j,
        {
            bytes.push(pk_d[j]);
            assert(pk_d@.take(j + 1) =~= pk_d@.take(j as int).push(pk_d@[j as int]));
            j += 1;
        }
        assert(bytes@ =~= diversifier@ + pk_d@);
        assert(bytes@.subrange(11, 43) =~= pk_d@);
        Some(PaymentAddress { bytes })
    }

    /// Reads an address from its 43 bytes.
    pub fn from_bytes(data: &[u8]) -> (r: Option<PaymentAddress>)
        requires
            data@.len() == PAYMENT_ADDRESS_LEN,
        ensures
            r is Some <==> valid_payment_address(data@),
            r is Some ==> r->Some_0.encoding() == data@,
    {
        let d = take_bytes(data, 11);
        assert(data@.take(11) =~= data@.subrange(0, 11));
        if !diversifier_is_valid(d.as_slice()) {
            return None;
        }
        let pk_d = array32_at(data, 11);
        if !has_prime_order(&pk_d) {
            return None;
        }
        let bytes = take_bytes(data, PAYMENT_ADDRESS_LEN);
        assert(data@.take(PAYMENT_ADDRESS_LEN as int) =~= data@);
        Some(PaymentAddress { bytes })
    }

    /// The 43 bytes that spell the address.
    pub fn to_bytes(&self) -> (r: Vec<u8>)
        ensures
            r@ == self.encoding(),
            r@.len() == PAYMENT_ADDRESS_LEN,
    {
        proof {
            use_type_invariant(self);
        }
        let r = take_bytes(self.bytes.as_slice(), PAYMENT_ADDRESS_LEN);
        assert(self.bytes@.take(PAYMENT_ADDRESS_LEN as int) =~= self.bytes@);
        r
    }
}

/// A transparent address: the hash of a public key, or the hash of a script.
#[derive(Clone, Copy, Debug, PartialEq, Eq)]
pub enum TransparentAddress {
    PublicKey([u8; 20]),
    Script([u8; 20]),
}

} // verus!
