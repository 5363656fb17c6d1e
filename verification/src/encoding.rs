//! Keys and addresses as text: Bech32 for those of the shielded pool,
//! Base58Check for transparent addresses.

use vstd::prelude::*;
use vstd::string::*;
use crate::constants::{valid_hrp, Parameters};
use crate::keys::{
    valid_extfvk, valid_extsk, valid_payment_address, ExtendedFullViewingKey,
    ExtendedSpendingKey, PaymentAddress, TransparentAddress, EXTENDED_KEY_LEN,
    PAYMENT_ADDRESS_LEN,
};
use bech32::Error as Bech32Failure;
use bech32::{CheckBase32, FromBase32, ToBase32};
use bs58::decode::Error as Bs58Error;

verus! {

/// What the `bech32` crate reports for a string that it cannot decode.
#[verifier::external_type_specification]
#[verifier::external_body]
pub struct ExBech32Failure(Bech32Failure);

/// What the `bs58` crate reports for a string that it cannot decode.
#[verifier::external_type_specification]
#[verifier::external_body]
pub struct ExBs58Error(Bs58Error);

/// The two checksums of Bech32.
#[derive(Clone, Copy, Debug, PartialEq, Eq, Structural)]
pub enum Variant {
    Bech32,
    Bech32m,
}

/// The bytes in groups of five bits, highest bits first.
pub uninterp spec fn base32_of(data: Seq<u8>) -> Seq<u8>;

/// The bytes that groups of five bits spell, if their number and their last
/// bits allow it.
pub uninterp spec fn base32_decoded(data: Seq<u8>) -> Option<Seq<u8>>;

/// The Bech32 string of a human-readable part and of groups of five bits.
pub uninterp spec fn bech32_text(hrp: Seq<char>, data: Seq<u8>) -> Seq<char>;

/// The human-readable part, the groups of five bits and the kind of checksum
/// of a Bech32 string, if it is one.
pub uninterp spec fn bech32_decoded(s: Seq<char>) -> Option<(Seq<char>, Seq<u8>, Variant)>;

/// The Base58Check string of the bytes.
pub uninterp spec fn base58check_text(data: Seq<u8>) -> Seq<char>;

/// The bytes of a Base58Check string, if it is one.
pub uninterp spec fn base58check_decoded(s: Seq<char>) -> Option<Seq<u8>>;

/// `ToBase32::to_base32`: the bytes in groups of five bits, each below 32.
#[verifier::external_body]
fn to_base32(data: &[u8]) -> (r: Vec<u8>)
    ensures
        r@ == base32_of(data@),
        forall|i: int| 0 <= i < r@.len() ==> #[trigger] r@[i] < 32,
{
    data.to_base32().iter().map(|x| x.to_u8()).collect()
}

/// `bech32::encode` with the checksum of Bech32: it fails on nothing but a
/// human-readable part that is not valid.
#[verifier::external_body]
fn bech32_encode_groups(hrp: &str, data: &Vec<u8>) -> (r: String)
    requires
        valid_hrp(hrp@),
        forall|i: int| 0 <= i < data@.len() ==> #[trigger] data@[i] < 32,
    ensures
        r@ == bech32_text(hrp@, data@),
{
    bech32::encode(hrp, data.check_base32().unwrap(), bech32::Variant::Bech32).unwrap()
}

/// `bech32::decode`: the parts of a Bech32 string, each group below 32.
#[verifier::external_body]
fn bech32_decode_groups(s: &str) -> (r: Result<(String, Vec<u8>, Variant), Bech32Failure>)
    ensures
        r is Ok <==> bech32_decoded(s@) is Some,
        r is Ok ==> bech32_decoded(s@) == Some((r->Ok_0.0@, r->Ok_0.1@, r->Ok_0.2)),
{
    let (hrp, data, variant) = bech32::decode(s)?;
    let variant = match variant {
        bech32::Variant::Bech32 => Variant::Bech32,
        bech32::Variant::Bech32m => Variant::Bech32m,
    };
    Ok((hrp, data.iter().map(|x| x.to_u8()).collect(), variant))
}

/// `FromBase32::from_base32` for bytes, after `CheckBase32::check_base32`:
/// the bytes that the groups of five bits spell, or the error of a group that
/// is no group or of bits that are left over.
#[verifier::external_body]
fn from_base32(data: &Vec<u8>) -> (r: Result<Vec<u8>, Bech32Failure>)
    ensures
        r is Ok <==> base32_decoded(data@) is Some,
        r is Ok ==> base32_decoded(data@) == Some(r->Ok_0@),
{
    Vec::<u8>::from_base32(&data.check_base32()?)
}

/// `bs58::encode` with a checksum, into a string.
#[verifier::external_body]
fn base58check_encode(data: &Vec<u8>) -> (r: String)
    ensures
        r@ == base58check_text(data@),
{
    bs58::encode(data).with_check().into_string()
}

/// `bs58::decode` with a checksum and no expected version, into bytes.
#[verifier::external_body]
fn base58check_decode(s: &str) -> (r: Result<Vec<u8>, Bs58Error>)
    ensures
        r is Ok <==> base58check_decoded(s@) is Some,
        r is Ok ==> base58check_decoded(s@) == Some(r->Ok_0@),
{
    bs58::decode(s).with_check(None).into_vec()
}

/// Why a Bech32 string is not the key or address that was asked for.
#[derive(Debug, PartialEq, Eq)]
pub enum Bech32DecodeError {
    /// The string is no Bech32 string, or its groups spell no bytes.
    Bech32Error(Bech32Failure),
    /// The string has the checksum of another variant.
    IncorrectVariant(Variant),
    /// The bytes are not a key or address of the kind.
    ReadError,
    /// The human-readable part is another than the expected one.
    HrpMismatch { expected: String, actual: String },
}

/// What a `Bech32DecodeError` holds, as mathematical values.
pub enum Bech32DecodeErrorView {
    Bech32Error,
    IncorrectVariant(Variant),
    ReadError,
    HrpMismatch { expected: Seq<char>, actual: Seq<char> },
}

impl View for Bech32DecodeError {
    type V = Bech32DecodeErrorView;

    open spec fn view(&self) -> Bech32DecodeErrorView {
        match self {
            Bech32DecodeError::Bech32Error(_) => Bech32DecodeErrorView::Bech32Error,
            Bech32DecodeError::IncorrectVariant(v) => Bech32DecodeErrorView::IncorrectVariant(*v),
            Bech32DecodeError::ReadError => Bech32DecodeErrorView::ReadError,
            Bech32DecodeError::HrpMismatch { expected, actual } =>
                Bech32DecodeErrorView::HrpMismatch { expected: expected@, actual: actual@ },
        }
    }
}

/// The Bech32 string of `data` under the human-readable part `hrp`.
pub open spec fn bech32_of(hrp: Seq<char>, data: Seq<u8>) -> Seq<char> {
    bech32_text(hrp, base32_of(data))
}

/// Writes `data` as a Bech32 string under the human-readable part `hrp`.
pub fn bech32_encode(hrp: &str, data: &[u8]) -> (r: String)
    requires
        valid_hrp(hrp@),
    ensures
        r@ == bech32_of(hrp@, data@),
{
    let groups = to_base32(data);
    bech32_encode_groups(hrp, &groups)
}

/// What the parts of a Bech32 string give where `hrp` is expected: the
/// checksum must be that of Bech32, the human-readable part must be `hrp`,
/// and the groups must spell bytes.
pub open spec fn payload_of(hrp: Seq<char>, parts: (Seq<char>, Seq<u8>, Variant)) -> Result<
    Seq<u8>,
    Bech32DecodeErrorView,
> {
    if parts.2 != Variant::Bech32 {
        Err(Bech32DecodeErrorView::IncorrectVariant(parts.2))
    } else if parts.0 != hrp {
        Err(Bech32DecodeErrorView::HrpMismatch { expected: hrp, actual: parts.0 })
    } else {
        match base32_decoded(parts.1) {
            Some(bytes) => Ok(bytes),
            None => Err(Bech32DecodeErrorView::Bech32Error),
        }
    }
}

/// The bytes of the Bech32 string `s` where `hrp` is expected, or why there are none.
pub open spec fn bech32_bytes(hrp: Seq<char>, s: Seq<char>) -> Result<
    Seq<u8>,
    Bech32DecodeErrorView,
> {
    match bech32_decoded(s) {
        None => Err(Bech32DecodeErrorView::Bech32Error),
        Some(parts) => payload_of(hrp, parts),
    }
}

/// Whether a result is what `expected` says, as mathematical values.
pub open spec fn bytes_result_is(
    r: Result<Vec<u8>, Bech32DecodeError>,
    expected: Result<Seq<u8>, Bech32DecodeErrorView>,
) -> bool {
    match expected {
        Ok(bytes) => r is Ok && r->Ok_0@ == bytes,
        Err(e) => r is Err && r->Err_0@ == e,
    }
}

/// Checks the parts of a decoded Bech32 string against the expected
/// human-readable part, and turns its groups of five bits into bytes.
pub fn bech32_payload(hrp: &str, decoded_hrp: String, data: &Vec<u8>, variant: Variant) -> (r:
    Result<Vec<u8>, Bech32DecodeError>)
    ensures
        bytes_result_is(r, payload_of(hrp@, (decoded_hrp@, data@, variant))),
{
    match variant {
        Variant::Bech32m => {
            return Err(Bech32DecodeError::IncorrectVariant(variant));
        },
        Variant::Bech32 => {},
    }
    let expected = String::from_str(hrp);
    if !(decoded_hrp == expected) {
        return Err(Bech32DecodeError::HrpMismatch { expected, actual: decoded_hrp });
    }
    match from_base32(data) {
        Ok(bytes) => Ok(bytes),
        Err(e) => Err(Bech32DecodeError::Bech32Error(e)),
    }
}

/// Reads the bytes of the Bech32 string `s`, which must have the
/// human-readable part `hrp`.
pub fn bech32_decode(hrp: &str, s: &str) -> (r: Result<Vec<u8>, Bech32DecodeError>)
    ensures
        bytes_result_is(r, bech32_bytes(hrp@, s@)),
{
    match bech32_decode_groups(s) {
        Err(e) => Err(Bech32DecodeError::Bech32Error(e)),
        Ok((decoded_hrp, data, variant)) => bech32_payload(hrp, decoded_hrp, &data, variant),
    }
}

/// Writes an extended spending key as a Bech32 string.
pub fn encode_extended_spending_key(hrp: &str, extsk: &ExtendedSpendingKey) -> (r: String)
    requires
        valid_hrp(hrp@),
    ensures
        r@ == bech32_of(hrp@, extsk.encoding()),
{
    let data = extsk.write();
    bech32_encode(hrp, data.as_slice())
}

/// Reads an extended spending key from a Bech32 string: the string must
/// decode under `hrp`, and its bytes must start with a key.
pub fn decode_extended_spending_key(hrp: &str, s: &str) -> (r: Result<
    ExtendedSpendingKey,
    Bech32DecodeError,
>)
    ensures
        match bech32_bytes(hrp@, s@) {
            Err(e) => r is Err && r->Err_0@ == e,
            Ok(bytes) => if bytes.len() >= EXTENDED_KEY_LEN && valid_extsk(
                bytes.take(EXTENDED_KEY_LEN as int),
            ) {
                r is Ok && r->Ok_0.encoding() == bytes.take(EXTENDED_KEY_LEN as int)
            } else {
                r is Err && r->Err_0@ == Bech32DecodeErrorView::ReadError
            },
        },
{
    let data = bech32_decode(hrp, s)?;
    match ExtendedSpendingKey::read(data.as_slice()) {
        Some(key) => Ok(key),
        None => Err(Bech32DecodeError::ReadError),
    }
}

/// Writes an extended full viewing key as a Bech32 string.
pub fn encode_extended_full_viewing_key(hrp: &str, extfvk: &ExtendedFullViewingKey) -> (r: String)
    requires
        valid_hrp(hrp@),
    ensures
        r@ == bech32_of(hrp@, extfvk.encoding()),
{
    let data = extfvk.write();
    bech32_encode(hrp, data.as_slice())
}

/// Reads an extended full viewing key from a Bech32 string: the string must
/// decode under `hrp`, and its bytes must start with a key.
pub fn decode_extended_full_viewing_key(hrp: &str, s: &str) -> (r: Result<
    ExtendedFullViewingKey,
    Bech32DecodeError,
>)
    ensures
        match bech32_bytes(hrp@, s@) {
            Err(e) => r is Err && r->Err_0@ == e,
            Ok(bytes) => if bytes.len() >= EXTENDED_KEY_LEN && valid_extfvk(
                bytes.take(EXTENDED_KEY_LEN as int),
            ) {
                r is Ok && r->Ok_0.encoding() == bytes.take(EXTENDED_KEY_LEN as int)
            } else {
                r is Err && r->Err_0@ == Bech32DecodeErrorView::ReadError
            },
        },
{
    let data = bech32_decode(hrp, s)?;
    match ExtendedFullViewingKey::read(data.as_slice()) {
        Some(key) => Ok(key),
        None => Err(Bech32DecodeError::ReadError),
    }
}

/// Writes a payment address as a Bech32 string.
pub fn encode_payment_address(hrp: &str, addr: &PaymentAddress) -> (r: String)
    requires
        valid_hrp(hrp@),
    ensures
        r@ == bech32_of(hrp@, addr.encoding()),
{
    let data = addr.to_bytes();
    bech32_encode(hrp, data.as_slice())
}

/// Writes a payment address as a Bech32 string with the human-readable part
/// of the network.
pub fn encode_payment_address_p<P: Parameters>(params: &P, addr: &PaymentAddress) -> (r: String)
    ensures
        r@ == bech32_of(params.payment_address_hrp(), addr.encoding()),
{
    encode_payment_address(params.hrp_sapling_payment_address(), addr)
}

/// Reads a payment address from a Bech32 string: the string must decode
/// under `hrp`, and its bytes must be the 43 bytes of an address.
pub fn decode_payment_address(hrp: &str, s: &str) -> (r: Result<PaymentAddress, Bech32DecodeError>)
    ensures
        match bech32_bytes(hrp@, s@) {
            Err(e) => r is Err && r->Err_0@ == e,
            Ok(bytes) => if valid_payment_address(bytes) {
                r is Ok && r->Ok_0.encoding() == bytes
            } else {
                r is Err && r->Err_0@ == Bech32DecodeErrorView::ReadError
            },
        },
{
    let data = bech32_decode(hrp, s)?;
    if data.len() != PAYMENT_ADDRESS_LEN {
        return Err(Bech32DecodeError::ReadError);
    }
    match PaymentAddress::from_bytes(data.as_slice()) {
        Some(addr) => Ok(addr),
        None => Err(Bech32DecodeError::ReadError),
    }
}

/// The bytes that a transparent address is encoded from: the prefix of its
/// kind, then its hash of 20 bytes.
pub open spec fn transparent_bytes(
    pubkey_version: Seq<u8>,
    script_version: Seq<u8>,
    addr: TransparentAddress,
) -> Seq<u8> {
    match addr {
        TransparentAddress::PublicKey(key_id) => pubkey_version + key_id@,
        TransparentAddress::Script(script_id) => script_version + script_id@,
    }
}

/// Whether `s` starts with `prefix`.
pub open spec fn starts_with(s: Seq<u8>, prefix: Seq<u8>) -> bool {
    prefix.len() <= s.len() && s.take(prefix.len() as int) == prefix
}

/// Whether `addr` is the address that the decoded bytes spell: the bytes
/// start with the prefix of public keys and go on with 20 bytes, or they do
/// not start with it, start with the prefix of scripts, and go on with 20 bytes.
pub open spec fn spells_transparent(
    pubkey_version: Seq<u8>,
    script_version: Seq<u8>,
    decoded: Seq<u8>,
    addr: Option<TransparentAddress>,
) -> bool {
    if starts_with(decoded, pubkey_version) {
        if decoded.len() == pubkey_version.len() + 20 {
            addr matches Some(TransparentAddress::PublicKey(id)) && id@ == decoded.skip(
                pubkey_version.len() as int,
            )
        } else {
            addr is None
        }
    } else if starts_with(decoded, script_version) {
        if decoded.len() == script_version.len() + 20 {
            addr matches Some(TransparentAddress::Script(id)) && id@ == decoded.skip(
                script_version.len() as int,
            )
        } else {
            addr is None
        }
    } else {
        addr is None
    }
}

/// Whether `s` starts with `prefix`.
fn has_prefix(s: &[u8], prefix: &[u8]) -> (r: bool)
    ensures
        r == starts_with(s@, prefix@),
{
    if prefix.len() > s.len() {
        return false;
    }
    let mut i: usize = 0;
    while i < prefix.len()
        invariant
            i <= prefix.len() <= s.len(),
            forall|j: int| 0 <= j < i ==> s@[j] == prefix@[j],
        decreases prefix.len() - i,
    {
        if s[i] != prefix[i] {
            assert(s@.take(prefix@.len() as int)[i as int] != prefix@[i as int]);
            return false;
        }
        i += 1;
    }
    assert(s@.take(prefix@.len() as int) =~= prefix@);
    true
}

/// Copies 20 bytes out of `src`, starting at `start`.
fn array20_at(src: &[u8], start: usize) -> (r: [u8; 20])
    requires
        start + 20 <= src.len(),
    ensures
        r@ == src@.subrange(start as int, start + 20),
{
    let mut out = [0u8; 20];
    let mut i: usize = 0;
    while i < 20
        invariant
            i <= 20,
            start + 20 <= src.len(),
            forall|j: int| 0 <= j < i ==> out@[j] == src@[start + j],
        decreases 20 - i,
    {
        out[i] = src[start + i];
        i += 1;
    }
    assert(out@ =~= src@.subrange(start as int, start + 20));
    out
}

/// Appends bytes to a vector.
fn append_bytes(out: &mut Vec<u8>, bytes: &[u8])
    ensures
        final(out)@ == old(out)@ + bytes@,
{
    let mut i: usize = 0;
    while i < bytes.len()
        invariant
            i <= bytes.len(),
            out@ == old(out)@ + bytes@.take(i as int),
        decreases bytes.len() - i,
    {
        out.push(bytes[i]);
        assert(bytes@.take(i + 1) =~= bytes@.take(i as int).push(bytes@[i as int]));
        i += 1;
    }
    assert(bytes@.take(i as int) =~= bytes@);
}

/// Writes a transparent address as a Base58Check string: the prefix of its
/// kind and its hash, with a checksum.
pub fn encode_transparent_address(
    pubkey_version: &[u8],
    script_version: &[u8],
    addr: &TransparentAddress,
) -> (r: String)
    ensures
        r@ == base58check_text(transparent_bytes(pubkey_version@, script_version@, *addr)),
{
    let mut decoded: Vec<u8> = Vec::new();
    match addr {
        TransparentAddress::PublicKey(key_id) => {
            append_bytes(&mut decoded, pubkey_version);
            append_bytes(&mut decoded, key_id.as_slice());
        },
        TransparentAddress::Script(script_id) => {
            append_bytes(&mut decoded, script_version);
            append_bytes(&mut decoded, script_id.as_slice());
        },
    }
    base58check_encode(&decoded)
}

/// Writes a transparent address as a Base58Check string with the prefixes of
/// the network.
pub fn encode_transparent_address_p<P: Parameters>(params: &P, addr: &TransparentAddress) -> (r:
    String)
    ensures
        r@ == base58check_text(
            transparent_bytes(
                params.pubkey_address_prefix(),
                params.script_address_prefix(),
                *addr,
            ),
        ),
{
    let pubkey = params.b58_pubkey_address_prefix();
    let script = params.b58_script_address_prefix();
    encode_transparent_address(pubkey.as_slice(), script.as_slice(), addr)
}

/// The transparent address that decoded bytes spell, if they spell one: the
/// prefix of public keys is tried first, and bytes that start with it and do
/// not go on with 20 bytes spell none.
pub fn transparent_from_decoded(pubkey_version: &[u8], script_version: &[u8], decoded: &[u8]) -> (r:
    Option<TransparentAddress>)
    ensures
        spells_transparent(pubkey_version@, script_version@, decoded@, r),
{
    if has_prefix(decoded, pubkey_version) {
        if decoded.len() - pubkey_version.len() == 20 {
            let id = array20_at(decoded, pubkey_version.len());
            assert(decoded@.subrange(pubkey_version@.len() as int, (pubkey_version@.len() + 20) as int)
                =~= decoded@.skip(pubkey_version@.len() as int));
            Some(TransparentAddress::PublicKey(id))
        } else {
            None
        }
    } else if has_prefix(decoded, script_version) {
        if decoded.len() - script_version.len() == 20 {
            let id = array20_at(decoded, script_version.len());
            assert(decoded@.subrange(script_version@.len() as int, (script_version@.len() + 20) as int)
                =~= decoded@.skip(script_version@.len() as int));
            Some(TransparentAddress::Script(id))
        } else {
            None
        }
    } else {
        None
    }
}

/// Reads a transparent address from a Base58Check string: an error where the
/// string is no such string, no address where its bytes spell none.
pub fn decode_transparent_address(pubkey_version: &[u8], script_version: &[u8], s: &str) -> (r:
    Result<Option<TransparentAddress>, Bs58Error>)
    ensures
        r is Ok <==> base58check_decoded(s@) is Some,
        r is Ok ==> spells_transparent(
            pubkey_version@,
            script_version@,
            base58check_decoded(s@)->Some_0,
            r->Ok_0,
        ),
{
    let decoded = base58check_decode(s)?;
    Ok(transparent_from_decoded(pubkey_version, script_version, decoded.as_slice()))
}

/// Why a string is not a transparent address.
#[derive(Debug)]
pub enum TransparentCodecError {
    /// The string decodes, but to no address of a public key or of a script;
    /// the payload is the string.
    UnsupportedAddressType(String),
    /// The string is no Base58Check string.
    Base58(Bs58Error),
}

/// What can be written as text for a network, and read back.
pub trait AddressCodec<P>: Sized {
    type Error;

    fn encode(&self, params: &P) -> String;

    fn decode(params: &P, address: &str) -> Result<Self, Self::Error>;
}

impl<P: Parameters> AddressCodec<P> for TransparentAddress {
    type Error = TransparentCodecError;

    fn encode(&self, params: &P) -> (r: String)
        ensures
            r@ == base58check_text(
                transparent_bytes(
                    params.pubkey_address_prefix(),
                    params.script_address_prefix(),
                    *self,
                ),
            ),
    {
        encode_transparent_address_p(params, self)
    }

    fn decode(params: &P, address: &str) -> (r: Result<TransparentAddress, TransparentCodecError>)
        ensures
            match base58check_decoded(address@) {
                None => r matches Err(TransparentCodecError::Base58(_)),
                Some(decoded) => match r {
                    Ok(addr) => spells_transparent(
                        params.pubkey_address_prefix(),
                        params.script_address_prefix(),
                        decoded,
                        Some(addr),
                    ),
                    Err(TransparentCodecError::UnsupportedAddressType(s)) => s@ == address@
                        && spells_transparent(
                        params.pubkey_address_prefix(),
                        params.script_address_prefix(),
                        decoded,
                        None,
                    ),
                    Err(TransparentCodecError::Base58(_)) => false,
                },
            },
    {
        let pubkey = params.b58_pubkey_address_prefix();
        let script = params.b58_script_address_prefix();
        match decode_transparent_address(pubkey.as_slice(), script.as_slice(), address) {
            Err(e) => Err(TransparentCodecError::Base58(e)),
            Ok(Some(addr)) => Ok(addr),
            Ok(None) => Err(TransparentCodecError::UnsupportedAddressType(String::from_str(address))),
        }
    }
}

/// `Display` of the error of the `bech32` crate, through `format!`.
#[verifier::external_body]
fn bech32_failure_text(e: &Bech32Failure) -> String {
    format!("{}", e)
}

/// `Display` of the error of the `bs58` crate, through `format!`.
#[verifier::external_body]
pub(crate) fn bs58_failure_text(e: &Bs58Error) -> String {
    format!("{}", e)
}

/// The name of a variant.
pub open spec fn variant_name(v: Variant) -> Seq<char> {
    match v {
        Variant::Bech32 => "Bech32"@,
        Variant::Bech32m => "Bech32m"@,
    }
}

/// The text of an error of Bech32 decoding, where the library words it.
pub open spec fn bech32_error_text(e: Bech32DecodeErrorView) -> Option<Seq<char>> {
    match e {
        Bech32DecodeErrorView::Bech32Error => None,
        Bech32DecodeErrorView::IncorrectVariant(v) => Some(
            "Incorrect bech32 encoding (wrong variant: "@ + variant_name(v) + ")"@,
        ),
        Bech32DecodeErrorView::ReadError => Some(
            "Failed to decode key from its binary representation."@,
        ),
        Bech32DecodeErrorView::HrpMismatch { expected, actual } => Some(
            "Key was encoded for a different network: expected "@ + expected + ", got "@ + actual
                + "."@,
        ),
    }
}

impl Bech32DecodeError {
    /// The text of this error.
    pub fn to_string(&self) -> (r: String)
        ensures
            bech32_error_text(self@) is Some ==> r@ == bech32_error_text(self@)->Some_0,
    {
        match self {
            Bech32DecodeError::Bech32Error(e) => bech32_failure_text(e),
            Bech32DecodeError::IncorrectVariant(variant) => {
                let mut s = String::from_str("Incorrect bech32 encoding (wrong variant: ");
                match variant {
                    Variant::Bech32 => s.append("Bech32"),
                    Variant::Bech32m => s.append("Bech32m"),
                }
                s.append(")");
                s
            },
            Bech32DecodeError::ReadError => String::from_str(
                "Failed to decode key from its binary representation.",
            ),
            Bech32DecodeError::HrpMismatch { expected, actual } => {
                let mut s = String::from_str("Key was encoded for a different network: expected ");
                s.append(expected.as_str());
                s.append(", got ");
                s.append(actual.as_str());
                s.append(".");
                s
            },
        }
    }
}

/// What a `TransparentCodecError` holds, as mathematical values.
pub enum TransparentCodecErrorView {
    UnsupportedAddressType(Seq<char>),
    Base58,
}

impl View for TransparentCodecError {
    type V = TransparentCodecErrorView;

    open spec fn view(&self) -> TransparentCodecErrorView {
        match self {
            TransparentCodecError::UnsupportedAddressType(s) =>
                TransparentCodecErrorView::UnsupportedAddressType(s@),
            TransparentCodecError::Base58(_) => TransparentCodecErrorView::Base58,
        }
    }
}

/// The text of an error of reading a transparent address, where the library words it.
pub open spec fn codec_error_text(e: TransparentCodecErrorView) -> Option<Seq<char>> {
    match e {
        TransparentCodecErrorView::UnsupportedAddressType(s) => Some(
            "Could not recognize "@ + s + " as a supported p2sh or p2pkh address."@,
        ),
        TransparentCodecErrorView::Base58 => None,
    }
}

impl TransparentCodecError {
    /// The text of this error.
    pub fn to_string(&self) -> (r: String)
        ensures
            codec_error_text(self@) is Some ==> r@ == codec_error_text(self@)->Some_0,
    {
        match self {
            TransparentCodecError::UnsupportedAddressType(address) => {
                let mut s = String::from_str("Could not recognize ");
                s.append(address.as_str());
                s.append(" as a supported p2sh or p2pkh address.");
                s
            },
            TransparentCodecError::Base58(e) => bs58_failure_text(e),
        }
    }
}

impl From<Bech32Failure> for Bech32DecodeError {
    fn from(err: Bech32Failure) -> (r: Bech32DecodeError) {
        Bech32DecodeError::Bech32Error(err)
    }
}

impl vstd::std_specs::convert::FromSpecImpl<Bech32Failure> for Bech32DecodeError {
    open spec fn obeys_from_spec() -> bool {
        true
    }

    open spec fn from_spec(err: Bech32Failure) -> Bech32DecodeError {
        Bech32DecodeError::Bech32Error(err)
    }
}

} // verus!
