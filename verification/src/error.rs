//! What can go wrong while the cache is read, validated and scanned, and while
//! the wallet is rewound.

use vstd::prelude::*;
use vstd::string::*;
use crate::primitives::{AccountId, BlockHeight, TxId};
use crate::encoding::{
    Bech32DecodeError, Bech32DecodeErrorView, TransparentCodecError, TransparentCodecErrorView,
};
use crate::text::{decimal, hex, push_decimal, push_hex_reversed, reversed};
use bs58::decode::Error as Bs58Error;
use hdwallet::error::Error as HdwalletFailure;
use rusqlite::Error as DatabaseError;

verus! {

/// An error of the database under a store.
#[verifier::external_type_specification]
#[verifier::external_body]
pub struct ExDatabaseError(DatabaseError);

/// An error of the file system under a store.
#[verifier::external_type_specification]
#[verifier::external_body]
pub struct ExIoError(std::io::Error);

/// An error of the derivation of transparent keys.
#[verifier::external_type_specification]
#[verifier::external_body]
pub struct ExHdwalletFailure(HdwalletFailure);

/// The bytes of a memo are no text.
#[verifier::external_type_specification]
#[verifier::external_body]
pub struct ExUtf8Error(std::str::Utf8Error);

/// The default number of blocks below the highest scanned block down to
/// which a wallet may be rewound.
pub const PRUNING_HEIGHT: u32 = 100;

/// Why a memo cannot be read.
#[derive(Debug)]
pub enum MemoError {
    /// The bytes of the memo are no text.
    InvalidUtf8(std::str::Utf8Error),
    /// The memo is longer than 512 bytes; the payload is its length.
    TooLong(usize),
}

/// What a `MemoError` holds, as mathematical values.
pub enum MemoErrorView {
    InvalidUtf8,
    TooLong(usize),
}

impl View for MemoError {
    type V = MemoErrorView;

    open spec fn view(&self) -> MemoErrorView {
        match self {
            MemoError::InvalidUtf8(_) => MemoErrorView::InvalidUtf8,
            MemoError::TooLong(n) => MemoErrorView::TooLong(*n),
        }
    }
}

/// How a chain of blocks is broken.
#[derive(Clone, Copy, Debug, PartialEq, Eq, Structural)]
pub enum ChainInvalid {
    /// The hash of the previous block does not match the expected value.
    PrevHashMismatch,
    /// The block height field of a block does not follow that of the block
    /// before it; the payload is the height that was found.
    BlockHeightDiscontinuity(BlockHeight),
}

/// An error of the logic that is common to every store.
#[derive(Debug)]
pub enum ChainError {
    /// The chain is broken at the given height, which is a lower bound of what
    /// must be discarded.
    InvalidChain(BlockHeight, ChainInvalid),
    /// The bytes of a cached block are not a block.
    Protobuf(protobuf::ProtobufError),
}

/// What a `ChainError` holds, as mathematical values.
pub enum ChainErrorView {
    InvalidChain(BlockHeight, ChainInvalid),
    Protobuf,
}

impl View for ChainError {
    type V = ChainErrorView;

    open spec fn view(&self) -> ChainErrorView {
        match self {
            ChainError::InvalidChain(h, c) => ChainErrorView::InvalidChain(*h, *c),
            ChainError::Protobuf(_) => ChainErrorView::Protobuf,
        }
    }
}

impl ChainInvalid {
    /// The error for a parent hash that does not match, at `at_height`.
    pub fn prev_hash_mismatch(at_height: BlockHeight) -> (r: ChainError)
        ensures
            r@ == ChainErrorView::InvalidChain(at_height, ChainInvalid::PrevHashMismatch),
    {
        ChainError::InvalidChain(at_height, ChainInvalid::PrevHashMismatch)
    }

    /// The error for a block of height `found` where `at_height` was due.
    pub fn block_height_discontinuity(at_height: BlockHeight, found: BlockHeight) -> (r: ChainError)
        ensures
            r@ == ChainErrorView::InvalidChain(
                at_height,
                ChainInvalid::BlockHeightDiscontinuity(found),
            ),
    {
        ChainError::InvalidChain(at_height, ChainInvalid::BlockHeightDiscontinuity(found))
    }
}

/// The text of a broken chain at `h`.
pub open spec fn invalid_chain_text(h: BlockHeight, cause: ChainInvalid) -> Seq<char> {
    "Invalid chain (upper bound: "@ + decimal(h.0 as nat) + "): "@ + match cause {
        ChainInvalid::PrevHashMismatch => "PrevHashMismatch"@,
        ChainInvalid::BlockHeightDiscontinuity(found) => "BlockHeightDiscontinuity(BlockHeight("@
            + decimal(found.0 as nat) + "))"@,
    }
}

/// `ProtobufError`'s `Display`, through `format!`.
#[verifier::external_body]
fn protobuf_error_text(e: &protobuf::ProtobufError) -> String {
    format!("{}", e)
}

/// The text of an error of the common logic, where the library words it.
pub open spec fn chain_error_text(e: ChainErrorView) -> Option<Seq<char>> {
    match e {
        ChainErrorView::InvalidChain(h, cause) => Some(invalid_chain_text(h, cause)),
        ChainErrorView::Protobuf => None,
    }
}

impl ChainError {
    /// The text of this error: that of a broken chain as the library words
    /// it, that of bytes that are no block as the decoder words it.
    pub fn to_string(&self) -> (r: String)
        ensures
            chain_error_text(self@) is Some ==> r@ == chain_error_text(self@)->Some_0,
    {
        match self {
            ChainError::InvalidChain(h, cause) => {
                let mut s = String::from_str("Invalid chain (upper bound: ");
                push_decimal(&mut s, h.0 as u64);
                s.append("): ");
                match cause {
                    ChainInvalid::PrevHashMismatch => {
                        s.append("PrevHashMismatch");
                    },
                    ChainInvalid::BlockHeightDiscontinuity(found) => {
                        s.append("BlockHeightDiscontinuity(BlockHeight(");
                        push_decimal(&mut s, found.0 as u64);
                        s.append("))");
                    },
                }
                s
            },
            ChainError::Protobuf(e) => protobuf_error_text(e),
        }
    }
}

/// The text of a cached row whose key is not the height of its block.
pub open spec fn height_mismatch_text(block_height: u64, row_height: u32) -> Seq<char> {
    "Block height "@ + decimal(block_height as nat)
        + " did not match row's height field value "@ + decimal(row_height as nat)
}

/// The text of a cached block that lacks a hash or an identifier of 32 bytes.
pub open spec fn malformed_block_text(block_height: u64) -> Seq<char> {
    "Block "@ + decimal(block_height as nat) + " lacks a hash or an identifier of 32 bytes"@
}

/// The primary error type of the wallet and the cache.
#[derive(Debug)]
pub enum SqliteClientError {
    /// Decoding of a stored value from its serialized form has failed.
    CorruptedData(String),
    /// Decoding of the extended full viewing key has failed (for the specified network).
    IncorrectHrpExtFvk,
    /// The rcm value for a note cannot be decoded to a valid point.
    InvalidNote,
    /// The note id associated with a witness being stored corresponds to a
    /// sent note, not a received note.
    InvalidNoteId,
    /// Illegal attempt to reinitialize an already-initialized wallet database.
    TableNotEmpty,
    /// A transaction that has already been mined was requested for removal.
    TransactionIsMined(TxId),
    /// A Bech32-encoded key or address decoding error.
    Bech32DecodeError(Bech32DecodeError),
    /// Base58 decoding error.
    Base58(Bs58Error),
    /// An error of the derivation of transparent keys.
    HdwalletError(HdwalletFailure),
    /// A string is no transparent address.
    TransparentAddress(TransparentCodecError),
    /// Wrapper for database errors.
    DbError(DatabaseError),
    /// Wrapper for errors from the IO subsystem.
    Io(std::io::Error),
    /// A received memo cannot be interpreted as a UTF-8 string.
    InvalidMemo(MemoError),
    /// A requested rewind would violate invariants of the storage layer. The
    /// payload is (safe rewind height, requested height).
    RequestedRewindInvalid(BlockHeight, BlockHeight),
    /// Wrapper for errors of the logic common to every store.
    BackendError(ChainError),
    /// The space of allocatable diversifier indices has been exhausted for
    /// the given account.
    DiversifierIndexOutOfRange,
    /// An error occurred deriving a spending key from a seed and an account identifier.
    KeyDerivationError(AccountId),
    /// A caller attempted to initialize the accounts table with a discontinuous
    /// set of account identifiers.
    AccountIdDiscontinuity,
    /// A caller attempted to construct a new account with an invalid account identifier.
    AccountIdOutOfRange,
}

/// What a `SqliteClientError` holds, as mathematical values.
pub enum SqliteClientErrorView {
    CorruptedData(Seq<char>),
    IncorrectHrpExtFvk,
    InvalidNote,
    InvalidNoteId,
    TableNotEmpty,
    TransactionIsMined(TxId),
    Bech32DecodeError(Bech32DecodeErrorView),
    Base58,
    HdwalletError,
    TransparentAddress(TransparentCodecErrorView),
    DbError,
    Io,
    InvalidMemo(MemoErrorView),
    RequestedRewindInvalid(BlockHeight, BlockHeight),
    BackendError(ChainErrorView),
    DiversifierIndexOutOfRange,
    KeyDerivationError(AccountId),
    AccountIdDiscontinuity,
    AccountIdOutOfRange,
}

impl View for SqliteClientError {
    type V = SqliteClientErrorView;

    open spec fn view(&self) -> SqliteClientErrorView {
        match self {
            SqliteClientError::CorruptedData(s) => SqliteClientErrorView::CorruptedData(s@),
            SqliteClientError::IncorrectHrpExtFvk => SqliteClientErrorView::IncorrectHrpExtFvk,
            SqliteClientError::InvalidNote => SqliteClientErrorView::InvalidNote,
            SqliteClientError::InvalidNoteId => SqliteClientErrorView::InvalidNoteId,
            SqliteClientError::TableNotEmpty => SqliteClientErrorView::TableNotEmpty,
            SqliteClientError::TransactionIsMined(t) => SqliteClientErrorView::TransactionIsMined(
                *t,
            ),
            SqliteClientError::Bech32DecodeError(e) => SqliteClientErrorView::Bech32DecodeError(
                e@,
            ),
            SqliteClientError::Base58(_) => SqliteClientErrorView::Base58,
            SqliteClientError::HdwalletError(_) => SqliteClientErrorView::HdwalletError,
            SqliteClientError::TransparentAddress(e) => SqliteClientErrorView::TransparentAddress(
                e@,
            ),
            SqliteClientError::InvalidMemo(e) => SqliteClientErrorView::InvalidMemo(e@),
            SqliteClientError::DbError(_) => SqliteClientErrorView::DbError,
            SqliteClientError::Io(_) => SqliteClientErrorView::Io,
            SqliteClientError::RequestedRewindInvalid(s, r) =>
                SqliteClientErrorView::RequestedRewindInvalid(*s, *r),
            SqliteClientError::BackendError(e) => SqliteClientErrorView::BackendError(e@),
            SqliteClientError::DiversifierIndexOutOfRange =>
                SqliteClientErrorView::DiversifierIndexOutOfRange,
            SqliteClientError::KeyDerivationError(a) => SqliteClientErrorView::KeyDerivationError(
                *a,
            ),
            SqliteClientError::AccountIdDiscontinuity =>
                SqliteClientErrorView::AccountIdDiscontinuity,
            SqliteClientError::AccountIdOutOfRange => SqliteClientErrorView::AccountIdOutOfRange,
        }
    }
}

impl SqliteClientError {
    /// The error for a cached row whose key is not the height of its block.
    pub fn height_mismatch(block_height: u64, row_height: BlockHeight) -> (r: SqliteClientError)
        ensures
            r@ == SqliteClientErrorView::CorruptedData(
                height_mismatch_text(block_height, row_height.0),
            ),
    {
        let mut s = String::from_str("Block height ");
        push_decimal(&mut s, block_height);
        s.append(" did not match row's height field value ");
        push_decimal(&mut s, row_height.0 as u64);
        SqliteClientError::CorruptedData(s)
    }

    /// The error for a cached block that lacks a hash or an identifier of 32 bytes.
    pub fn malformed_block(block_height: u64) -> (r: SqliteClientError)
        ensures
            r@ == SqliteClientErrorView::CorruptedData(malformed_block_text(block_height)),
    {
        let mut s = String::from_str("Block ");
        push_decimal(&mut s, block_height);
        s.append(" lacks a hash or an identifier of 32 bytes");
        SqliteClientError::CorruptedData(s)
    }
}

/// `Debug` of the error of the `hdwallet` crate, through `format!`.
#[verifier::external_body]
fn hdwallet_error_text(e: &HdwalletFailure) -> String {
    format!("{:?}", e)
}

/// `Display` of the error of the `rusqlite` crate, through `format!`.
#[verifier::external_body]
fn database_error_text(e: &DatabaseError) -> String {
    format!("{}", e)
}

/// `Display` of `std::io::Error`, through `format!`.
#[verifier::external_body]
fn io_error_text(e: &std::io::Error) -> String {
    format!("{}", e)
}

/// `Display` of `std::str::Utf8Error`, through `format!`.
#[verifier::external_body]
fn utf8_error_text(e: &std::str::Utf8Error) -> String {
    format!("{}", e)
}

/// The text of a memo that is too long.
pub open spec fn memo_too_long_text(len: usize) -> Seq<char> {
    "Memo length "@ + decimal(len as nat) + " is larger than maximum of 512"@
}

/// The text of an error of a memo, where the library words it.
pub open spec fn memo_error_text(e: MemoErrorView) -> Option<Seq<char>> {
    match e {
        MemoErrorView::InvalidUtf8 => None,
        MemoErrorView::TooLong(n) => Some(memo_too_long_text(n)),
    }
}

impl MemoError {
    /// The text of this error.
    pub fn to_string(&self) -> (r: String)
        ensures
            memo_error_text(self@) is Some ==> r@ == memo_error_text(self@)->Some_0,
    {
        match self {
            MemoError::InvalidUtf8(e) => {
                let mut s = String::from_str("Invalid UTF-8: ");
                let text = utf8_error_text(e);
                s.append(text.as_str());
                s
            },
            MemoError::TooLong(n) => {
                let mut s = String::from_str("Memo length ");
                push_decimal(&mut s, *n as u64);
                s.append(" is larger than maximum of 512");
                s
            },
        }
    }
}

/// The text of a rewind that is refused.
pub open spec fn rewind_invalid_text(safe: BlockHeight, requested: BlockHeight) -> Seq<char> {
    "A rewind must be either of less than "@ + decimal(PRUNING_HEIGHT as nat)
        + " blocks, or at least back to block "@ + decimal(safe.0 as nat)
        + " for your wallet; the requested height was "@ + decimal(requested.0 as nat) + "."@
}

/// The text of an error, where the library words it; the errors of the
/// crates that it uses are worded by them.
pub open spec fn error_text(e: SqliteClientErrorView) -> Option<Seq<char>> {
    match e {
        SqliteClientErrorView::CorruptedData(reason) => Some("Data DB is corrupted: "@ + reason),
        SqliteClientErrorView::IncorrectHrpExtFvk => Some("Incorrect HRP for extfvk"@),
        SqliteClientErrorView::InvalidNote => Some("Invalid note"@),
        SqliteClientErrorView::InvalidNoteId => Some(
            "The note ID associated with an inserted witness must correspond to a received note."@,
        ),
        SqliteClientErrorView::TableNotEmpty => Some("Table is not empty"@),
        SqliteClientErrorView::TransactionIsMined(txid) => Some(
            "Cannot remove transaction "@ + hex(reversed(txid.0@))
                + " which has already been mined"@,
        ),
        SqliteClientErrorView::Bech32DecodeError(e) => crate::encoding::bech32_error_text(e),
        SqliteClientErrorView::TransparentAddress(e) => crate::encoding::codec_error_text(e),
        SqliteClientErrorView::InvalidMemo(e) => memo_error_text(e),
        SqliteClientErrorView::RequestedRewindInvalid(h, r) => Some(rewind_invalid_text(h, r)),
        SqliteClientErrorView::BackendError(e) => chain_error_text(e),
        SqliteClientErrorView::DiversifierIndexOutOfRange => Some(
            "The space of available diversifier indices is exhausted"@,
        ),
        SqliteClientErrorView::KeyDerivationError(a) => Some(
            "Key derivation failed for account AccountId("@ + decimal(a.0 as nat) + ")"@,
        ),
        SqliteClientErrorView::AccountIdDiscontinuity => Some(
            "Wallet account identifiers must be sequential."@,
        ),
        SqliteClientErrorView::AccountIdOutOfRange => Some(
            "Wallet account identifiers must be less than 0x7FFFFFFF."@,
        ),
        _ => None,
    }
}

impl SqliteClientError {
    /// The text of this error.
    pub fn to_string(&self) -> (r: String)
        ensures
            error_text(self@) is Some ==> r@ == error_text(self@)->Some_0,
    {
        match self {
            SqliteClientError::CorruptedData(reason) => {
                let mut s = String::from_str("Data DB is corrupted: ");
                s.append(reason.as_str());
                s
            },
            SqliteClientError::IncorrectHrpExtFvk => String::from_str("Incorrect HRP for extfvk"),
            SqliteClientError::InvalidNote => String::from_str("Invalid note"),
            SqliteClientError::InvalidNoteId => String::from_str(
                "The note ID associated with an inserted witness must correspond to a received note.",
            ),
            SqliteClientError::RequestedRewindInvalid(h, r) => {
                let mut s = String::from_str("A rewind must be either of less than ");
                push_decimal(&mut s, PRUNING_HEIGHT as u64);
                s.append(" blocks, or at least back to block ");
                push_decimal(&mut s, h.0 as u64);
                s.append(" for your wallet; the requested height was ");
                push_decimal(&mut s, r.0 as u64);
                s.append(".");
                s
            },
            SqliteClientError::Bech32DecodeError(e) => e.to_string(),
            SqliteClientError::Base58(e) => crate::encoding::bs58_failure_text(e),
            SqliteClientError::HdwalletError(e) => hdwallet_error_text(e),
            SqliteClientError::TransparentAddress(e) => e.to_string(),
            SqliteClientError::TableNotEmpty => String::from_str("Table is not empty"),
            SqliteClientError::TransactionIsMined(txid) => {
                let mut s = String::from_str("Cannot remove transaction ");
                push_hex_reversed(&mut s, &txid.0);
                s.append(" which has already been mined");
                s
            },
            SqliteClientError::DbError(e) => database_error_text(e),
            SqliteClientError::Io(e) => io_error_text(e),
            SqliteClientError::InvalidMemo(e) => e.to_string(),
            SqliteClientError::BackendError(e) => e.to_string(),
            SqliteClientError::DiversifierIndexOutOfRange => String::from_str(
                "The space of available diversifier indices is exhausted",
            ),
            SqliteClientError::KeyDerivationError(acct_id) => {
                let mut s = String::from_str("Key derivation failed for account AccountId(");
                push_decimal(&mut s, acct_id.0 as u64);
                s.append(")");
                s
            },
            SqliteClientError::AccountIdDiscontinuity => String::from_str(
                "Wallet account identifiers must be sequential.",
            ),
            SqliteClientError::AccountIdOutOfRange => String::from_str(
                "Wallet account identifiers must be less than 0x7FFFFFFF.",
            ),
        }
    }
}

impl From<DatabaseError> for SqliteClientError {
    fn from(e: DatabaseError) -> (r: SqliteClientError) {
        SqliteClientError::DbError(e)
    }
}

impl vstd::std_specs::convert::FromSpecImpl<DatabaseError> for SqliteClientError {
    open spec fn obeys_from_spec() -> bool {
        true
    }

    open spec fn from_spec(e: DatabaseError) -> SqliteClientError {
        SqliteClientError::DbError(e)
    }
}

impl From<std::io::Error> for SqliteClientError {
    fn from(e: std::io::Error) -> (r: SqliteClientError) {
        SqliteClientError::Io(e)
    }
}

impl vstd::std_specs::convert::FromSpecImpl<std::io::Error> for SqliteClientError {
    open spec fn obeys_from_spec() -> bool {
        true
    }

    open spec fn from_spec(e: std::io::Error) -> SqliteClientError {
        SqliteClientError::Io(e)
    }
}

impl From<Bech32DecodeError> for SqliteClientError {
    fn from(e: Bech32DecodeError) -> (r: SqliteClientError) {
        SqliteClientError::Bech32DecodeError(e)
    }
}

impl vstd::std_specs::convert::FromSpecImpl<Bech32DecodeError> for SqliteClientError {
    open spec fn obeys_from_spec() -> bool {
        true
    }

    open spec fn from_spec(e: Bech32DecodeError) -> SqliteClientError {
        SqliteClientError::Bech32DecodeError(e)
    }
}

impl From<Bs58Error> for SqliteClientError {
    fn from(e: Bs58Error) -> (r: SqliteClientError) {
        SqliteClientError::Base58(e)
    }
}

impl vstd::std_specs::convert::FromSpecImpl<Bs58Error> for SqliteClientError {
    open spec fn obeys_from_spec() -> bool {
        true
    }

    open spec fn from_spec(e: Bs58Error) -> SqliteClientError {
        SqliteClientError::Base58(e)
    }
}

impl From<HdwalletFailure> for SqliteClientError {
    fn from(e: HdwalletFailure) -> (r: SqliteClientError) {
        SqliteClientError::HdwalletError(e)
    }
}

impl vstd::std_specs::convert::FromSpecImpl<HdwalletFailure> for SqliteClientError {
    open spec fn obeys_from_spec() -> bool {
        true
    }

    open spec fn from_spec(e: HdwalletFailure) -> SqliteClientError {
        SqliteClientError::HdwalletError(e)
    }
}

impl From<MemoError> for SqliteClientError {
    fn from(e: MemoError) -> (r: SqliteClientError) {
        SqliteClientError::InvalidMemo(e)
    }
}

impl vstd::std_specs::convert::FromSpecImpl<MemoError> for SqliteClientError {
    open spec fn obeys_from_spec() -> bool {
        true
    }

    open spec fn from_spec(e: MemoError) -> SqliteClientError {
        SqliteClientError::InvalidMemo(e)
    }
}

impl From<ChainError> for SqliteClientError {
    fn from(e: ChainError) -> (r: SqliteClientError) {
        SqliteClientError::BackendError(e)
    }
}

impl vstd::std_specs::convert::FromSpecImpl<ChainError> for SqliteClientError {
    open spec fn obeys_from_spec() -> bool {
        true
    }

    open spec fn from_spec(e: ChainError) -> SqliteClientError {
        SqliteClientError::BackendError(e)
    }
}

} // verus!
