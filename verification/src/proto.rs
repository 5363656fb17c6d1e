//! Compact blocks: the pruned form of a block that a light client receives,
//! with the fields that scanning reads.

use vstd::prelude::*;
use crate::block::{header_len, BlockHeader};
use crate::keys::{le_nat, two_64};
use crate::primitives::{array32_at, vec_of_array32, BlockHash, BlockHeight, Nullifier, TxId};
use group::ff::PrimeField;

verus! {

/// A spend of a shielded note, as a compact block carries it.
#[derive(Clone, Debug, PartialEq, Eq)]
pub struct CompactSaplingSpend {
    /// The nullifier that the spend reveals.
    pub nf: Vec<u8>,
}

/// What `CompactSaplingSpend` holds, as mathematical values.
pub struct CompactSpendView {
    pub nf: Seq<u8>,
}

impl View for CompactSaplingSpend {
    type V = CompactSpendView;

    open spec fn view(&self) -> CompactSpendView {
        CompactSpendView { nf: self.nf@ }
    }
}

/// A shielded output, as a compact block carries it.
#[derive(Clone, Debug, PartialEq, Eq)]
pub struct CompactSaplingOutput {
    /// The note commitment.
    pub cmu: Vec<u8>,
    /// The ephemeral public key.
    pub epk: Vec<u8>,
    /// The start of the note ciphertext.
    pub ciphertext: Vec<u8>,
}

/// What `CompactSaplingOutput` holds, as mathematical values.
pub struct CompactOutputView {
    pub cmu: Seq<u8>,
    pub epk: Seq<u8>,
    pub ciphertext: Seq<u8>,
}

impl View for CompactSaplingOutput {
    type V = CompactOutputView;

    open spec fn view(&self) -> CompactOutputView {
        CompactOutputView { cmu: self.cmu@, epk: self.epk@, ciphertext: self.ciphertext@ }
    }
}

/// A transaction, as a compact block carries it.
#[derive(Clone, Debug, PartialEq, Eq)]
pub struct CompactTx {
    /// The position of the transaction in its block.
    pub index: u64,
    /// The transaction identifier.
    pub hash: Vec<u8>,
    /// The fee, where the sender of the block knows it.
    pub fee: u32,
    pub spends: Vec<CompactSaplingSpend>,
    pub outputs: Vec<CompactSaplingOutput>,
}

/// What `CompactTx` holds, as mathematical values.
pub struct CompactTxView {
    pub index: u64,
    pub hash: Seq<u8>,
    pub fee: u32,
    pub spends: Seq<CompactSpendView>,
    pub outputs: Seq<CompactOutputView>,
}

impl View for CompactTx {
    type V = CompactTxView;

    open spec fn view(&self) -> CompactTxView {
        CompactTxView {
            index: self.index,
            hash: self.hash@,
            fee: self.fee,
            spends: self.spends@.map_values(|s: CompactSaplingSpend| s@),
            outputs: self.outputs@.map_values(|o: CompactSaplingOutput| o@),
        }
    }
}

/// A block, in the form a light client receives.
#[derive(Clone, Debug, PartialEq, Eq)]
pub struct CompactBlock {
    pub proto_version: u32,
    /// The height of the block.
    pub height: u64,
    /// The hash of the block.
    pub hash: Vec<u8>,
    /// The hash of the parent block.
    pub prev_hash: Vec<u8>,
    /// The time of the block, in seconds.
    pub time: u32,
    /// The full header, where the sender includes it; empty otherwise.
    pub header: Vec<u8>,
    /// The transactions, in the order of the block.
    pub vtx: Vec<CompactTx>,
}

/// What `CompactBlock` holds, as mathematical values.
pub struct CompactBlockView {
    pub proto_version: u32,
    pub height: u64,
    pub hash: Seq<u8>,
    pub prev_hash: Seq<u8>,
    pub time: u32,
    pub header: Seq<u8>,
    pub vtx: Seq<CompactTxView>,
}

impl View for CompactBlock {
    type V = CompactBlockView;

    open spec fn view(&self) -> CompactBlockView {
        CompactBlockView {
            proto_version: self.proto_version,
            height: self.height,
            hash: self.hash@,
            prev_hash: self.prev_hash@,
            time: self.time,
            header: self.header@,
            vtx: self.vtx@.map_values(|t: CompactTx| t@),
        }
    }
}

impl CompactBlockView {
    /// Whether the block embeds a full header that can be read.
    pub open spec fn has_header(self) -> bool {
        self.header.len() > 0 && header_len(self.header) is Some
    }

    /// Whether the block names its own hash: through a hash field of 32
    /// bytes, or else, where it has no hash field, through an embedded header.
    pub open spec fn names_hash(self) -> bool {
        self.hash.len() == 32 || (self.hash.len() == 0 && self.has_header())
    }

    /// Whether the block names the hash of its parent: through a field of 32
    /// bytes, or else, where it has no such field, through an embedded header.
    pub open spec fn names_parent(self) -> bool {
        self.prev_hash.len() == 32 || (self.prev_hash.len() == 0 && self.has_header())
    }

    /// Whether the block names its own hash and its parent's.
    pub open spec fn has_hashes(self) -> bool {
        self.names_hash() && self.names_parent()
    }

    /// The hash of the block: the hash field, or else, where the block has
    /// no hash field, the hash of the embedded header.
    pub open spec fn block_hash(self) -> Seq<u8> {
        if self.hash.len() == 0 && self.has_header() {
            BlockHeader::hash_of(self.header)
        } else {
            self.hash
        }
    }

    /// The hash of the parent: the field of the parent's hash, or else, where
    /// the block has no such field, the parent that the embedded header names.
    pub open spec fn parent_hash(self) -> Seq<u8> {
        if self.prev_hash.len() == 0 && self.has_header() {
            BlockHeader::prev_block_of(self.header)
        } else {
            self.prev_hash
        }
    }

    /// Whether every transaction carries a 32-byte identifier and every spend a
    /// 32-byte nullifier.
    pub open spec fn has_ids(self) -> bool {
        forall|t: int|
            0 <= t < self.vtx.len() ==> {
                &&& (#[trigger] self.vtx[t]).hash.len() == 32
                &&& forall|s: int|
                    0 <= s < self.vtx[t].spends.len() ==> (#[trigger] self.vtx[t].spends[s]).nf.len()
                        == 32
            }
    }

    /// Whether the block can be scanned: its height is a block height, and its
    /// hashes and identifiers have their sizes.
    pub open spec fn well_formed(self) -> bool {
        &&& self.height <= u32::MAX
        &&& self.has_hashes()
        &&& self.has_ids()
    }
}

impl CompactBlock {
    /// The embedded header, if there is one that can be read.
    pub fn header(&self) -> (r: Option<BlockHeader>)
        ensures
            r is Some <==> self@.has_header(),
            r is Some ==> r->Some_0.is_header_of(self.header@),
    {
        if self.header.len() == 0 {
            None
        } else {
            BlockHeader::read(self.header.as_slice())
        }
    }

    /// Whether this block names its own hash.
    pub fn names_hash(&self) -> (r: bool)
        ensures
            r == self@.names_hash(),
    {
        self.hash.len() == 32 || (self.hash.len() == 0 && self.header().is_some())
    }

    /// Whether this block names the hash of its parent.
    pub fn names_parent(&self) -> (r: bool)
        ensures
            r == self@.names_parent(),
    {
        self.prev_hash.len() == 32 || (self.prev_hash.len() == 0 && self.header().is_some())
    }

    /// The hash of this block: its hash field, or else, where it has no hash
    /// field, the hash of its embedded header.
    pub fn hash(&self) -> (r: BlockHash)
        requires
            self.hash@.len() == 32 || (self.hash@.len() == 0 && self@.has_header()),
        ensures
            r.0@ == self@.block_hash(),
            self.hash@.len() == 32 ==> r.0@ == self.hash@,
            self.hash@.len() == 0 ==> r.0@ == BlockHeader::hash_of(self.header@),
    {
        if self.hash.len() == 32 {
            return BlockHash::from_slice(self.hash.as_slice());
        }
        match self.header() {
            Some(header) => {
                proof {
                    header.lemma_hashes(self.header@);
                }
                header.hash()
            },
            None => vstd::pervasive::unreached(),
        }
    }

    /// The hash of this block's parent: the field of the parent's hash, or
    /// else, where it has no such field, the parent that its embedded header names.
    pub fn prev_hash(&self) -> (r: BlockHash)
        requires
            self.prev_hash@.len() == 32 || (self.prev_hash@.len() == 0 && self@.has_header()),
        ensures
            r.0@ == self@.parent_hash(),
            self.prev_hash@.len() == 32 ==> r.0@ == self.prev_hash@,
            self.prev_hash@.len() == 0 ==> r.0@ == BlockHeader::prev_block_of(self.header@),
    {
        if self.prev_hash.len() == 32 {
            return BlockHash::from_slice(self.prev_hash.as_slice());
        }
        match self.header() {
            Some(header) => {
                proof {
                    header.lemma_hashes(self.header@);
                }
                header.prev_block()
            },
            None => vstd::pervasive::unreached(),
        }
    }

    /// The height of this block.
    pub fn height(&self) -> (r: BlockHeight)
        requires
            self.height <= u32::MAX,
        ensures
            r.0 == self.height,
    {
        BlockHeight(self.height as u32)
    }

    /// Whether this block can be scanned.
    pub fn is_well_formed(&self) -> (r: bool)
        ensures
            r == self@.well_formed(),
    {
        if self.height > u32::MAX as u64 {
            return false;
        }
        if !self.names_hash() || !self.names_parent() {
            return false;
        }
        let mut t: usize = 0;
        while t < self.vtx.len()
            invariant
                t <= self.vtx.len(),
                forall|k: int|
                    0 <= k < t ==> {
                        &&& (#[trigger] self@.vtx[k]).hash.len() == 32
                        &&& forall|s: int|
                            0 <= s < self@.vtx[k].spends.len() ==> (
                            #[trigger] self@.vtx[k].spends[s]).nf.len() == 32
                    },
            decreases self.vtx.len() - t,
        {
            let tx = &self.vtx[t];
            assert(self@.vtx[t as int] == tx@);
            if tx.hash.len() != 32 {
                assert(self@.vtx[t as int].hash.len() != 32);
                return false;
            }
            let mut s: usize = 0;
            while s < tx.spends.len()
                invariant
                    s <= tx.spends.len(),
                    t < self.vtx.len(),
                    self@.vtx[t as int] == tx@,
                    forall|k: int| 0 <= k < s ==> (#[trigger] tx@.spends[k]).nf.len() == 32,
                decreases tx.spends.len() - s,
            {
                assert(tx@.spends[s as int] == tx.spends[s as int]@);
                if tx.spends[s].nf.len() != 32 {
                    assert(self@.vtx[t as int].spends[s as int].nf.len() != 32);
                    return false;
                }
                s += 1;
            }
            t += 1;
        }
        true
    }
}

impl CompactTx {
    /// The identifier of this transaction.
    pub fn txid(&self) -> (r: TxId)
        requires
            self.hash@.len() == 32,
        ensures
            r.0@ == self.hash@,
    {
        let a = array32_at(self.hash.as_slice(), 0);
        assert(self.hash@.subrange(0, 32) =~= self.hash@);
        TxId::from_bytes(a)
    }
}

impl CompactSaplingSpend {
    /// The nullifier of this spend; there is one exactly when the field holds 32 bytes.
    pub fn nf(&self) -> (r: Result<Nullifier, ()>)
        ensures
            r is Ok <==> self.nf@.len() == 32,
            r is Ok ==> r->Ok_0.0@ == self.nf@,
    {
        Nullifier::from_slice(self.nf.as_slice())
    }
}

/// `zcash_note_encryption::COMPACT_NOTE_SIZE`: the length of the start of a
/// note ciphertext that a compact block carries, which is 52.
#[verifier::external_body]
fn compact_note_size() -> (r: usize)
    ensures
        r == 52,
{
    zcash_note_encryption::COMPACT_NOTE_SIZE
}

/// The order of the group of the note commitments.
pub open spec fn bls_scalar_modulus() -> nat {
    0xffff_ffff_0000_0001nat + 0x53bd_a402_fffe_5bfenat * two_64() + 0x3339_d808_09a1_d805nat
        * two_64() * two_64() + 0x73ed_a753_299d_7d48nat * two_64() * two_64() * two_64()
}

/// Whether the 32 bytes spell a scalar in its one form: the number that they
/// spell, lowest byte first, is below the order of the group.
pub open spec fn is_bls_scalar(bytes: Seq<u8>) -> bool {
    bytes.len() == 32 && le_nat(bytes) < bls_scalar_modulus()
}

/// `bls12_381::Scalar::from_repr`: there is a scalar exactly when the bytes
/// are its one form.
#[verifier::external_body]
fn is_canonical_scalar(repr: &[u8; 32]) -> (r: bool)
    ensures
        r == is_bls_scalar(repr@),
{
    bls12_381::Scalar::from_repr(*repr).is_some().into()
}

/// A note commitment: the 32 bytes of a scalar in its one form.
#[derive(Clone, Copy, Debug, PartialEq, Eq)]
pub struct NoteCommitment {
    repr: [u8; 32],
}

impl NoteCommitment {
    #[verifier::type_invariant]
    closed spec fn inv(&self) -> bool {
        is_bls_scalar(self.repr@)
    }

    /// The 32 bytes of the commitment.
    pub closed spec fn repr(&self) -> Seq<u8> {
        self.repr@
    }

    /// The commitment that the bytes spell, if they are the one form of a scalar.
    pub fn from_repr(repr: [u8; 32]) -> (r: Option<NoteCommitment>)
        ensures
            r is Some <==> is_bls_scalar(repr@),
            r is Some ==> r->Some_0.repr() == repr@,
    {
        if is_canonical_scalar(&repr) {
            Some(NoteCommitment { repr })
        } else {
            None
        }
    }

    /// The 32 bytes of the commitment.
    pub fn to_repr(&self) -> (r: [u8; 32])
        ensures
            r@ == self.repr(),
            is_bls_scalar(r@),
    {
        proof {
            use_type_invariant(self);
        }
        self.repr
    }
}

/// The bytes of an ephemeral public key.
#[derive(Clone, Copy, Debug, PartialEq, Eq)]
pub struct EphemeralKeyBytes(pub [u8; 32]);

/// An output as trial decryption takes it.
#[derive(Clone, Debug, PartialEq, Eq)]
pub struct CompactOutputDescription {
    pub ephemeral_key: EphemeralKeyBytes,
    pub cmu: NoteCommitment,
    pub enc_ciphertext: Vec<u8>,
}

impl CompactSaplingOutput {
    /// The note commitment of this output, which must hold 32 bytes for it:
    /// there is one exactly when the bytes are the one form of a scalar.
    pub fn cmu(&self) -> (r: Result<NoteCommitment, ()>)
        requires
            self.cmu@.len() == 32,
        ensures
            r is Ok <==> is_bls_scalar(self.cmu@),
            r is Ok ==> r->Ok_0.repr() == self.cmu@,
    {
        let repr = array32_at(self.cmu.as_slice(), 0);
        assert(self.cmu@.subrange(0, 32) =~= self.cmu@);
        match NoteCommitment::from_repr(repr) {
            Some(cmu) => Ok(cmu),
            None => Err(()),
        }
    }

    /// The ephemeral public key of this output: there is one exactly when
    /// the field holds 32 bytes.
    pub fn ephemeral_key(&self) -> (r: Result<EphemeralKeyBytes, ()>)
        ensures
            r is Ok <==> self.epk@.len() == 32,
            r is Ok ==> r->Ok_0.0@ == self.epk@,
    {
        if self.epk.len() != 32 {
            return Err(());
        }
        let key = array32_at(self.epk.as_slice(), 0);
        assert(self.epk@.subrange(0, 32) =~= self.epk@);
        Ok(EphemeralKeyBytes(key))
    }

    /// The compact form of an output with the note commitment `cmu`, the
    /// ephemeral key `ephemeral_key` and the note ciphertext `enc_ciphertext`,
    /// of which the first 52 bytes are kept.
    pub fn from_parts(
        cmu: &NoteCommitment,
        ephemeral_key: &EphemeralKeyBytes,
        enc_ciphertext: &[u8],
    ) -> (r: CompactSaplingOutput)
        requires
            enc_ciphertext@.len() >= 52,
        ensures
            r.cmu@ == cmu.repr(),
            r.epk@ == ephemeral_key.0@,
            r.ciphertext@ == enc_ciphertext@.take(52),
    {
        let repr = cmu.to_repr();
        let mut ciphertext: Vec<u8> = Vec::new();
        let mut i: usize = 0;
        let size = compact_note_size();
        while i < size
            invariant
                i <= 52 <= enc_ciphertext@.len(),
                size == 52,
                ciphertext@ == enc_ciphertext@.take(i as int),
            decreases 52 - i,
        {
            ciphertext.push(enc_ciphertext[i]);
            assert(enc_ciphertext@.take(i + 1) =~= enc_ciphertext@.take(i as int).push(
                enc_ciphertext@[i as int],
            ));
            i += 1;
        }
        CompactSaplingOutput {
            cmu: vec_of_array32(&repr),
            epk: vec_of_array32(&ephemeral_key.0),
            ciphertext,
        }
    }
}

impl CompactOutputDescription {
    /// The output as trial decryption takes it: there is one exactly when the
    /// note commitment is the one form of a scalar, the ephemeral key holds
    /// 32 bytes and the ciphertext 52; it holds the bytes of the three. The
    /// note commitment must hold 32 bytes.
    pub fn try_from(value: CompactSaplingOutput) -> (r: Result<CompactOutputDescription, ()>)
        requires
            value.cmu@.len() == 32,
        ensures
            r is Ok <==> is_bls_scalar(value.cmu@) && value.epk@.len() == 32
                && value.ciphertext@.len() == 52,
            r is Ok ==> r->Ok_0.cmu.repr() == value.cmu@ && r->Ok_0.ephemeral_key.0@ == value.epk@
                && r->Ok_0.enc_ciphertext@ == value.ciphertext@,
    {
        let cmu = value.cmu()?;
        let ephemeral_key = value.ephemeral_key()?;
        if value.ciphertext.len() != compact_note_size() {
            return Err(());
        }
        Ok(CompactOutputDescription { ephemeral_key, cmu, enc_ciphertext: value.ciphertext })
    }
}

} // verus!
