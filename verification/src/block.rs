//! Full block headers as they are embedded in compact blocks: the byte layout,
//! and the hash that identifies a block.

use vstd::prelude::*;
use crate::primitives::{array32_at, BlockHash};

verus! {

/// The SHA-256 digest of a byte string.
pub uninterp spec fn sha256_digest(data: Seq<u8>) -> Seq<u8>;

/// `sha2::Sha256::digest`: the result is the SHA-256 digest of `data`, 32 bytes long.
#[verifier::external_body]
fn sha256(data: &[u8]) -> (r: [u8; 32])
    ensures
        r@ == sha256_digest(data@),
{
    let d = <sha2::Sha256 as sha2::Digest>::digest(data);
    let mut out = [0u8; 32];
    out.copy_from_slice(&d);
    out
}

/// The digest of the digest: the hash that identifies a block by its header.
pub open spec fn double_sha256(data: Seq<u8>) -> Seq<u8> {
    sha256_digest(sha256_digest(data))
}

/// The number that two bytes at `at` spell, lowest byte first.
pub open spec fn le_u16(s: Seq<u8>, at: int) -> nat {
    (s[at] as nat) + 256 * (s[at + 1] as nat)
}

/// The number that four bytes at `at` spell, lowest byte first.
pub open spec fn le_u32(s: Seq<u8>, at: int) -> nat {
    (s[at] as nat) + 256 * (s[at + 1] as nat) + 65536 * (s[at + 2] as nat) + 16777216 * (s[at
        + 3] as nat)
}

/// The largest count that a length prefix may announce.
pub const MAX_COMPACT_SIZE: u32 = 0x0200_0000;

/// The bytes of a header before its solution: version, parent hash, two roots,
/// time, difficulty bits and nonce.
pub const HEADER_FIXED_LEN: usize = 140;

/// The length prefix at `at`: the count it announces and the position behind it.
/// A prefix that is cut short, that spends more bytes than its count needs, or
/// that announces more than `MAX_COMPACT_SIZE` has none.
pub open spec fn compact_size(s: Seq<u8>, at: int) -> Option<(nat, int)> {
    if at < 0 || at >= s.len() {
        None
    } else if s[at] < 253 {
        Some((s[at] as nat, at + 1))
    } else if s[at] == 253 {
        if at + 3 > s.len() || le_u16(s, at + 1) < 253 {
            None
        } else {
            Some((le_u16(s, at + 1), at + 3))
        }
    } else if s[at] == 254 {
        if at + 5 > s.len() || le_u32(s, at + 1) < 0x10000 || le_u32(s, at + 1)
            > MAX_COMPACT_SIZE {
            None
        } else {
            Some((le_u32(s, at + 1), at + 5))
        }
    } else {
        None
    }
}

/// The number of bytes that the header at the start of `s` takes, if `s` starts
/// with a whole header.
pub open spec fn header_len(s: Seq<u8>) -> Option<nat> {
    match compact_size(s, HEADER_FIXED_LEN as int) {
        Some((count, body)) => if body + count <= s.len() {
            Some((body + count) as nat)
        } else {
            None
        },
        None => None,
    }
}

/// Where the solution of the header at the start of `s` begins.
pub open spec fn solution_start(s: Seq<u8>) -> int {
    compact_size(s, HEADER_FIXED_LEN as int)->Some_0.1
}

/// The signed number that four bytes at `at` spell, lowest byte first, in two's complement.
pub open spec fn le_i32(s: Seq<u8>, at: int) -> int {
    if le_u32(s, at) < 0x8000_0000 {
        le_u32(s, at) as int
    } else {
        le_u32(s, at) - 0x1_0000_0000
    }
}

fn read_u16(s: &[u8], at: usize) -> (r: u16)
    requires
        at + 2 <= s.len(),
    ensures
        r == le_u16(s@, at as int),
{
    let b0: u16 = s[at] as u16;
    let b1: u16 = s[at + 1] as u16;
    b0 + 256 * b1
}

fn read_u32(s: &[u8], at: usize) -> (r: u32)
    requires
        at + 4 <= s.len(),
    ensures
        r == le_u32(s@, at as int),
{
    let b0: u32 = s[at] as u32;
    let b1: u32 = s[at + 1] as u32;
    let b2: u32 = s[at + 2] as u32;
    let b3: u32 = s[at + 3] as u32;
    b0 + 256 * b1 + 65536 * b2 + 16777216 * b3
}

fn read_i32(s: &[u8], at: usize) -> (r: i32)
    requires
        at + 4 <= s.len(),
    ensures
        r == le_i32(s@, at as int),
{
    let v: u32 = read_u32(s, at);
    if v < 0x8000_0000 {
        v as i32
    } else {
        let low: u32 = v - 0x8000_0000;
        (low as i32) + i32::MIN
    }
}

/// Reads the length prefix at `at`.
fn read_compact_size(s: &[u8], at: usize) -> (r: Option<(u32, usize)>)
    requires
        at <= s.len(),
    ensures
        r is Some <==> compact_size(s@, at as int) is Some,
        r is Some ==> r->Some_0.0 == compact_size(s@, at as int)->Some_0.0 && r->Some_0.1
            == compact_size(s@, at as int)->Some_0.1 && r->Some_0.1 <= s.len(),
{
    if at >= s.len() {
        return None;
    }
    let flag: u8 = s[at];
    if flag < 253 {
        Some((flag as u32, at + 1))
    } else if flag == 253 {
        if s.len() - at < 3 {
            return None;
        }
        let n: u16 = read_u16(s, at + 1);
        if n < 253 {
            None
        } else {
            Some((n as u32, at + 3))
        }
    } else if flag == 254 {
        if s.len() - at < 5 {
            return None;
        }
        let n: u32 = read_u32(s, at + 1);
        if n < 0x10000 || n > MAX_COMPACT_SIZE {
            None
        } else {
            Some((n, at + 5))
        }
    } else {
        None
    }
}

/// A block header.
#[derive(Clone, Debug, PartialEq, Eq)]
pub struct BlockHeader {
    hash: BlockHash,
    version: i32,
    prev_block: BlockHash,
    merkle_root: [u8; 32],
    final_sapling_root: [u8; 32],
    time: u32,
    bits: u32,
    nonce: [u8; 32],
    solution: Vec<u8>,
}

impl BlockHeader {
    /// Whether this is the header that `s` starts with.
    pub closed spec fn is_header_of(&self, s: Seq<u8>) -> bool {
        &&& header_len(s) is Some
        &&& self.hash.0@ == double_sha256(s.take(header_len(s)->Some_0 as int))
        &&& self.version == le_i32(s, 0)
        &&& self.prev_block.0@ == s.subrange(4, 36)
        &&& self.merkle_root@ == s.subrange(36, 68)
        &&& self.final_sapling_root@ == s.subrange(68, 100)
        &&& self.time == le_u32(s, 100)
        &&& self.bits == le_u32(s, 104)
        &&& self.nonce@ == s.subrange(108, 140)
        &&& self.solution@ == s.subrange(solution_start(s), header_len(s)->Some_0 as int)
    }

    /// The hash of this header.
    pub closed spec fn spec_hash(&self) -> BlockHash {
        self.hash
    }

    /// The parent hash that this header names.
    pub closed spec fn spec_prev_block(&self) -> BlockHash {
        self.prev_block
    }

    /// The hash of the header that `s` starts with.
    pub open spec fn hash_of(s: Seq<u8>) -> Seq<u8> {
        double_sha256(s.take(header_len(s)->Some_0 as int))
    }

    /// The parent hash in the header that `s` starts with.
    pub open spec fn prev_block_of(s: Seq<u8>) -> Seq<u8> {
        s.subrange(4, 36)
    }

    /// What `is_header_of` says of the two hashes.
    pub proof fn lemma_hashes(&self, s: Seq<u8>)
        requires
            self.is_header_of(s),
        ensures
            self.spec_hash().0@ == Self::hash_of(s),
            self.spec_prev_block().0@ == Self::prev_block_of(s),
    {
    }

    /// Reads the header at the start of `bytes`; what follows it is left alone.
    /// There is one exactly when `bytes` holds the fixed part, a well-formed
    /// length prefix and as many solution bytes as the prefix announces.
    pub fn read(bytes: &[u8]) -> (r: Option<BlockHeader>)
        ensures
            r is Some <==> header_len(bytes@) is Some,
            r is Some ==> r->Some_0.is_header_of(bytes@),
    {
        if bytes.len() < HEADER_FIXED_LEN {
            return None;
        }
        let (count, body) = match read_compact_size(bytes, HEADER_FIXED_LEN) {
            Some(p) => p,
            None => {
                return None;
            },
        };
        if bytes.len() - body < count as usize {
            return None;
        }
        let end: usize = body + count as usize;
        let version = read_i32(bytes, 0);
        let prev_block = BlockHash(array32_at(bytes, 4));
        let merkle_root = array32_at(bytes, 36);
        let final_sapling_root = array32_at(bytes, 68);
        let time = read_u32(bytes, 100);
        let bits = read_u32(bytes, 104);
        let nonce = array32_at(bytes, 108);
        let mut solution: Vec<u8> = Vec::new();
        let mut i: usize = body;
        while i < end
            invariant
                body <= i <= end <= bytes.len(),
                solution@ == bytes@.subrange(body as int, i as int),
            decreases end - i,
        {
            solution.push(bytes[i]);
            assert(bytes@.subrange(body as int, i + 1) =~= bytes@.subrange(
                body as int,
                i as int,
            ).push(bytes@[i as int]));
            i += 1;
        }
        let mut consumed: Vec<u8> = Vec::new();
        let mut j: usize = 0;
        while j < end
            invariant
                j <= end <= bytes.len(),
                consumed@ == bytes@.take(j as int),
            decreases end - j,
        {
            consumed.push(bytes[j]);
            assert(bytes@.take(j + 1) =~= bytes@.take(j as int).push(bytes@[j as int]));
            j += 1;
        }
        let once = sha256(consumed.as_slice());
        let twice = sha256(once.as_slice());
        Some(
            BlockHeader {
                hash: BlockHash(twice),
                version,
                prev_block,
                merkle_root,
                final_sapling_root,
                time,
                bits,
                nonce,
                solution,
            },
        )
    }

    /// The hash that identifies the block of this header.
    pub fn hash(&self) -> (r: BlockHash)
        ensures
            r == self.spec_hash(),
    {
        self.hash
    }

    /// The hash of the parent block.
    pub fn prev_block(&self) -> (r: BlockHash)
        ensures
            r == self.spec_prev_block(),
    {
        self.prev_block
    }
}

} // verus!
