//! Small value types shared by every module: heights, hashes, identifiers, amounts.

use vstd::prelude::*;

verus! {

/// Compares two 32-byte arrays.
pub fn bytes32_eq(a: &[u8; 32], b: &[u8; 32]) -> (r: bool)
    ensures
        r == (*a == *b),
{
    let mut i: usize = 0;
    while i < 32
        invariant
            i <= 32,
            forall|j: int| 0 <= j < i ==> a@[j] == b@[j],
        decreases 32 - i,
    {
        if a[i] != b[i] {
            return false;
        }
        i += 1;
    }
    assert(*a =~= *b);
    true
}

/// Compares two byte strings.
pub fn bytes_eq(a: &[u8], b: &[u8]) -> (r: bool)
    ensures
        r == (a@ == b@),
{
    if a.len() != b.len() {
        return false;
    }
    let mut i: usize = 0;
    while i < a.len()
        invariant
            i <= a.len(),
            a.len() == b.len(),
            forall|j: int| 0 <= j < i ==> a@[j] == b@[j],
        decreases a.len() - i,
    {
        if a[i] != b[i] {
            return false;
        }
        i += 1;
    }
    assert(a@ =~= b@);
    true
}

/// Copies 32 bytes out of `src`, starting at `start`.
pub fn array32_at(src: &[u8], start: usize) -> (r: [u8; 32])
    requires
        start + 32 <= src.len(),
    ensures
        r@ == src@.subrange(start as int, start + 32),
{
    let mut out = [0u8; 32];
    let mut i: usize = 0;
    while i < 32
        invariant
            i <= 32,
            start + 32 <= src.len(),
            forall|j: int| 0 <= j < i ==> out@[j] == src@[start + j],
        decreases 32 - i,
    {
        out[i] = src[start + i];
        i += 1;
    }
    assert(out@ =~= src@.subrange(start as int, start + 32));
    out
}

/// Copies a 32-byte array into a fresh vector.
pub fn vec_of_array32(a: &[u8; 32]) -> (r: Vec<u8>)
    ensures
        r@ == a@,
{
    let mut out: Vec<u8> = Vec::new();
    let mut i: usize = 0;
    while i < 32
        invariant
            i <= 32,
            out@ == a@.take(i as int),
        decreases 32 - i,
    {
        out.push(a[i]);
        assert(a@.take(i + 1) =~= a@.take(i as int).push(a@[i as int]));
        i += 1;
    }
    assert(a@.take(32) =~= a@);
    out
}

/// The position of a block in the chain.
#[derive(Clone, Copy, Debug, PartialEq, Eq, Structural, PartialOrd, Ord, Hash)]
pub struct BlockHeight(pub u32);

impl BlockHeight {
    pub fn from_u32(v: u32) -> (r: BlockHeight)
        ensures
            r.0 == v,
    {
        BlockHeight(v)
    }

    pub fn to_u32(&self) -> (r: u32)
        ensures
            r == self.0,
    {
        self.0
    }
}

/// The identifier of a block.
#[derive(Clone, Copy, Debug, PartialEq, Eq, Hash)]
pub struct BlockHash(pub [u8; 32]);

impl BlockHash {
    /// Builds a hash from exactly 32 bytes.
    pub fn from_slice(bytes: &[u8]) -> (r: BlockHash)
        requires
            bytes@.len() == 32,
        ensures
            r.0@ == bytes@,
    {
        let a = array32_at(bytes, 0);
        assert(bytes@.subrange(0, 32) =~= bytes@);
        BlockHash(a)
    }

    pub fn same(&self, other: &BlockHash) -> (r: bool)
        ensures
            r == (*self == *other),
    {
        bytes32_eq(&self.0, &other.0)
    }
}

/// The identifier of a transaction.
#[derive(Clone, Copy, Debug, PartialEq, Eq, Hash)]
pub struct TxId(pub [u8; 32]);

impl TxId {
    pub fn from_bytes(bytes: [u8; 32]) -> (r: TxId)
        ensures
            r.0 == bytes,
    {
        TxId(bytes)
    }

    pub fn same(&self, other: &TxId) -> (r: bool)
        ensures
            r == (*self == *other),
    {
        bytes32_eq(&self.0, &other.0)
    }
}

/// The value a spend reveals to mark a note as consumed.
#[derive(Clone, Copy, Debug, PartialEq, Eq, Hash)]
pub struct Nullifier(pub [u8; 32]);

impl Nullifier {
    /// Builds a nullifier from a byte string; only 32 bytes make one.
    pub fn from_slice(bytes: &[u8]) -> (r: Result<Nullifier, ()>)
        ensures
            r is Ok <==> bytes@.len() == 32,
            r is Ok ==> r->Ok_0.0@ == bytes@,
    {
        if bytes.len() != 32 {
            return Err(());
        }
        let a = array32_at(bytes, 0);
        assert(bytes@.subrange(0, 32) =~= bytes@);
        Ok(Nullifier(a))
    }

    pub fn same(&self, other: &Nullifier) -> (r: bool)
        ensures
            r == (*self == *other),
    {
        bytes32_eq(&self.0, &other.0)
    }
}

/// The number of an account of the wallet.
#[derive(Clone, Copy, Debug, PartialEq, Eq, Structural, PartialOrd, Ord, Hash)]
pub struct AccountId(pub u32);

/// The largest amount of the smallest unit that can exist.
pub const MAX_MONEY: i64 = 2_100_000_000_000_000;

/// A number of the smallest currency unit, between `-MAX_MONEY` and `MAX_MONEY`.
#[derive(Clone, Copy, Debug, PartialEq, Eq, Structural, PartialOrd, Ord, Hash)]
pub struct Amount(i64);

impl View for Amount {
    type V = int;

    closed spec fn view(&self) -> int {
        self.0 as int
    }
}

/// Whether `v` lies in the range of an amount.
pub open spec fn money_range(v: int) -> bool {
    -(MAX_MONEY as int) <= v <= MAX_MONEY as int
}

impl Amount {
    #[verifier::type_invariant]
    closed spec fn in_range(&self) -> bool {
        money_range(self.0 as int)
    }

    pub fn zero() -> (r: Amount)
        ensures
            r@ == 0,
    {
        Amount(0)
    }

    pub fn from_i64(v: i64) -> (r: Result<Amount, ()>)
        ensures
            r is Ok <==> money_range(v as int),
            r is Ok ==> r->Ok_0@ == v,
    {
        if -MAX_MONEY <= v && v <= MAX_MONEY {
            Ok(Amount(v))
        } else {
            Err(())
        }
    }

    pub fn from_u64(v: u64) -> (r: Result<Amount, ()>)
        ensures
            r is Ok <==> v <= MAX_MONEY,
            r is Ok ==> r->Ok_0@ == v,
    {
        if v <= MAX_MONEY as u64 {
            Ok(Amount(v as i64))
        } else {
            Err(())
        }
    }

    pub fn to_i64(&self) -> (r: i64)
        ensures
            r == self@,
            money_range(r as int),
    {
        proof {
            use_type_invariant(self);
        }
        self.0
    }

    pub fn is_negative(&self) -> (r: bool)
        ensures
            r == (self@ < 0),
    {
        self.0 < 0
    }

    pub fn is_positive(&self) -> (r: bool)
        ensures
            r == (self@ > 0),
    {
        self.0 > 0
    }

    /// The sum, where it is an amount.
    pub fn checked_add(&self, other: &Amount) -> (r: Option<Amount>)
        ensures
            r is Some <==> money_range(self@ + other@),
            r is Some ==> r->Some_0@ == self@ + other@,
    {
        proof {
            use_type_invariant(self);
            use_type_invariant(other);
        }
        let s: i64 = self.0 + other.0;
        if -MAX_MONEY <= s && s <= MAX_MONEY {
            Some(Amount(s))
        } else {
            None
        }
    }

    /// The difference, where it is an amount.
    pub fn checked_sub(&self, other: &Amount) -> (r: Option<Amount>)
        ensures
            r is Some <==> money_range(self@ - other@),
            r is Some ==> r->Some_0@ == self@ - other@,
    {
        proof {
            use_type_invariant(self);
            use_type_invariant(other);
        }
        let s: i64 = self.0 - other.0;
        if -MAX_MONEY <= s && s <= MAX_MONEY {
            Some(Amount(s))
        } else {
            None
        }
    }
}

} // verus!
