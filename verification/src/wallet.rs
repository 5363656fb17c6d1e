//! The wallet's own record of the chain: the blocks it has scanned, the notes
//! it has found in them, and which of those notes have been spent.

use vstd::prelude::*;
use vstd::string::*;
use crate::error::{SqliteClientError, SqliteClientErrorView};
use crate::primitives::{
    bytes_eq, AccountId, Amount, BlockHash, BlockHeight, Nullifier, TxId, MAX_MONEY,
};

verus! {

/// A block that the wallet has scanned.
#[derive(Clone, Copy, Debug, PartialEq, Eq)]
pub struct ScannedBlock {
    pub height: BlockHeight,
    pub hash: BlockHash,
    /// The number of note commitments in the chain up to and including this block.
    pub tree_size: u64,
}

/// What a `ScannedBlock` holds, as mathematical values.
pub struct ScannedBlockView {
    pub height: u32,
    pub hash: Seq<u8>,
    pub tree_size: u64,
}

impl View for ScannedBlock {
    type V = ScannedBlockView;

    open spec fn view(&self) -> ScannedBlockView {
        ScannedBlockView { height: self.height.0, hash: self.hash.0@, tree_size: self.tree_size }
    }
}

/// A note that belongs to the wallet.
#[derive(Clone, Copy, Debug, PartialEq, Eq)]
pub struct ReceivedNote {
    /// The account that owns the note.
    pub account: AccountId,
    /// The value of the note.
    pub value: u64,
    /// The nullifier that a spend of the note reveals.
    pub nf: Nullifier,
    /// The position of the note's commitment among all commitments of the chain.
    pub position: u64,
    /// The height of the block in which the note was found.
    pub height: BlockHeight,
    /// The transaction in which the note was found.
    pub txid: TxId,
    /// The height and transaction in which the note was spent, once it was.
    pub spent: Option<(BlockHeight, TxId)>,
}

/// What a `ReceivedNote` holds, as mathematical values.
pub struct NoteView {
    pub account: AccountId,
    pub value: u64,
    pub nf: Seq<u8>,
    pub position: u64,
    pub height: u32,
    pub txid: Seq<u8>,
    pub spent: Option<(u32, Seq<u8>)>,
}

impl View for ReceivedNote {
    type V = NoteView;

    open spec fn view(&self) -> NoteView {
        NoteView {
            account: self.account,
            value: self.value,
            nf: self.nf.0@,
            position: self.position,
            height: self.height.0,
            txid: self.txid.0@,
            spent: match self.spent {
                Some((h, t)) => Some((h.0, t.0@)),
                None => None,
            },
        }
    }
}

/// What a wallet holds, as mathematical values.
pub struct WalletView {
    /// The height of the first block that the wallet scans.
    pub start_height: u32,
    /// The scanned blocks, lowest first.
    pub blocks: Seq<ScannedBlockView>,
    /// The notes, in the order in which they were found.
    pub notes: Seq<NoteView>,
}

/// The number of note commitments that the chain can hold.
pub const TREE_CAPACITY: u64 = 0x1_0000_0000;

impl WalletView {
    /// The height that the wallet has scanned up to, or one below its first
    /// height where it has scanned nothing.
    pub open spec fn tip(self) -> int {
        self.start_height + self.blocks.len() - 1
    }

    /// The number of note commitments up to the last scanned block.
    pub open spec fn tree_size(self) -> u64 {
        if self.blocks.len() == 0 {
            0
        } else {
            self.blocks.last().tree_size
        }
    }

    /// The invariant of a wallet: the scanned heights follow each other
    /// without a gap, and every note was found, and if spent was spent, in a
    /// scanned block, not before it was found.
    pub open spec fn wf(self) -> bool {
        &&& self.tip() <= u32::MAX
        &&& forall|i: int|
            0 <= i < self.blocks.len() ==> {
                &&& (#[trigger] self.blocks[i]).height == self.start_height + i
                &&& self.blocks[i].tree_size <= TREE_CAPACITY
            }
        &&& notes_within(self.notes, self.start_height as int, self.tip())
    }
}

/// Whether every note was found between the heights `start` and `tip`, and if
/// spent was spent no later than `tip` and not before it was found.
pub open spec fn notes_within(notes: Seq<NoteView>, start: int, tip: int) -> bool {
    forall|i: int|
        0 <= i < notes.len() ==> {
            &&& start <= (#[trigger] notes[i]).height <= tip
            &&& match notes[i].spent {
                Some((h, _)) => notes[i].height <= h <= tip,
                None => true,
            }
        }
}

/// The sum of the values of the unspent notes of `account`.
pub open spec fn balance_of(notes: Seq<NoteView>, account: AccountId) -> nat
    decreases notes.len(),
{
    if notes.len() == 0 {
        0
    } else {
        balance_of(notes.drop_last(), account) + if notes.last().account == account
            && notes.last().spent is None {
            notes.last().value as nat
        } else {
            0
        }
    }
}

/// The text of a balance that is no amount.
pub open spec fn balance_out_of_range_text() -> Seq<char> {
    "Sum of values in received_notes is out of range"@
}


/// The notes after a spend that reveals `nf` in the transaction `txid` at
/// `height`: every unspent note with that nullifier is marked as spent there.
pub open spec fn mark_spent(notes: Seq<NoteView>, nf: Seq<u8>, height: u32, txid: Seq<u8>) -> Seq<
    NoteView,
> {
    notes.map_values(
        |n: NoteView|
            if n.spent is None && n.nf == nf {
                NoteView { spent: Some((height, txid)), ..n }
            } else {
                n
            },
    )
}

/// A note as it was at the end of the block of height `target`: unspent, if
/// it was spent above that height.
pub open spec fn unspent_above(n: NoteView, target: int) -> NoteView {
    match n.spent {
        Some((h, _)) => if h > target {
            NoteView { spent: None, ..n }
        } else {
            n
        },
        None => n,
    }
}

/// The notes that a rewind to `target` keeps: those found at `target` or
/// below, in their order, each unspent if it was spent above `target`.
pub open spec fn retained_notes(notes: Seq<NoteView>, target: int) -> Seq<NoteView>
    decreases notes.len(),
{
    if notes.len() == 0 {
        Seq::empty()
    } else if notes.last().height > target {
        retained_notes(notes.drop_last(), target)
    } else {
        retained_notes(notes.drop_last(), target).push(unspent_above(notes.last(), target))
    }
}

/// The scanned blocks that a rewind to `target` keeps: those at `target` or below.
pub open spec fn retained_blocks(blocks: Seq<ScannedBlockView>, target: int) -> Seq<
    ScannedBlockView,
>
    decreases blocks.len(),
{
    if blocks.len() == 0 {
        Seq::empty()
    } else if blocks.last().height > target {
        retained_blocks(blocks.drop_last(), target)
    } else {
        retained_blocks(blocks.drop_last(), target).push(blocks.last())
    }
}

/// The wallet after a rewind to `target`.
pub open spec fn rewound(w: WalletView, target: int) -> WalletView {
    WalletView {
        start_height: w.start_height,
        blocks: retained_blocks(w.blocks, target),
        notes: retained_notes(w.notes, target),
    }
}

/// How far back a rewind may reach.
#[derive(Clone, Copy, Debug, PartialEq, Eq)]
pub struct RewindPolicy {
    /// The number of blocks below the highest scanned block down to which any
    /// height may be rewound to.
    pub pruning_depth: u32,
    /// A height that may be rewound to however far below it lies.
    pub stable_checkpoint: Option<BlockHeight>,
}

impl RewindPolicy {
    /// Whether a wallet with the highest scanned height `tip` may be rewound to `target`.
    pub open spec fn allows(self, tip: int, target: int) -> bool {
        target >= tip - self.pruning_depth || self.stable_checkpoint == Some(
            BlockHeight(target as u32),
        )
    }
}

/// The wallet's store.
#[derive(Clone, Debug, PartialEq, Eq)]
pub struct WalletDb {
    start_height: BlockHeight,
    blocks: Vec<ScannedBlock>,
    notes: Vec<ReceivedNote>,
}

impl View for WalletDb {
    type V = WalletView;

    closed spec fn view(&self) -> WalletView {
        WalletView {
            start_height: self.start_height.0,
            blocks: self.blocks@.map_values(|b: ScannedBlock| b@),
            notes: self.notes@.map_values(|n: ReceivedNote| n@),
        }
    }
}

impl WalletDb {
    /// Whether the wallet meets its invariant.
    pub open spec fn wf(&self) -> bool {
        self@.wf()
    }

    /// A wallet that has scanned nothing and will start at `start_height`.
    pub fn new(start_height: BlockHeight) -> (r: WalletDb)
        ensures
            r.wf(),
            r@ == (WalletView {
                start_height: start_height.0,
                blocks: Seq::empty(),
                notes: Seq::empty(),
            }),
    {
        let r = WalletDb { start_height, blocks: Vec::new(), notes: Vec::new() };
        assert(r@.blocks =~= Seq::empty() && r@.notes =~= Seq::empty());
        r
    }

    /// A wallet of the given parts, as they were taken from one before: none
    /// where the parts do not meet the invariant of a wallet.
    pub fn restore(start_height: BlockHeight, blocks: Vec<ScannedBlock>, notes: Vec<ReceivedNote>) -> (r:
        Option<WalletDb>)
        ensures
            r is Some <==> (WalletView {
                start_height: start_height.0,
                blocks: blocks@.map_values(|b: ScannedBlock| b@),
                notes: notes@.map_values(|n: ReceivedNote| n@),
            }).wf(),
            r is Some ==> r->Some_0@ == (WalletView {
                start_height: start_height.0,
                blocks: blocks@.map_values(|b: ScannedBlock| b@),
                notes: notes@.map_values(|n: ReceivedNote| n@),
            }),
    {
        let ghost view = WalletView {
            start_height: start_height.0,
            blocks: blocks@.map_values(|b: ScannedBlock| b@),
            notes: notes@.map_values(|n: ReceivedNote| n@),
        };
        if blocks.len() as u64 > u32::MAX as u64 + 1 - start_height.0 as u64 {
            return None;
        }
        let tip: i64 = start_height.0 as i64 + blocks.len() as i64 - 1;
        let mut i: usize = 0;
        while i < blocks.len()
            invariant
                i <= blocks.len(),
                tip == view.tip(),
                tip <= u32::MAX,
                view.blocks == blocks@.map_values(|b: ScannedBlock| b@),
                view.start_height == start_height.0,
                forall|k: int|
                    0 <= k < i ==> (#[trigger] view.blocks[k]).height == start_height.0 + k
                        && view.blocks[k].tree_size <= TREE_CAPACITY,
            decreases blocks.len() - i,
        {
            if blocks[i].height.0 as u64 != start_height.0 as u64 + i as u64 || blocks[i].tree_size
                > TREE_CAPACITY {
                assert(view.blocks[i as int] == blocks[i as int]@);
                return None;
            }
            assert(view.blocks[i as int] == blocks[i as int]@);
            i += 1;
        }
        let mut j: usize = 0;
        while j < notes.len()
            invariant
                j <= notes.len(),
                tip == view.tip(),
                view.notes == notes@.map_values(|n: ReceivedNote| n@),
                view.blocks == blocks@.map_values(|b: ScannedBlock| b@),
                view.start_height == start_height.0,
                view.tip() <= u32::MAX,
                forall|k: int|
                    0 <= k < view.blocks.len() ==> (#[trigger] view.blocks[k]).height
                        == start_height.0 + k && view.blocks[k].tree_size <= TREE_CAPACITY,
                notes_within(view.notes.take(j as int), start_height.0 as int, tip as int),
            decreases notes.len() - j,
        {
            let note = &notes[j];
            assert(view.notes[j as int] == note@);
            let found_ok = start_height.0 <= note.height.0 && note.height.0 as i64 <= tip;
            let spent_ok = match note.spent {
                Some((h, _)) => note.height.0 <= h.0 && h.0 as i64 <= tip,
                None => true,
            };
            if !found_ok || !spent_ok {
                proof {
                    let n = view.notes[j as int];
                    assert(n.height == note.height.0);
                    assert(n.spent is Some == note.spent is Some);
                    if note.spent is Some {
                        assert(n.spent->Some_0.0 == note.spent->Some_0.0.0);
                    }
                    assert(!notes_within(view.notes, start_height.0 as int, tip as int));
                }
                return None;
            }
            proof {
                let longer = view.notes.take(j + 1);
                assert forall|k: int| 0 <= k < longer.len() implies {
                    &&& start_height.0 <= (#[trigger] longer[k]).height <= tip
                    &&& match longer[k].spent {
                        Some((h, _)) => longer[k].height <= h <= tip,
                        None => true,
                    }
                } by {
                    if k < j {
                        assert(view.notes.take(j as int)[k] == longer[k]);
                    }
                }
            }
            j += 1;
        }
        assert(view.notes.take(j as int) =~= view.notes);
        Some(WalletDb { start_height, blocks, notes })
    }

    /// Whether the wallet has scanned nothing.
    pub fn is_empty(&self) -> (r: bool)
        ensures
            r == (self@.blocks.len() == 0),
    {
        self.blocks.len() == 0
    }

    /// The height of the first block that the wallet scans.
    pub fn start_height(&self) -> (r: BlockHeight)
        ensures
            r.0 == self@.start_height,
    {
        self.start_height
    }

    /// The highest scanned block: its height and its hash. None where the
    /// wallet has scanned nothing.
    pub fn get_max_height_hash(&self) -> (r: Option<(BlockHeight, BlockHash)>)
        ensures
            self@.blocks.len() == 0 ==> r is None,
            self@.blocks.len() > 0 ==> r is Some && r->Some_0.0.0 == self@.blocks.last().height
                && r->Some_0.1.0@ == self@.blocks.last().hash,
    {
        if self.blocks.len() == 0 {
            None
        } else {
            let last = &self.blocks[self.blocks.len() - 1];
            assert(self@.blocks.last() == last@);
            Some((last.height, last.hash))
        }
    }

    /// The notes of the wallet, in the order in which they were found.
    pub fn notes(&self) -> (r: &Vec<ReceivedNote>)
        ensures
            r@.map_values(|n: ReceivedNote| n@) == self@.notes,
    {
        &self.notes
    }

    /// The scanned blocks, lowest first.
    pub fn blocks(&self) -> (r: &Vec<ScannedBlock>)
        ensures
            r@.map_values(|b: ScannedBlock| b@) == self@.blocks,
    {
        &self.blocks
    }

    /// The number of note commitments up to the last scanned block.
    pub fn tree_size(&self) -> (r: u64)
        ensures
            r == self@.tree_size(),
    {
        if self.blocks.len() == 0 {
            0
        } else {
            let last = &self.blocks[self.blocks.len() - 1];
            assert(self@.blocks.last() == last@);
            last.tree_size
        }
    }

    /// Records a note.
    pub(crate) fn append_note(&mut self, note: ReceivedNote)
        ensures
            final(self)@ == (WalletView { notes: old(self)@.notes.push(note@), ..old(self)@ }),
    {
        self.notes.push(note);
        assert(self@.notes =~= old(self)@.notes.push(note@));
    }

    /// Records a scanned block.
    pub(crate) fn append_block(&mut self, block: ScannedBlock)
        ensures
            final(self)@ == (WalletView { blocks: old(self)@.blocks.push(block@), ..old(self)@ }),
    {
        self.blocks.push(block);
        assert(self@.blocks =~= old(self)@.blocks.push(block@));
    }

    /// Records a spend that reveals `nf`.
    pub(crate) fn spend_notes(&mut self, nf: &[u8], height: BlockHeight, txid: TxId)
        ensures
            final(self)@ == (WalletView {
                notes: mark_spent(old(self)@.notes, nf@, height.0, txid.0@),
                ..old(self)@
            }),
    {
        let ghost before = self@.notes;
        let ghost after = mark_spent(before, nf@, height.0, txid.0@);
        let mut i: usize = 0;
        while i < self.notes.len()
            invariant
                i <= self.notes.len(),
                self.notes.len() == before.len(),
                self.start_height == old(self).start_height,
                self.blocks == old(self).blocks,
                after == mark_spent(before, nf@, height.0, txid.0@),
                forall|j: int| 0 <= j < i ==> self@.notes[j] == after[j],
                forall|j: int| i <= j < before.len() ==> self@.notes[j] == before[j],
            decreases self.notes.len() - i,
        {
            let note = self.notes[i];
            assert(note@ == before[i as int]);
            if note.spent.is_none() && bytes_eq(nf, note.nf.0.as_slice()) {
                let marked = ReceivedNote { spent: Some((height, txid)), ..note };
                self.notes.set(i, marked);
            }
            i += 1;
        }
        assert(self@.notes =~= after);
    }

    /// Rewinds the wallet to `target_height`: every note found above that
    /// height is forgotten, every note spent above it is unspent again, and
    /// the scanned blocks above it are forgotten. A target at or above the
    /// highest scanned block changes nothing. A target that the policy does
    /// not allow is refused, with the lowest height that any rewind may reach
    /// and the height that was asked for, and changes nothing.
    pub fn rewind_to_height(&mut self, target_height: BlockHeight, policy: &RewindPolicy) -> (r:
        Result<(), SqliteClientError>)
        requires
            old(self).wf(),
        ensures
            final(self).wf(),
            target_height.0 >= old(self)@.tip() ==> r is Ok && final(self)@ == old(self)@,
            target_height.0 < old(self)@.tip() && policy.allows(
                old(self)@.tip(),
                target_height.0 as int,
            ) ==> r is Ok && final(self)@ == rewound(old(self)@, target_height.0 as int),
            target_height.0 < old(self)@.tip() && !policy.allows(
                old(self)@.tip(),
                target_height.0 as int,
            ) ==> r is Err && final(self)@ == old(self)@ && r->Err_0@
                == SqliteClientErrorView::RequestedRewindInvalid(
                BlockHeight((old(self)@.tip() - policy.pruning_depth) as u32),
                target_height,
            ),
    {
        let tip: i64 = self.start_height.0 as i64 + self.blocks.len() as i64 - 1;
        if target_height.0 as i64 >= tip {
            return Ok(());
        }
        let named = match policy.stable_checkpoint {
            Some(h) => h.0 == target_height.0,
            None => false,
        };
        if (target_height.0 as i64) < tip - policy.pruning_depth as i64 && !named {
            return Err(
                SqliteClientError::RequestedRewindInvalid(
                    BlockHeight((tip - policy.pruning_depth as i64) as u32),
                    target_height,
                ),
            );
        }
        let target: u32 = target_height.0;
        let mut blocks: Vec<ScannedBlock> = Vec::new();
        let mut i: usize = 0;
        assert(self@.blocks.take(0) =~= Seq::empty());
        while i < self.blocks.len()
            invariant
                i <= self.blocks.len(),
                blocks@.map_values(|b: ScannedBlock| b@) == retained_blocks(
                    self@.blocks.take(i as int),
                    target as int,
                ),
            decreases self.blocks.len() - i,
        {
            let block = self.blocks[i];
            proof {
                assert(self@.blocks.take(i + 1).drop_last() =~= self@.blocks.take(i as int));
                assert(self@.blocks.take(i + 1).last() == block@);
            }
            if block.height.0 <= target {
                let ghost prior = blocks@.map_values(|b: ScannedBlock| b@);
                blocks.push(block);
                assert(blocks@.map_values(|b: ScannedBlock| b@) =~= prior.push(block@));
            }
            i += 1;
        }
        assert(self@.blocks.take(i as int) =~= self@.blocks);
        let mut notes: Vec<ReceivedNote> = Vec::new();
        let mut j: usize = 0;
        assert(self@.notes.take(0) =~= Seq::empty());
        while j < self.notes.len()
            invariant
                j <= self.notes.len(),
                notes@.map_values(|n: ReceivedNote| n@) == retained_notes(
                    self@.notes.take(j as int),
                    target as int,
                ),
            decreases self.notes.len() - j,
        {
            let note = self.notes[j];
            proof {
                assert(self@.notes.take(j + 1).drop_last() =~= self@.notes.take(j as int));
                assert(self@.notes.take(j + 1).last() == note@);
            }
            if note.height.0 <= target {
                let spent_above = match note.spent {
                    Some((h, _)) => h.0 > target,
                    None => false,
                };
                let kept = if spent_above {
                    ReceivedNote { spent: None, ..note }
                } else {
                    note
                };
                let ghost prior = notes@.map_values(|n: ReceivedNote| n@);
                notes.push(kept);
                assert(notes@.map_values(|n: ReceivedNote| n@) =~= prior.push(kept@));
            }
            j += 1;
        }
        assert(self@.notes.take(j as int) =~= self@.notes);
        proof {
            lemma_rewound_wf(self@, target as int);
        }
        self.blocks = blocks;
        self.notes = notes;
        Ok(())
    }

    /// The balance of `account`: the sum of the values of its unspent notes.
    /// A sum above the largest amount is reported as corrupted data.
    pub fn get_balance(&self, account: AccountId) -> (r: Result<Amount, SqliteClientError>)
        ensures
            balance_of(self@.notes, account) <= MAX_MONEY ==> r is Ok && r->Ok_0@ == balance_of(
                self@.notes,
                account,
            ),
            balance_of(self@.notes, account) > MAX_MONEY ==> r is Err && r->Err_0@
                == SqliteClientErrorView::CorruptedData(balance_out_of_range_text()),
    {
        let mut sum: u64 = 0;
        let mut i: usize = 0;
        let mut overflow = false;
        assert(self@.notes.take(0) =~= Seq::empty());
        while i < self.notes.len() && !overflow
            invariant
                i <= self.notes.len(),
                !overflow ==> sum == balance_of(self@.notes.take(i as int), account) && sum
                    <= MAX_MONEY,
                overflow ==> balance_of(self@.notes.take(i as int), account) > MAX_MONEY,
            decreases self.notes.len() - i + if overflow { 0int } else { 1int },
        {
            let note = &self.notes[i];
            proof {
                assert(self@.notes.take(i + 1).drop_last() =~= self@.notes.take(i as int));
                assert(self@.notes.take(i + 1).last() == note@);
            }
            if note.account.0 == account.0 && note.spent.is_none() {
                if note.value > MAX_MONEY as u64 - sum {
                    overflow = true;
                } else {
                    sum = sum + note.value;
                }
            }
            i += 1;
        }
        proof {
            lemma_balance_monotonic(self@.notes, i as int, account);
        }
        if overflow {
            Err(
                SqliteClientError::CorruptedData(
                    String::from_str("Sum of values in received_notes is out of range"),
                ),
            )
        } else {
            assert(self@.notes.take(i as int) =~= self@.notes);
            match Amount::from_u64(sum) {
                Ok(a) => Ok(a),
                Err(_) => Err(
                    SqliteClientError::CorruptedData(
                        String::from_str("Sum of values in received_notes is out of range"),
                    ),
                ),
            }
        }
    }
}

/// The balance over a prefix of the notes is no more than the balance over all of them.
pub proof fn lemma_balance_monotonic(notes: Seq<NoteView>, k: int, account: AccountId)
    requires
        0 <= k <= notes.len(),
    ensures
        balance_of(notes.take(k), account) <= balance_of(notes, account),
    decreases notes.len(),
{
    if k == notes.len() {
        assert(notes.take(k) =~= notes);
    } else {
        lemma_balance_monotonic(notes.drop_last(), k, account);
        assert(notes.drop_last().take(k) =~= notes.take(k));
    }
}

/// Of blocks whose heights follow each other from `start`, a rewind keeps the
/// ones at `target` or below, which are the first of them.
pub proof fn lemma_retained_blocks(blocks: Seq<ScannedBlockView>, start: int, target: int)
    requires
        forall|i: int| 0 <= i < blocks.len() ==> (#[trigger] blocks[i]).height == start + i,
    ensures
        retained_blocks(blocks, target) == blocks.take(
            if target < start {
                0
            } else if target - start + 1 < blocks.len() {
                target - start + 1
            } else {
                blocks.len() as int
            },
        ),
    decreases blocks.len(),
{
    let k = if target < start {
        0
    } else if target - start + 1 < blocks.len() {
        target - start + 1
    } else {
        blocks.len() as int
    };
    if blocks.len() == 0 {
        assert(blocks.take(k) =~= Seq::empty());
    } else {
        let shorter = blocks.drop_last();
        assert forall|i: int| 0 <= i < shorter.len() implies (#[trigger] shorter[i]).height == start
            + i by {
            assert(shorter[i] == blocks[i]);
        }
        lemma_retained_blocks(shorter, start, target);
        if blocks.last().height > target {
            assert(shorter.take(k) =~= blocks.take(k));
        } else {
            assert(shorter.take(shorter.len() as int) =~= shorter);
            assert(shorter.push(blocks.last()) =~= blocks);
            assert(blocks.take(k) =~= blocks);
        }
    }
}

/// Every note that a rewind keeps is one of the notes, found at `target` or
/// below and unspent if it was spent above `target`.
pub proof fn lemma_retained_notes(notes: Seq<NoteView>, target: int, i: int) -> (j: int)
    requires
        0 <= i < retained_notes(notes, target).len(),
    ensures
        0 <= j < notes.len(),
        notes[j].height <= target,
        retained_notes(notes, target)[i] == unspent_above(notes[j], target),
    decreases notes.len(),
{
    if notes.last().height > target {
        lemma_retained_notes(notes.drop_last(), target, i)
    } else if i == retained_notes(notes, target).len() - 1 {
        notes.len() - 1
    } else {
        lemma_retained_notes(notes.drop_last(), target, i)
    }
}

/// A rewind keeps the invariant of the wallet.
pub proof fn lemma_rewound_wf(w: WalletView, target: int)
    requires
        w.wf(),
        0 <= target,
    ensures
        rewound(w, target).wf(),
        rewound(w, target).tip() == if target < w.tip() {
            if target < w.start_height {
                w.start_height - 1
            } else {
                target
            }
        } else {
            w.tip()
        },
{
    lemma_retained_blocks(w.blocks, w.start_height as int, target);
    let r = rewound(w, target);
    assert forall|i: int| 0 <= i < r.notes.len() implies {
        &&& r.start_height <= (#[trigger] r.notes[i]).height <= r.tip()
        &&& match r.notes[i].spent {
            Some((h, _)) => r.notes[i].height <= h <= r.tip(),
            None => true,
        }
    } by {
        let j = lemma_retained_notes(w.notes, target, i);
        assert(w.start_height <= w.notes[j].height <= w.tip());
    }
}

} // verus!
