//! Scanning: the blocks of the cache are read in the order of their heights,
//! and what they hold for the wallet is recorded block by block.

use vstd::prelude::*;
use crate::chain::{
    ascending, failure, rows_from, traversal, with_blocks, with_blocks_from_start, BlockSource,
    BlockVisitor,
};
use crate::error::{
    malformed_block_text, ChainErrorView, ChainInvalid, SqliteClientError, SqliteClientErrorView,
};
use crate::primitives::{bytes_eq, AccountId, BlockHeight, Nullifier};
use crate::proto::{
    CompactBlock, CompactBlockView, CompactOutputView, CompactSaplingOutput, CompactSpendView,
    CompactTx, CompactTxView,
};
use crate::wallet::{
    balance_of, lemma_retained_blocks, mark_spent, notes_within, retained_notes, rewound,
    NoteView, ReceivedNote, ScannedBlock, ScannedBlockView, WalletDb, WalletView, TREE_CAPACITY,
};
use crate::chain::{row_outcome, StoredRow};
use vstd::string::*;

verus! {

/// What the wallet learns of an output that belongs to it.
#[derive(Clone, Copy, Debug, PartialEq, Eq)]
pub struct DecryptedNote {
    /// The account that the output belongs to.
    pub account: AccountId,
    /// The value of the note.
    pub value: u64,
    /// The nullifier that a spend of the note will reveal.
    pub nf: Nullifier,
}

/// The trial decryption of outputs with the viewing keys of the wallet's
/// accounts. What it finds is a function of the output and of the position of
/// its note commitment alone.
pub trait NoteDecryptor {
    /// The note in `output`, if `output` belongs to one of the accounts.
    spec fn decrypted(&self, output: CompactOutputView, position: u64) -> Option<DecryptedNote>;

    fn try_decrypt(&self, output: &CompactSaplingOutput, position: u64) -> (r: Option<
        DecryptedNote,
    >)
        ensures
            r == self.decrypted(output@, position),
    ;
}

/// The notes after the spends of a transaction, taken in their order.
pub open spec fn apply_spends(
    notes: Seq<NoteView>,
    spends: Seq<CompactSpendView>,
    height: u32,
    txid: Seq<u8>,
) -> Seq<NoteView>
    decreases spends.len(),
{
    if spends.len() == 0 {
        notes
    } else {
        mark_spent(
            apply_spends(notes, spends.drop_last(), height, txid),
            spends.last().nf,
            height,
            txid,
        )
    }
}

/// The notes after the outputs of a transaction, taken in their order: each
/// output that belongs to the wallet adds a note, at the position of the
/// output among all note commitments.
pub open spec fn add_outputs<D: NoteDecryptor>(
    oracle: D,
    notes: Seq<NoteView>,
    outputs: Seq<CompactOutputView>,
    first_position: int,
    height: u32,
    txid: Seq<u8>,
) -> Seq<NoteView>
    decreases outputs.len(),
{
    if outputs.len() == 0 {
        notes
    } else {
        let prior = add_outputs(oracle, notes, outputs.drop_last(), first_position, height, txid);
        let position = (first_position + outputs.len() - 1) as u64;
        match oracle.decrypted(outputs.last(), position) {
            Some(found) => prior.push(
                NoteView {
                    account: found.account,
                    value: found.value,
                    nf: found.nf.0@,
                    position,
                    height,
                    txid,
                    spent: None,
                },
            ),
            None => prior,
        }
    }
}

/// The number of outputs in the transactions.
pub open spec fn output_count(txs: Seq<CompactTxView>) -> nat
    decreases txs.len(),
{
    if txs.len() == 0 {
        0
    } else {
        output_count(txs.drop_last()) + txs.last().outputs.len()
    }
}

/// The notes after a transaction: first its spends, then its outputs.
pub open spec fn scan_tx<D: NoteDecryptor>(
    oracle: D,
    notes: Seq<NoteView>,
    tx: CompactTxView,
    first_position: int,
    height: u32,
) -> Seq<NoteView> {
    add_outputs(
        oracle,
        apply_spends(notes, tx.spends, height, tx.hash),
        tx.outputs,
        first_position,
        height,
        tx.hash,
    )
}

/// The notes after the transactions of a block, taken in their order.
pub open spec fn scan_txs<D: NoteDecryptor>(
    oracle: D,
    notes: Seq<NoteView>,
    txs: Seq<CompactTxView>,
    first_position: int,
    height: u32,
) -> Seq<NoteView>
    decreases txs.len(),
{
    if txs.len() == 0 {
        notes
    } else {
        scan_tx(
            oracle,
            scan_txs(oracle, notes, txs.drop_last(), first_position, height),
            txs.last(),
            first_position + output_count(txs.drop_last()),
            height,
        )
    }
}

/// The wallet after `block` was scanned.
pub open spec fn scanned<D: NoteDecryptor>(oracle: D, w: WalletView, block: CompactBlockView) -> WalletView {
    WalletView {
        start_height: w.start_height,
        blocks: w.blocks.push(
            ScannedBlockView {
                height: block.height as u32,
                hash: block.block_hash(),
                tree_size: (w.tree_size() + output_count(block.vtx)) as u64,
            },
        ),
        notes: scan_txs(oracle, w.notes, block.vtx, w.tree_size() as int, block.height as u32),
    }
}

/// The height that is reported for a block that does not follow the last one.
pub open spec fn reported_height(next: int) -> BlockHeight {
    if next > u32::MAX {
        BlockHeight(u32::MAX)
    } else {
        BlockHeight(next as u32)
    }
}

/// The text of a block whose outputs the chain has no room for.
pub open spec fn tree_full_text() -> Seq<char> {
    "Note commitment tree is full"@
}

/// Why `block` cannot be scanned next, if it cannot: its height must be one
/// above the last scanned height, its hashes and identifiers must have their
/// sizes, and the chain must have room for its outputs.
pub open spec fn scan_refusal(w: WalletView, block: CompactBlockView) -> Option<
    SqliteClientErrorView,
> {
    if block.height != w.tip() + 1 {
        Some(
            SqliteClientErrorView::BackendError(
                ChainErrorView::InvalidChain(
                    reported_height(w.tip() + 1),
                    ChainInvalid::BlockHeightDiscontinuity(BlockHeight(block.height as u32)),
                ),
            ),
        )
    } else if !block.well_formed() {
        Some(SqliteClientErrorView::CorruptedData(malformed_block_text(block.height)))
    } else if w.tree_size() + output_count(block.vtx) > TREE_CAPACITY {
        Some(SqliteClientErrorView::CorruptedData(tree_full_text()))
    } else {
        None
    }
}

/// One step of a scan: a block that cannot be scanned next leaves the wallet
/// as it is and ends the scan with its error; any other block is recorded.
pub open spec fn scan_step<D: NoteDecryptor>(oracle: D, w: WalletView, block: CompactBlockView) -> (
    WalletView,
    Option<SqliteClientErrorView>,
) {
    match scan_refusal(w, block) {
        Some(e) => (w, Some(e)),
        None => (scanned(oracle, w, block), None),
    }
}

/// Spends at the height `tip` keep every note within `start` and `tip`.
pub proof fn lemma_apply_spends_within(
    notes: Seq<NoteView>,
    spends: Seq<CompactSpendView>,
    txid: Seq<u8>,
    start: int,
    tip: int,
)
    requires
        notes_within(notes, start, tip),
        0 <= tip <= u32::MAX,
    ensures
        notes_within(apply_spends(notes, spends, tip as u32, txid), start, tip),
        apply_spends(notes, spends, tip as u32, txid).len() == notes.len(),
    decreases spends.len(),
{
    if spends.len() > 0 {
        lemma_apply_spends_within(notes, spends.drop_last(), txid, start, tip);
    }
}

/// Outputs at the height `tip` keep every note within `start` and `tip`.
pub proof fn lemma_add_outputs_within<D: NoteDecryptor>(
    oracle: D,
    notes: Seq<NoteView>,
    outputs: Seq<CompactOutputView>,
    first_position: int,
    txid: Seq<u8>,
    start: int,
    tip: int,
)
    requires
        notes_within(notes, start, tip),
        0 <= start <= tip <= u32::MAX,
    ensures
        notes_within(add_outputs(oracle, notes, outputs, first_position, tip as u32, txid), start, tip),
    decreases outputs.len(),
{
    if outputs.len() > 0 {
        lemma_add_outputs_within(oracle, notes, outputs.drop_last(), first_position, txid, start, tip);
    }
}

/// Transactions at the height `tip` keep every note within `start` and `tip`.
pub proof fn lemma_scan_txs_within<D: NoteDecryptor>(
    oracle: D,
    notes: Seq<NoteView>,
    txs: Seq<CompactTxView>,
    first_position: int,
    start: int,
    tip: int,
)
    requires
        notes_within(notes, start, tip),
        0 <= start <= tip <= u32::MAX,
    ensures
        notes_within(scan_txs(oracle, notes, txs, first_position, tip as u32), start, tip),
    decreases txs.len(),
{
    if txs.len() > 0 {
        lemma_scan_txs_within(oracle, notes, txs.drop_last(), first_position, start, tip);
        let prior = scan_txs(oracle, notes, txs.drop_last(), first_position, tip as u32);
        lemma_apply_spends_within(prior, txs.last().spends, txs.last().hash, start, tip);
        lemma_add_outputs_within(
            oracle,
            apply_spends(prior, txs.last().spends, tip as u32, txs.last().hash),
            txs.last().outputs,
            first_position + output_count(txs.drop_last()),
            txs.last().hash,
            start,
            tip,
        );
    }
}

/// A scanned block keeps the invariant of the wallet and moves its highest
/// scanned height up by one.
pub proof fn lemma_scanned_wf<D: NoteDecryptor>(oracle: D, w: WalletView, block: CompactBlockView)
    requires
        w.wf(),
        scan_refusal(w, block) is None,
    ensures
        scanned(oracle, w, block).wf(),
        scanned(oracle, w, block).tip() == w.tip() + 1,
        scanned(oracle, w, block).blocks.last().height == block.height,
{
    let tip = w.tip() + 1;
    lemma_scan_txs_within(oracle, w.notes, block.vtx, w.tree_size() as int, w.start_height as int, tip);
}

/// The outputs of the first transactions are no more than the outputs of all of them.
pub proof fn lemma_output_count_monotonic(txs: Seq<CompactTxView>, k: int)
    requires
        0 <= k <= txs.len(),
    ensures
        output_count(txs.take(k)) <= output_count(txs),
    decreases txs.len(),
{
    if k == txs.len() {
        assert(txs.take(k) =~= txs);
    } else {
        lemma_output_count_monotonic(txs.drop_last(), k);
        assert(txs.drop_last().take(k) =~= txs.take(k));
    }
}

/// Counts the outputs of a block, as far as `room` reaches.
pub(crate) fn count_outputs(block: &CompactBlock, room: u64) -> (r: Option<u64>)
    ensures
        output_count(block@.vtx) <= room ==> r == Some(output_count(block@.vtx) as u64),
        output_count(block@.vtx) > room ==> r is None,
{
    let mut total: u64 = 0;
    let mut t: usize = 0;
    assert(block@.vtx.take(0) =~= Seq::empty());
    while t < block.vtx.len()
        invariant
            t <= block.vtx.len(),
            total == output_count(block@.vtx.take(t as int)),
            total <= room,
        decreases block.vtx.len() - t,
    {
        let n = block.vtx[t].outputs.len();
        proof {
            assert(block@.vtx.take(t + 1).drop_last() =~= block@.vtx.take(t as int));
            assert(block@.vtx.take(t + 1).last() == block.vtx[t as int]@);
            lemma_output_count_monotonic(block@.vtx, t + 1);
        }
        if n as u64 > room - total {
            return None;
        }
        total = total + n as u64;
        t += 1;
    }
    assert(block@.vtx.take(t as int) =~= block@.vtx);
    Some(total)
}

/// Records the spends and the outputs of one transaction.
fn scan_transaction<D: NoteDecryptor>(
    wallet: &mut WalletDb,
    oracle: &D,
    tx: &CompactTx,
    first_position: u64,
    height: BlockHeight,
)
    requires
        tx@.hash.len() == 32,
        first_position + tx@.outputs.len() <= TREE_CAPACITY,
    ensures
        final(wallet)@ == (WalletView {
            notes: scan_tx(*oracle, old(wallet)@.notes, tx@, first_position as int, height.0),
            ..old(wallet)@
        }),
{
    let txid = tx.txid();
    let mut s: usize = 0;
    assert(tx@.spends.take(0) =~= Seq::empty());
    while s < tx.spends.len()
        invariant
            s <= tx.spends.len(),
            txid.0@ == tx@.hash,
            wallet@ == (WalletView {
                notes: apply_spends(
                    old(wallet)@.notes,
                    tx@.spends.take(s as int),
                    height.0,
                    tx@.hash,
                ),
                ..old(wallet)@
            }),
        decreases tx.spends.len() - s,
    {
        proof {
            assert(tx@.spends.take(s + 1).drop_last() =~= tx@.spends.take(s as int));
            assert(tx@.spends.take(s + 1).last() == tx.spends[s as int]@);
        }
        wallet.spend_notes(tx.spends[s].nf.as_slice(), height, txid);
        s += 1;
    }
    assert(tx@.spends.take(s as int) =~= tx@.spends);
    let ghost spent = wallet@.notes;
    let mut o: usize = 0;
    assert(tx@.outputs.take(0) =~= Seq::empty());
    while o < tx.outputs.len()
        invariant
            o <= tx.outputs.len(),
            txid.0@ == tx@.hash,
            first_position + tx@.outputs.len() <= TREE_CAPACITY,
            spent == apply_spends(old(wallet)@.notes, tx@.spends, height.0, tx@.hash),
            wallet@ == (WalletView {
                notes: add_outputs(
                    *oracle,
                    spent,
                    tx@.outputs.take(o as int),
                    first_position as int,
                    height.0,
                    tx@.hash,
                ),
                ..old(wallet)@
            }),
        decreases tx.outputs.len() - o,
    {
        proof {
            assert(tx@.outputs.take(o + 1).drop_last() =~= tx@.outputs.take(o as int));
            assert(tx@.outputs.take(o + 1).last() == tx.outputs[o as int]@);
        }
        let position: u64 = first_position + o as u64;
        match oracle.try_decrypt(&tx.outputs[o], position) {
            Some(found) => {
                wallet.append_note(
                    ReceivedNote {
                        account: found.account,
                        value: found.value,
                        nf: found.nf,
                        position,
                        height,
                        txid,
                        spent: None,
                    },
                );
            },
            None => {},
        }
        o += 1;
    }
    assert(tx@.outputs.take(o as int) =~= tx@.outputs);
}

/// Scans one block into the wallet: a block that cannot be scanned next is
/// refused and leaves the wallet as it is; any other block is recorded whole.
pub fn scan_block<D: NoteDecryptor>(wallet: &mut WalletDb, oracle: &D, block: &CompactBlock) -> (r:
    Result<(), SqliteClientError>)
    requires
        old(wallet).wf(),
        block@.height <= u32::MAX,
    ensures
        final(wallet).wf(),
        final(wallet)@ == scan_step(*oracle, old(wallet)@, block@).0,
        failure(r) == scan_step(*oracle, old(wallet)@, block@).1,
{
    let next: u64 = match wallet.get_max_height_hash() {
        Some((tip, _)) => tip.0 as u64 + 1,
        None => wallet.start_height().0 as u64,
    };
    let height = BlockHeight(block.height as u32);
    if block.height != next {
        let at = if next > u32::MAX as u64 {
            BlockHeight(u32::MAX)
        } else {
            BlockHeight(next as u32)
        };
        return Err(
            SqliteClientError::BackendError(ChainInvalid::block_height_discontinuity(at, height)),
        );
    }
    if !block.is_well_formed() {
        return Err(SqliteClientError::malformed_block(block.height));
    }
    let tree_size = wallet.tree_size();
    assert(tree_size <= TREE_CAPACITY) by {
        if wallet@.blocks.len() > 0 {
            assert(wallet@.blocks[wallet@.blocks.len() - 1].tree_size <= TREE_CAPACITY);
        }
    }
    let added = match count_outputs(block, TREE_CAPACITY - tree_size) {
        Some(n) => n,
        None => {
            return Err(
                SqliteClientError::CorruptedData(String::from_str("Note commitment tree is full")),
            );
        },
    };
    let mut position: u64 = tree_size;
    let mut t: usize = 0;
    assert(block@.vtx.take(0) =~= Seq::empty());
    while t < block.vtx.len()
        invariant
            t <= block.vtx.len(),
            block@.well_formed(),
            tree_size + output_count(block@.vtx) <= TREE_CAPACITY,
            position == tree_size + output_count(block@.vtx.take(t as int)),
            wallet@ == (WalletView {
                notes: scan_txs(
                    *oracle,
                    old(wallet)@.notes,
                    block@.vtx.take(t as int),
                    tree_size as int,
                    height.0,
                ),
                ..old(wallet)@
            }),
        decreases block.vtx.len() - t,
    {
        let tx = &block.vtx[t];
        proof {
            assert(block@.vtx.take(t + 1).drop_last() =~= block@.vtx.take(t as int));
            assert(block@.vtx.take(t + 1).last() == tx@);
            assert(block@.vtx[t as int] == tx@);
            lemma_output_count_monotonic(block@.vtx, t + 1);
        }
        scan_transaction(wallet, oracle, tx, position, height);
        position = position + tx.outputs.len() as u64;
        t += 1;
    }
    assert(block@.vtx.take(t as int) =~= block@.vtx);
    let hash = block.hash();
    wallet.append_block(ScannedBlock { height, hash, tree_size: position });
    proof {
        assert(wallet@ == scanned(*oracle, old(wallet)@, block@));
        lemma_scanned_wf(*oracle, old(wallet)@, block@);
    }
    Ok(())
}

/// The visitor of a scan: it holds the wallet while the cache is traversed.
pub struct Scanner<'a, D: NoteDecryptor> {
    wallet: WalletDb,
    oracle: &'a D,
}

impl<'a, D: NoteDecryptor> BlockVisitor for Scanner<'a, D> {
    type Context = D;

    type State = WalletView;

    closed spec fn context(&self) -> D {
        *self.oracle
    }

    closed spec fn state(&self) -> WalletView {
        self.wallet@
    }

    closed spec fn inv(&self) -> bool {
        self.wallet.wf()
    }

    open spec fn step(context: D, state: WalletView, block: CompactBlockView) -> (
        WalletView,
        Option<SqliteClientErrorView>,
    ) {
        scan_step(context, state, block)
    }

    fn visit(&mut self, block: CompactBlock) -> (r: Result<(), SqliteClientError>) {
        scan_block(&mut self.wallet, self.oracle, &block)
    }
}

/// What a scan of `rows` makes of the wallet `w`, and the error that ends it,
/// if one does.
pub open spec fn scan_all<D: NoteDecryptor>(oracle: D, w: WalletView, rows: Seq<StoredRow>) -> (
    WalletView,
    Option<SqliteClientErrorView>,
) {
    traversal::<Scanner<D>>(oracle, w, rows)
}

/// Scans the blocks of the cache that lie above the highest scanned block of
/// the wallet, lowest first, and at most `limit` of them where there is a
/// limit. Each block must follow the one before it in height; the first that
/// does not, or that cannot be read, ends the scan with its error, and the
/// wallet keeps what the blocks before it gave.
pub fn scan_cached_blocks<S: BlockSource, D: NoteDecryptor>(
    cache: &S,
    wallet: &mut WalletDb,
    oracle: &D,
    limit: Option<u32>,
) -> (r: Result<(), SqliteClientError>)
    requires
        ascending(cache.rows()),
        old(wallet).wf(),
    ensures
        final(wallet).wf(),
        (final(wallet)@, failure(r)) == scan_all(
            *oracle,
            old(wallet)@,
            rows_from(cache.rows(), old(wallet)@.tip() + 1, limit),
        ),
{
    let start = wallet.start_height();
    let last = match wallet.get_max_height_hash() {
        Some((tip, _)) => Some(tip),
        None => if start.0 == 0 {
            None
        } else {
            Some(BlockHeight(start.0 - 1))
        },
    };
    let mut scanner = Scanner { wallet: WalletDb::new(start), oracle };
    core::mem::swap(wallet, &mut scanner.wallet);
    let r = match last {
        Some(h) => with_blocks(cache, h, limit, &mut scanner),
        None => with_blocks_from_start(cache, limit, &mut scanner),
    };
    core::mem::swap(wallet, &mut scanner.wallet);
    r
}

/// A rewind to a height that no note lies above, and no spend, keeps every note.
pub proof fn lemma_retained_all(notes: Seq<NoteView>, start: int, target: int)
    requires
        notes_within(notes, start, target),
    ensures
        retained_notes(notes, target) == notes,
    decreases notes.len(),
{
    if notes.len() > 0 {
        let shorter = notes.drop_last();
        assert forall|i: int| 0 <= i < shorter.len() implies {
            &&& start <= (#[trigger] shorter[i]).height <= target
            &&& match shorter[i].spent {
                Some((h, _)) => shorter[i].height <= h <= target,
                None => true,
            }
        } by {
            assert(shorter[i] == notes[i]);
        }
        lemma_retained_all(shorter, start, target);
        assert(notes[notes.len() - 1] == notes.last());
        assert(shorter.push(notes.last()) =~= notes);
    } else {
        assert(notes =~= Seq::empty());
    }
}

/// A rewind to the highest scanned height of a wallet changes nothing.
pub proof fn lemma_rewound_identity(w: WalletView)
    requires
        w.wf(),
    ensures
        rewound(w, w.tip()) == w,
{
    lemma_retained_blocks(w.blocks, w.start_height as int, w.tip());
    assert(w.blocks.take(w.blocks.len() as int) =~= w.blocks);
    lemma_retained_all(w.notes, w.start_height as int, w.tip());
}

/// A rewind forgets a spend above its target.
pub proof fn lemma_retained_mark_spent(
    notes: Seq<NoteView>,
    nf: Seq<u8>,
    height: u32,
    txid: Seq<u8>,
    target: int,
)
    requires
        height > target,
    ensures
        retained_notes(mark_spent(notes, nf, height, txid), target) == retained_notes(
            notes,
            target,
        ),
    decreases notes.len(),
{
    let marked = mark_spent(notes, nf, height, txid);
    if notes.len() > 0 {
        assert(marked.drop_last() =~= mark_spent(notes.drop_last(), nf, height, txid));
        lemma_retained_mark_spent(notes.drop_last(), nf, height, txid, target);
    }
}

/// A rewind forgets the spends of a transaction above its target.
pub proof fn lemma_retained_apply_spends(
    notes: Seq<NoteView>,
    spends: Seq<CompactSpendView>,
    height: u32,
    txid: Seq<u8>,
    target: int,
)
    requires
        height > target,
    ensures
        retained_notes(apply_spends(notes, spends, height, txid), target) == retained_notes(
            notes,
            target,
        ),
    decreases spends.len(),
{
    if spends.len() > 0 {
        lemma_retained_apply_spends(notes, spends.drop_last(), height, txid, target);
        lemma_retained_mark_spent(
            apply_spends(notes, spends.drop_last(), height, txid),
            spends.last().nf,
            height,
            txid,
            target,
        );
    }
}

/// A rewind forgets the notes of a transaction above its target.
pub proof fn lemma_retained_add_outputs<D: NoteDecryptor>(
    oracle: D,
    notes: Seq<NoteView>,
    outputs: Seq<CompactOutputView>,
    first_position: int,
    height: u32,
    txid: Seq<u8>,
    target: int,
)
    requires
        height > target,
    ensures
        retained_notes(
            add_outputs(oracle, notes, outputs, first_position, height, txid),
            target,
        ) == retained_notes(notes, target),
    decreases outputs.len(),
{
    if outputs.len() > 0 {
        lemma_retained_add_outputs(
            oracle,
            notes,
            outputs.drop_last(),
            first_position,
            height,
            txid,
            target,
        );
        let prior = add_outputs(oracle, notes, outputs.drop_last(), first_position, height, txid);
        let all = add_outputs(oracle, notes, outputs, first_position, height, txid);
        if all != prior {
            assert(all.drop_last() =~= prior);
        }
    }
}

/// A rewind forgets the transactions of a block above its target.
pub proof fn lemma_retained_scan_txs<D: NoteDecryptor>(
    oracle: D,
    notes: Seq<NoteView>,
    txs: Seq<CompactTxView>,
    first_position: int,
    height: u32,
    target: int,
)
    requires
        height > target,
    ensures
        retained_notes(scan_txs(oracle, notes, txs, first_position, height), target)
            == retained_notes(notes, target),
    decreases txs.len(),
{
    if txs.len() > 0 {
        lemma_retained_scan_txs(oracle, notes, txs.drop_last(), first_position, height, target);
        let prior = scan_txs(oracle, notes, txs.drop_last(), first_position, height);
        lemma_retained_apply_spends(prior, txs.last().spends, height, txs.last().hash, target);
        lemma_retained_add_outputs(
            oracle,
            apply_spends(prior, txs.last().spends, height, txs.last().hash),
            txs.last().outputs,
            first_position + output_count(txs.drop_last()),
            height,
            txs.last().hash,
            target,
        );
    }
}

/// A rewind to a height that the wallet had reached before it scanned a block
/// forgets that block: it gives what it gave before the block was scanned.
pub proof fn lemma_rewound_scanned<D: NoteDecryptor>(
    oracle: D,
    w: WalletView,
    block: CompactBlockView,
    target: int,
)
    requires
        w.wf(),
        scan_refusal(w, block) is None,
        target <= w.tip(),
    ensures
        rewound(scanned(oracle, w, block), target) == rewound(w, target),
{
    let after = scanned(oracle, w, block);
    assert(after.blocks.drop_last() =~= w.blocks);
    lemma_retained_scan_txs(
        oracle,
        w.notes,
        block.vtx,
        w.tree_size() as int,
        block.height as u32,
        target,
    );
}

/// A rewind to a height that the wallet had reached before a scan forgets the
/// scan, where the scan met no error; and the scan keeps the invariant of the wallet.
pub proof fn lemma_rewound_scan<D: NoteDecryptor>(
    oracle: D,
    w: WalletView,
    rows: Seq<StoredRow>,
    target: int,
)
    requires
        w.wf(),
        target <= w.tip(),
        scan_all(oracle, w, rows).1 is None,
    ensures
        scan_all(oracle, w, rows).0.wf(),
        scan_all(oracle, w, rows).0.tip() >= w.tip(),
        rewound(scan_all(oracle, w, rows).0, target) == rewound(w, target),
    decreases rows.len(),
{
    if rows.len() > 0 {
        let block = row_outcome(rows.first())->Ok_0;
        lemma_scanned_wf(oracle, w, block);
        lemma_rewound_scanned(oracle, w, block, target);
        lemma_rewound_scan(oracle, scanned(oracle, w, block), rows.drop_first(), target);
    }
}

/// Scanning is repeatable: where a scan of `rows` met no error, a rewind to
/// the height that the wallet had before the scan gives back the wallet as it
/// was, and a second scan of `rows` gives the same notes, spends and blocks as
/// the first, and hence the same balances.
pub proof fn lemma_scan_rewind_scan<D: NoteDecryptor>(
    oracle: D,
    w: WalletView,
    rows: Seq<StoredRow>,
)
    requires
        w.wf(),
        scan_all(oracle, w, rows).1 is None,
    ensures
        rewound(scan_all(oracle, w, rows).0, w.tip()) == w,
        scan_all(oracle, rewound(scan_all(oracle, w, rows).0, w.tip()), rows) == scan_all(
            oracle,
            w,
            rows,
        ),
{
    lemma_rewound_scan(oracle, w, rows, w.tip());
    lemma_rewound_identity(w);
}

/// A rewind restores the balances: where a scan of `rows` met no error, a
/// rewind to the height that the wallet had before the scan gives every
/// account the balance that it had before the scan.
pub proof fn lemma_rewind_restores_balance<D: NoteDecryptor>(
    oracle: D,
    w: WalletView,
    rows: Seq<StoredRow>,
    account: AccountId,
)
    requires
        w.wf(),
        scan_all(oracle, w, rows).1 is None,
    ensures
        balance_of(rewound(scan_all(oracle, w, rows).0, w.tip()).notes, account) == balance_of(
            w.notes,
            account,
        ),
{
    lemma_scan_rewind_scan(oracle, w, rows);
}

/// A rewind keeps no note that was found above its target.
pub proof fn lemma_retained_none(notes: Seq<NoteView>, target: int)
    requires
        forall|i: int| 0 <= i < notes.len() ==> (#[trigger] notes[i]).height > target,
    ensures
        retained_notes(notes, target) == Seq::<NoteView>::empty(),
    decreases notes.len(),
{
    if notes.len() > 0 {
        let shorter = notes.drop_last();
        assert forall|i: int| 0 <= i < shorter.len() implies (#[trigger] shorter[i]).height
            > target by {
            assert(shorter[i] == notes[i]);
        }
        lemma_retained_none(shorter, target);
        assert(notes[notes.len() - 1].height > target);
    }
}

/// A rewind to a height below the first height of the wallet forgets every
/// block and every note, and leaves every account with a balance of zero.
pub proof fn lemma_rewind_below_start(w: WalletView, target: int, account: AccountId)
    requires
        w.wf(),
        target < w.start_height,
    ensures
        rewound(w, target).blocks == Seq::<ScannedBlockView>::empty(),
        rewound(w, target).notes == Seq::<NoteView>::empty(),
        balance_of(rewound(w, target).notes, account) == 0,
{
    lemma_retained_blocks(w.blocks, w.start_height as int, target);
    assert(w.blocks.take(0) =~= Seq::<ScannedBlockView>::empty());
    lemma_retained_none(w.notes, target);
}

/// The value that a spend that reveals `nf` takes from `account`: the sum of
/// the values of the unspent notes of the account with that nullifier.
pub open spec fn spent_value(notes: Seq<NoteView>, nf: Seq<u8>, account: AccountId) -> nat
    decreases notes.len(),
{
    if notes.len() == 0 {
        0
    } else {
        spent_value(notes.drop_last(), nf, account) + if notes.last().account == account
            && notes.last().spent is None && notes.last().nf == nf {
            notes.last().value as nat
        } else {
            0
        }
    }
}

/// The value that the spends of a transaction, taken in their order, take
/// from `account`.
pub open spec fn spends_value(
    notes: Seq<NoteView>,
    spends: Seq<CompactSpendView>,
    height: u32,
    txid: Seq<u8>,
    account: AccountId,
) -> nat
    decreases spends.len(),
{
    if spends.len() == 0 {
        0
    } else {
        spends_value(notes, spends.drop_last(), height, txid, account) + spent_value(
            apply_spends(notes, spends.drop_last(), height, txid),
            spends.last().nf,
            account,
        )
    }
}

/// The value that the outputs of a transaction give to `account`.
pub open spec fn received_value<D: NoteDecryptor>(
    oracle: D,
    outputs: Seq<CompactOutputView>,
    first_position: int,
    account: AccountId,
) -> nat
    decreases outputs.len(),
{
    if outputs.len() == 0 {
        0
    } else {
        received_value(oracle, outputs.drop_last(), first_position, account) + match oracle.decrypted(
            outputs.last(),
            (first_position + outputs.len() - 1) as u64,
        ) {
            Some(found) => if found.account == account {
                found.value as nat
            } else {
                0
            },
            None => 0,
        }
    }
}

/// What the transactions of a block, taken in their order, add to the
/// balance of `account`: what their outputs give less what their spends take.
pub open spec fn net_value<D: NoteDecryptor>(
    oracle: D,
    notes: Seq<NoteView>,
    txs: Seq<CompactTxView>,
    first_position: int,
    height: u32,
    account: AccountId,
) -> int
    decreases txs.len(),
{
    if txs.len() == 0 {
        0
    } else {
        let before = scan_txs(oracle, notes, txs.drop_last(), first_position, height);
        net_value(oracle, notes, txs.drop_last(), first_position, height, account)
            + received_value(
            oracle,
            txs.last().outputs,
            first_position + output_count(txs.drop_last()),
            account,
        ) - spends_value(before, txs.last().spends, height, txs.last().hash, account)
    }
}

/// A spend takes from the balance of an account the value of the notes that
/// it spends, and nothing else.
pub proof fn lemma_balance_mark_spent(
    notes: Seq<NoteView>,
    nf: Seq<u8>,
    height: u32,
    txid: Seq<u8>,
    account: AccountId,
)
    ensures
        balance_of(mark_spent(notes, nf, height, txid), account) + spent_value(notes, nf, account)
            == balance_of(notes, account),
    decreases notes.len(),
{
    if notes.len() > 0 {
        assert(mark_spent(notes, nf, height, txid).drop_last() =~= mark_spent(
            notes.drop_last(),
            nf,
            height,
            txid,
        ));
        lemma_balance_mark_spent(notes.drop_last(), nf, height, txid, account);
    }
}

/// The spends of a transaction take from the balance of an account the value
/// of the notes that they spend.
pub proof fn lemma_balance_apply_spends(
    notes: Seq<NoteView>,
    spends: Seq<CompactSpendView>,
    height: u32,
    txid: Seq<u8>,
    account: AccountId,
)
    ensures
        balance_of(apply_spends(notes, spends, height, txid), account) + spends_value(
            notes,
            spends,
            height,
            txid,
            account,
        ) == balance_of(notes, account),
    decreases spends.len(),
{
    if spends.len() > 0 {
        lemma_balance_apply_spends(notes, spends.drop_last(), height, txid, account);
        lemma_balance_mark_spent(
            apply_spends(notes, spends.drop_last(), height, txid),
            spends.last().nf,
            height,
            txid,
            account,
        );
    }
}

/// The outputs of a transaction add to the balance of an account the value
/// of the notes that they hold for it.
pub proof fn lemma_balance_add_outputs<D: NoteDecryptor>(
    oracle: D,
    notes: Seq<NoteView>,
    outputs: Seq<CompactOutputView>,
    first_position: int,
    height: u32,
    txid: Seq<u8>,
    account: AccountId,
)
    ensures
        balance_of(add_outputs(oracle, notes, outputs, first_position, height, txid), account)
            == balance_of(notes, account) + received_value(
            oracle,
            outputs,
            first_position,
            account,
        ),
    decreases outputs.len(),
{
    if outputs.len() > 0 {
        lemma_balance_add_outputs(
            oracle,
            notes,
            outputs.drop_last(),
            first_position,
            height,
            txid,
            account,
        );
        let prior = add_outputs(oracle, notes, outputs.drop_last(), first_position, height, txid);
        let all = add_outputs(oracle, notes, outputs, first_position, height, txid);
        if all != prior {
            assert(all.drop_last() =~= prior);
        }
    }
}

/// Balances are kept: the transactions of a block change the balance of an
/// account by what their outputs give it less what their spends take from it.
pub proof fn lemma_balance_scan_txs<D: NoteDecryptor>(
    oracle: D,
    notes: Seq<NoteView>,
    txs: Seq<CompactTxView>,
    first_position: int,
    height: u32,
    account: AccountId,
)
    ensures
        balance_of(scan_txs(oracle, notes, txs, first_position, height), account) == balance_of(
            notes,
            account,
        ) + net_value(oracle, notes, txs, first_position, height, account),
    decreases txs.len(),
{
    if txs.len() > 0 {
        lemma_balance_scan_txs(oracle, notes, txs.drop_last(), first_position, height, account);
        let before = scan_txs(oracle, notes, txs.drop_last(), first_position, height);
        let tx = txs.last();
        lemma_balance_apply_spends(before, tx.spends, height, tx.hash, account);
        lemma_balance_add_outputs(
            oracle,
            apply_spends(before, tx.spends, height, tx.hash),
            tx.outputs,
            first_position + output_count(txs.drop_last()),
            height,
            tx.hash,
            account,
        );
    }
}

/// A scanned block changes the balance of an account by what the outputs of
/// its transactions give it less what their spends take from it.
pub proof fn lemma_balance_scanned<D: NoteDecryptor>(
    oracle: D,
    w: WalletView,
    block: CompactBlockView,
    account: AccountId,
)
    ensures
        balance_of(scanned(oracle, w, block).notes, account) == balance_of(w.notes, account)
            + net_value(
            oracle,
            w.notes,
            block.vtx,
            w.tree_size() as int,
            block.height as u32,
            account,
        ),
{
    lemma_balance_scan_txs(
        oracle,
        w.notes,
        block.vtx,
        w.tree_size() as int,
        block.height as u32,
        account,
    );
}

/// Scanning stops at a gap: where the first row can be scanned and the second
/// does not follow it in height, the scan records the first block, ends with
/// the error that names the missing height and the height that was found, and
/// leaves the wallet at the height of the first block.
pub proof fn lemma_scan_stops_at_gap<D: NoteDecryptor>(
    oracle: D,
    w: WalletView,
    rows: Seq<StoredRow>,
)
    requires
        w.wf(),
        rows.len() >= 2,
        row_outcome(rows[0]) is Ok,
        scan_refusal(w, row_outcome(rows[0])->Ok_0) is None,
        row_outcome(rows[1]) is Ok,
        rows[1].height != rows[0].height + 1,
    ensures
        scan_all(oracle, w, rows).0 == scanned(oracle, w, row_outcome(rows[0])->Ok_0),
        scan_all(oracle, w, rows).0.tip() == rows[0].height,
        scan_all(oracle, w, rows).1 == Some(
            SqliteClientErrorView::BackendError(
                ChainErrorView::InvalidChain(
                    reported_height(rows[0].height + 1),
                    ChainInvalid::BlockHeightDiscontinuity(BlockHeight(rows[1].height)),
                ),
            ),
        ),
{
    let first = row_outcome(rows[0])->Ok_0;
    lemma_scanned_wf(oracle, w, first);
    let rest = rows.drop_first();
    assert(rest.first() == rows[1]);
    assert(rows.first() == rows[0]);
    let after = scanned(oracle, w, first);
    let second = row_outcome(rows[1])->Ok_0;
    assert(scan_refusal(after, second) is Some);
    assert(scan_step(oracle, after, second).0 == after);
    assert(traversal::<Scanner<D>>(oracle, after, rest).0 == after);
    assert(traversal::<Scanner<D>>(oracle, w, rows) == traversal::<Scanner<D>>(
        oracle,
        after,
        rest,
    ));
}

/// An output that is known to belong to an account of the wallet.
#[derive(Clone, Debug, PartialEq, Eq)]
pub struct KnownOutput {
    /// The note commitment of the output.
    pub cmu: Vec<u8>,
    /// What the output holds for the wallet.
    pub note: DecryptedNote,
}

/// A decryptor that knows the wallet's outputs in advance and recognises each
/// by its note commitment.
#[derive(Clone, Debug, PartialEq, Eq)]
pub struct KnownOutputs {
    pub outputs: Vec<KnownOutput>,
}

/// The note of the first of `known` that has the note commitment `cmu`.
pub open spec fn first_known(known: Seq<KnownOutput>, cmu: Seq<u8>) -> Option<DecryptedNote>
    decreases known.len(),
{
    if known.len() == 0 {
        None
    } else if known.first().cmu@ == cmu {
        Some(known.first().note)
    } else {
        first_known(known.drop_first(), cmu)
    }
}

impl NoteDecryptor for KnownOutputs {
    open spec fn decrypted(&self, output: CompactOutputView, position: u64) -> Option<
        DecryptedNote,
    > {
        first_known(self.outputs@, output.cmu)
    }

    fn try_decrypt(&self, output: &CompactSaplingOutput, position: u64) -> (r: Option<
        DecryptedNote,
    >) {
        let mut i: usize = 0;
        assert(self.outputs@.skip(0) =~= self.outputs@);
        while i < self.outputs.len()
            invariant
                i <= self.outputs.len(),
                first_known(self.outputs@, output@.cmu) == first_known(
                    self.outputs@.skip(i as int),
                    output@.cmu,
                ),
            decreases self.outputs.len() - i,
        {
            proof {
                assert(self.outputs@.skip(i as int).first() == self.outputs[i as int]);
                assert(self.outputs@.skip(i as int).drop_first() =~= self.outputs@.skip(i + 1));
            }
            if bytes_eq(self.outputs[i].cmu.as_slice(), output.cmu.as_slice()) {
                return Some(self.outputs[i].note);
            }
            i += 1;
        }
        None
    }
}

} // verus!
