//! Validation: whether the cached blocks above the wallet's highest scanned
//! block form a chain that is linked by hashes, and where it breaks if not.

use vstd::prelude::*;
use crate::chain::{
    ascending, failure, lemma_rows_below, position, row_outcome, rows_below, run_end, traversal,
    traverse_stretch, BlockSource, BlockVisitor, StoredRow,
};
use crate::error::{
    malformed_block_text, ChainErrorView, ChainInvalid, SqliteClientError, SqliteClientErrorView,
};
use crate::primitives::{BlockHash, BlockHeight};
use crate::proto::{CompactBlock, CompactBlockView};

verus! {

/// The number of rows from the index `k` on whose heights follow each other
/// without a gap.
pub open spec fn run_length(rows: Seq<StoredRow>, k: int) -> nat
    decreases rows.len() - k,
{
    if k < 0 || k >= rows.len() {
        0
    } else if k + 1 < rows.len() && rows[k + 1].height == rows[k].height + 1 {
        1 + run_length(rows, k + 1)
    } else {
        1
    }
}

/// The rows that a validation walks: from just above the wallet's highest
/// scanned block, or from the lowest row where the wallet has scanned
/// nothing, for as long as the heights follow each other. Where the cache
/// holds no block just above the wallet's, there is nothing to walk.
pub open spec fn walk(rows: Seq<StoredRow>, tip: Option<(BlockHeight, BlockHash)>) -> Seq<
    StoredRow,
> {
    match tip {
        Some((h, _)) => {
            let k = rows_below(rows, h.0 + 1);
            if k < rows.len() && rows[k].height == h.0 + 1 {
                rows.subrange(k, k + run_length(rows, k))
            } else {
                Seq::empty()
            }
        },
        None => rows.subrange(0, run_length(rows, 0) as int),
    }
}

/// The hash that the first block of the walk must name as its parent's, if any.
pub open spec fn anchor(tip: Option<(BlockHeight, BlockHash)>) -> Option<Seq<u8>> {
    match tip {
        Some((_, hash)) => Some(hash.0@),
        None => None,
    }
}

/// One step of a validation, where `prev` is the hash of the block before: a
/// block must name its own hash and its parent's, and the parent's must be `prev`.
pub open spec fn validate_step(prev: Option<Seq<u8>>, block: CompactBlockView) -> (
    Option<Seq<u8>>,
    Option<SqliteClientErrorView>,
) {
    if !block.has_hashes() {
        (prev, Some(SqliteClientErrorView::CorruptedData(malformed_block_text(block.height))))
    } else if prev is Some && prev->Some_0 != block.parent_hash() {
        (
            prev,
            Some(
                SqliteClientErrorView::BackendError(
                    ChainErrorView::InvalidChain(
                        BlockHeight(block.height as u32),
                        ChainInvalid::PrevHashMismatch,
                    ),
                ),
            ),
        )
    } else {
        (Some(block.block_hash()), None)
    }
}

/// The visitor of a validation: it remembers the hash of the block before.
pub struct ChainValidator {
    prev_hash: Option<BlockHash>,
}

impl BlockVisitor for ChainValidator {
    type Context = ();

    type State = Option<Seq<u8>>;

    closed spec fn context(&self) -> () {
        ()
    }

    closed spec fn state(&self) -> Option<Seq<u8>> {
        match self.prev_hash {
            Some(h) => Some(h.0@),
            None => None,
        }
    }

    closed spec fn inv(&self) -> bool {
        true
    }

    open spec fn step(context: (), state: Option<Seq<u8>>, block: CompactBlockView) -> (
        Option<Seq<u8>>,
        Option<SqliteClientErrorView>,
    ) {
        validate_step(state, block)
    }

    fn visit(&mut self, block: CompactBlock) -> (r: Result<(), SqliteClientError>) {
        if !block.names_hash() || !block.names_parent() {
            return Err(SqliteClientError::malformed_block(block.height));
        }
        let parent = block.prev_hash();
        match self.prev_hash {
            Some(prev) => {
                if !prev.same(&parent) {
                    proof {
                        if prev.0@ == parent.0@ {
                            assert(prev.0 =~= parent.0);
                        }
                    }
                    return Err(
                        SqliteClientError::BackendError(
                            ChainInvalid::prev_hash_mismatch(BlockHeight(block.height as u32)),
                        ),
                    );
                }
            },
            None => {},
        }
        self.prev_hash = Some(block.hash());
        Ok(())
    }
}

/// What a validation of the cache `rows` against the wallet's highest scanned
/// block finds: nothing, or the first error of the walk.
pub open spec fn validated(rows: Seq<StoredRow>, tip: Option<(BlockHeight, BlockHash)>) -> Option<
    SqliteClientErrorView,
> {
    traversal::<ChainValidator>((), anchor(tip), walk(rows, tip)).1
}

/// Checks that the cached blocks above the wallet's highest scanned block
/// `validate_from` are linked by their hashes: the first must name the hash of
/// `validate_from` as its parent's, where there is one, and every other the
/// hash of the block before it. The walk ends where the heights stop
/// following each other. The first block that breaks the chain is reported
/// with its height; an empty walk is valid. Nothing is changed.
pub fn validate_chain<S: BlockSource>(
    cache: &S,
    validate_from: Option<(BlockHeight, BlockHash)>,
) -> (r: Result<(), SqliteClientError>)
    requires
        ascending(cache.rows()),
    ensures
        failure(r) == validated(cache.rows(), validate_from),
{
    let (first, prev_hash): (u64, Option<BlockHash>) = match validate_from {
        Some((h, hash)) => (h.0 as u64 + 1, Some(hash)),
        None => (0, None),
    };
    let k = position(cache, first);
    proof {
        lemma_rows_below(cache.rows(), first as int);
    }
    let mut validator = ChainValidator { prev_hash };
    if k >= cache.row_count() || (validate_from.is_some() && cache.row_height(k).0 as u64
        != first) {
        assert(walk(cache.rows(), validate_from) =~= Seq::<StoredRow>::empty());
        return Ok(());
    }
    let last = run_end(cache, k);
    proof {
        lemma_run_length(cache.rows(), k as int, last as int);
    }
    traverse_stretch(cache, k, last + 1, &mut validator)
}

/// Rows that follow each other in height from the index `k` to the index
/// `end`, and no further, are a run of that length.
proof fn lemma_run_length(rows: Seq<StoredRow>, k: int, end: int)
    requires
        0 <= k <= end < rows.len(),
        forall|j: int| k <= j <= end ==> (#[trigger] rows[j]).height == rows[k].height + (j - k),
        end + 1 < rows.len() ==> rows[end + 1].height != rows[end].height + 1,
    ensures
        run_length(rows, k) == end - k + 1,
    decreases end - k,
{
    if k < end {
        assert(rows[k + 1].height == rows[k].height + 1);
        assert forall|j: int| k + 1 <= j <= end implies (#[trigger] rows[j]).height == rows[k
            + 1].height + (j - (k + 1)) by {
            assert(rows[j].height == rows[k].height + (j - k));
        }
        lemma_run_length(rows, k + 1, end);
    }
}

/// The block that a row holds.
pub open spec fn block_of(row: StoredRow) -> CompactBlockView {
    row_outcome(row)->Ok_0
}

/// Whether a row holds a block that names its own hash and its parent's.
pub open spec fn sound(row: StoredRow) -> bool {
    row_outcome(row) is Ok && block_of(row).has_hashes()
}

/// Whether the block of the row `i` names the hash of the block before it as
/// its parent's; for the first row the block before it is the one with the
/// hash `prev`, where there is one.
pub open spec fn linked(rows: Seq<StoredRow>, prev: Option<Seq<u8>>, i: int) -> bool {
    if i == 0 {
        prev is Some ==> block_of(rows[0]).parent_hash() == prev->Some_0
    } else {
        block_of(rows[i]).parent_hash() == block_of(rows[i - 1]).block_hash()
    }
}

/// The error that names `height` as the place where the chain breaks.
pub open spec fn break_at(height: u32) -> SqliteClientErrorView {
    SqliteClientErrorView::BackendError(
        ChainErrorView::InvalidChain(BlockHeight(height), ChainInvalid::PrevHashMismatch),
    )
}

/// A traversal by the validator over rows of which the first `j` are sound
/// and linked ends without an error where these are all the rows, and names
/// the row `j` where that row is sound and not linked.
proof fn lemma_validation(rows: Seq<StoredRow>, prev: Option<Seq<u8>>, j: int)
    requires
        0 <= j <= rows.len(),
        forall|i: int| 0 <= i < j ==> sound(#[trigger] rows[i]) && linked(rows, prev, i),
    ensures
        j == rows.len() ==> traversal::<ChainValidator>((), prev, rows).1 is None,
        j < rows.len() && sound(rows[j]) && !linked(rows, prev, j) ==> traversal::<ChainValidator>(
            (),
            prev,
            rows,
        ).1 == Some(break_at(rows[j].height)),
    decreases rows.len(),
{
    if rows.len() > 0 && j > 0 {
        assert(sound(rows[0]) && linked(rows, prev, 0));
        let rest = rows.drop_first();
        let next = Some(block_of(rows[0]).block_hash());
        assert forall|i: int| 0 <= i < j - 1 implies sound(#[trigger] rest[i]) && linked(
            rest,
            next,
            i,
        ) by {
            assert(rest[i] == rows[i + 1]);
            assert(sound(rows[i + 1]) && linked(rows, prev, i + 1));
            if i > 0 {
                assert(rest[i - 1] == rows[i]);
            }
        }
        lemma_validation(rest, next, j - 1);
        if j < rows.len() {
            assert(rest[j - 1] == rows[j]);
            if j - 1 > 0 {
                assert(rest[j - 2] == rows[j - 1]);
            }
        }
    }
}

/// Where every block of the walk is sound and names the hash of the block
/// before it, the first of them that of the wallet's highest scanned block,
/// the validation succeeds.
pub proof fn lemma_unbroken_chain_validates(
    rows: Seq<StoredRow>,
    tip: Option<(BlockHeight, BlockHash)>,
)
    requires
        forall|i: int|
            0 <= i < walk(rows, tip).len() ==> sound(#[trigger] walk(rows, tip)[i]) && linked(
                walk(rows, tip),
                anchor(tip),
                i,
            ),
    ensures
        validated(rows, tip) is None,
{
    lemma_validation(walk(rows, tip), anchor(tip), walk(rows, tip).len() as int);
}

/// Where the block of the row `j` of the walk is the first that does not name
/// the hash of the block before it, and the blocks up to it are sound, the
/// validation fails and names the height of that block.
pub proof fn lemma_first_break_is_reported(
    rows: Seq<StoredRow>,
    tip: Option<(BlockHeight, BlockHash)>,
    j: int,
)
    requires
        0 <= j < walk(rows, tip).len(),
        forall|i: int|
            0 <= i < j ==> sound(#[trigger] walk(rows, tip)[i]) && linked(
                walk(rows, tip),
                anchor(tip),
                i,
            ),
        sound(walk(rows, tip)[j]),
        !linked(walk(rows, tip), anchor(tip), j),
    ensures
        validated(rows, tip) == Some(break_at(walk(rows, tip)[j].height)),
{
    lemma_validation(walk(rows, tip), anchor(tip), j);
}

} // verus!
