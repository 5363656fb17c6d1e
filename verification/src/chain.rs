//! The cache of compact blocks, and the traversal that hands its blocks to a
//! visitor one by one, in the order of their heights.

use vstd::prelude::*;
use crate::error::{
    height_mismatch_text, ChainError, ChainErrorView, SqliteClientError, SqliteClientErrorView,
};
use crate::primitives::BlockHeight;
use crate::proto::{CompactBlock, CompactBlockView};
use crate::wire::{block_fits, decoded_block, encoded_block};

verus! {

/// A row of the cache, as mathematical values: the height it is stored under
/// and the bytes that could be loaded for it, if any could.
pub struct StoredRow {
    pub height: u32,
    pub data: Option<Seq<u8>>,
}

/// Whether the heights of the rows strictly ascend.
pub open spec fn ascending(rows: Seq<StoredRow>) -> bool {
    forall|i: int, j: int| 0 <= i < j < rows.len() ==> rows[i].height < rows[j].height
}

/// The number of rows that lie below `height`, where the rows ascend.
pub open spec fn rows_below(rows: Seq<StoredRow>, height: int) -> int
    decreases rows.len(),
{
    if rows.len() == 0 {
        0
    } else if rows.last().height < height {
        rows.len() as int
    } else {
        rows_below(rows.drop_last(), height)
    }
}

/// The rows that a traversal reads: those at `first` and above, lowest first,
/// and no more than `limit` of them where there is a limit.
pub open spec fn rows_from(rows: Seq<StoredRow>, first: int, limit: Option<u32>) -> Seq<
    StoredRow,
> {
    let above = rows.skip(rows_below(rows, first));
    match limit {
        Some(n) => if n < above.len() {
            above.take(n as int)
        } else {
            above
        },
        None => above,
    }
}

/// What reading a row gives: the block it holds, or the error that stops the
/// traversal. Bytes that cannot be loaded are a storage failure, bytes that do
/// not decode a decoding failure, and a block whose own height is not the
/// row's height is corrupted data.
pub open spec fn row_outcome(row: StoredRow) -> Result<CompactBlockView, SqliteClientErrorView> {
    match row.data {
        None => Err(SqliteClientErrorView::Io),
        Some(data) => match decoded_block(data) {
            None => Err(SqliteClientErrorView::BackendError(ChainErrorView::Protobuf)),
            Some(block) => if block.height == row.height {
                Ok(block)
            } else {
                Err(
                    SqliteClientErrorView::CorruptedData(
                        height_mismatch_text(block.height, row.height),
                    ),
                )
            },
        },
    }
}

/// The error of a result, as mathematical values.
pub open spec fn failure(r: Result<(), SqliteClientError>) -> Option<SqliteClientErrorView> {
    match r {
        Ok(_) => None,
        Err(e) => Some(e@),
    }
}

/// What is handed the blocks of a traversal. A visitor has a state, which a
/// visit may change, and a context, which no visit changes; what a visit does
/// is a function of the two and of the block.
pub trait BlockVisitor {
    type Context;

    type State;

    spec fn context(&self) -> Self::Context;

    spec fn state(&self) -> Self::State;

    /// What holds of a visitor between visits.
    spec fn inv(&self) -> bool;

    /// The state after a visit and the error of the visit, if it fails.
    spec fn step(context: Self::Context, state: Self::State, block: CompactBlockView) -> (
        Self::State,
        Option<SqliteClientErrorView>,
    );

    fn visit(&mut self, block: CompactBlock) -> (r: Result<(), SqliteClientError>)
        requires
            old(self).inv(),
            block@.height <= u32::MAX,
        ensures
            final(self).inv(),
            final(self).context() == old(self).context(),
            final(self).state() == Self::step(old(self).context(), old(self).state(), block@).0,
            failure(r) == Self::step(old(self).context(), old(self).state(), block@).1,
    ;
}

/// The outcome of a traversal of `rows` by a visitor in state `state`: the
/// rows are read in order, each block is visited once, and the first row that
/// cannot be read, or the first visit that fails, ends the traversal with its
/// error; no later row is read or visited.
pub open spec fn traversal<V: BlockVisitor>(
    context: V::Context,
    state: V::State,
    rows: Seq<StoredRow>,
) -> (V::State, Option<SqliteClientErrorView>)
    decreases rows.len(),
{
    if rows.len() == 0 {
        (state, None)
    } else {
        match row_outcome(rows.first()) {
            Err(e) => (state, Some(e)),
            Ok(block) => {
                let (next, e) = V::step(context, state, block);
                if e is Some {
                    (next, e)
                } else {
                    traversal::<V>(context, next, rows.drop_first())
                }
            },
        }
    }
}

/// A row of the cache of encoded blocks.
#[derive(Clone, Debug, PartialEq, Eq)]
pub struct CompactBlockRow {
    pub height: BlockHeight,
    pub data: Vec<u8>,
}

impl View for CompactBlockRow {
    type V = StoredRow;

    open spec fn view(&self) -> StoredRow {
        StoredRow { height: self.height.0, data: Some(self.data@) }
    }
}

/// The error for bytes that are not a block.
fn decoding_failed(e: protobuf::ProtobufError) -> (r: SqliteClientError)
    ensures
        r@ == SqliteClientErrorView::BackendError(ChainErrorView::Protobuf),
{
    SqliteClientError::BackendError(ChainError::Protobuf(e))
}

/// Reads the block of a row whose bytes were loaded.
pub fn read_row(height: BlockHeight, data: &[u8]) -> (r: Result<CompactBlock, SqliteClientError>)
    ensures
        match row_outcome(StoredRow { height: height.0, data: Some(data@) }) {
            Ok(block) => r is Ok && r->Ok_0@ == block,
            Err(e) => r is Err && r->Err_0@ == e,
        },
{
    match CompactBlock::parse_from_bytes(data) {
        Err(e) => Err(decoding_failed(e)),
        Ok(block) => {
            if block.height != height.0 as u64 {
                Err(SqliteClientError::height_mismatch(block.height, height))
            } else {
                Ok(block)
            }
        },
    }
}

/// Where the rows ascend, `rows_below` is the one index that parts the rows
/// below `height` from the rest.
pub proof fn lemma_rows_below(rows: Seq<StoredRow>, height: int)
    requires
        ascending(rows),
    ensures
        0 <= rows_below(rows, height) <= rows.len(),
        forall|j: int| 0 <= j < rows_below(rows, height) ==> (#[trigger] rows[j]).height < height,
        forall|j: int|
            rows_below(rows, height) <= j < rows.len() ==> (#[trigger] rows[j]).height >= height,
    decreases rows.len(),
{
    if rows.len() > 0 && !(rows.last().height < height) {
        let shorter = rows.drop_last();
        assert(ascending(shorter)) by {
            assert forall|i: int, j: int| 0 <= i < j < shorter.len() implies shorter[i].height
                < shorter[j].height by {
                assert(shorter[i] == rows[i] && shorter[j] == rows[j]);
            }
        }
        lemma_rows_below(shorter, height);
        assert forall|j: int| 0 <= j < rows_below(rows, height) implies (#[trigger] rows[j]).height
            < height by {
            assert(shorter[j] == rows[j]);
        }
        assert forall|j: int| rows_below(rows, height) <= j < rows.len() implies (
        #[trigger] rows[j]).height >= height by {
            if j < shorter.len() {
                assert(shorter[j] == rows[j]);
            }
        }
    }
}

/// The index that parts the rows below `height` from the rest is `rows_below`.
pub proof fn lemma_rows_below_is(rows: Seq<StoredRow>, height: int, k: int)
    requires
        ascending(rows),
        0 <= k <= rows.len(),
        forall|j: int| 0 <= j < k ==> (#[trigger] rows[j]).height < height,
        forall|j: int| k <= j < rows.len() ==> (#[trigger] rows[j]).height >= height,
    ensures
        rows_below(rows, height) == k,
{
    lemma_rows_below(rows, height);
    let found = rows_below(rows, height);
    if found < k {
        assert(rows[found].height < height);
    } else if k < found {
        assert(rows[k].height >= height);
    }
}

/// Whether a block is stored under `height`.
pub open spec fn stored(rows: Seq<StoredRow>, height: int) -> bool {
    exists|i: int| 0 <= i < rows.len() && (#[trigger] rows[i]).height == height
}

/// A store of cached blocks: rows in the order of their heights, each of
/// which can be read as a block.
pub trait BlockSource {
    /// The rows of the store.
    spec fn rows(&self) -> Seq<StoredRow>;

    fn row_count(&self) -> (n: usize)
        ensures
            n == self.rows().len(),
    ;

    fn row_height(&self, index: usize) -> (h: BlockHeight)
        requires
            index < self.rows().len(),
        ensures
            h.0 == self.rows()[index as int].height,
    ;

    /// Loads and decodes the block of a row, and checks it against the row's height.
    fn read(&self, index: usize) -> (r: Result<CompactBlock, SqliteClientError>)
        requires
            index < self.rows().len(),
        ensures
            match row_outcome(self.rows()[index as int]) {
                Ok(block) => r is Ok && r->Ok_0@ == block,
                Err(e) => r is Err && r->Err_0@ == e,
            },
    ;
}

/// The index of the first row at `height` or above.
pub fn position<S: BlockSource>(source: &S, height: u64) -> (k: usize)
    requires
        ascending(source.rows()),
    ensures
        k == rows_below(source.rows(), height as int),
        k <= source.rows().len(),
{
    let n = source.row_count();
    let mut k: usize = 0;
    while k < n && (source.row_height(k).0 as u64) < height
        invariant
            n == source.rows().len(),
            k <= n,
            forall|j: int| 0 <= j < k ==> (#[trigger] source.rows()[j]).height < height,
        decreases n - k,
    {
        k += 1;
    }
    proof {
        assert forall|j: int| k <= j < source.rows().len() implies (
        #[trigger] source.rows()[j]).height >= height by {
            if k < j {
                assert(source.rows()[k as int].height < source.rows()[j].height);
            }
        }
        lemma_rows_below_is(source.rows(), height as int, k as int);
    }
    k
}

/// The index of the last row of the run of rows that starts at the index `k`
/// and whose heights follow each other without a gap.
pub fn run_end<S: BlockSource>(source: &S, k: usize) -> (end: usize)
    requires
        k < source.rows().len(),
    ensures
        k <= end < source.rows().len(),
        forall|j: int|
            k <= j <= end ==> (#[trigger] source.rows()[j]).height == source.rows()[k as int].height
                + (j - k),
        end + 1 < source.rows().len() ==> source.rows()[end + 1].height
            != source.rows()[end as int].height + 1,
{
    let n = source.row_count();
    let mut end: usize = k;
    while end + 1 < n && source.row_height(end + 1).0 as u64 == source.row_height(end).0 as u64 + 1
        invariant
            n == source.rows().len(),
            k <= end < n,
            forall|j: int|
                k <= j <= end ==> (#[trigger] source.rows()[j]).height
                    == source.rows()[k as int].height + (j - k),
        decreases n - end,
    {
        end += 1;
    }
    end
}

/// Where the rows ascend and those from the index `k` to the index `end`
/// follow each other in height, every height between them is stored, and the
/// height above the last is stored only by the row behind it.
pub proof fn lemma_run_stored(rows: Seq<StoredRow>, k: int, end: int)
    requires
        ascending(rows),
        0 <= k <= end < rows.len(),
        forall|j: int| k <= j <= end ==> (#[trigger] rows[j]).height == rows[k].height + (j - k),
        end + 1 < rows.len() ==> rows[end + 1].height != rows[end].height + 1,
    ensures
        forall|h: int| rows[k].height <= h <= rows[end].height ==> stored(rows, h),
        !stored(rows, rows[end].height + 1),
{
    assert forall|h: int| rows[k].height <= h <= rows[end].height implies stored(rows, h) by {
        let j = k + (h - rows[k].height);
        assert(rows[j].height == h);
    }
    if stored(rows, rows[end].height + 1) {
        let j = choose|j: int| 0 <= j < rows.len() && (#[trigger] rows[j]).height == rows[end].height + 1;
        if j <= end {
            if j < end {
                assert(rows[j].height < rows[end].height);
            }
        } else if j > end + 1 {
            assert(rows[end + 1].height < rows[j].height);
            assert(rows[end].height < rows[end + 1].height);
        }
    }
}

/// The rows after `row` was stored: it takes the place of the row of its
/// height, or else its place in the order of the heights.
pub open spec fn upserted(rows: Seq<StoredRow>, row: StoredRow) -> Seq<StoredRow> {
    let k = rows_below(rows, row.height as int);
    if k < rows.len() && rows[k].height == row.height {
        rows.update(k, row)
    } else {
        rows.insert(k, row)
    }
}

/// Storing a row keeps the rows in the order of their heights.
pub proof fn lemma_upserted_ascending(rows: Seq<StoredRow>, row: StoredRow)
    requires
        ascending(rows),
    ensures
        ascending(upserted(rows, row)),
        0 <= rows_below(rows, row.height as int) < upserted(rows, row).len(),
        upserted(rows, row)[rows_below(rows, row.height as int)] == row,
{
    let k = rows_below(rows, row.height as int);
    lemma_rows_below(rows, row.height as int);
    let after = upserted(rows, row);
    if k < rows.len() && rows[k].height == row.height {
        assert forall|i: int, j: int| 0 <= i < j < after.len() implies after[i].height
            < after[j].height by {
            assert(after[i].height == rows[i].height);
            assert(after[j].height == rows[j].height);
        }
    } else {
        assert forall|i: int, j: int| 0 <= i < j < after.len() implies after[i].height
            < after[j].height by {
            let hi = if i < k {
                rows[i].height
            } else if i == k {
                row.height
            } else {
                rows[i - 1].height
            };
            let hj = if j < k {
                rows[j].height
            } else if j == k {
                row.height
            } else {
                rows[j - 1].height
            };
            assert(after[i].height == hi && after[j].height == hj);
            if i < k && j > k {
                if i < j - 1 {
                    assert(rows[i].height < rows[j - 1].height);
                }
            }
            if i == k {
                assert(rows[j - 1].height >= row.height);
                if j - 1 > k {
                    assert(rows[k].height < rows[j - 1].height);
                }
            }
            if i > k {
                assert(rows[i - 1].height < rows[j - 1].height);
            }
        }
    }
}

/// The cache that holds the encoded blocks themselves, one row per height.
#[derive(Clone, Debug, PartialEq, Eq)]
pub struct BlockDb {
    rows: Vec<CompactBlockRow>,
}

impl View for BlockDb {
    type V = Seq<StoredRow>;

    closed spec fn view(&self) -> Seq<StoredRow> {
        self.rows@.map_values(|r: CompactBlockRow| r@)
    }
}

impl BlockDb {
    /// Whether the cache is in order: one row per height, lowest first.
    pub open spec fn wf(&self) -> bool {
        ascending(self@)
    }

    /// A cache without blocks.
    pub fn new() -> (r: BlockDb)
        ensures
            r.wf(),
            r@ == Seq::<StoredRow>::empty(),
    {
        let r = BlockDb { rows: Vec::new() };
        assert(r@ =~= Seq::<StoredRow>::empty());
        r
    }

    /// The number of rows.
    pub fn len(&self) -> (r: usize)
        ensures
            r == self@.len(),
    {
        self.rows.len()
    }

    /// The row at `index`, in the order of the heights.
    pub fn row(&self, index: usize) -> (r: &CompactBlockRow)
        requires
            index < self@.len(),
        ensures
            r@ == self@[index as int],
    {
        &self.rows[index]
    }

    /// Stores the encoded block `data` under `height`: a row of that height is
    /// overwritten, and every other row stays.
    pub fn insert(&mut self, height: BlockHeight, data: Vec<u8>)
        requires
            old(self).wf(),
        ensures
            final(self).wf(),
            final(self)@ == upserted(old(self)@, StoredRow { height: height.0, data: Some(data@) }),
            stored(final(self)@, height.0 as int),
    {
        let k = position(&*self, height.0 as u64);
        let row = CompactBlockRow { height, data };
        proof {
            lemma_rows_below(self@, height.0 as int);
            lemma_upserted_ascending(self@, row@);
        }
        if k < self.rows.len() && self.rows[k].height.0 == height.0 {
            self.rows.set(k, row);
            assert(self@ =~= old(self)@.update(k as int, row@));
        } else {
            self.rows.insert(k, row);
            assert(self@ =~= old(self)@.insert(k as int, row@));
        }
        assert(self@ == upserted(old(self)@, row@));
        assert(self@[k as int].height == height.0);
    }

    /// Stores a block under its height, in its wire form: a row of that
    /// height is overwritten, and every other row stays. A block whose height
    /// is no block height, or that cannot be written, is not stored.
    pub fn store(&mut self, block: &CompactBlock) -> (stored: bool)
        requires
            old(self).wf(),
        ensures
            final(self).wf(),
            stored == (block@.height <= u32::MAX && block_fits(block@)),
            stored ==> final(self)@ == upserted(
                old(self)@,
                StoredRow { height: block@.height as u32, data: Some(encoded_block(block@)) },
            ),
            !stored ==> final(self)@ == old(self)@,
    {
        if block.height > u32::MAX as u64 {
            return false;
        }
        match block.write_to_bytes() {
            Some(data) => {
                self.insert(BlockHeight(block.height as u32), data);
                true
            },
            None => false,
        }
    }

    /// The greatest height such that every height from 0 up to it is stored;
    /// none where no block is stored under height 0.
    pub fn highest_contiguous_height(&self) -> (r: Option<BlockHeight>)
        requires
            self.wf(),
        ensures
            match r {
                Some(top) => (forall|h: int| 0 <= h <= top.0 ==> stored(self@, h)) && !stored(
                    self@,
                    top.0 + 1,
                ),
                None => !stored(self@, 0),
            },
            r is Some <==> stored(self@, 0),
    {
        if self.rows.len() == 0 || self.rows[0].height.0 != 0 {
            assert(!stored(self@, 0)) by {
                if stored(self@, 0) {
                    let i = choose|i: int| 0 <= i < self@.len() && (#[trigger] self@[i]).height == 0;
                    assert(self@[0].height <= self@[i].height);
                }
            }
            return None;
        }
        let end = run_end(self, 0);
        proof {
            lemma_run_stored(self@, 0, end as int);
        }
        Some(self.rows[end].height)
    }
}

impl BlockSource for BlockDb {
    open spec fn rows(&self) -> Seq<StoredRow> {
        self@
    }

    fn row_count(&self) -> (n: usize) {
        self.rows.len()
    }

    fn row_height(&self, index: usize) -> (h: BlockHeight) {
        self.rows[index].height
    }

    fn read(&self, index: usize) -> (r: Result<CompactBlock, SqliteClientError>) {
        let row = &self.rows[index];
        assert(row@ == StoredRow { height: row.height.0, data: Some(row.data@) });
        read_row(row.height, row.data.as_slice())
    }
}

/// The rows of a traversal are a stretch of the cache.
proof fn lemma_rows_from(rows: Seq<StoredRow>, first: int, limit: Option<u32>, k: int, end: int)
    requires
        ascending(rows),
        k == rows_below(rows, first),
        k <= end <= rows.len(),
        match limit {
            Some(n) => end == if n < rows.len() - k {
                k + n
            } else {
                rows.len() as int
            },
            None => end == rows.len(),
        },
    ensures
        rows_from(rows, first, limit) == rows.subrange(k, end),
{
    lemma_rows_below(rows, first);
    assert(rows_from(rows, first, limit) =~= rows.subrange(k, end));
}

/// Hands the blocks of the rows from the index `k` up to the index `end` to
/// `visitor`, in their order.
pub fn traverse_stretch<S: BlockSource, V: BlockVisitor>(
    source: &S,
    k: usize,
    end: usize,
    visitor: &mut V,
) -> (r: Result<(), SqliteClientError>)
    requires
        k <= end <= source.rows().len(),
        old(visitor).inv(),
    ensures
        final(visitor).inv(),
        final(visitor).context() == old(visitor).context(),
        (final(visitor).state(), failure(r)) == traversal::<V>(
            old(visitor).context(),
            old(visitor).state(),
            source.rows().subrange(k as int, end as int),
        ),
{
    let ghost rows = source.rows().subrange(k as int, end as int);
    assert(rows.skip(0) =~= rows);
    let mut i: usize = k;
    while i < end
        invariant
            k <= i <= end <= source.rows().len(),
            rows == source.rows().subrange(k as int, end as int),
            visitor.inv(),
            visitor.context() == old(visitor).context(),
            traversal::<V>(old(visitor).context(), old(visitor).state(), rows) == traversal::<V>(
                visitor.context(),
                visitor.state(),
                rows.skip(i - k),
            ),
        decreases end - i,
    {
        proof {
            assert(rows.skip(i - k).len() > 0);
            assert(rows.skip(i - k).first() == source.rows()[i as int]);
            assert(rows.skip(i - k).drop_first() =~= rows.skip(i + 1 - k));
        }
        let block = match source.read(i) {
            Ok(block) => block,
            Err(e) => {
                return Err(e);
            },
        };
        match visitor.visit(block) {
            Ok(_) => {},
            Err(e) => {
                return Err(e);
            },
        }
        i += 1;
    }
    Ok(())
}

/// Hands the blocks of the store to `visitor`, starting at the height `first`.
fn traverse<S: BlockSource, V: BlockVisitor>(
    source: &S,
    first: u64,
    limit: Option<u32>,
    visitor: &mut V,
) -> (r: Result<(), SqliteClientError>)
    requires
        ascending(source.rows()),
        old(visitor).inv(),
    ensures
        final(visitor).inv(),
        final(visitor).context() == old(visitor).context(),
        (final(visitor).state(), failure(r)) == traversal::<V>(
            old(visitor).context(),
            old(visitor).state(),
            rows_from(source.rows(), first as int, limit),
        ),
{
    let k = position(source, first);
    let n = source.row_count();
    let end: usize = match limit {
        Some(m) => if (m as usize) < n - k {
            k + m as usize
        } else {
            n
        },
        None => n,
    };
    proof {
        lemma_rows_from(source.rows(), first as int, limit, k as int, end as int);
    }
    traverse_stretch(source, k, end, visitor)
}

/// Traverses the blocks of a store above `last_scanned_height`, lowest first,
/// and at most `limit` of them where there is a limit: each row is loaded,
/// decoded and checked against its height, and its block handed to `visitor`.
/// The first row that fails, or the first visit that fails, ends the traversal.
pub fn with_blocks<S: BlockSource, V: BlockVisitor>(
    source: &S,
    last_scanned_height: BlockHeight,
    limit: Option<u32>,
    visitor: &mut V,
) -> (r: Result<(), SqliteClientError>)
    requires
        ascending(source.rows()),
        old(visitor).inv(),
    ensures
        final(visitor).inv(),
        final(visitor).context() == old(visitor).context(),
        (final(visitor).state(), failure(r)) == traversal::<V>(
            old(visitor).context(),
            old(visitor).state(),
            rows_from(source.rows(), last_scanned_height.0 + 1, limit),
        ),
{
    traverse(source, last_scanned_height.0 as u64 + 1, limit, visitor)
}

/// Traverses the blocks of a store from the lowest on, at most `limit` of
/// them where there is a limit, as `with_blocks` does.
pub fn with_blocks_from_start<S: BlockSource, V: BlockVisitor>(
    source: &S,
    limit: Option<u32>,
    visitor: &mut V,
) -> (r: Result<(), SqliteClientError>)
    requires
        ascending(source.rows()),
        old(visitor).inv(),
    ensures
        final(visitor).inv(),
        final(visitor).context() == old(visitor).context(),
        (final(visitor).state(), failure(r)) == traversal::<V>(
            old(visitor).context(),
            old(visitor).state(),
            rows_from(source.rows(), 0, limit),
        ),
{
    traverse(source, 0, limit, visitor)
}

/// Traverses the blocks of the cache of encoded blocks above
/// `last_scanned_height`, lowest first, and at most `limit` of them where
/// there is a limit: each row is decoded and checked against its height, and
/// its block handed to `visitor`. The first row that fails, or the first visit
/// that fails, ends the traversal; no later row is read.
pub fn blockdb_with_blocks<V: BlockVisitor>(
    cache: &BlockDb,
    last_scanned_height: BlockHeight,
    limit: Option<u32>,
    visitor: &mut V,
) -> (r: Result<(), SqliteClientError>)
    requires
        cache.wf(),
        old(visitor).inv(),
    ensures
        final(visitor).inv(),
        final(visitor).context() == old(visitor).context(),
        (final(visitor).state(), failure(r)) == traversal::<V>(
            old(visitor).context(),
            old(visitor).state(),
            rows_from(cache@, last_scanned_height.0 + 1, limit),
        ),
{
    with_blocks(cache, last_scanned_height, limit, visitor)
}

/// A visitor that keeps the blocks it is handed, in their order.
pub struct Collector {
    pub blocks: Vec<CompactBlock>,
}

impl BlockVisitor for Collector {
    type Context = ();

    type State = Seq<CompactBlockView>;

    open spec fn context(&self) -> () {
        ()
    }

    open spec fn state(&self) -> Seq<CompactBlockView> {
        self.blocks@.map_values(|b: CompactBlock| b@)
    }

    open spec fn inv(&self) -> bool {
        true
    }

    open spec fn step(context: (), state: Seq<CompactBlockView>, block: CompactBlockView) -> (
        Seq<CompactBlockView>,
        Option<SqliteClientErrorView>,
    ) {
        (state.push(block), None)
    }

    fn visit(&mut self, block: CompactBlock) -> (r: Result<(), SqliteClientError>) {
        self.blocks.push(block);
        assert(self.state() =~= old(self).state().push(block@));
        Ok(())
    }
}

/// Reads the blocks of a store above `last_scanned_height`, lowest first,
/// and at most `limit` of them where there is a limit: the blocks up to the
/// first row that cannot be read, and the error of that row, if there is one.
pub fn read_range<S: BlockSource>(source: &S, last_scanned_height: BlockHeight, limit: Option<u32>) -> (r:
    (Vec<CompactBlock>, Result<(), SqliteClientError>))
    requires
        ascending(source.rows()),
    ensures
        (r.0@.map_values(|b: CompactBlock| b@), failure(r.1)) == traversal::<Collector>(
            (),
            Seq::<CompactBlockView>::empty(),
            rows_from(source.rows(), last_scanned_height.0 + 1, limit),
        ),
{
    let mut collector = Collector { blocks: Vec::new() };
    assert(collector.state() =~= Seq::<CompactBlockView>::empty());
    let r = with_blocks(source, last_scanned_height, limit, &mut collector);
    (collector.blocks, r)
}

} // verus!
