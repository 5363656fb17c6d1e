//! The cache that keeps each encoded block in a file of its own and an index
//! of the files: one row of metadata per height.

use vstd::prelude::*;
use vstd::string::*;
use crate::chain::{
    ascending, failure, lemma_rows_below, lemma_run_stored, read_row, rows_below, rows_from,
    run_end, stored, traversal, with_blocks, BlockSource, BlockVisitor, StoredRow,
};
use crate::error::{SqliteClientError, SqliteClientErrorView};
use crate::primitives::{BlockHash, BlockHeight};
use crate::proto::CompactBlock;
use crate::scan::{count_outputs, output_count};
use crate::wire::{block_fits, encoded_block};
use crate::text::{decimal, hex, push_decimal, push_hex_reversed, reversed};

verus! {

/// A path of the file system.
#[verifier::external_type_specification]
#[verifier::external_body]
pub struct ExPathBuf(std::path::PathBuf);

/// A row of the index: what is known of a block without opening its file.
#[derive(Clone, Copy, Debug, PartialEq, Eq)]
pub struct BlockMeta {
    pub height: BlockHeight,
    pub block_hash: BlockHash,
    pub block_time: u32,
    pub sapling_outputs_count: u32,
    pub orchard_actions_count: u32,
}

/// The name of the file of the block of `height` with the hash `hash`: the
/// height in decimal, the hash in hexadecimal with its last byte first, and a
/// fixed ending, joined by hyphens.
pub open spec fn block_file_name_text(height: BlockHeight, hash: BlockHash) -> Seq<char> {
    decimal(height.0 as nat) + "-"@ + hex(reversed(hash.0@)) + "-compactblock"@
}

/// `Path::join`: the path of `name` under `dir`. How the two are joined
/// depends on the platform, so nothing is stated of the result.
#[verifier::external_body]
fn path_join(dir: &std::path::PathBuf, name: &String) -> std::path::PathBuf {
    dir.join(name)
}

/// Whether `path` is what joining a file of the name `name` to `dir` has given.
pub closed spec fn joined(
    dir: &std::path::PathBuf,
    name: Seq<char>,
    path: std::path::PathBuf,
) -> bool {
    exists|n: String| n@ == name && #[trigger] call_ensures(path_join, (dir, &n), path)
}

/// Calls `join` on a directory and a name.
fn join_with<F: Fn(&std::path::PathBuf, &String) -> std::path::PathBuf>(
    join: F,
    dir: &std::path::PathBuf,
    name: &String,
) -> (r: std::path::PathBuf)
    requires
        call_requires(join, (dir, name)),
    ensures
        call_ensures(join, (dir, name), r),
{
    join(dir, name)
}

impl BlockMeta {
    /// The name of the file that holds the block of this row.
    pub fn block_file_name(&self) -> (r: String)
        ensures
            r@ == block_file_name_text(self.height, self.block_hash),
    {
        let mut s = String::new();
        push_decimal(&mut s, self.height.0 as u64);
        s.append("-");
        push_hex_reversed(&mut s, &self.block_hash.0);
        s.append("-compactblock");
        assert(s@ =~= block_file_name_text(self.height, self.block_hash));
        s
    }

    /// The path of the file that holds the block of this row, under
    /// `blocks_dir`: what joining the name of the file to `blocks_dir` gives.
    pub fn block_file_path(&self, blocks_dir: &std::path::PathBuf) -> (r: std::path::PathBuf)
        ensures
            joined(blocks_dir, block_file_name_text(self.height, self.block_hash), r),
    {
        let name = self.block_file_name();
        join_with(path_join, blocks_dir, &name)
    }
}

/// The file of a block.
#[derive(Clone, Debug, PartialEq, Eq)]
pub struct BlockFile {
    pub name: String,
    pub data: Vec<u8>,
}

/// The content of the first file of the name `name`.
pub open spec fn file_data(files: Seq<BlockFile>, name: Seq<char>) -> Option<Seq<u8>>
    decreases files.len(),
{
    if files.len() == 0 {
        None
    } else if files.first().name@ == name {
        Some(files.first().data@)
    } else {
        file_data(files.drop_first(), name)
    }
}

/// The row of the cache that a row of the index stands for: its height, and
/// the content of its file where there is such a file.
pub open spec fn row_of(meta: BlockMeta, files: Seq<BlockFile>) -> StoredRow {
    StoredRow {
        height: meta.height.0,
        data: file_data(files, block_file_name_text(meta.height, meta.block_hash)),
    }
}

/// The heights of the index, as rows without content.
pub open spec fn index_rows(meta: Seq<BlockMeta>) -> Seq<StoredRow> {
    meta.map_values(|m: BlockMeta| StoredRow { height: m.height.0, data: None })
}

/// Whether the heights of the index strictly ascend.
pub open spec fn index_ascending(meta: Seq<BlockMeta>) -> bool {
    ascending(index_rows(meta))
}

/// Whether the index holds a row of `height`.
pub open spec fn indexed(meta: Seq<BlockMeta>, height: int) -> bool {
    stored(index_rows(meta), height)
}

/// The number of rows of the index that lie below `height`.
pub open spec fn index_below(meta: Seq<BlockMeta>, height: int) -> int {
    rows_below(index_rows(meta), height)
}

/// The index after a row was stored: it takes the place of the row of its
/// height, or else its place in the order of the heights.
pub open spec fn index_upserted(meta: Seq<BlockMeta>, row: BlockMeta) -> Seq<BlockMeta> {
    let k = index_below(meta, row.height.0 as int);
    if k < meta.len() && meta[k].height == row.height {
        meta.update(k, row)
    } else {
        meta.insert(k, row)
    }
}

/// The index after the rows of a batch were inserted one by one, each at its
/// place in the order of the heights.
pub open spec fn with_batch(meta: Seq<BlockMeta>, batch: Seq<BlockMeta>) -> Seq<BlockMeta>
    decreases batch.len(),
{
    if batch.len() == 0 {
        meta
    } else {
        let prior = with_batch(meta, batch.drop_last());
        prior.insert(index_below(prior, batch.last().height.0 as int), batch.last())
    }
}

/// The first row of a batch that cannot be inserted: its height is in the
/// index already, or an earlier row of the batch has it.
pub open spec fn first_conflict(meta: Seq<BlockMeta>, batch: Seq<BlockMeta>) -> Option<int>
    decreases batch.len(),
{
    if batch.len() == 0 {
        None
    } else {
        match first_conflict(meta, batch.drop_last()) {
            Some(i) => Some(i),
            None => if indexed(with_batch(meta, batch.drop_last()), batch.last().height.0 as int) {
                Some(batch.len() - 1)
            } else {
                None
            },
        }
    }
}

/// Why a batch of metadata was not written.
#[derive(Clone, Copy, Debug, PartialEq, Eq)]
pub enum BlockMetaError {
    /// The index holds a row of this height already.
    HeightTaken(BlockHeight),
}

/// The cache of block files with their index.
#[derive(Clone, Debug, PartialEq, Eq)]
pub struct FsBlockDb {
    meta: Vec<BlockMeta>,
    files: Vec<BlockFile>,
}

impl FsBlockDb {
    /// The index, lowest height first.
    pub closed spec fn index(&self) -> Seq<BlockMeta> {
        self.meta@
    }

    /// The files.
    pub closed spec fn files(&self) -> Seq<BlockFile> {
        self.files@
    }

    /// Whether the index is in order: one row per height, lowest first.
    pub open spec fn wf(&self) -> bool {
        index_ascending(self.index())
    }

    /// A cache without blocks.
    pub fn new() -> (r: FsBlockDb)
        ensures
            r.wf(),
            ascending(r.rows()),
            r.index() == Seq::<BlockMeta>::empty(),
            r.files() == Seq::<BlockFile>::empty(),
    {
        let r = FsBlockDb { meta: Vec::new(), files: Vec::new() };
        proof {
            r.lemma_rows_ascend();
        }
        r
    }

    /// Adds the file of a block. It takes the place of a file that was added
    /// before under the same name.
    pub fn add_file(&mut self, file: BlockFile)
        ensures
            final(self).index() == old(self).index(),
            final(self).files() == seq![file] + old(self).files(),
            file_data(final(self).files(), file.name@) == Some(file.data@),
            old(self).wf() ==> final(self).wf() && ascending(final(self).rows()),
    {
        self.files.insert(0, file);
        assert(self.files@ =~= seq![file] + old(self).files@);
        assert(self.files@.first() == file);
        proof {
            if old(self).wf() {
                self.lemma_rows_ascend();
            }
        }
    }

    /// Stores a block: its wire form in the file that is named by its height
    /// and hash, and its row in the index, in the place of the row of its
    /// height where there is one. A block whose height is no block height,
    /// that does not name its hash, that has more outputs than the index can
    /// count, or that cannot be written, is not stored.
    pub fn store(&mut self, block: &CompactBlock) -> (stored: bool)
        requires
            old(self).wf(),
        ensures
            final(self).wf(),
            ascending(final(self).rows()),
            stored == (block@.height <= u32::MAX && block@.names_hash() && output_count(block@.vtx)
                <= u32::MAX && block_fits(block@)),
            !stored ==> final(self).index() == old(self).index() && final(self).files() == old(
                self,
            ).files(),
            stored ==> exists|meta: BlockMeta|
                {
                    &&& meta.height.0 == block@.height
                    &&& meta.block_hash.0@ == block@.block_hash()
                    &&& meta.block_time == block@.time
                    &&& meta.sapling_outputs_count == output_count(block@.vtx)
                    &&& meta.orchard_actions_count == 0
                    &&& final(self).index() == #[trigger] index_upserted(old(self).index(), meta)
                    &&& final(self).files().len() == old(self).files().len() + 1
                    &&& final(self).files().subrange(1, final(self).files().len() as int) == old(
                        self,
                    ).files()
                    &&& row_of(meta, final(self).files()) == (StoredRow {
                        height: block@.height as u32,
                        data: Some(encoded_block(block@)),
                    })
                },
    {
        proof {
            self.lemma_rows_ascend();
        }
        if block.height > u32::MAX as u64 {
            return false;
        }
        if !block.names_hash() {
            return false;
        }
        let outputs = match count_outputs(block, u32::MAX as u64) {
            Some(n) => n,
            None => {
                return false;
            },
        };
        let data = match block.write_to_bytes() {
            Some(data) => data,
            None => {
                return false;
            },
        };
        let meta = BlockMeta {
            height: BlockHeight(block.height as u32),
            block_hash: block.hash(),
            block_time: block.time,
            sapling_outputs_count: outputs as u32,
            orchard_actions_count: 0,
        };
        let ghost before = self.meta@;
        let mut k: usize = 0;
        while k < self.meta.len() && self.meta[k].height.0 < meta.height.0
            invariant
                k <= self.meta.len(),
                *self == *old(self),
                forall|j: int|
                    0 <= j < k ==> (#[trigger] index_rows(self.meta@)[j]).height < meta.height.0,
            decreases self.meta.len() - k,
        {
            k += 1;
        }
        proof {
            let rows = index_rows(self.meta@);
            assert forall|j: int| k <= j < rows.len() implies (#[trigger] rows[j]).height
                >= meta.height.0 by {
                if k < j {
                    assert(rows[k as int].height < rows[j].height);
                }
            }
            crate::chain::lemma_rows_below_is(rows, meta.height.0 as int, k as int);
            crate::chain::lemma_upserted_ascending(
                rows,
                StoredRow { height: meta.height.0, data: None },
            );
        }
        if k < self.meta.len() && self.meta[k].height.0 == meta.height.0 {
            self.meta.set(k, meta);
            assert(index_rows(self.meta@) =~= index_rows(before).update(
                k as int,
                StoredRow { height: meta.height.0, data: None },
            ));
        } else {
            assert(k < before.len() ==> index_rows(before)[k as int].height != meta.height.0);
            self.meta.insert(k, meta);
            assert(index_rows(self.meta@) =~= index_rows(before).insert(
                k as int,
                StoredRow { height: meta.height.0, data: None },
            ));
        }
        assert(self.meta@ == index_upserted(before, meta));
        let file = BlockFile { name: meta.block_file_name(), data };
        self.files.insert(0, file);
        assert(self.files@.first() == file);
        assert(self.files@.subrange(1, self.files@.len() as int) =~= old(self).files@);
        proof {
            self.lemma_rows_ascend();
        }
        true
    }

    /// The index row at `i`, in the order of the heights.
    pub fn meta(&self, i: usize) -> (r: BlockMeta)
        requires
            i < self.index().len(),
        ensures
            r == self.index()[i as int],
    {
        self.meta[i]
    }

    /// The number of rows of the index.
    pub fn len(&self) -> (r: usize)
        ensures
            r == self.index().len(),
    {
        self.meta.len()
    }

    /// The content of the file of the name `name`, if there is one.
    pub fn file(&self, name: &String) -> (r: Option<&Vec<u8>>)
        ensures
            match file_data(self.files(), name@) {
                Some(data) => r is Some && r->Some_0@ == data,
                None => r is None,
            },
    {
        let mut i: usize = 0;
        assert(self.files@.skip(0) =~= self.files@);
        while i < self.files.len()
            invariant
                i <= self.files.len(),
                file_data(self.files@, name@) == file_data(self.files@.skip(i as int), name@),
            decreases self.files.len() - i,
        {
            proof {
                assert(self.files@.skip(i as int).first() == self.files[i as int]);
                assert(self.files@.skip(i as int).drop_first() =~= self.files@.skip(i + 1));
            }
            if self.files[i].name == *name {
                return Some(&self.files[i].data);
            }
            i += 1;
        }
        None
    }
}

/// A row that is inserted at its place keeps the index in order, where its
/// height was not in the index.
proof fn lemma_insert_keeps_order(meta: Seq<BlockMeta>, row: BlockMeta)
    requires
        index_ascending(meta),
        !indexed(meta, row.height.0 as int),
    ensures
        index_ascending(meta.insert(index_below(meta, row.height.0 as int), row)),
        0 <= index_below(meta, row.height.0 as int) <= meta.len(),
{
    let rows = index_rows(meta);
    let k = index_below(meta, row.height.0 as int);
    lemma_rows_below(rows, row.height.0 as int);
    let after = index_rows(meta.insert(k, row));
    assert forall|i: int, j: int| 0 <= i < j < after.len() implies after[i].height
        < after[j].height by {
        let hi = if i < k {
            rows[i].height
        } else if i == k {
            row.height.0
        } else {
            rows[i - 1].height
        };
        let hj = if j < k {
            rows[j].height
        } else if j == k {
            row.height.0
        } else {
            rows[j - 1].height
        };
        assert(after[i].height == hi && after[j].height == hj);
        if i < k && j > k {
            assert(rows[i].height < rows[j - 1].height || i == j - 1);
        }
        if i == k {
            assert(rows[j - 1].height >= row.height.0);
            assert(rows[j - 1].height != row.height.0);
        }
    }
}

/// Inserts a batch of rows into the index, as one unit: either every row of
/// the batch is inserted, or, where the height of a row is taken, none is and
/// the first such row is reported.
pub fn blockmetadb_insert(db: &mut FsBlockDb, block_meta: &[BlockMeta]) -> (r: Result<
    (),
    BlockMetaError,
>)
    requires
        old(db).wf(),
    ensures
        final(db).wf(),
        ascending(final(db).rows()),
        final(db).files() == old(db).files(),
        match first_conflict(old(db).index(), block_meta@) {
            Some(i) => r == Err::<(), BlockMetaError>(
                BlockMetaError::HeightTaken(block_meta@[i].height),
            ) && final(db).index() == old(db).index(),
            None => r is Ok && final(db).index() == with_batch(old(db).index(), block_meta@),
        },
{
    proof {
        db.lemma_rows_ascend();
    }
    let mut merged: Vec<BlockMeta> = Vec::new();
    let mut c: usize = 0;
    while c < db.meta.len()
        invariant
            c <= db.meta.len(),
            merged@ == db.meta@.take(c as int),
        decreases db.meta.len() - c,
    {
        merged.push(db.meta[c]);
        assert(db.meta@.take(c + 1) =~= db.meta@.take(c as int).push(db.meta@[c as int]));
        c += 1;
    }
    assert(db.meta@.take(c as int) =~= db.meta@);
    let mut i: usize = 0;
    assert(block_meta@.take(0) =~= Seq::<BlockMeta>::empty());
    while i < block_meta.len()
        invariant
            i <= block_meta.len(),
            index_ascending(merged@),
            merged@ == with_batch(db.index(), block_meta@.take(i as int)),
            first_conflict(db.index(), block_meta@.take(i as int)) is None,
            *db == *old(db),
            db.wf(),
            ascending(db.rows()),
        decreases block_meta.len() - i,
    {
        let row = block_meta[i];
        proof {
            assert(block_meta@.take(i + 1).drop_last() =~= block_meta@.take(i as int));
            assert(block_meta@.take(i + 1).last() == row);
            lemma_rows_below(index_rows(merged@), row.height.0 as int);
        }
        let mut k: usize = 0;
        while k < merged.len() && merged[k].height.0 < row.height.0
            invariant
                k <= merged.len(),
                forall|j: int| 0 <= j < k ==> (#[trigger] index_rows(merged@)[j]).height < row.height.0,
            decreases merged.len() - k,
        {
            k += 1;
        }
        proof {
            let rows = index_rows(merged@);
            assert forall|j: int| k <= j < rows.len() implies (#[trigger] rows[j]).height
                >= row.height.0 by {
                if k < j {
                    assert(rows[k as int].height < rows[j].height);
                }
            }
            crate::chain::lemma_rows_below_is(rows, row.height.0 as int, k as int);
        }
        if k < merged.len() && merged[k].height.0 == row.height.0 {
            proof {
                assert(index_rows(merged@)[k as int].height == row.height.0);
                lemma_conflict_found(db.index(), block_meta@, i as int);
            }
            return Err(BlockMetaError::HeightTaken(row.height));
        }
        proof {
            let rows = index_rows(merged@);
            if stored(rows, row.height.0 as int) {
                let j = choose|j: int|
                    0 <= j < rows.len() && (#[trigger] rows[j]).height == row.height.0;
                if j < k {
                    assert(rows[j].height < row.height.0);
                } else if j > k {
                    assert(rows[k as int].height < rows[j].height);
                }
            }
            lemma_insert_keeps_order(merged@, row);
        }
        merged.insert(k, row);
        i += 1;
    }
    assert(block_meta@.take(i as int) =~= block_meta@);
    db.meta = merged;
    proof {
        db.lemma_rows_ascend();
    }
    Ok(())
}

/// A conflict among the first rows of a batch is the first conflict of the batch.
proof fn lemma_conflict_found(meta: Seq<BlockMeta>, batch: Seq<BlockMeta>, i: int)
    requires
        0 <= i < batch.len(),
        first_conflict(meta, batch.take(i)) is None,
        indexed(with_batch(meta, batch.take(i)), batch[i].height.0 as int),
    ensures
        first_conflict(meta, batch) == Some(i),
    decreases batch.len(),
{
    if i == batch.len() - 1 {
        assert(batch.take(i) =~= batch.drop_last());
    } else {
        assert(batch.drop_last().take(i) =~= batch.take(i));
        lemma_conflict_found(meta, batch.drop_last(), i);
    }
}

/// The highest contiguous height of the index: the greatest height such that
/// every height from the lowest of the index up to it is in the index; none
/// where the index is empty.
pub fn blockmetadb_get_max_cached_height(db: &FsBlockDb) -> (r: Option<BlockHeight>)
    requires
        db.wf(),
    ensures
        db.index().len() == 0 ==> r is None,
        db.index().len() > 0 ==> r is Some && (forall|h: int|
            db.index()[0].height.0 <= h <= r->Some_0.0 ==> stored(db.rows(), h)) && !stored(
            db.rows(),
            r->Some_0.0 + 1,
        ),
{
    db.highest_contiguous_height()
}

/// What is done next while a batch is written to a database that can fail.
#[derive(Clone, Copy, Debug, PartialEq, Eq, Structural)]
pub enum BatchAction {
    /// Every row was inserted: commit.
    Commit,
    /// A row was refused: roll back.
    Rollback,
    /// The batch is written.
    Done,
    /// Nothing of the batch is written: report the error of the step that failed.
    Fail,
    /// The roll back failed too: the index cannot be trusted any more, and the
    /// process must stop.
    Abort,
}

/// What has happened while a batch was written.
#[derive(Clone, Copy, Debug, PartialEq, Eq, Structural)]
pub enum BatchEvent {
    /// The rows were inserted; whether all of them were accepted.
    Inserted(bool),
    /// The commit was tried; whether it succeeded.
    Committed(bool),
    /// The roll back was tried; whether it succeeded.
    RolledBack(bool),
}

/// Decides the next action of a batch write: rows that were all accepted are
/// committed, and a commit that fails is reported; a refused row is answered
/// by a roll back, after which its error is reported; a roll back that fails
/// is not reported but stops the process.
pub fn batch_action(event: BatchEvent) -> (r: BatchAction)
    ensures
        r == match event {
            BatchEvent::Inserted(true) => BatchAction::Commit,
            BatchEvent::Inserted(false) => BatchAction::Rollback,
            BatchEvent::Committed(true) => BatchAction::Done,
            BatchEvent::Committed(false) => BatchAction::Fail,
            BatchEvent::RolledBack(true) => BatchAction::Fail,
            BatchEvent::RolledBack(false) => BatchAction::Abort,
        },
{
    match event {
        BatchEvent::Inserted(ok) => if ok {
            BatchAction::Commit
        } else {
            BatchAction::Rollback
        },
        BatchEvent::Committed(ok) => if ok {
            BatchAction::Done
        } else {
            BatchAction::Fail
        },
        BatchEvent::RolledBack(ok) => if ok {
            BatchAction::Fail
        } else {
            BatchAction::Abort
        },
    }
}

/// `std::io::Error::from` on `ErrorKind::NotFound`: the error of a file that
/// is not there.
#[verifier::external_body]
fn file_not_found() -> std::io::Error {
    std::io::Error::from(std::io::ErrorKind::NotFound)
}

/// The error for a row of the index whose file is not there.
fn missing_file() -> (r: SqliteClientError)
    ensures
        r@ == SqliteClientErrorView::Io,
{
    SqliteClientError::Io(file_not_found())
}

impl FsBlockDb {
    /// The rows of the cache: one for each row of the index, with the content
    /// of its file.
    pub open spec fn stored_rows(&self) -> Seq<StoredRow> {
        Seq::new(self.index().len(), |i: int| row_of(self.index()[i], self.files()))
    }

    /// The rows of a cache that is in order ascend.
    pub proof fn lemma_rows_ascend(&self)
        requires
            self.wf(),
        ensures
            ascending(self.rows()),
    {
        let rows = self.rows();
        let heights = index_rows(self.index());
        assert forall|i: int, j: int| 0 <= i < j < rows.len() implies rows[i].height
            < rows[j].height by {
            assert(heights[i].height < heights[j].height);
        }
    }

    /// The greatest height such that every height from the lowest of the
    /// index up to it is in the index; none where the index is empty.
    pub fn highest_contiguous_height(&self) -> (r: Option<BlockHeight>)
        requires
            self.wf(),
        ensures
            self.index().len() == 0 ==> r is None,
            self.index().len() > 0 ==> r is Some && (forall|h: int|
                self.index()[0].height.0 <= h <= r->Some_0.0 ==> stored(self.rows(), h)) && !stored(
                self.rows(),
                r->Some_0.0 + 1,
            ),
    {
        if self.meta.len() == 0 {
            return None;
        }
        proof {
            self.lemma_rows_ascend();
        }
        let end = run_end(self, 0);
        proof {
            lemma_run_stored(self.rows(), 0, end as int);
        }
        Some(self.meta[end].height)
    }
}

impl BlockSource for FsBlockDb {
    open spec fn rows(&self) -> Seq<StoredRow> {
        self.stored_rows()
    }

    fn row_count(&self) -> (n: usize) {
        self.meta.len()
    }

    fn row_height(&self, index: usize) -> (h: BlockHeight) {
        self.meta[index].height
    }

    fn read(&self, index: usize) -> (r: Result<CompactBlock, SqliteClientError>) {
        let meta = self.meta[index];
        let name = meta.block_file_name();
        match self.file(&name) {
            None => Err(missing_file()),
            Some(data) => read_row(meta.height, data.as_slice()),
        }
    }
}

/// Traverses the blocks of the cache of block files above
/// `last_scanned_height`, lowest first, and at most `limit` of them where
/// there is a limit: for each row of the index the file of its block is
/// loaded, decoded and checked against the row's height, and the block handed
/// to `visitor`. The first row that fails, or the first visit that fails, ends
/// the traversal; no later file is read.
pub fn fsblockdb_with_blocks<V: BlockVisitor>(
    cache: &FsBlockDb,
    last_scanned_height: BlockHeight,
    limit: Option<u32>,
    visitor: &mut V,
) -> (r: Result<(), SqliteClientError>)
    requires
        cache.wf(),
        old(visitor).inv(),
    ensures
        final(visitor).inv(),
        final(visitor).context() == old(visitor).context(),
        (final(visitor).state(), failure(r)) == traversal::<V>(
            old(visitor).context(),
            old(visitor).state(),
            rows_from(cache.rows(), last_scanned_height.0 + 1, limit),
        ),
{
    proof {
        cache.lemma_rows_ascend();
    }
    with_blocks(cache, last_scanned_height, limit, visitor)
}

} // verus!
