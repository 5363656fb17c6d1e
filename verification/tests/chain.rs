use rand_core::{RngCore, SeedableRng};
use rand_xorshift::XorShiftRng;
use zcash_light_client::chain::{BlockDb, BlockSource};
use zcash_light_client::constants::{Parameters, TestNetwork};
use zcash_light_client::error::{ChainError, ChainInvalid, SqliteClientError};
use zcash_light_client::primitives::{AccountId, Amount, BlockHash, BlockHeight, Nullifier};
use zcash_light_client::proto::{
    CompactBlock, CompactSaplingOutput, CompactSaplingSpend, CompactTx,
};
use zcash_light_client::scan::{
    scan_cached_blocks, DecryptedNote, KnownOutput, KnownOutputs, NoteDecryptor,
};
use zcash_light_client::validate::validate_chain;
use zcash_light_client::wallet::{RewindPolicy, WalletDb};

fn sapling_activation_height() -> BlockHeight {
    TestNetwork {}.sapling_activation_height()
}

fn above_activation(n: u32) -> BlockHeight {
    BlockHeight(sapling_activation_height().0 + n)
}

fn policy() -> RewindPolicy {
    RewindPolicy { pruning_depth: 100, stable_checkpoint: None }
}

/// What the tests share: a source of bytes, and the outputs that belong to
/// the one account of the wallet.
struct Fixture {
    rng: XorShiftRng,
    keys: KnownOutputs,
}

impl Fixture {
    fn new() -> Fixture {
        Fixture {
            rng: XorShiftRng::from_seed([7; 16]),
            keys: KnownOutputs { outputs: vec![] },
        }
    }

    fn bytes(&mut self, n: usize) -> Vec<u8> {
        let mut out = vec![0u8; n];
        self.rng.fill_bytes(&mut out);
        out
    }

    fn bytes32(&mut self) -> [u8; 32] {
        let mut out = [0u8; 32];
        self.rng.fill_bytes(&mut out);
        out
    }

    /// An output; where `value` is given it belongs to account 0, and its
    /// nullifier is returned.
    fn output(&mut self, value: Option<Amount>) -> (CompactSaplingOutput, Nullifier) {
        let cmu = self.bytes(32);
        let nf = Nullifier(self.bytes32());
        if let Some(value) = value {
            self.keys.outputs.push(KnownOutput {
                cmu: cmu.clone(),
                note: DecryptedNote {
                    account: AccountId(0),
                    value: value.to_i64() as u64,
                    nf,
                },
            });
        }
        let output = CompactSaplingOutput { cmu, epk: self.bytes(32), ciphertext: self.bytes(52) };
        (output, nf)
    }

    /// A block with one transaction that pays `value` to the account.
    fn fake_compact_block(
        &mut self,
        height: BlockHeight,
        prev_hash: BlockHash,
        value: Amount,
    ) -> (CompactBlock, Nullifier) {
        let (output, nf) = self.output(Some(value));
        let tx = CompactTx {
            index: 0,
            hash: self.bytes(32),
            fee: 0,
            spends: vec![],
            outputs: vec![output],
        };
        let block = CompactBlock {
            proto_version: 0,
            height: height.0 as u64,
            hash: self.bytes(32),
            prev_hash: prev_hash.0.to_vec(),
            time: 0,
            header: vec![],
            vtx: vec![tx],
        };
        (block, nf)
    }

    /// A block with one transaction that spends the note of `nf`, pays
    /// `value` to someone else and gives the rest back to the account.
    fn fake_compact_block_spending(
        &mut self,
        height: BlockHeight,
        prev_hash: BlockHash,
        (nf, in_value): (Nullifier, Amount),
        value: Amount,
    ) -> CompactBlock {
        let (to_other, _) = self.output(None);
        let change = in_value.checked_sub(&value).unwrap();
        let (to_self, _) = self.output(Some(change));
        let tx = CompactTx {
            index: 0,
            hash: self.bytes(32),
            fee: 0,
            spends: vec![CompactSaplingSpend { nf: nf.0.to_vec() }],
            outputs: vec![to_other, to_self],
        };
        CompactBlock {
            proto_version: 0,
            height: height.0 as u64,
            hash: self.bytes(32),
            prev_hash: prev_hash.0.to_vec(),
            time: 0,
            header: vec![],
            vtx: vec![tx],
        }
    }
}

fn insert_into_cache(db_cache: &mut BlockDb, cb: &CompactBlock) {
    assert!(db_cache.store(cb));
}

fn amount(v: u64) -> Amount {
    Amount::from_u64(v).unwrap()
}

fn get_balance(db_data: &WalletDb, account: AccountId) -> Result<Amount, SqliteClientError> {
    db_data.get_balance(account)
}

#[test]
fn valid_chain_states() {
    let mut fx = Fixture::new();
    let mut db_cache = BlockDb::new();
    let mut db_data = WalletDb::new(sapling_activation_height());

    // Empty chain should be valid
    validate_chain(&db_cache, db_data.get_max_height_hash()).unwrap();

    // Create a fake CompactBlock sending value to the address
    let (cb, _) = fx.fake_compact_block(sapling_activation_height(), BlockHash([0; 32]), amount(5));
    insert_into_cache(&mut db_cache, &cb);

    // Cache-only chain should be valid
    validate_chain(&db_cache, db_data.get_max_height_hash()).unwrap();

    // Scan the cache
    scan_cached_blocks(&db_cache, &mut db_data, &fx.keys, None).unwrap();

    // Data-only chain should be valid
    validate_chain(&db_cache, db_data.get_max_height_hash()).unwrap();

    // Create a second fake CompactBlock sending more value to the address
    let (cb2, _) = fx.fake_compact_block(above_activation(1), cb.hash(), amount(7));
    insert_into_cache(&mut db_cache, &cb2);

    // Data+cache chain should be valid
    validate_chain(&db_cache, db_data.get_max_height_hash()).unwrap();

    // Scan the cache again
    scan_cached_blocks(&db_cache, &mut db_data, &fx.keys, None).unwrap();

    // Data-only chain should be valid
    validate_chain(&db_cache, db_data.get_max_height_hash()).unwrap();
}

#[test]
fn invalid_chain_cache_disconnected() {
    let mut fx = Fixture::new();
    let mut db_cache = BlockDb::new();
    let mut db_data = WalletDb::new(sapling_activation_height());

    // Create some fake CompactBlocks
    let (cb, _) = fx.fake_compact_block(sapling_activation_height(), BlockHash([0; 32]), amount(5));
    let (cb2, _) = fx.fake_compact_block(above_activation(1), cb.hash(), amount(7));
    insert_into_cache(&mut db_cache, &cb);
    insert_into_cache(&mut db_cache, &cb2);

    // Scan the cache
    scan_cached_blocks(&db_cache, &mut db_data, &fx.keys, None).unwrap();

    // Data-only chain should be valid
    validate_chain(&db_cache, db_data.get_max_height_hash()).unwrap();

    // Create more fake CompactBlocks that don't connect to the scanned ones
    let (cb3, _) = fx.fake_compact_block(above_activation(2), BlockHash([1; 32]), amount(8));
    let (cb4, _) = fx.fake_compact_block(above_activation(3), cb3.hash(), amount(3));
    insert_into_cache(&mut db_cache, &cb3);
    insert_into_cache(&mut db_cache, &cb4);

    // Data+cache chain should be invalid at the data/cache boundary
    match validate_chain(&db_cache, db_data.get_max_height_hash()) {
        Err(SqliteClientError::BackendError(ChainError::InvalidChain(lower_bound, _))) => {
            assert_eq!(lower_bound, above_activation(2))
        }
        _ => panic!(),
    }
}

#[test]
fn invalid_chain_cache_reorg() {
    let mut fx = Fixture::new();
    let mut db_cache = BlockDb::new();
    let mut db_data = WalletDb::new(sapling_activation_height());

    // Create some fake CompactBlocks
    let (cb, _) = fx.fake_compact_block(sapling_activation_height(), BlockHash([0; 32]), amount(5));
    let (cb2, _) = fx.fake_compact_block(above_activation(1), cb.hash(), amount(7));
    insert_into_cache(&mut db_cache, &cb);
    insert_into_cache(&mut db_cache, &cb2);

    // Scan the cache
    scan_cached_blocks(&db_cache, &mut db_data, &fx.keys, None).unwrap();

    // Data-only chain should be valid
    validate_chain(&db_cache, db_data.get_max_height_hash()).unwrap();

    // Create more fake CompactBlocks that contain a reorg
    let (cb3, _) = fx.fake_compact_block(above_activation(2), cb2.hash(), amount(8));
    let (cb4, _) = fx.fake_compact_block(above_activation(3), BlockHash([1; 32]), amount(3));
    insert_into_cache(&mut db_cache, &cb3);
    insert_into_cache(&mut db_cache, &cb4);

    // Data+cache chain should be invalid inside the cache
    match validate_chain(&db_cache, db_data.get_max_height_hash()) {
        Err(SqliteClientError::BackendError(ChainError::InvalidChain(lower_bound, _))) => {
            assert_eq!(lower_bound, above_activation(3))
        }
        _ => panic!(),
    }
}

#[test]
fn data_db_rewinding() {
    let mut fx = Fixture::new();
    let mut db_cache = BlockDb::new();
    let mut db_data = WalletDb::new(sapling_activation_height());

    // Account balance should be zero
    assert_eq!(get_balance(&db_data, AccountId(0)).unwrap(), Amount::zero());

    // Create fake CompactBlocks sending value to the address
    let value = amount(5);
    let value2 = amount(7);
    let (cb, _) = fx.fake_compact_block(sapling_activation_height(), BlockHash([0; 32]), value);

    let (cb2, _) = fx.fake_compact_block(above_activation(1), cb.hash(), value2);
    insert_into_cache(&mut db_cache, &cb);
    insert_into_cache(&mut db_cache, &cb2);

    // Scan the cache
    scan_cached_blocks(&db_cache, &mut db_data, &fx.keys, None).unwrap();

    // Account balance should reflect both received notes
    assert_eq!(
        get_balance(&db_data, AccountId(0)).unwrap(),
        value.checked_add(&value2).unwrap()
    );

    // "Rewind" to height of last scanned block
    db_data.rewind_to_height(above_activation(1), &policy()).unwrap();

    // Account balance should be unaltered
    assert_eq!(
        get_balance(&db_data, AccountId(0)).unwrap(),
        value.checked_add(&value2).unwrap()
    );

    // Rewind so that one block is dropped
    db_data.rewind_to_height(sapling_activation_height(), &policy()).unwrap();

    // Account balance should only contain the first received note
    assert_eq!(get_balance(&db_data, AccountId(0)).unwrap(), value);

    // Scan the cache again
    scan_cached_blocks(&db_cache, &mut db_data, &fx.keys, None).unwrap();

    // Account balance should again reflect both received notes
    assert_eq!(
        get_balance(&db_data, AccountId(0)).unwrap(),
        value.checked_add(&value2).unwrap()
    );
}

#[test]
fn scan_cached_blocks_requires_sequential_blocks() {
    let mut fx = Fixture::new();
    let mut db_cache = BlockDb::new();
    let mut db_data = WalletDb::new(sapling_activation_height());

    // Create a block with height SAPLING_ACTIVATION_HEIGHT
    let value = amount(50000);
    let (cb1, _) = fx.fake_compact_block(sapling_activation_height(), BlockHash([0; 32]), value);
    insert_into_cache(&mut db_cache, &cb1);
    scan_cached_blocks(&db_cache, &mut db_data, &fx.keys, None).unwrap();
    assert_eq!(get_balance(&db_data, AccountId(0)).unwrap(), value);

    // We cannot scan a block of height SAPLING_ACTIVATION_HEIGHT + 2 next
    let (cb2, _) = fx.fake_compact_block(above_activation(1), cb1.hash(), value);
    let (cb3, _) = fx.fake_compact_block(above_activation(2), cb2.hash(), value);
    insert_into_cache(&mut db_cache, &cb3);
    match scan_cached_blocks(&db_cache, &mut db_data, &fx.keys, None) {
        Err(SqliteClientError::BackendError(e)) => {
            assert_eq!(
                e.to_string(),
                ChainInvalid::block_height_discontinuity(above_activation(1), above_activation(2))
                    .to_string()
            );
        }
        Ok(_) | Err(_) => panic!("Should have failed"),
    }

    // If we add a block of height SAPLING_ACTIVATION_HEIGHT + 1, we can now scan both
    insert_into_cache(&mut db_cache, &cb2);
    scan_cached_blocks(&db_cache, &mut db_data, &fx.keys, None).unwrap();
    assert_eq!(get_balance(&db_data, AccountId(0)).unwrap(), amount(150_000));
}

#[test]
fn scan_cached_blocks_finds_received_notes() {
    let mut fx = Fixture::new();
    let mut db_cache = BlockDb::new();
    let mut db_data = WalletDb::new(sapling_activation_height());

    // Account balance should be zero
    assert_eq!(get_balance(&db_data, AccountId(0)).unwrap(), Amount::zero());

    // Create a fake CompactBlock sending value to the address
    let value = amount(5);
    let (cb, _) = fx.fake_compact_block(sapling_activation_height(), BlockHash([0; 32]), value);
    insert_into_cache(&mut db_cache, &cb);

    // Scan the cache
    scan_cached_blocks(&db_cache, &mut db_data, &fx.keys, None).unwrap();

    // Account balance should reflect the received note
    assert_eq!(get_balance(&db_data, AccountId(0)).unwrap(), value);

    // Create a second fake CompactBlock sending more value to the address
    let value2 = amount(7);
    let (cb2, _) = fx.fake_compact_block(above_activation(1), cb.hash(), value2);
    insert_into_cache(&mut db_cache, &cb2);

    // Scan the cache again
    scan_cached_blocks(&db_cache, &mut db_data, &fx.keys, None).unwrap();

    // Account balance should reflect both received notes
    assert_eq!(
        get_balance(&db_data, AccountId(0)).unwrap(),
        value.checked_add(&value2).unwrap()
    );
}

#[test]
fn scan_cached_blocks_finds_change_notes() {
    let mut fx = Fixture::new();
    let mut db_cache = BlockDb::new();
    let mut db_data = WalletDb::new(sapling_activation_height());

    // Account balance should be zero
    assert_eq!(get_balance(&db_data, AccountId(0)).unwrap(), Amount::zero());

    // Create a fake CompactBlock sending value to the address
    let value = amount(5);
    let (cb, nf) = fx.fake_compact_block(sapling_activation_height(), BlockHash([0; 32]), value);
    insert_into_cache(&mut db_cache, &cb);

    // Scan the cache
    scan_cached_blocks(&db_cache, &mut db_data, &fx.keys, None).unwrap();

    // Account balance should reflect the received note
    assert_eq!(get_balance(&db_data, AccountId(0)).unwrap(), value);

    // Create a second fake CompactBlock spending value from the address
    let value2 = amount(2);
    let spending =
        fx.fake_compact_block_spending(above_activation(1), cb.hash(), (nf, value), value2);
    insert_into_cache(&mut db_cache, &spending);

    // Scan the cache again
    scan_cached_blocks(&db_cache, &mut db_data, &fx.keys, None).unwrap();

    // Account balance should equal the change
    assert_eq!(
        get_balance(&db_data, AccountId(0)).unwrap(),
        value.checked_sub(&value2).unwrap()
    );
}

#[test]
fn rescan_after_rewind_gives_the_same_wallet() {
    let mut fx = Fixture::new();
    let mut db_cache = BlockDb::new();
    let mut db_data = WalletDb::new(sapling_activation_height());
    let (cb, nf) = fx.fake_compact_block(sapling_activation_height(), BlockHash([0; 32]), amount(5));
    let cb2 = fx.fake_compact_block_spending(above_activation(1), cb.hash(), (nf, amount(5)), amount(2));
    let (cb3, _) = fx.fake_compact_block(above_activation(2), cb2.hash(), amount(11));
    insert_into_cache(&mut db_cache, &cb);
    insert_into_cache(&mut db_cache, &cb2);
    insert_into_cache(&mut db_cache, &cb3);

    scan_cached_blocks(&db_cache, &mut db_data, &fx.keys, Some(1)).unwrap();
    let after_first = db_data.clone();
    assert_eq!(get_balance(&db_data, AccountId(0)).unwrap(), amount(5));

    scan_cached_blocks(&db_cache, &mut db_data, &fx.keys, None).unwrap();
    let after_all = db_data.clone();
    assert_eq!(get_balance(&db_data, AccountId(0)).unwrap(), amount(14));
    assert_eq!(db_data.get_max_height_hash(), Some((above_activation(2), cb3.hash())));
    // The spent note, its change and the later note, at their positions.
    let notes = db_data.notes();
    assert_eq!(notes.len(), 3);
    assert_eq!(notes[0].position, 0);
    assert_eq!(notes[0].spent, Some((above_activation(1), cb2.vtx[0].txid())));
    assert_eq!(notes[1].position, 2);
    assert_eq!(notes[1].value, 3);
    assert_eq!(notes[2].position, 3);
    assert_eq!(db_data.blocks()[2].tree_size, 4);

    // The rewind gives back the wallet as it was after the first block.
    db_data.rewind_to_height(sapling_activation_height(), &policy()).unwrap();
    assert_eq!(db_data, after_first);
    assert_eq!(get_balance(&db_data, AccountId(0)).unwrap(), amount(5));

    // And the second scan gives the same wallet as the first.
    scan_cached_blocks(&db_cache, &mut db_data, &fx.keys, None).unwrap();
    assert_eq!(db_data, after_all);

    // A rewind below the first scanned block forgets everything.
    db_data.rewind_to_height(BlockHeight(sapling_activation_height().0 - 1), &policy()).unwrap();
    assert_eq!(db_data, WalletDb::new(sapling_activation_height()));
    assert_eq!(get_balance(&db_data, AccountId(0)).unwrap(), Amount::zero());
}

#[test]
fn scan_stops_before_a_gap_and_keeps_the_block_before_it() {
    let mut fx = Fixture::new();
    let mut db_cache = BlockDb::new();
    let mut db_data = WalletDb::new(sapling_activation_height());
    let (cb1, _) = fx.fake_compact_block(sapling_activation_height(), BlockHash([0; 32]), amount(4));
    let (cb2, _) = fx.fake_compact_block(above_activation(1), cb1.hash(), amount(5));
    let (cb3, _) = fx.fake_compact_block(above_activation(2), cb2.hash(), amount(6));
    insert_into_cache(&mut db_cache, &cb1);
    insert_into_cache(&mut db_cache, &cb3);
    match scan_cached_blocks(&db_cache, &mut db_data, &fx.keys, None) {
        Err(SqliteClientError::BackendError(ChainError::InvalidChain(at, cause))) => {
            assert_eq!(at, above_activation(1));
            assert_eq!(cause, ChainInvalid::BlockHeightDiscontinuity(above_activation(2)));
        }
        _ => panic!(),
    }
    assert_eq!(db_data.get_max_height_hash(), Some((sapling_activation_height(), cb1.hash())));
    assert_eq!(get_balance(&db_data, AccountId(0)).unwrap(), amount(4));
}

#[test]
fn rewind_is_bounded_by_the_policy() {
    let mut fx = Fixture::new();
    let mut db_cache = BlockDb::new();
    let start = BlockHeight(1000);
    let mut db_data = WalletDb::new(start);
    let mut prev = BlockHash([0; 32]);
    for i in 0..10u32 {
        let (cb, _) = fx.fake_compact_block(BlockHeight(1000 + i), prev, amount(1));
        prev = cb.hash();
        insert_into_cache(&mut db_cache, &cb);
    }
    scan_cached_blocks(&db_cache, &mut db_data, &fx.keys, None).unwrap();
    assert_eq!(get_balance(&db_data, AccountId(0)).unwrap(), amount(10));
    let before = db_data.clone();

    let strict = RewindPolicy { pruning_depth: 3, stable_checkpoint: Some(BlockHeight(1002)) };
    match db_data.rewind_to_height(BlockHeight(1005), &strict) {
        Err(SqliteClientError::RequestedRewindInvalid(safe, requested)) => {
            assert_eq!(safe, BlockHeight(1006));
            assert_eq!(requested, BlockHeight(1005));
        }
        _ => panic!(),
    }
    assert_eq!(db_data, before);

    // The lowest height within the depth.
    db_data.rewind_to_height(BlockHeight(1006), &strict).unwrap();
    assert_eq!(get_balance(&db_data, AccountId(0)).unwrap(), amount(7));
    assert_eq!(db_data.get_max_height_hash().unwrap().0, BlockHeight(1006));

    // The stable checkpoint can be reached from any height.
    db_data.rewind_to_height(BlockHeight(1002), &strict).unwrap();
    assert_eq!(get_balance(&db_data, AccountId(0)).unwrap(), amount(3));

    // A target above the highest scanned block changes nothing.
    let kept = db_data.clone();
    db_data.rewind_to_height(BlockHeight(5000), &strict).unwrap();
    assert_eq!(db_data, kept);
}

#[test]
fn validation_walks_to_the_first_gap_only() {
    let mut fx = Fixture::new();
    let mut db_cache = BlockDb::new();
    let (cb1, _) = fx.fake_compact_block(BlockHeight(10), BlockHash([0; 32]), amount(1));
    let (cb2, _) = fx.fake_compact_block(BlockHeight(11), cb1.hash(), amount(1));
    // Above a gap, a block that names a parent that is not there.
    let (cb4, _) = fx.fake_compact_block(BlockHeight(13), BlockHash([9; 32]), amount(1));
    let (cb5, _) = fx.fake_compact_block(BlockHeight(14), BlockHash([8; 32]), amount(1));
    for cb in [&cb1, &cb2, &cb4, &cb5] {
        insert_into_cache(&mut db_cache, cb);
    }
    validate_chain(&db_cache, None).unwrap();
    validate_chain(&db_cache, Some((BlockHeight(9), BlockHash([0; 32])))).unwrap();
    // No block just above the wallet's: nothing to check.
    validate_chain(&db_cache, Some((BlockHeight(11), BlockHash([5; 32])))).unwrap();
    // A cache that lies below the wallet's highest block is valid.
    validate_chain(&db_cache, Some((BlockHeight(20), BlockHash([5; 32])))).unwrap();
    match validate_chain(&db_cache, Some((BlockHeight(12), cb2.hash()))) {
        Err(SqliteClientError::BackendError(ChainError::InvalidChain(at, cause))) => {
            assert_eq!(at, BlockHeight(13));
            assert_eq!(cause, ChainInvalid::PrevHashMismatch);
        }
        _ => panic!(),
    }
    match validate_chain(&db_cache, Some((BlockHeight(9), BlockHash([1; 32])))) {
        Err(SqliteClientError::BackendError(e)) => {
            assert_eq!(e.to_string(), "Invalid chain (upper bound: 10): PrevHashMismatch");
        }
        _ => panic!(),
    }
    assert_eq!(
        ChainInvalid::block_height_discontinuity(BlockHeight(280001), BlockHeight(280002))
            .to_string(),
        "Invalid chain (upper bound: 280001): BlockHeightDiscontinuity(BlockHeight(280002))"
    );
}

#[test]
fn corrupted_rows_end_a_traversal() {
    let mut fx = Fixture::new();
    let mut db_cache = BlockDb::new();
    let mut db_data = WalletDb::new(BlockHeight(10));
    let (cb1, _) = fx.fake_compact_block(BlockHeight(10), BlockHash([0; 32]), amount(1));
    let (cb2, _) = fx.fake_compact_block(BlockHeight(11), cb1.hash(), amount(2));
    insert_into_cache(&mut db_cache, &cb1);
    // The block of height 11 under the key 12, and bytes that are no block under 13.
    db_cache.insert(BlockHeight(11), cb2.write_to_bytes().unwrap());
    db_cache.insert(BlockHeight(12), cb2.write_to_bytes().unwrap());
    db_cache.insert(BlockHeight(13), vec![0xff, 0xff, 0xff]);
    assert_eq!(db_cache.row_count(), 4);
    match scan_cached_blocks(&db_cache, &mut db_data, &fx.keys, None) {
        Err(SqliteClientError::CorruptedData(reason)) => {
            assert_eq!(reason, "Block height 11 did not match row's height field value 12");
        }
        _ => panic!(),
    }
    assert_eq!(db_data.get_max_height_hash().unwrap().0, BlockHeight(11));
    assert_eq!(get_balance(&db_data, AccountId(0)).unwrap(), amount(3));
    // With the limit of two rows the corrupted row is not read.
    let mut fresh = WalletDb::new(BlockHeight(10));
    scan_cached_blocks(&db_cache, &mut fresh, &fx.keys, Some(2)).unwrap();
    assert_eq!(fresh, db_data);
    // The validation reads the rows whose heights follow each other, and so
    // meets the corrupted row.
    assert!(matches!(
        validate_chain(&db_cache, None),
        Err(SqliteClientError::CorruptedData(_))
    ));
    let mut wallet_at_12 = WalletDb::new(BlockHeight(13));
    assert!(matches!(
        scan_cached_blocks(&db_cache, &mut wallet_at_12, &fx.keys, None),
        Err(SqliteClientError::BackendError(ChainError::Protobuf(_)))
    ));
}

#[test]
fn blocks_without_identifiers_are_refused() {
    let mut fx = Fixture::new();
    let mut db_cache = BlockDb::new();
    let mut db_data = WalletDb::new(BlockHeight(10));
    let (mut cb1, _) = fx.fake_compact_block(BlockHeight(10), BlockHash([0; 32]), amount(1));
    cb1.vtx[0].hash = vec![1, 2, 3];
    insert_into_cache(&mut db_cache, &cb1);
    match scan_cached_blocks(&db_cache, &mut db_data, &fx.keys, None) {
        Err(SqliteClientError::CorruptedData(reason)) => {
            assert_eq!(reason, "Block 10 lacks a hash or an identifier of 32 bytes");
        }
        _ => panic!(),
    }
    assert!(db_data.is_empty());
    let (mut cb2, _) = fx.fake_compact_block(BlockHeight(10), BlockHash([0; 32]), amount(1));
    cb2.hash = vec![];
    insert_into_cache(&mut db_cache, &cb2);
    assert!(matches!(
        validate_chain(&db_cache, None),
        Err(SqliteClientError::CorruptedData(_))
    ));
}

#[test]
fn store_overwrites_and_keeps_order() {
    let mut fx = Fixture::new();
    let mut db_cache = BlockDb::new();
    assert_eq!(db_cache.highest_contiguous_height(), None);
    let (cb0, _) = fx.fake_compact_block(BlockHeight(0), BlockHash([0; 32]), amount(1));
    let (cb1, _) = fx.fake_compact_block(BlockHeight(1), cb0.hash(), amount(1));
    let (cb3, _) = fx.fake_compact_block(BlockHeight(3), cb1.hash(), amount(1));
    insert_into_cache(&mut db_cache, &cb3);
    assert_eq!(db_cache.highest_contiguous_height(), None);
    insert_into_cache(&mut db_cache, &cb1);
    insert_into_cache(&mut db_cache, &cb0);
    assert_eq!(db_cache.highest_contiguous_height(), Some(BlockHeight(1)));
    assert_eq!(db_cache.len(), 3);
    assert_eq!(db_cache.row(0).height, BlockHeight(0));
    assert_eq!(db_cache.row(2).height, BlockHeight(3));
    let (other, _) = fx.fake_compact_block(BlockHeight(1), cb0.hash(), amount(9));
    insert_into_cache(&mut db_cache, &other);
    assert_eq!(db_cache.len(), 3);
    assert_eq!(db_cache.row(1).data, other.write_to_bytes().unwrap());
    assert_eq!(db_cache.read(1).unwrap(), other);
    let mut too_high = other.clone();
    too_high.height = 1 << 32;
    assert!(!db_cache.store(&too_high));
    assert_eq!(db_cache.len(), 3);
}

#[test]
fn balance_above_the_money_supply_is_corrupted_data() {
    let mut fx = Fixture::new();
    let mut db_cache = BlockDb::new();
    let mut db_data = WalletDb::new(BlockHeight(1));
    let (cb1, _) = fx.fake_compact_block(BlockHeight(1), BlockHash([0; 32]), Amount::from_i64(2_100_000_000_000_000).unwrap());
    let (cb2, _) = fx.fake_compact_block(BlockHeight(2), cb1.hash(), amount(1));
    insert_into_cache(&mut db_cache, &cb1);
    insert_into_cache(&mut db_cache, &cb2);
    scan_cached_blocks(&db_cache, &mut db_data, &fx.keys, Some(1)).unwrap();
    assert_eq!(get_balance(&db_data, AccountId(0)).unwrap().to_i64(), 2_100_000_000_000_000);
    scan_cached_blocks(&db_cache, &mut db_data, &fx.keys, None).unwrap();
    match get_balance(&db_data, AccountId(0)) {
        Err(SqliteClientError::CorruptedData(reason)) => {
            assert_eq!(reason, "Sum of values in received_notes is out of range");
        }
        _ => panic!(),
    }
    assert_eq!(get_balance(&db_data, AccountId(1)).unwrap(), Amount::zero());
}

#[test]
fn wallet_is_restored_from_consistent_parts_only() {
    let mut fx = Fixture::new();
    let mut db_cache = BlockDb::new();
    let mut db_data = WalletDb::new(BlockHeight(10));
    let (cb1, nf) = fx.fake_compact_block(BlockHeight(10), BlockHash([0; 32]), amount(5));
    let cb2 = fx.fake_compact_block_spending(BlockHeight(11), cb1.hash(), (nf, amount(5)), amount(1));
    insert_into_cache(&mut db_cache, &cb1);
    insert_into_cache(&mut db_cache, &cb2);
    scan_cached_blocks(&db_cache, &mut db_data, &fx.keys, None).unwrap();

    let blocks = db_data.blocks().clone();
    let notes = db_data.notes().clone();
    assert_eq!(
        WalletDb::restore(BlockHeight(10), blocks.clone(), notes.clone()),
        Some(db_data.clone())
    );
    assert_eq!(db_data.start_height(), BlockHeight(10));
    // Another first height, a missing block, a note above the blocks, and a
    // note that was spent before it was found.
    assert_eq!(WalletDb::restore(BlockHeight(9), blocks.clone(), notes.clone()), None);
    assert_eq!(WalletDb::restore(BlockHeight(10), blocks[1..].to_vec(), vec![]), None);
    assert_eq!(WalletDb::restore(BlockHeight(10), blocks[..1].to_vec(), notes.clone()), None);
    let mut early = notes.clone();
    early[1].spent = Some((BlockHeight(10), early[1].txid));
    assert_eq!(WalletDb::restore(BlockHeight(10), blocks.clone(), early), None);
    let mut full = blocks.clone();
    full[1].tree_size = (1 << 32) + 1;
    assert_eq!(WalletDb::restore(BlockHeight(10), full, notes.clone()), None);
    assert_eq!(
        WalletDb::restore(BlockHeight(u32::MAX), vec![], vec![]),
        Some(WalletDb::new(BlockHeight(u32::MAX)))
    );
}

#[test]
fn the_first_known_output_of_a_commitment_counts() {
    let note = |v: u64| DecryptedNote { account: AccountId(v as u32), value: v, nf: Nullifier([v as u8; 32]) };
    let keys = KnownOutputs {
        outputs: vec![
            KnownOutput { cmu: vec![1; 32], note: note(1) },
            KnownOutput { cmu: vec![2; 32], note: note(2) },
            KnownOutput { cmu: vec![1; 32], note: note(3) },
        ],
    };
    let output = |c: u8| CompactSaplingOutput { cmu: vec![c; 32], epk: vec![], ciphertext: vec![] };
    assert_eq!(keys.try_decrypt(&output(1), 0), Some(note(1)));
    assert_eq!(keys.try_decrypt(&output(2), 7), Some(note(2)));
    assert_eq!(keys.try_decrypt(&output(3), 0), None);
}

#[test]
fn a_full_commitment_tree_takes_no_more_outputs() {
    let mut fx = Fixture::new();
    let mut db_cache = BlockDb::new();
    let (cb1, _) = fx.fake_compact_block(BlockHeight(10), BlockHash([0; 32]), amount(5));
    let (cb2, _) = fx.fake_compact_block(BlockHeight(11), cb1.hash(), amount(6));
    let (cb3, _) = fx.fake_compact_block(BlockHeight(12), cb2.hash(), amount(7));
    insert_into_cache(&mut db_cache, &cb1);
    insert_into_cache(&mut db_cache, &cb2);
    insert_into_cache(&mut db_cache, &cb3);
    let almost_full = vec![zcash_light_client::wallet::ScannedBlock {
        height: BlockHeight(10),
        hash: cb1.hash(),
        tree_size: (1 << 32) - 1,
    }];
    let mut db_data = WalletDb::restore(BlockHeight(10), almost_full, vec![]).unwrap();
    match scan_cached_blocks(&db_cache, &mut db_data, &fx.keys, None) {
        Err(e @ SqliteClientError::CorruptedData(_)) => {
            assert_eq!(e.to_string(), "Data DB is corrupted: Note commitment tree is full");
        }
        _ => panic!(),
    }
    // The last place was taken by the block of height 11.
    assert_eq!(db_data.get_max_height_hash(), Some((BlockHeight(11), cb2.hash())));
    assert_eq!(db_data.tree_size(), 1 << 32);
    assert_eq!(db_data.notes()[0].position, (1 << 32) - 1);
}
