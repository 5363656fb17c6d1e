use protobuf::CodedOutputStream;
use sha2::{Digest, Sha256};
use zcash_light_client::block::BlockHeader;
use zcash_light_client::primitives::{BlockHash, BlockHeight, Nullifier, TxId};
use zcash_light_client::proto::{
    CompactBlock, CompactOutputDescription, CompactSaplingOutput, CompactSaplingSpend, CompactTx,
    EphemeralKeyBytes, NoteCommitment,
};
use zcash_light_client::wire::{parse_output, parse_spend, parse_tx};

fn sample_tx(n: u8) -> CompactTx {
    CompactTx {
        index: n as u64,
        hash: vec![n; 32],
        fee: 1000 + n as u32,
        spends: vec![
            CompactSaplingSpend { nf: vec![n; 32] },
            CompactSaplingSpend { nf: vec![n + 1; 32] },
        ],
        outputs: vec![CompactSaplingOutput {
            cmu: vec![n; 32],
            epk: vec![n + 2; 32],
            ciphertext: vec![n + 3; 52],
        }],
    }
}

fn sample_block() -> CompactBlock {
    CompactBlock {
        proto_version: 1,
        height: 419_200,
        hash: vec![0xaa; 32],
        prev_hash: vec![0xbb; 32],
        time: 1_540_000_000,
        header: vec![],
        vtx: vec![sample_tx(1), sample_tx(7)],
    }
}

/// The block written with the writer of the `protobuf` crate alone.
fn written_by_protobuf(block: &CompactBlock, extra: bool) -> Vec<u8> {
    fn nested(f: impl FnOnce(&mut CodedOutputStream)) -> Vec<u8> {
        let mut v = Vec::new();
        {
            let mut os = CodedOutputStream::vec(&mut v);
            f(&mut os);
            os.flush().unwrap();
        }
        v
    }
    nested(|os| {
        os.write_uint32(1, block.proto_version).unwrap();
        os.write_uint64(2, block.height).unwrap();
        os.write_bytes(3, &block.hash).unwrap();
        if extra {
            // Fields that a reader of this format does not know.
            os.write_uint64(15, 77).unwrap();
            os.write_bytes(16, &[1, 2, 3]).unwrap();
            os.write_fixed32(17, 5).unwrap();
            os.write_fixed64(18, 6).unwrap();
        }
        os.write_bytes(4, &block.prev_hash).unwrap();
        os.write_uint32(5, block.time).unwrap();
        for tx in &block.vtx {
            let tx_bytes = nested(|os| {
                os.write_uint64(1, tx.index).unwrap();
                os.write_bytes(2, &tx.hash).unwrap();
                os.write_uint32(3, tx.fee).unwrap();
                for spend in &tx.spends {
                    let b = nested(|os| os.write_bytes(1, &spend.nf).unwrap());
                    os.write_bytes(4, &b).unwrap();
                }
                for output in &tx.outputs {
                    let b = nested(|os| {
                        os.write_bytes(1, &output.cmu).unwrap();
                        os.write_bytes(2, &output.epk).unwrap();
                        os.write_bytes(3, &output.ciphertext).unwrap();
                    });
                    os.write_bytes(5, &b).unwrap();
                }
                if extra {
                    // An action of another pool, which this reader passes over.
                    os.write_bytes(6, &[0x0a, 0x01, 0x05]).unwrap();
                }
            });
            os.write_bytes(7, &tx_bytes).unwrap();
        }
    })
}

#[test]
fn blocks_are_written_as_the_wire_format_asks() {
    let block = sample_block();
    assert_eq!(block.write_to_bytes().unwrap(), written_by_protobuf(&block, false));
    // Fields at their default are not written.
    let empty = CompactBlock {
        proto_version: 0,
        height: 0,
        hash: vec![],
        prev_hash: vec![],
        time: 0,
        header: vec![],
        vtx: vec![],
    };
    assert_eq!(empty.write_to_bytes().unwrap(), Vec::<u8>::new());
    assert_eq!(CompactBlock::parse_from_bytes(&[]).unwrap(), empty);
    let bare_tx =
        CompactTx { index: 0, hash: vec![], fee: 0, spends: vec![], outputs: vec![] };
    let with_bare = CompactBlock { vtx: vec![bare_tx], ..empty.clone() };
    assert_eq!(with_bare.write_to_bytes().unwrap(), vec![0x3a, 0x00]);
    assert_eq!(CompactBlock::parse_from_bytes(&[0x3a, 0x00]).unwrap(), with_bare);
}

#[test]
fn blocks_are_read_back_and_unknown_fields_passed_over() {
    let block = sample_block();
    let bytes = block.write_to_bytes().unwrap();
    assert_eq!(CompactBlock::parse_from_bytes(&bytes).unwrap(), block);
    assert_eq!(
        CompactBlock::parse_from_bytes(&written_by_protobuf(&block, true)).unwrap(),
        block
    );
    let tx = sample_tx(3);
    assert_eq!(parse_tx(&tx.write_to_bytes().unwrap()).unwrap(), tx);
    assert_eq!(
        parse_spend(&tx.spends[0].write_to_bytes().unwrap()).unwrap(),
        tx.spends[0]
    );
    assert_eq!(
        parse_output(&tx.outputs[0].write_to_bytes().unwrap()).unwrap(),
        tx.outputs[0]
    );
    // A later value of a field takes the place of an earlier one, and a
    // height of more than 32 bits is kept.
    let twice = [0x10, 0x05, 0x10, 0x80, 0x80, 0x80, 0x80, 0x10];
    assert_eq!(CompactBlock::parse_from_bytes(&twice).unwrap().height, 1 << 32);
    // A 32-bit field keeps the low 32 bits.
    let wide = [0x28, 0x81, 0x80, 0x80, 0x80, 0x10];
    assert_eq!(CompactBlock::parse_from_bytes(&wide).unwrap().time, 1);
}

#[test]
fn malformed_bytes_are_no_block() {
    let bytes = sample_block().write_to_bytes().unwrap();
    // Cut short.
    assert!(CompactBlock::parse_from_bytes(&bytes[..bytes.len() - 1]).is_err());
    // The height as a byte string.
    assert!(CompactBlock::parse_from_bytes(&[0x12, 0x01, 0x00]).is_err());
    // The hash as an integer.
    assert!(CompactBlock::parse_from_bytes(&[0x18, 0x01]).is_err());
    // The field number zero.
    assert!(CompactBlock::parse_from_bytes(&[0x00, 0x01]).is_err());
    // A transaction whose spend is cut short.
    assert!(CompactBlock::parse_from_bytes(&[0x3a, 0x03, 0x22, 0x05, 0x0a]).is_err());
    // An integer of more than ten bytes.
    assert!(CompactBlock::parse_from_bytes(&[0x10, 0xff, 0xff, 0xff, 0xff, 0xff, 0xff, 0xff, 0xff, 0xff, 0xff, 0x01]).is_err());
    // The end of a group that was not begun.
    assert!(CompactBlock::parse_from_bytes(&[0x7c]).is_err());
    // A group of an unknown field is passed over.
    assert_eq!(
        CompactBlock::parse_from_bytes(&[0x7b, 0x08, 0x01, 0x7c, 0x10, 0x09]).unwrap().height,
        9
    );
}

fn header_bytes(solution: &[u8], prefix: &[u8]) -> Vec<u8> {
    let mut h = vec![];
    h.extend_from_slice(&4i32.to_le_bytes());
    h.extend_from_slice(&[0x11; 32]);
    h.extend_from_slice(&[0x22; 32]);
    h.extend_from_slice(&[0x33; 32]);
    h.extend_from_slice(&1_540_000_000u32.to_le_bytes());
    h.extend_from_slice(&0x1f07ffffu32.to_le_bytes());
    h.extend_from_slice(&[0x44; 32]);
    h.extend_from_slice(prefix);
    h.extend_from_slice(solution);
    h
}

fn double_sha256(data: &[u8]) -> [u8; 32] {
    let once = Sha256::digest(data);
    let twice = Sha256::digest(&once);
    let mut out = [0u8; 32];
    out.copy_from_slice(&twice);
    out
}

#[test]
fn header_gives_the_hashes_of_a_block() {
    let solution = vec![0x5a; 1344];
    let header = header_bytes(&solution, &[0xfd, 0x40, 0x05]);
    assert_eq!(header.len(), 1487);
    let parsed = BlockHeader::read(&header).unwrap();
    assert_eq!(parsed.hash(), BlockHash(double_sha256(&header)));
    assert_eq!(parsed.prev_block(), BlockHash([0x11; 32]));
    // What follows the header is left alone.
    let mut longer = header.clone();
    longer.extend_from_slice(&[1, 2, 3]);
    assert_eq!(BlockHeader::read(&longer).unwrap(), parsed);

    let with_header = CompactBlock {
        proto_version: 1,
        height: 5,
        hash: vec![0xaa; 32],
        prev_hash: vec![],
        time: 0,
        header: header.clone(),
        vtx: vec![],
    };
    assert_eq!(with_header.header(), Some(parsed));
    // The hash field counts where there is one; the header stands in for
    // the field of the parent's hash, which is missing.
    assert_eq!(with_header.hash(), BlockHash([0xaa; 32]));
    assert_eq!(with_header.prev_hash(), BlockHash([0x11; 32]));
    assert_eq!(with_header.height(), BlockHeight(5));
    assert!(with_header.names_hash() && with_header.names_parent());
    assert!(with_header.is_well_formed());

    // Without a hash field the header gives the hash.
    let header_only = CompactBlock { hash: vec![], ..with_header.clone() };
    assert_eq!(header_only.hash(), BlockHash(double_sha256(&header)));
    assert!(header_only.is_well_formed());
    // A hash field of another length is no hash, header or not.
    let short = CompactBlock { hash: vec![0xaa; 31], ..with_header.clone() };
    assert!(!short.names_hash());
    assert!(!short.is_well_formed());

    // A header that cannot be read stands in for nothing.
    let broken = CompactBlock { header: vec![1, 2, 3], prev_hash: vec![0xbb; 32], ..with_header };
    assert_eq!(broken.header(), None);
    assert_eq!(broken.hash(), BlockHash([0xaa; 32]));
    assert_eq!(broken.prev_hash(), BlockHash([0xbb; 32]));
    let without = CompactBlock { prev_hash: vec![], ..broken };
    assert!(!without.names_parent());
    assert!(!without.is_well_formed());
}

#[test]
fn header_length_prefix_must_be_the_shortest() {
    // A short solution under a one-byte prefix.
    assert!(BlockHeader::read(&header_bytes(&[7; 3], &[3])).is_some());
    assert!(BlockHeader::read(&header_bytes(&[], &[0])).is_some());
    // The same count under a longer prefix.
    assert!(BlockHeader::read(&header_bytes(&[7; 3], &[0xfd, 3, 0])).is_none());
    assert!(BlockHeader::read(&header_bytes(&[7; 300], &[0xfe, 0x2c, 1, 0, 0])).is_none());
    assert!(BlockHeader::read(&header_bytes(&[7; 300], &[0xfd, 0x2c, 1])).is_some());
    assert!(BlockHeader::read(&header_bytes(&vec![7; 0x10000], &[0xfe, 0, 0, 1, 0])).is_some());
    // Fewer solution bytes than announced, and no prefix at all.
    assert!(BlockHeader::read(&header_bytes(&[7; 2], &[3])).is_none());
    assert!(BlockHeader::read(&header_bytes(&[], &[])).is_none());
    assert!(BlockHeader::read(&[0; 100]).is_none());
    // Counts of eight bytes are too large or not the shortest.
    assert!(BlockHeader::read(&header_bytes(&[7; 3], &[0xff, 3, 0, 0, 0, 0, 0, 0, 0])).is_none());
    // A count above the limit.
    assert!(BlockHeader::read(&header_bytes(&[7; 3], &[0xfe, 1, 0, 0, 2])).is_none());
}

#[test]
fn identifiers_have_32_bytes() {
    let tx = sample_tx(4);
    assert_eq!(tx.txid(), TxId([4; 32]));
    assert_eq!(tx.spends[1].nf(), Ok(Nullifier([5; 32])));
    assert_eq!(CompactSaplingSpend { nf: vec![1; 31] }.nf(), Err(()));
    assert_eq!(CompactSaplingSpend { nf: vec![] }.nf(), Err(()));
}

#[test]
fn note_commitments_are_scalars() {
    let five = bls12_381::Scalar::from(5u64);
    let mut repr = [0u8; 32];
    repr[0] = 5;
    assert_eq!(five.to_bytes(), repr);
    let cmu = NoteCommitment::from_repr(repr).unwrap();
    assert_eq!(cmu.to_repr(), repr);
    let key = EphemeralKeyBytes([9; 32]);
    let mut enc = vec![0u8; 580];
    for (i, b) in enc.iter_mut().enumerate() {
        *b = i as u8;
    }
    let output = CompactSaplingOutput::from_parts(&cmu, &key, &enc);
    assert_eq!(output.cmu, repr.to_vec());
    assert_eq!(output.epk, vec![9; 32]);
    assert_eq!(output.ciphertext, enc[..zcash_note_encryption::COMPACT_NOTE_SIZE].to_vec());
    assert_eq!(output.cmu(), Ok(cmu));
    assert_eq!(output.ephemeral_key(), Ok(key));
    let description = CompactOutputDescription::try_from(output.clone()).unwrap();
    assert_eq!(description.cmu, cmu);
    assert_eq!(description.ephemeral_key, key);
    assert_eq!(description.enc_ciphertext, output.ciphertext);

    // The order of the group and numbers above it are no scalars.
    let modulus: [u8; 32] = [
        0x01, 0x00, 0x00, 0x00, 0xff, 0xff, 0xff, 0xff, 0xfe, 0x5b, 0xfe, 0xff, 0x02, 0xa4, 0xbd,
        0x53, 0x05, 0xd8, 0xa1, 0x09, 0x08, 0xd8, 0x39, 0x33, 0x48, 0x7d, 0x9d, 0x29, 0x53, 0xa7,
        0xed, 0x73,
    ];
    assert!(NoteCommitment::from_repr(modulus).is_none());
    let at_modulus = CompactSaplingOutput { cmu: modulus.to_vec(), ..output.clone() };
    assert!(at_modulus.cmu().is_err());
    assert!(CompactOutputDescription::try_from(at_modulus).is_err());
    let mut below = modulus;
    below[0] = 0;
    assert_eq!((-bls12_381::Scalar::one()).to_bytes(), below);
    let largest = CompactSaplingOutput { cmu: below.to_vec(), ..output.clone() };
    assert_eq!(largest.cmu().unwrap().to_repr(), below);
    assert!(CompactSaplingOutput { cmu: vec![0xff; 32], ..output.clone() }.cmu().is_err());

    assert!(CompactSaplingOutput { epk: vec![9; 31], ..output.clone() }.ephemeral_key().is_err());
    assert!(CompactOutputDescription::try_from(CompactSaplingOutput {
        ciphertext: vec![0; 51],
        ..output.clone()
    })
    .is_err());
}
