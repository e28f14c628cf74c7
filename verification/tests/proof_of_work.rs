use blockchain::domain::block::{next_data_step, Block as DataBlock, DataLookup};
use blockchain::crypto::sha256;
use blockchain::domain::blockchain::block::Block;
use blockchain::domain::proof_of_work::{int_to_hex, pow_data, search_nonce, ProofOfWork, TARGET_BITS, UPPER_BOUND};
use blockchain::domain::transaction::transaction::Transaction;

fn block_with_id(id: Vec<u8>) -> Block {
    Block {
        timestamp: 7,
        transactions: vec![Transaction { id, vin: vec![], vout: vec![] }],
        prev_block_hash: "ab".to_string(),
        hash: String::new(),
        nonce: 0,
    }
}

#[test]
fn int_to_hex_is_big_endian() {
    assert_eq!(int_to_hex(0x0102030405060708), vec![1, 2, 3, 4, 5, 6, 7, 8]);
    assert_eq!(int_to_hex(0), vec![0; 8]);
    assert_eq!(int_to_hex(u64::MAX), vec![0xff; 8]);
    assert_eq!(int_to_hex(256), vec![0, 0, 0, 0, 0, 0, 1, 0]);
}

#[test]
fn pow_data_lays_out_prefix_timestamp_bits_and_nonce() {
    let data = pow_data(&[1, 2], 3, 4);
    let mut expected = vec![1u8, 2];
    expected.extend_from_slice(&[0, 0, 0, 0, 0, 0, 0, 3]);
    expected.extend_from_slice(&[0, 0, 0, 0, 0, 0, 0, 20]);
    expected.extend_from_slice(&[0, 0, 0, 0, 0, 0, 0, 4]);
    assert_eq!(data, expected);
}

#[test]
fn target_constants() {
    assert_eq!(TARGET_BITS, 20);
    assert_eq!(UPPER_BOUND, 256);
}

#[test]
fn search_nonce_with_a_target_every_hash_meets() {
    let target = vec![0xffu8; 33];
    let (nonce, hash) = search_nonce(&[1, 2], 3, &target);
    assert_eq!(nonce, 0);
    assert_eq!(
        hash.to_vec(),
        vec![
            65, 143, 179, 205, 23, 29, 158, 177, 229, 27, 173, 27, 21, 73, 251, 163, 101, 171, 233, 22, 67, 164, 13,
            147, 143, 67, 140, 71, 84, 82, 227, 171
        ]
    );
    assert_eq!(hash, sha256(&pow_data(&[1, 2], 3, 0)));
}

#[test]
fn search_nonce_tries_until_a_hash_is_below_the_target() {
    let mut target = vec![0u8; 32];
    target[0] = 0x10;
    let (nonce, hash) = search_nonce(&[1, 2], 3, &target);
    assert_eq!(nonce, 6);
    assert_eq!(
        hash.to_vec(),
        vec![
            12, 143, 206, 71, 87, 15, 28, 173, 25, 71, 143, 191, 215, 192, 153, 52, 68, 147, 20, 147, 47, 149, 125,
            103, 193, 29, 138, 213, 123, 233, 73, 129
        ]
    );
    for n in 0..6u64 {
        assert!(sha256(&pow_data(&[1, 2], 3, n))[0] >= 0x10);
    }
}

#[test]
fn proof_of_work_target_is_two_to_the_236() {
    let pow = ProofOfWork::new(block_with_id(vec![1, 2, 3]));
    let mut expected = vec![0u8; 30];
    expected[0] = 0x10;
    assert_eq!(pow.target, expected);
    assert_eq!(pow.block.prev_block_hash, "ab");
}

#[test]
fn proof_of_work_run_and_validate_with_an_easy_target() {
    let mut target = vec![0u8; 32];
    target[0] = 0x80;
    let pow = ProofOfWork { block: block_with_id(vec![1, 2, 3]), target: target.clone() };
    let (nonce, hash) = pow.run();
    assert_eq!(nonce, 0);
    assert_eq!(
        hash.to_vec(),
        vec![
            57, 14, 21, 141, 255, 206, 112, 243, 44, 116, 115, 159, 17, 126, 33, 12, 243, 155, 155, 169, 77, 113, 144,
            4, 89, 118, 17, 215, 86, 34, 56, 203
        ]
    );
    assert!(pow.validate());
    let strict = ProofOfWork { block: block_with_id(vec![1, 2, 3]), target: vec![1] };
    assert!(!strict.validate());
}

#[test]
fn data_block_clone_keeps_every_field() {
    let b = DataBlock { timestamp: 3, data: vec![1, 2], prev_block_hash: vec![9], hash: vec![8], nonce: 4 };
    let c = b.clone();
    assert_eq!(c.timestamp, 3);
    assert_eq!(c.data, vec![1, 2]);
    assert_eq!(c.prev_block_hash, vec![9]);
    assert_eq!(c.hash, vec![8]);
    assert_eq!(c.nonce, 4);
}

#[test]
fn data_block_mine_meets_the_real_target() {
    let b = DataBlock::mine(b"hello".to_vec(), vec![], 175762);
    assert_eq!(b.timestamp, 175762);
    assert_eq!(b.data, b"hello".to_vec());
    assert!(b.prev_block_hash.is_empty());
    assert_eq!(b.nonce, 0);
    assert_eq!(
        b.hash,
        vec![
            0, 0, 8, 123, 78, 143, 85, 46, 229, 134, 12, 92, 175, 165, 119, 148, 12, 89, 165, 125, 134, 41, 163, 88,
            191, 141, 97, 180, 18, 112, 16, 246
        ]
    );
}

#[test]
fn data_block_mine_skips_nonces_that_miss() {
    let b = DataBlock::mine(b"hello".to_vec(), vec![], 893358);
    assert_eq!(b.nonce, 2);
    assert_eq!(
        b.hash,
        vec![
            0, 0, 6, 247, 157, 100, 174, 99, 106, 175, 64, 201, 142, 207, 209, 27, 218, 98, 123, 64, 248, 98, 251, 132,
            53, 212, 5, 129, 141, 144, 213, 0
        ]
    );
}

#[test]
fn block_mine_meets_the_real_target_and_validates() {
    let txs = vec![Transaction { id: vec![1, 2, 3], vin: vec![], vout: vec![] }];
    let b = Block::mine(txs, "ab".to_string(), 588988);
    assert_eq!(b.timestamp, 588988);
    assert_eq!(b.prev_block_hash, "ab");
    assert_eq!(b.nonce, 0);
    assert_eq!(b.hash, "000003ca56bb56eb9e3e1a2ba7588e868b5d329249c4ece54aadfab5bff2dd4c");
    assert!(ProofOfWork::new(b).validate());
}

#[test]
fn int_to_hex_reads_back_as_the_number() {
    for n in [0u64, 1, 255, 256, 0xdead_beef, u64::MAX] {
        let bytes = int_to_hex(n);
        let mut arr = [0u8; 8];
        arr.copy_from_slice(&bytes);
        assert_eq!(u64::from_be_bytes(arr), n);
    }
}

#[test]
fn data_cursor_steps() {
    let b = DataBlock { timestamp: 3, data: vec![1], prev_block_hash: vec![9], hash: vec![8], nonce: 4 };
    let (hash, block) = next_data_step(vec![8], DataLookup::Found(b));
    assert_eq!(hash, vec![9]);
    assert_eq!(block.expect("found").data, vec![1]);
    let (hash, block) = next_data_step(vec![8], DataLookup::Missing);
    assert_eq!(hash, vec![8]);
    assert!(block.is_none());
    let (hash, block) = next_data_step(vec![8], DataLookup::Failed);
    assert_eq!(hash, vec![8]);
    assert!(block.is_none());
    let (hash, block) = next_data_step(vec![], DataLookup::Missing);
    assert!(hash.is_empty());
    assert!(block.is_none());
}
