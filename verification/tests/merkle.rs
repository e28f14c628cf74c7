use blockchain::domain::blockchain::block::{Block, COIN};
use blockchain::domain::blockchain::merkle_tree::{MerkleNode, MerkleTree};
use blockchain::domain::transaction::transaction::Transaction;

const ROOT_OF_ONE: [u8; 32] = [
    3, 163, 62, 207, 215, 191, 44, 66, 26, 228, 201, 67, 253, 221, 41, 34, 156, 93, 76, 132, 24, 158, 0, 180, 184, 143,
    210, 251, 81, 246, 235, 243,
];

#[test]
fn merkle_tree_of_nothing_has_no_root() {
    let tree = MerkleTree::new(vec![]);
    assert!(tree.root.is_none());
}

#[test]
fn merkle_tree_of_one_datum_pairs_it_with_itself() {
    let tree = MerkleTree::new(vec![vec![1, 2, 3]]);
    let root = tree.root.expect("a root");
    assert_eq!(root.data, ROOT_OF_ONE.to_vec());
    assert!(root.left.is_some());
    assert!(root.right.is_some());
}

#[test]
fn merkle_tree_of_two_data() {
    let tree = MerkleTree::new(vec![b"a".to_vec(), b"b".to_vec()]);
    assert_eq!(
        tree.root.expect("a root").data,
        vec![
            229, 160, 31, 238, 20, 224, 237, 92, 72, 113, 79, 34, 24, 15, 37, 173, 131, 101, 181, 63, 151, 121, 247,
            157, 196, 163, 215, 233, 57, 99, 249, 74
        ]
    );
}

#[test]
fn merkle_tree_of_six_data_hashes_an_unpaired_node_alone() {
    let data: Vec<Vec<u8>> = (1..=6u8).map(|i| vec![i]).collect();
    let tree = MerkleTree::new(data);
    assert_eq!(
        tree.root.expect("a root").data,
        vec![
            191, 73, 135, 169, 139, 1, 139, 121, 233, 221, 249, 121, 128, 23, 59, 53, 55, 228, 21, 122, 176, 232, 224,
            151, 39, 250, 76, 72, 78, 240, 43, 24
        ]
    );
}

#[test]
fn merkle_node_leaf_and_parents() {
    let leaf = MerkleNode::new(None, None, b"xyz".to_vec());
    assert_eq!(
        leaf.data,
        vec![
            54, 8, 188, 161, 228, 78, 166, 196, 210, 104, 235, 109, 176, 34, 96, 38, 152, 146, 192, 180, 43, 134, 187,
            241, 231, 122, 111, 161, 108, 60, 146, 130
        ]
    );
    let a = MerkleNode::new(None, None, b"a".to_vec());
    let b = MerkleNode::new(None, None, b"b".to_vec());
    let parent = MerkleNode::new(Some(Box::new(a)), Some(Box::new(b)), b"ignored".to_vec());
    assert_eq!(
        parent.data,
        vec![
            229, 160, 31, 238, 20, 224, 237, 92, 72, 113, 79, 34, 24, 15, 37, 173, 131, 101, 181, 63, 151, 121, 247,
            157, 196, 163, 215, 233, 57, 99, 249, 74
        ]
    );
    let a2 = MerkleNode::new(None, None, b"a".to_vec());
    let only_left = MerkleNode::new(Some(Box::new(a2)), None, Vec::new());
    assert_eq!(
        only_left.data,
        vec![
            191, 93, 58, 255, 183, 62, 253, 46, 198, 195, 106, 211, 17, 45, 217, 51, 239, 237, 99, 196, 225, 203, 255,
            207, 168, 142, 39, 89, 193, 68, 242, 216
        ]
    );
    assert!(only_left.right.is_none());
}

#[test]
fn hash_transactions_is_the_merkle_root_of_the_ids() {
    let block = Block {
        timestamp: 1,
        transactions: vec![Transaction { id: vec![1, 2, 3], vin: vec![], vout: vec![] }],
        prev_block_hash: String::new(),
        hash: String::new(),
        nonce: 0,
    };
    assert_eq!(block.hash_transactions(), ROOT_OF_ONE.to_vec());
}

#[test]
fn block_value_starts_at_fifty_coins() {
    assert_eq!(COIN, 100_000_000);
    assert_eq!(Block::get_block_value(0, 0), 5_000_000_000);
    assert_eq!(Block::get_block_value(3, 7), 5_000_000_007);
    assert_eq!(Block::get_block_value(-3, 0), 5_000_000_000);
}

#[test]
fn block_value_halves_every_four_blocks() {
    assert_eq!(Block::get_block_value(4, 0), 2_500_000_000);
    assert_eq!(Block::get_block_value(8, 1), 1_250_000_001);
    for h in [0i64, 4, 9, 40, 100] {
        assert_eq!(Block::get_block_value(h + 4, 0), Block::get_block_value(h, 0) / 2);
        assert!(Block::get_block_value(h + 4, 0) <= Block::get_block_value(h, 0));
    }
}

#[test]
fn block_value_is_only_fees_after_sixty_four_halvings() {
    assert_eq!(Block::get_block_value(252, 0), 0);
    assert_eq!(Block::get_block_value(256, 5), 5);
    assert_eq!(Block::get_block_value(i64::MAX, -9), -9);
}

#[test]
fn block_clone_keeps_every_field() {
    let block = Block {
        timestamp: 5,
        transactions: vec![Transaction { id: vec![4], vin: vec![], vout: vec![] }],
        prev_block_hash: "p".to_string(),
        hash: "h".to_string(),
        nonce: 11,
    };
    let copy = block.clone();
    assert_eq!(copy.timestamp, 5);
    assert_eq!(copy.transactions.len(), 1);
    assert_eq!(copy.transactions[0].id, vec![4]);
    assert_eq!(copy.prev_block_hash, "p");
    assert_eq!(copy.hash, "h");
    assert_eq!(copy.nonce, 11);
}
