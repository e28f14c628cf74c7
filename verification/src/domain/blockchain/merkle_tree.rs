//! A Merkle tree of SHA-256 hashes.

use vstd::prelude::*;
use crate::crypto::{sha256, sha256_of};
use crate::domain::transaction::input::copy_bytes;

verus! {

type Node = Option<Box<MerkleNode>>;

/// A Merkle tree; its root's data is the Merkle root hash.
pub struct MerkleTree {
    pub root: Option<Box<MerkleNode>>,
}

/// A node of a Merkle tree: a leaf holds the hash of a datum, an inner node
/// the hash of its children's hashes.
pub struct MerkleNode {
    pub left: Option<Box<MerkleNode>>,
    pub right: Option<Box<MerkleNode>>,
    pub data: Vec<u8>,
}

/// The hash held by an optional child, empty where there is none.
pub open spec fn child_data(n: Option<Box<MerkleNode>>) -> Seq<u8> {
    match n {
        Some(b) => b.data@,
        None => Seq::empty(),
    }
}

/// Whether every inner node below and at `n` holds the hash of the
/// concatenated hashes of its children.
pub open spec fn is_hash_tree(n: MerkleNode) -> bool
    decreases n,
{
    &&& (n.left is Some || n.right is Some) ==> n.data@ == sha256_of(child_data(n.left) + child_data(n.right))
    &&& match n.left {
        Some(b) => is_hash_tree(*b),
        None => true,
    }
    &&& match n.right {
        Some(b) => is_hash_tree(*b),
        None => true,
    }
}

/// The next level up of a Merkle tree: pairs of hashes are hashed together,
/// and a last hash without a partner is hashed alone.
pub open spec fn next_level(h: Seq<Seq<u8>>) -> Seq<Seq<u8>>
    decreases h.len(),
{
    if h.len() == 0 {
        Seq::empty()
    } else if h.len() == 1 {
        seq![sha256_of(h[0])]
    } else {
        seq![sha256_of(h[0] + h[1])] + next_level(h.subrange(2, h.len() as int))
    }
}

/// The level reached from `h` after `k` steps up.
pub open spec fn level_after(h: Seq<Seq<u8>>, k: nat) -> Seq<Seq<u8>>
    decreases k,
{
    if k == 0 {
        h
    } else {
        level_after(next_level(h), (k - 1) as nat)
    }
}

/// The data with the last datum repeated when their number is odd.
pub open spec fn padded(data: Seq<Seq<u8>>) -> Seq<Seq<u8>> {
    if data.len() % 2 != 0 {
        data.push(data.last())
    } else {
        data
    }
}

/// The leaf hashes of the data.
pub open spec fn leaf_hashes(data: Seq<Seq<u8>>) -> Seq<Seq<u8>> {
    data.map_values(|d: Seq<u8>| sha256_of(d))
}

/// The top level of the tree built from `data`: the padded data's leaf
/// hashes, raised as many levels as half the padded count.
pub open spec fn top_level(data: Seq<Seq<u8>>) -> Seq<Seq<u8>> {
    level_after(leaf_hashes(padded(data)), padded(data).len() / 2)
}

/// The root hash of the tree built from `data`: the last hash of the top
/// level, or none for no data.
pub open spec fn merkle_root(data: Seq<Seq<u8>>) -> Option<Seq<u8>> {
    if top_level(data).len() == 0 {
        None
    } else {
        Some(top_level(data).last())
    }
}

/// The hashes held by a sequence of nodes.
pub open spec fn nodes_data(nodes: Seq<MerkleNode>) -> Seq<Seq<u8>> {
    nodes.map_values(|n: MerkleNode| n.data@)
}

/// The level above a non-empty level is not empty.
proof fn lemma_next_level_nonempty(h: Seq<Seq<u8>>)
    ensures
        h.len() > 0 <==> next_level(h).len() > 0,
{
}

/// Raising a level keeps it non-empty exactly when it was.
proof fn lemma_level_after_nonempty(h: Seq<Seq<u8>>, k: nat)
    ensures
        h.len() > 0 <==> level_after(h, k).len() > 0,
    decreases k,
{
    if k > 0 {
        lemma_next_level_nonempty(h);
        lemma_level_after_nonempty(next_level(h), (k - 1) as nat);
    }
}

/// Raising by one more level is raising the next level.
proof fn lemma_level_after_step(h: Seq<Seq<u8>>, k: nat)
    ensures
        level_after(h, k + 1) == next_level(level_after(h, k)),
    decreases k,
{
    if k == 0 {
        assert(level_after(next_level(h), 0) == next_level(h));
    } else {
        lemma_level_after_step(next_level(h), (k - 1) as nat);
        assert(level_after(h, k) == level_after(next_level(h), (k - 1) as nat));
        assert(level_after(h, k + 1) == level_after(next_level(h), k));
    }
}

impl MerkleNode {
    /// A node over two optional children; with no children it is a leaf
    /// holding the hash of `data`.
    pub fn new(left: Node, right: Node, data: Vec<u8>) -> (node: Self)
        ensures
            node.left == left,
            node.right == right,
            node.data@ == if left is None && right is None {
                sha256_of(data@)
            } else {
                sha256_of(child_data(left) + child_data(right))
            },
            node.data@.len() == 32,
    {
        let mut merkle_node = MerkleNode { left: None, right: None, data: Vec::new() };
        if left.is_none() && right.is_none() {
            let hash = sha256(data.as_slice());
            merkle_node.data = vstd::slice::slice_to_vec(hash.as_slice());
        } else {
            let mut prev_hashes: Vec<u8> = Vec::new();
            if let Some(left_node) = &left {
                prev_hashes = copy_bytes(&left_node.data);
            }
            if let Some(right_node) = &right {
                let mut i: usize = 0;
                let ghost start = prev_hashes@;
                while i < right_node.data.len()
                    invariant
                        i <= right_node.data@.len(),
                        prev_hashes@ == start + right_node.data@.take(i as int),
                    decreases right_node.data@.len() - i,
                {
                    prev_hashes.push(right_node.data[i]);
                    assert(prev_hashes@ =~= start + right_node.data@.take(i + 1));
                    i = i + 1;
                }
                assert(right_node.data@.take(right_node.data@.len() as int) =~= right_node.data@);
            }
            assert(prev_hashes@ =~= child_data(left) + child_data(right));
            let hash = sha256(prev_hashes.as_slice());
            merkle_node.data = vstd::slice::slice_to_vec(hash.as_slice());
        }
        merkle_node.left = left;
        merkle_node.right = right;
        return merkle_node;
    }
}

/// Builds the next level of the tree over `nodes`: each pair becomes a
/// parent, and a last node without a partner becomes the only child of one.
fn build_level(nodes: Vec<MerkleNode>) -> (level: Vec<MerkleNode>)
    requires
        forall|i: int| 0 <= i < nodes@.len() ==> is_hash_tree(#[trigger] nodes@[i]),
    ensures
        nodes_data(level@) == next_level(nodes_data(nodes@)),
        forall|i: int| 0 <= i < level@.len() ==> is_hash_tree(#[trigger] level@[i]),
        forall|i: int| 0 <= i < level@.len() ==> (#[trigger] level@[i]).data@.len() == 32,
{
    let ghost orig = nodes_data(nodes@);
    let mut nodes = nodes;
    let mut new_level: Vec<MerkleNode> = Vec::new();
    while nodes.len() > 0
        invariant
            nodes_data(new_level@) + next_level(nodes_data(nodes@)) == next_level(orig),
            forall|i: int| 0 <= i < nodes@.len() ==> is_hash_tree(#[trigger] nodes@[i]),
            forall|i: int| 0 <= i < new_level@.len() ==> is_hash_tree(#[trigger] new_level@[i]),
            forall|i: int| 0 <= i < new_level@.len() ==> (#[trigger] new_level@[i]).data@.len() == 32,
        decreases nodes@.len(),
    {
        let ghost s = nodes@;
        let ghost ds = nodes_data(s);
        let left = nodes.remove(0);
        assert(is_hash_tree(s[0]));
        let node = if nodes.len() > 0 {
            let right = nodes.remove(0);
            assert(is_hash_tree(s[1]));
            let n = MerkleNode::new(Some(Box::new(left)), Some(Box::new(right)), Vec::new());
            assert(nodes_data(nodes@) =~= ds.subrange(2, ds.len() as int));
            assert(next_level(ds) == seq![sha256_of(ds[0] + ds[1])] + next_level(ds.subrange(2, ds.len() as int)));
            n
        } else {
            let n = MerkleNode::new(Some(Box::new(left)), None, Vec::new());
            assert(s[0].data@ + Seq::<u8>::empty() =~= s[0].data@);
            assert(nodes_data(nodes@) =~= Seq::<Seq<u8>>::empty());
            assert(next_level(ds) == seq![sha256_of(ds[0])]);
            n
        };
        assert(is_hash_tree(node));
        let ghost prev = nodes_data(new_level@);
        new_level.push(node);
        assert(nodes_data(new_level@) =~= prev.push(node.data@));
        assert(forall|i: int| 0 <= i < nodes@.len() ==> nodes@[i] == s[i + if s.len() >= 2 { 2int } else { 1int }]);
        assert(nodes_data(new_level@) + next_level(nodes_data(nodes@)) =~= prev + next_level(ds));
    }
    assert(next_level(nodes_data(nodes@)) =~= Seq::<Seq<u8>>::empty());
    assert(nodes_data(new_level@) + Seq::<Seq<u8>>::empty() =~= nodes_data(new_level@));
    new_level
}

/// The contents of a list of byte vectors.
pub open spec fn bytes_seqs(v: Seq<Vec<u8>>) -> Seq<Seq<u8>> {
    v.map_values(|b: Vec<u8>| b@)
}

impl MerkleTree {
    /// Builds the tree over `data`: the data are padded to an even count by
    /// repeating the last one, hashed into leaves, and raised level by level
    /// half the padded count of times; the root is the last node of the top
    /// level, none when there are no data.
    pub fn new(data: Vec<Vec<u8>>) -> (tree: Self)
        requires
            data@.len() < usize::MAX,
        ensures
            match tree.root {
                Some(r) => merkle_root(bytes_seqs(data@)) == Some(r.data@) && is_hash_tree(*r) && r.data@.len() == 32,
                None => merkle_root(bytes_seqs(data@)) is None,
            },
    {
        let ghost dv = bytes_seqs(data@);
        let mut data = data;
        if data.len() % 2 != 0 {
            let last = copy_bytes(&data[data.len() - 1]);
            data.push(last);
        }
        let ghost pv = padded(dv);
        assert(bytes_seqs(data@) =~= pv);
        let mut nodes: Vec<MerkleNode> = Vec::new();
        let mut k: usize = 0;
        while k < data.len()
            invariant
                k <= data@.len(),
                bytes_seqs(data@) == pv,
                nodes@.len() == k,
                forall|j: int| 0 <= j < k ==> (#[trigger] nodes@[j]).data@ == sha256_of(pv[j]),
                forall|j: int| 0 <= j < k ==> is_hash_tree(#[trigger] nodes@[j]),
                forall|j: int| 0 <= j < k ==> (#[trigger] nodes@[j]).data@.len() == 32,
            decreases data@.len() - k,
        {
            assert(data@[k as int]@ == pv[k as int]);
            let node = MerkleNode::new(None, None, copy_bytes(&data[k]));
            nodes.push(node);
            k = k + 1;
        }
        assert(nodes_data(nodes@) =~= leaf_hashes(pv));
        let n = data.len();
        let mut i: usize = 0;
        while i < n / 2
            invariant
                n == pv.len(),
                i <= n / 2,
                nodes_data(nodes@) == level_after(leaf_hashes(pv), i as nat),
                forall|j: int| 0 <= j < nodes@.len() ==> is_hash_tree(#[trigger] nodes@[j]),
                forall|j: int| 0 <= j < nodes@.len() ==> (#[trigger] nodes@[j]).data@.len() == 32,
            decreases n / 2 - i,
        {
            nodes = build_level(nodes);
            proof {
                lemma_level_after_step(leaf_hashes(pv), i as nat);
            }
            i = i + 1;
        }
        let ghost top = nodes_data(nodes@);
        assert(top == top_level(dv));
        let root = match nodes.pop() {
            Some(node) => {
                assert(is_hash_tree(node));
                Some(Box::new(node))
            },
            None => None,
        };
        MerkleTree { root }
    }
}

/// The tree over some data has a root exactly when there are data.
pub proof fn lemma_merkle_root_exists(data: Seq<Seq<u8>>)
    ensures
        merkle_root(data) is Some <==> data.len() > 0,
{
    let p = padded(data);
    assert(p.len() > 0 <==> data.len() > 0);
    assert(leaf_hashes(p).len() == p.len());
    lemma_level_after_nonempty(leaf_hashes(p), p.len() / 2);
}

/// An odd number of data is padded by repeating the last datum: the root
/// over data of odd length is the root over the same data with the last
/// datum appended once more.
pub proof fn lemma_merkle_odd_repeats_last(data: Seq<Seq<u8>>)
    requires
        data.len() % 2 == 1,
    ensures
        merkle_root(data) == merkle_root(data.push(data.last())),
{
    let d2 = data.push(data.last());
    assert(d2.len() % 2 == 0);
    assert(padded(data) == d2);
    assert(padded(d2) == d2);
}

/// The root over three data: the first two leaves are hashed together, the
/// third leaf is hashed with itself, and the two results are hashed together.
pub proof fn lemma_merkle_root_of_three(a: Seq<u8>, b: Seq<u8>, c: Seq<u8>)
    ensures
        merkle_root(seq![a, b, c]) == Some(sha256_of(
            sha256_of(sha256_of(a) + sha256_of(b)) + sha256_of(sha256_of(c) + sha256_of(c)),
        )),
{
    let d = seq![a, b, c];
    let p = seq![a, b, c, c];
    assert(padded(d) =~= p);
    let h = leaf_hashes(p);
    assert(h =~= seq![sha256_of(a), sha256_of(b), sha256_of(c), sha256_of(c)]);
    let l1 = seq![sha256_of(sha256_of(a) + sha256_of(b)), sha256_of(sha256_of(c) + sha256_of(c))];
    assert(h.subrange(2, 4) =~= seq![sha256_of(c), sha256_of(c)]);
    assert(h.subrange(2, 4).subrange(2, 2) =~= Seq::<Seq<u8>>::empty());
    assert(next_level(h.subrange(2, 4).subrange(2, 2)) == Seq::<Seq<u8>>::empty());
    assert(next_level(h.subrange(2, 4)) =~= seq![sha256_of(sha256_of(c) + sha256_of(c))]);
    assert(next_level(h) =~= l1);
    assert(l1.subrange(2, 2) =~= Seq::<Seq<u8>>::empty());
    assert(next_level(l1.subrange(2, 2)) == Seq::<Seq<u8>>::empty());
    let top = seq![sha256_of(l1[0] + l1[1])];
    assert(next_level(l1) =~= top);
    assert(level_after(h, 2) == level_after(next_level(h), 1));
    assert(level_after(next_level(h), 1) == level_after(next_level(next_level(h)), 0));
    assert(top_level(d) == top);
}

} // verus!
