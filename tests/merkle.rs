use merkle_tree::combiner::{HashCombiner, LinearCombiner, SipCombiner};
use merkle_tree::node::{LeafNode, MerkleNode};
use merkle_tree::tree::{path_to, MerkleTree};
use std::collections::hash_map::DefaultHasher;
use std::hash::{Hash, Hasher};

fn linear() -> LinearCombiner {
    LinearCombiner::new(31)
}

fn build<C: HashCombiner<u64>>(combiner: C, blocks: &[u64]) -> MerkleTree<u64, C> {
    let mut tree = MerkleTree::new(combiner);
    for b in blocks {
        tree.push(*b);
    }
    tree
}

fn std_hash<H: Hash>(values: &[H]) -> u64 {
    let mut hasher = DefaultHasher::new();
    for v in values {
        v.hash(&mut hasher);
    }
    hasher.finish()
}

#[test]
fn put_stuff_in() {
    let mut tree: MerkleTree<u64, SipCombiner> = MerkleTree::new(SipCombiner::new());
    for i in 0..3 {
        tree.push(i);
        assert_eq!(tree.size(), (i + 1) as usize);
        assert!(tree.root_hash().is_some());
    }
}

#[test]
fn root_hash_read_twice_is_stable() {
    let tree = build(SipCombiner::new(), &[4, 8, 15, 16, 23, 42]);
    let first = tree.root_hash();
    let second = tree.root_hash();
    assert!(first.is_some());
    assert_eq!(first, second);
}

#[test]
fn fresh_tree_has_no_root_hash() {
    let tree: MerkleTree<u64, LinearCombiner> = MerkleTree::new(linear());
    assert_eq!(tree.root_hash(), None);
    assert_eq!(tree.size(), 0);
    assert!(tree.root().is_none());
    let tree: MerkleTree<u64, SipCombiner> = MerkleTree::new(SipCombiner::new());
    assert_eq!(tree.root_hash(), None);
}

#[test]
fn one_push_root_is_leaf_hash() {
    let c = SipCombiner::new();
    let tree = build(c, &[77]);
    assert_eq!(tree.root_hash(), Some(c.leaf_hash(&77u64)));
    let tree = build(linear(), &[0]);
    assert_eq!(tree.root_hash(), Some(0));
}

#[test]
fn two_pushes_combine_leaf_hashes() {
    let c = SipCombiner::new();
    let tree = build(c, &[3, 9]);
    let expected = HashCombiner::<u64>::combine(&c, c.leaf_hash(&3u64), c.leaf_hash(&9u64));
    assert_eq!(tree.root_hash(), Some(expected));
    let tree = build(linear(), &[5, 7]);
    assert_eq!(tree.root_hash(), Some(5 * 31 + 7));
}

#[test]
fn independent_trees_agree() {
    let blocks: Vec<u64> = (0..37).map(|i| i * 1000 + 7).collect();
    let a = build(SipCombiner::new(), &blocks);
    let b = build(SipCombiner::new(), &blocks);
    assert_eq!(a.root_hash(), b.root_hash());
    let a = build(LinearCombiner::new(31), &blocks);
    let b = build(LinearCombiner::new(31), &blocks);
    assert_eq!(a.root_hash(), b.root_hash());
}

#[test]
fn order_changes_root_hash() {
    let ab = build(linear(), &[1, 2]);
    let ba = build(linear(), &[2, 1]);
    assert_eq!(ab.root_hash(), Some(33));
    assert_eq!(ba.root_hash(), Some(63));
    let ab = build(SipCombiner::new(), &[1, 2]);
    let ba = build(SipCombiner::new(), &[2, 1]);
    assert_ne!(ab.root_hash(), ba.root_hash());
}

#[test]
fn changing_any_block_changes_root_hash() {
    let base: [u64; 4] = [0, 1, 2, 3];
    for c in [SipCombiner::new()] {
        let root = build(c, &base).root_hash();
        for i in 0..4 {
            let mut changed = base;
            changed[i] = 100 + i as u64;
            assert_ne!(build(c, &changed).root_hash(), root);
        }
    }
    let root = build(linear(), &base).root_hash();
    for i in 0..4 {
        let mut changed = base;
        changed[i] = 100 + i as u64;
        assert_ne!(build(linear(), &changed).root_hash(), root);
    }
}

#[test]
fn size_and_reachable_leaves_follow_pushes() {
    let mut tree = MerkleTree::new(SipCombiner::new());
    for n in 0..40u64 {
        assert_eq!(tree.size(), n as usize);
        let leaves = tree.root().map(|node| node.count_leaves()).unwrap_or(0);
        assert_eq!(leaves, n as usize);
        tree.push(n);
    }
}

#[test]
fn linear_combiner_scenario() {
    let mut tree = MerkleTree::new(linear());
    tree.push(0);
    assert_eq!(tree.root_hash(), Some(0));
    tree.push(1);
    assert_eq!(tree.root_hash(), Some(1));
    tree.push(2);
    assert_eq!(tree.root_hash(), Some(63));
}

#[test]
fn third_push_splits_the_shallowest_leftmost_leaf() {
    let tree = build(linear(), &[0, 1, 2]);
    let Some(MerkleNode::Branch(root)) = tree.root() else {
        panic!("root should be a branch");
    };
    assert_eq!(root.hash, 63);
    let MerkleNode::Branch(left) = root.left.as_ref() else {
        panic!("left child should be a branch");
    };
    assert_eq!(left.hash, 2);
    assert!(matches!(left.left.as_ref(), MerkleNode::Leaf(l) if l.data == 0 && l.block_hash == 0));
    assert!(matches!(left.right.as_ref(), MerkleNode::Leaf(l) if l.data == 2 && l.block_hash == 2));
    assert!(matches!(root.right.as_ref(), MerkleNode::Leaf(l) if l.data == 1 && l.block_hash == 1));
}

#[test]
fn fourth_push_fills_the_second_level() {
    let tree = build(linear(), &[0, 1, 2, 3]);
    // ((0, 2), (1, 3)): left branch 0*31+2 = 2, right branch 1*31+3 = 34
    assert_eq!(tree.root_hash(), Some(2 * 31 + 34));
    let tree = build(linear(), &[0, 1, 2, 3, 4]);
    // (((0, 4), 2), (1, 3)): 4*31+2 = 126, 126*31+34
    assert_eq!(tree.root_hash(), Some(126 * 31 + 34));
}

#[test]
fn sip_combiner_matches_std_hashing() {
    let c = SipCombiner::new();
    if 1u64.to_le_bytes() == 1u64.to_ne_bytes() {
        assert_eq!(c.leaf_hash(&12345u64), std_hash(&[12345u64]));
        assert_eq!(HashCombiner::<u64>::combine(&c, 11, 22), std_hash(&[11u64, 22u64]));
    }
    assert_ne!(c.leaf_hash(&1u64), 1);
    assert_ne!(
        HashCombiner::<u64>::combine(&c, 1, 2),
        HashCombiner::<u64>::combine(&c, 2, 1)
    );
}

#[test]
fn linear_combiner_wraps() {
    let c = LinearCombiner::new(31);
    assert_eq!(c.leaf_hash(&9), 9);
    assert_eq!(c.combine(u64::MAX, 1), u64::MAX.wrapping_mul(31).wrapping_add(1));
    assert_eq!(c.combine(2, 3), 65);
}

#[test]
fn node_constructors_store_hashes() {
    let c = linear();
    let leaf = LeafNode::new(6u64, &c);
    assert_eq!(leaf.block_hash, 6);
    assert_eq!(leaf.data, 6);
    let boxed = MerkleNode::new_leaf(8u64, &c);
    assert_eq!(boxed.get_hash(), 8);
    let branch = MerkleNode::new_branch(leaf, LeafNode::new(4u64, &c), &c);
    assert_eq!(branch.get_hash(), 6 * 31 + 4);
    assert_eq!(branch.count_leaves(), 2);
}

#[test]
fn paths_follow_binary_digits() {
    assert_eq!(path_to(1), Vec::<bool>::new());
    assert_eq!(path_to(2), vec![false]);
    assert_eq!(path_to(3), vec![true]);
    assert_eq!(path_to(6), vec![true, false]);
    assert_eq!(path_to(13), vec![true, false, true]);
}

#[test]
fn byte_blocks_hash_their_bytes() {
    let c = SipCombiner::new();
    let block = b"hello".to_vec();
    let mut hasher = DefaultHasher::new();
    hasher.write(b"hello");
    assert_eq!(c.leaf_hash(&block), hasher.finish());
    assert_ne!(c.leaf_hash(&block), c.leaf_hash(&b"hellp".to_vec()));
    assert_eq!(
        HashCombiner::<Vec<u8>>::combine(&c, 5, 6),
        HashCombiner::<u64>::combine(&c, 5, 6)
    );
}

#[test]
fn byte_block_tree_root_hashes() {
    let c = SipCombiner::new();
    let mut tree: MerkleTree<Vec<u8>, SipCombiner> = MerkleTree::new(c);
    assert_eq!(tree.root_hash(), None);
    tree.push(b"first".to_vec());
    let a = c.leaf_hash(&b"first".to_vec());
    assert_eq!(tree.root_hash(), Some(a));
    tree.push(b"second".to_vec());
    let b = c.leaf_hash(&b"second".to_vec());
    assert_eq!(tree.root_hash(), Some(HashCombiner::<Vec<u8>>::combine(&c, a, b)));
    assert_eq!(tree.size(), 2);
}

#[test]
fn root_node_after_one_and_two_pushes() {
    let mut tree = MerkleTree::new(linear());
    tree.push(7u64);
    assert!(matches!(tree.root(), Some(MerkleNode::Leaf(l)) if l.data == 7 && l.block_hash == 7));
    tree.push(9u64);
    let Some(MerkleNode::Branch(root)) = tree.root() else {
        panic!("root should be a branch");
    };
    assert_eq!(root.hash, 7 * 31 + 9);
    assert!(matches!(root.left.as_ref(), MerkleNode::Leaf(l) if l.data == 7 && l.block_hash == 7));
    assert!(matches!(root.right.as_ref(), MerkleNode::Leaf(l) if l.data == 9 && l.block_hash == 9));
}

#[test]
fn root_node_digest_follows_propagation() {
    let tree = build(linear(), &[0, 1, 2, 3]);
    assert_eq!(tree.root().map(|n| n.get_hash()), Some(96));
    assert_eq!(tree.root_hash(), Some(96));
    let tree = build(linear(), &[0, 1, 2, 3, 4]);
    assert_eq!(tree.root().map(|n| n.get_hash()), Some(3940));
    assert_eq!(tree.root_hash(), Some(3940));
}
