//! Tree nodes, and insertion of a block at the leaf a path leads to.
use crate::combiner::HashCombiner;
use crate::model::{
    block_index, index_of, is_ancestor, lemma_ancestor_parent, lemma_block_index_bound,
    lemma_index_of_positive,
    lemma_prefix_is_ancestor, lemma_sibling_not_ancestor, position_hash,
};
use vstd::prelude::*;

verus! {

/// A block together with its digest.
pub struct LeafNode<T> {
    pub block_hash: u64,
    pub data: T,
}

/// An inner node: the digest of its two children, which it owns.
pub struct BranchNode<T> {
    pub hash: u64,
    pub left: Box<MerkleNode<T>>,
    pub right: Box<MerkleNode<T>>,
}

pub enum MerkleNode<T> {
    Branch(BranchNode<T>),
    Leaf(LeafNode<T>),
}

impl<T> LeafNode<T> {
    pub fn new<C: HashCombiner<T>>(data: T, hasher: &C) -> (r: Self)
        ensures
            r.data == data,
            r.block_hash == hasher.spec_leaf_hash(data),
    {
        let block_hash = hasher.leaf_hash(&data);
        LeafNode { data, block_hash }
    }
}

impl<T> MerkleNode<T> {
    /// The digest stored at this node.
    pub open spec fn spec_hash(self) -> u64 {
        match self {
            MerkleNode::Branch(b) => b.hash,
            MerkleNode::Leaf(l) => l.block_hash,
        }
    }

    /// Number of leaves in this subtree.
    pub open spec fn leaf_count(self) -> nat
        decreases self,
    {
        match self {
            MerkleNode::Branch(b) => b.left.leaf_count() + b.right.leaf_count(),
            MerkleNode::Leaf(_) => 1,
        }
    }

    /// The subtree reached from this node by left (`false`) and right
    /// (`true`) steps, if the steps stay inside the tree.
    pub open spec fn subtree(self, path: Seq<bool>) -> Option<MerkleNode<T>>
        decreases path.len(),
    {
        if path.len() == 0 {
            Some(self)
        } else {
            match self.subtree(path.drop_last()) {
                Some(MerkleNode::Branch(b)) => Some(
                    if path.last() {
                        *b.right
                    } else {
                        *b.left
                    },
                ),
                _ => None,
            }
        }
    }

    /// Every stored digest is the one its contents call for: a leaf holds
    /// the hash of its block, a branch the combination of its children's
    /// digests, left then right.
    pub open spec fn hashes_consistent<C: HashCombiner<T>>(self, c: C) -> bool
        decreases self,
    {
        match self {
            MerkleNode::Branch(b) => {
                &&& b.hash == c.spec_combine(b.left.spec_hash(), b.right.spec_hash())
                &&& b.left.hashes_consistent(c)
                &&& b.right.hashes_consistent(c)
            },
            MerkleNode::Leaf(l) => l.block_hash == c.spec_leaf_hash(l.data),
        }
    }

    /// This subtree is the one at position `j` of the tree over `blocks`:
    /// branches exactly at positions below `blocks.len()`, each leaf holding
    /// the block its position calls for, and all digests consistent.
    pub open spec fn models<C: HashCombiner<T>>(self, c: C, blocks: Seq<T>, j: nat) -> bool
        decreases self,
    {
        match self {
            MerkleNode::Branch(b) => {
                &&& 1 <= j < blocks.len()
                &&& b.hash == c.spec_combine(b.left.spec_hash(), b.right.spec_hash())
                &&& b.left.models(c, blocks, 2 * j)
                &&& b.right.models(c, blocks, 2 * j + 1)
            },
            MerkleNode::Leaf(l) => {
                &&& blocks.len() <= j < 2 * blocks.len()
                &&& l.data == blocks[block_index(j) as int]
                &&& l.block_hash == c.spec_leaf_hash(l.data)
            },
        }
    }

    pub fn new_leaf<C: HashCombiner<T>>(data: T, hasher: &C) -> (r: Box<MerkleNode<T>>)
        ensures
            *r == MerkleNode::Leaf(LeafNode { block_hash: hasher.spec_leaf_hash(data), data }),
    {
        Box::new(MerkleNode::Leaf(LeafNode::new(data, hasher)))
    }

    /// A branch over two leaves, `left` first.
    pub fn new_branch<C: HashCombiner<T>>(left: LeafNode<T>, right: LeafNode<T>, hasher: &C) -> (r:
        MerkleNode<T>)
        ensures
            r == MerkleNode::Branch(
                BranchNode {
                    hash: hasher.spec_combine(left.block_hash, right.block_hash),
                    left: Box::new(MerkleNode::Leaf(left)),
                    right: Box::new(MerkleNode::Leaf(right)),
                },
            ),
    {
        let hash = hasher.combine(left.block_hash, right.block_hash);
        MerkleNode::Branch(
            BranchNode {
                hash,
                left: Box::new(MerkleNode::Leaf(left)),
                right: Box::new(MerkleNode::Leaf(right)),
            },
        )
    }

    pub fn get_hash(&self) -> (r: u64)
        ensures
            r == self.spec_hash(),
    {
        match self {
            MerkleNode::Branch(branch) => branch.hash,
            MerkleNode::Leaf(leaf) => leaf.block_hash,
        }
    }
    /// Counts the leaves of this subtree.
    pub fn count_leaves(&self) -> (r: usize)
        requires
            self.leaf_count() <= usize::MAX,
        ensures
            r == self.leaf_count(),
        decreases self,
    {
        match self {
            MerkleNode::Branch(branch) => {
                let left = branch.left.count_leaves();
                let right = branch.right.count_leaves();
                left + right
            },
            MerkleNode::Leaf(_) => 1,
        }
    }

    /// A subtree that models position `j` carries that position's digest.
    pub proof fn lemma_models_hash<C: HashCombiner<T>>(self, c: C, blocks: Seq<T>, j: nat)
        requires
            self.models(c, blocks, j),
        ensures
            self.spec_hash() == position_hash(c, blocks, j),
            self.hashes_consistent(c),
        decreases self,
    {
        match self {
            MerkleNode::Branch(b) => {
                b.left.lemma_models_hash(c, blocks, 2 * j);
                b.right.lemma_models_hash(c, blocks, 2 * j + 1);
            },
            MerkleNode::Leaf(l) => {},
        }
    }

    /// Position and blocks fix the subtree: two subtrees that model the same
    /// position over the same blocks, under combiners that behave the same,
    /// are equal in shape, data and digests.
    pub proof fn lemma_models_unique<C: HashCombiner<T>, D: HashCombiner<T>>(
        self,
        other: MerkleNode<T>,
        c: C,
        d: D,
        blocks: Seq<T>,
        j: nat,
    )
        requires
            self.models(c, blocks, j),
            other.models(d, blocks, j),
            forall|x: T| #[trigger] c.spec_leaf_hash(x) == d.spec_leaf_hash(x),
            forall|l: u64, r: u64| #[trigger] c.spec_combine(l, r) == d.spec_combine(l, r),
        ensures
            self == other,
        decreases self,
    {
        match (self, other) {
            (MerkleNode::Branch(b), MerkleNode::Branch(o)) => {
                b.left.lemma_models_unique(*o.left, c, d, blocks, 2 * j);
                b.right.lemma_models_unique(*o.right, c, d, blocks, 2 * j + 1);
            },
            _ => {},
        }
    }

    /// In the tree over `blocks`, every position of the tree is reached by its
    /// path, and the subtree there models that position.
    pub proof fn lemma_subtree_models<C: HashCombiner<T>>(
        self,
        c: C,
        blocks: Seq<T>,
        path: Seq<bool>,
    )
        requires
            self.models(c, blocks, 1),
            index_of(path) < 2 * blocks.len(),
        ensures
            self.subtree(path) matches Some(m) && m.models(c, blocks, index_of(path)),
        decreases path.len(),
    {
        if path.len() > 0 {
            let parent = path.drop_last();
            lemma_index_of_positive(parent);
            self.lemma_subtree_models(c, blocks, parent);
        }
    }

    /// What one push does to the tree over `blocks` (`old_root`) to give the
    /// tree over `blocks.push(data)` (`new_root`), seen at any path:
    /// every position before the leaf at position `blocks.len()` is a branch,
    /// so that leaf is the first in breadth-first order; it becomes a branch
    /// over itself (left) and the new block's leaf (right); every subtree off
    /// the path to it stays as it was; the branches on the path hold the
    /// combination of their children's digests.
    pub proof fn lemma_push_effect<C: HashCombiner<T>>(
        old_root: MerkleNode<T>,
        new_root: MerkleNode<T>,
        c: C,
        blocks: Seq<T>,
        data: T,
        path: Seq<bool>,
    )
        requires
            blocks.len() >= 1,
            old_root.models(c, blocks, 1),
            new_root.models(c, blocks.push(data), 1),
        ensures
            index_of(path) < blocks.len() ==> old_root.subtree(path) matches Some(
                MerkleNode::Branch(_),
            ),
            index_of(path) < blocks.len() ==> (new_root.subtree(path) matches Some(
                MerkleNode::Branch(b),
            ) && b.hash == c.spec_combine(b.left.spec_hash(), b.right.spec_hash())),
            index_of(path) == blocks.len() ==> (old_root.subtree(path) matches Some(
                MerkleNode::Leaf(l),
            ) && new_root.subtree(path) == Some(
                MerkleNode::Branch(
                    BranchNode {
                        hash: c.spec_combine(l.block_hash, c.spec_leaf_hash(data)),
                        left: Box::new(MerkleNode::Leaf(l)),
                        right: Box::new(
                            MerkleNode::Leaf(LeafNode { block_hash: c.spec_leaf_hash(data), data }),
                        ),
                    },
                ),
            )),
            index_of(path) < 2 * blocks.len() && !is_ancestor(index_of(path), blocks.len())
                ==> old_root.subtree(path) is Some && new_root.subtree(path) == old_root.subtree(
                path,
            ),
    {
        let n = blocks.len();
        let k = index_of(path);
        let new_blocks = blocks.push(data);
        if k < 2 * n {
            old_root.lemma_subtree_models(c, blocks, path);
            new_root.lemma_subtree_models(c, new_blocks, path);
            let m = old_root.subtree(path).unwrap();
            let m2 = new_root.subtree(path).unwrap();
            if k == n {
                if let MerkleNode::Leaf(l) = m {
                    lemma_block_index_bound(n);
                    assert(block_index(2 * n) == block_index(n));
                    assert(block_index(2 * n + 1) == n);
                    if let MerkleNode::Branch(b) = m2 {
                        assert(new_blocks[block_index(n) as int] == l.data);
                        assert(l.data == blocks[block_index(n) as int]);
                        assert(b.left.models(c, new_blocks, 2 * n));
                        assert(b.right.models(c, new_blocks, 2 * n + 1));
                        if let MerkleNode::Leaf(left) = *b.left {
                            assert(left.data == new_blocks[block_index(2 * n) as int]);
                            assert(left == l);
                        }
                        if let MerkleNode::Leaf(right) = *b.right {
                            assert(right.data == new_blocks[block_index(2 * n + 1) as int]);
                            assert(new_blocks[n as int] == data);
                            assert(right == LeafNode { block_hash: c.spec_leaf_hash(data), data });
                        }
                    }
                }
            }
            if !is_ancestor(k, n) {
                m.lemma_models_off_path(c, blocks, data, k);
                m.lemma_models_unique(m2, c, c, new_blocks, k);
            }
        }
    }

    /// A push leaves untouched every subtree off the path to the split leaf.
    pub proof fn lemma_models_off_path<C: HashCombiner<T>>(
        self,
        c: C,
        blocks: Seq<T>,
        data: T,
        k: nat,
    )
        requires
            self.models(c, blocks, k),
            !is_ancestor(k, blocks.len()),
        ensures
            self.models(c, blocks.push(data), k),
        decreases self,
    {
        match self {
            MerkleNode::Branch(b) => {
                if is_ancestor(2 * k, blocks.len()) {
                    lemma_ancestor_parent(2 * k, blocks.len());
                }
                if is_ancestor(2 * k + 1, blocks.len()) {
                    lemma_ancestor_parent(2 * k + 1, blocks.len());
                }
                b.left.lemma_models_off_path(c, blocks, data, 2 * k);
                b.right.lemma_models_off_path(c, blocks, data, 2 * k + 1);
            },
            MerkleNode::Leaf(l) => {
                assert(k != blocks.len());
                lemma_block_index_bound(k);
            },
        }
    }

    /// Adds `data` as the next block of the tree over `blocks`, splitting the
    /// leaf that `path` leads to and recomputing every digest on the way back
    /// up. `node` is the subtree at the end of the first `depth` steps.
    pub(crate) fn insert<C: HashCombiner<T>>(
        node: Box<MerkleNode<T>>,
        path: &Vec<bool>,
        depth: usize,
        data: T,
        hasher: &C,
        blocks: Ghost<Seq<T>>,
    ) -> (r: Box<MerkleNode<T>>)
        requires
            depth <= path@.len(),
            index_of(path@) == blocks@.len(),
            node.models(*hasher, blocks@, index_of(path@.take(depth as int))),
        ensures
            r.models(*hasher, blocks@.push(data), index_of(path@.take(depth as int))),
            r.leaf_count() == node.leaf_count() + 1,
        decreases path@.len() - depth,
    {
        let ghost n = blocks@.len();
        let ghost j = index_of(path@.take(depth as int));
        let ghost new_blocks = blocks@.push(data);
        proof {
            lemma_prefix_is_ancestor(path@, depth as int);
        }
        match *node {
            MerkleNode::Leaf(leaf) => {
                proof {
                    assert(j == n);
                    lemma_block_index_bound(j);
                    assert(block_index(2 * j) == block_index(j));
                    assert(block_index(2 * j + 1) == n);
                }
                let right = LeafNode::new(data, hasher);
                let r = Box::new(MerkleNode::new_branch(leaf, right, hasher));
                proof {
                    assert(new_blocks[block_index(2 * j) as int] == leaf.data);
                    assert(new_blocks[block_index(2 * j + 1) as int] == data);
                    assert(MerkleNode::Leaf(leaf).models(*hasher, new_blocks, 2 * j));
                    assert(MerkleNode::Leaf(right).models(*hasher, new_blocks, 2 * j + 1));
                    assert(MerkleNode::Leaf(leaf).leaf_count() == 1);
                    assert(MerkleNode::Leaf(right).leaf_count() == 1);
                }
                r
            },
            MerkleNode::Branch(branch) => {
                let BranchNode { hash: _, left, right } = branch;
                let path_len = path.len();
                proof {
                    if depth == path@.len() {
                        assert(path@.take(depth as int) =~= path@);
                    }
                    assert(depth < path_len);
                }
                let ghost step = path@.take(depth + 1);
                proof {
                    assert(step.drop_last() =~= path@.take(depth as int));
                    lemma_prefix_is_ancestor(path@, depth + 1);
                }
                if path[depth] {
                    proof {
                        assert(index_of(step) == 2 * j + 1);
                        lemma_sibling_not_ancestor(2 * j + 1, 2 * j, n);
                        left.lemma_models_off_path(*hasher, blocks@, data, 2 * j);
                    }
                    let right = Self::insert(right, path, depth + 1, data, hasher, blocks);
                    let hash = hasher.combine(left.get_hash(), right.get_hash());
                    Box::new(MerkleNode::Branch(BranchNode { hash, left, right }))
                } else {
                    proof {
                        assert(index_of(step) == 2 * j);
                        lemma_sibling_not_ancestor(2 * j, 2 * j + 1, n);
                        right.lemma_models_off_path(*hasher, blocks@, data, 2 * j + 1);
                    }
                    let left = Self::insert(left, path, depth + 1, data, hasher, blocks);
                    let hash = hasher.combine(left.get_hash(), right.get_hash());
                    Box::new(MerkleNode::Branch(BranchNode { hash, left, right }))
                }
            },
        }
    }
}

} // verus!
