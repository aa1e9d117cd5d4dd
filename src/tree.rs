//! The Merkle tree: an owned root node, the combiner it was built with, and
//! the count of blocks pushed so far.
use crate::combiner::HashCombiner;
use crate::model::{index_of, root_hash_of};
use crate::node::MerkleNode;
use vstd::prelude::*;

verus! {

/// The left/right steps from the root to heap position `n`: the binary
/// digits of `n` after its leading one, most significant first.
pub fn path_to(n: usize) -> (r: Vec<bool>)
    requires
        n >= 1,
    ensures
        index_of(r@) == n,
    decreases n,
{
    if n == 1 {
        Vec::new()
    } else {
        let mut path = path_to(n / 2);
        let ghost prefix = path@;
        path.push(n % 2 == 1);
        proof {
            assert(path@.drop_last() =~= prefix);
        }
        path
    }
}

pub struct MerkleTree<T, C> {
    hasher: C,
    head: Option<Box<MerkleNode<T>>>,
    size: usize,
    blocks: Ghost<Seq<T>>,
}

impl<T, C: HashCombiner<T>> View for MerkleTree<T, C> {
    type V = Seq<T>;

    /// The blocks pushed so far, in push order.
    closed spec fn view(&self) -> Seq<T> {
        self.blocks@
    }
}

impl<T, C: HashCombiner<T>> MerkleTree<T, C> {
    /// The combiner the tree was built with.
    pub closed spec fn combiner(&self) -> C {
        self.hasher
    }

    /// The root node, if any block was pushed.
    pub closed spec fn spec_root(&self) -> Option<MerkleNode<T>> {
        match self.head {
            Some(node) => Some(*node),
            None => None,
        }
    }

    /// Number of leaves reachable from the root.
    pub open spec fn reachable_leaves(&self) -> nat {
        match self.spec_root() {
            Some(node) => node.leaf_count(),
            None => 0,
        }
    }

    /// The tree is the heap-shaped tree over its blocks, with consistent
    /// digests and one leaf per block.
    pub closed spec fn wf(&self) -> bool {
        &&& self.size == self.blocks@.len()
        &&& match self.head {
            None => self.blocks@.len() == 0,
            Some(node) => {
                &&& self.blocks@.len() > 0
                &&& node.models(self.hasher, self.blocks@, 1)
                &&& node.leaf_count() == self.blocks@.len()
            },
        }
    }

    /// The root node is the heap-shaped tree over the pushed blocks: absent
    /// for no block, else the subtree at the root position, which
    /// `MerkleNode::lemma_models_unique` shows to be fixed by the blocks.
    pub proof fn lemma_root_models(&self)
        requires
            self.wf(),
        ensures
            self.spec_root() is None <==> self@.len() == 0,
            self.spec_root() matches Some(n) ==> n.models(self.combiner(), self@, 1),
    {
    }

    /// The number of leaves reachable from the root equals the number of
    /// blocks pushed, which is what `size` reports.
    pub proof fn lemma_leaves_match_size(&self)
        requires
            self.wf(),
        ensures
            self.reachable_leaves() == self@.len(),
    {
    }

    /// Every digest reachable from the root is the one its contents call for.
    pub proof fn lemma_hashes_consistent(&self)
        requires
            self.wf(),
        ensures
            self.spec_root() matches Some(node) ==> node.hashes_consistent(self.combiner()),
    {
        if let Some(node) = self.head {
            node.lemma_models_hash(self.hasher, self.blocks@, 1);
        }
    }

    /// An empty tree bound to `hasher`.
    pub fn new(hasher: C) -> (r: Self)
        ensures
            r.wf(),
            r@ == Seq::<T>::empty(),
            r.combiner() == hasher,
    {
        MerkleTree { hasher, head: None, size: 0, blocks: Ghost(Seq::empty()) }
    }

    /// Appends `data` as the next block: the shallowest, leftmost leaf is
    /// split into a branch over itself and the new leaf, and every digest on
    /// the path back to the root is recomputed.
    pub fn push(&mut self, data: T)
        requires
            old(self).wf(),
            old(self)@.len() < usize::MAX,
        ensures
            final(self).wf(),
            final(self)@ == old(self)@.push(data),
            final(self).combiner() == old(self).combiner(),
            final(self).spec_root() matches Some(n) && n.models(
                final(self).combiner(),
                final(self)@,
                1,
            ),
            final(self).reachable_leaves() == final(self)@.len(),
    {
        let ghost blocks = self.blocks@;
        match self.head.take() {
            None => {
                let leaf = MerkleNode::new_leaf(data, &self.hasher);
                self.head = Some(leaf);
            },
            Some(head) => {
                let path = path_to(self.size);
                proof {
                    assert(path@.take(0) =~= Seq::<bool>::empty());
                }
                let head = MerkleNode::insert(head, &path, 0, data, &self.hasher, Ghost(blocks));
                self.head = Some(head);
            },
        }
        self.size = self.size + 1;
        self.blocks = Ghost(blocks.push(data));
    }

    /// The current root digest; `None` exactly when nothing was pushed.
    pub fn root_hash(&self) -> (r: Option<u64>)
        requires
            self.wf(),
        ensures
            r == root_hash_of(self.combiner(), self@),
            r is None <==> self@.len() == 0,
    {
        match &self.head {
            None => None,
            Some(node) => {
                proof {
                    node.lemma_models_hash(self.hasher, self.blocks@, 1);
                }
                Some(node.get_hash())
            },
        }
    }

    /// Number of blocks pushed so far.
    pub fn size(&self) -> (r: usize)
        requires
            self.wf(),
        ensures
            r == self@.len(),
    {
        self.size
    }

    /// The root node, if any block was pushed.
    pub fn root(&self) -> (r: Option<&MerkleNode<T>>)
        requires
            self.wf(),
        ensures
            r is None <==> self@.len() == 0,
            r matches Some(node) ==> node.models(self.combiner(), self@, 1),
            (match r {
                Some(node) => self.spec_root() == Some(*node),
                None => self.spec_root() is None,
            }),
    {
        match &self.head {
            Some(node) => Some(&**node),
            None => None,
        }
    }
}

} // verus!
