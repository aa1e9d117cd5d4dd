//! Properties of the root hash as a function of the pushed blocks.
//!
//! `MerkleTree::push` and `MerkleTree::root_hash` guarantee that a tree over
//! `blocks` reports `root_hash_of(combiner, blocks)`; the lemmas here are
//! stated over that function.
use crate::combiner::HashCombiner;
use crate::model::{
    block_index, is_ancestor, leaf_slot, lemma_ancestor_le, lemma_child_toward,
    lemma_leaf_slot, lemma_root_is_ancestor, position_hash, root_hash_of,
};
use vstd::prelude::*;

verus! {

/// After one push of `a`, the root hash is the leaf hash of `a`.
pub proof fn lemma_one_block<T, C: HashCombiner<T>>(c: C, a: T)
    ensures
        root_hash_of(c, seq![a]) == Some(c.spec_leaf_hash(a)),
{
    assert(block_index(1) == 0);
}

/// After pushing `a` then `b`, the root hash combines their leaf hashes,
/// `a`'s on the left.
pub proof fn lemma_two_blocks<T, C: HashCombiner<T>>(c: C, a: T, b: T)
    ensures
        root_hash_of(c, seq![a, b]) == Some(
            c.spec_combine(c.spec_leaf_hash(a), c.spec_leaf_hash(b)),
        ),
{
    let s = seq![a, b];
    assert(block_index(1) == 0);
    assert(block_index(2) == 0);
    assert(block_index(3) == 1);
    assert(position_hash(c, s, 2) == c.spec_leaf_hash(a));
    assert(position_hash(c, s, 3) == c.spec_leaf_hash(b));
}

/// Pushing `a, b` and pushing `b, a` give different root hashes whenever the
/// combiner is order-sensitive on the two leaf hashes.
pub proof fn lemma_order_matters<T, C: HashCombiner<T>>(c: C, a: T, b: T)
    requires
        c.spec_combine(c.spec_leaf_hash(a), c.spec_leaf_hash(b)) != c.spec_combine(
            c.spec_leaf_hash(b),
            c.spec_leaf_hash(a),
        ),
    ensures
        root_hash_of(c, seq![a, b]) != root_hash_of(c, seq![b, a]),
{
    lemma_two_blocks(c, a, b);
    lemma_two_blocks(c, b, a);
}

proof fn lemma_position_hash_same_behaviour<T, C: HashCombiner<T>, D: HashCombiner<T>>(
    c: C,
    d: D,
    blocks: Seq<T>,
    j: nat,
)
    requires
        forall|x: T| #[trigger] c.spec_leaf_hash(x) == d.spec_leaf_hash(x),
        forall|l: u64, r: u64| #[trigger] c.spec_combine(l, r) == d.spec_combine(l, r),
    ensures
        position_hash(c, blocks, j) == position_hash(d, blocks, j),
    decreases 2 * blocks.len() - j,
{
    if j != 0 && j < blocks.len() {
        lemma_position_hash_same_behaviour(c, d, blocks, 2 * j);
        lemma_position_hash_same_behaviour(c, d, blocks, 2 * j + 1);
    }
}

/// Two combiners with the same behaviour give the same root hash for the
/// same blocks pushed in the same order.
pub proof fn lemma_deterministic<T, C: HashCombiner<T>, D: HashCombiner<T>>(
    c: C,
    d: D,
    blocks: Seq<T>,
)
    requires
        forall|x: T| #[trigger] c.spec_leaf_hash(x) == d.spec_leaf_hash(x),
        forall|l: u64, r: u64| #[trigger] c.spec_combine(l, r) == d.spec_combine(l, r),
    ensures
        root_hash_of(c, blocks) == root_hash_of(d, blocks),
{
    lemma_position_hash_same_behaviour(c, d, blocks, 1);
}

/// No branch on the path from the root to position `leaf` collides between
/// the trees over `s` and `t`: wherever their digests agree at such a branch,
/// so do the digests of both its children.
pub open spec fn collision_free_on_path<T, C: HashCombiner<T>>(
    c: C,
    s: Seq<T>,
    t: Seq<T>,
    leaf: nat,
) -> bool {
    forall|j: nat|
        1 <= j < s.len() && is_ancestor(j, leaf) && #[trigger] position_hash(c, s, j)
            == position_hash(c, t, j) ==> position_hash(c, s, 2 * j) == position_hash(c, t, 2 * j)
            && position_hash(c, s, 2 * j + 1) == position_hash(c, t, 2 * j + 1)
}

proof fn lemma_change_reaches<T, C: HashCombiner<T>>(
    c: C,
    s: Seq<T>,
    t: Seq<T>,
    i: int,
    j: nat,
)
    requires
        s.len() == t.len(),
        0 <= i < s.len(),
        forall|k: int| 0 <= k < s.len() && k != i ==> s[k] == t[k],
        c.spec_leaf_hash(s[i]) != c.spec_leaf_hash(t[i]),
        collision_free_on_path(c, s, t, leaf_slot((2 * i + 1) as nat, s.len())),
        1 <= j,
        is_ancestor(j, leaf_slot((2 * i + 1) as nat, s.len())),
    ensures
        position_hash(c, s, j) != position_hash(c, t, j),
    decreases 2 * s.len() - j,
{
    let n = s.len();
    let leaf = leaf_slot((2 * i + 1) as nat, n);
    lemma_leaf_slot((2 * i + 1) as nat, n);
    assert(block_index((2 * i + 1) as nat) == i);
    if j >= n {
        if leaf != j {
            assert(is_ancestor(j, leaf / 2));
            lemma_ancestor_le(j, leaf / 2);
        }
    } else {
        lemma_child_toward(j, leaf);
        if is_ancestor(2 * j, leaf) {
            lemma_change_reaches(c, s, t, i, 2 * j);
        } else {
            lemma_change_reaches(c, s, t, i, 2 * j + 1);
        }
    }
}

/// Changing a single block to one with a different leaf hash changes the
/// root hash, at whatever depth the block's leaf lies, unless two digests
/// collide at a branch on the path from that leaf (position
/// `leaf_slot(2i + 1, n)`) to the root.
pub proof fn lemma_single_change_propagates<T, C: HashCombiner<T>>(
    c: C,
    s: Seq<T>,
    t: Seq<T>,
    i: int,
)
    requires
        s.len() == t.len(),
        0 <= i < s.len(),
        forall|k: int| 0 <= k < s.len() && k != i ==> s[k] == t[k],
        c.spec_leaf_hash(s[i]) != c.spec_leaf_hash(t[i]),
        collision_free_on_path(c, s, t, leaf_slot((2 * i + 1) as nat, s.len())),
    ensures
        root_hash_of(c, s) != root_hash_of(c, t),
{
    lemma_leaf_slot((2 * i + 1) as nat, s.len());
    lemma_root_is_ancestor(leaf_slot((2 * i + 1) as nat, s.len()));
    lemma_change_reaches(c, s, t, i, 1);
}

} // verus!
