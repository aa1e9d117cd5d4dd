//! The mathematical model of a tree after `n` pushes, in heap numbering.
//!
//! Positions are numbered breadth-first from 1 (the root); the children of
//! position `j` are `2j` and `2j + 1`, so breadth-first order is numeric order.
//! Splitting the shallowest, leftmost leaf on every push yields, after `n`
//! pushes, the tree whose branches are the positions `1 .. n` and whose
//! leaves are the positions `n .. 2n`. A leaf at position `j` holds the block
//! numbered `(o - 1) / 2`, where `o` is `j` with its trailing zero bits removed.
use crate::combiner::HashCombiner;
use vstd::prelude::*;

verus! {

/// Index of the block held by the leaf at position `j`.
pub open spec fn block_index(j: nat) -> nat
    decreases j,
{
    if j == 0 {
        0
    } else if j % 2 == 1 {
        ((j - 1) / 2) as nat
    } else {
        block_index(j / 2)
    }
}

/// Digest of position `j` in the tree over `blocks`: the leaf hash of its
/// block at a leaf position, the combination of its children's digests at a
/// branch position.
pub open spec fn position_hash<T, C: HashCombiner<T>>(c: C, blocks: Seq<T>, j: nat) -> u64
    decreases 2 * blocks.len() - j,
{
    if j == 0 || j >= blocks.len() {
        c.spec_leaf_hash(blocks[block_index(j) as int])
    } else {
        c.spec_combine(position_hash(c, blocks, 2 * j), position_hash(c, blocks, 2 * j + 1))
    }
}

/// The root hash after pushing `blocks` in order: none for no block,
/// else the digest of the root position.
pub open spec fn root_hash_of<T, C: HashCombiner<T>>(c: C, blocks: Seq<T>) -> Option<u64> {
    if blocks.len() == 0 {
        None
    } else {
        Some(position_hash(c, blocks, 1))
    }
}

/// Position `a` lies on the path from the root to position `d` (`d` included).
pub open spec fn is_ancestor(a: nat, d: nat) -> bool
    decreases d,
{
    if d <= a {
        d == a
    } else {
        is_ancestor(a, d / 2)
    }
}

/// Position reached from the root by a sequence of left (`false`) and
/// right (`true`) steps.
pub open spec fn index_of(path: Seq<bool>) -> nat
    decreases path.len(),
{
    if path.len() == 0 {
        1
    } else {
        2 * index_of(path.drop_last()) + if path.last() {
            1nat
        } else {
            0nat
        }
    }
}

pub proof fn lemma_block_index_bound(j: nat)
    requires
        j >= 1,
    ensures
        block_index(j) <= (j - 1) / 2,
    decreases j,
{
    if j % 2 == 0 {
        lemma_block_index_bound(j / 2);
    }
}

pub proof fn lemma_ancestor_le(a: nat, d: nat)
    requires
        is_ancestor(a, d),
    ensures
        a <= d,
    decreases d,
{
    if d > a {
    }
}

pub proof fn lemma_ancestor_parent(a: nat, d: nat)
    requires
        a >= 2,
        is_ancestor(a, d),
    ensures
        is_ancestor(a / 2, d),
    decreases d,
{
    if d <= a {
        assert(is_ancestor(a / 2, a / 2));
    } else {
        lemma_ancestor_parent(a, d / 2);
    }
}

/// Of two sibling positions, at most one lies on the path to `d`.
pub proof fn lemma_sibling_not_ancestor(x: nat, y: nat, d: nat)
    requires
        x >= 2,
        y >= 2,
        x / 2 == y / 2,
        x != y,
        is_ancestor(x, d),
    ensures
        !is_ancestor(y, d),
    decreases d,
{
    if is_ancestor(y, d) {
        if d <= x {
            assert(d == x);
            if x > y {
                assert(is_ancestor(y, x / 2));
                lemma_ancestor_le(y, x / 2);
            }
        } else if d <= y {
            assert(d == y);
            if y > x {
                assert(is_ancestor(x, y / 2));
                lemma_ancestor_le(x, y / 2);
            }
        } else {
            lemma_sibling_not_ancestor(x, y, d / 2);
        }
    }
}

pub proof fn lemma_index_of_positive(path: Seq<bool>)
    ensures
        index_of(path) >= 1,
    decreases path.len(),
{
    if path.len() > 0 {
        lemma_index_of_positive(path.drop_last());
    }
}

/// Every prefix of a path leads to an ancestor of the path's end.
pub proof fn lemma_prefix_is_ancestor(path: Seq<bool>, i: int)
    requires
        0 <= i <= path.len(),
    ensures
        is_ancestor(index_of(path.take(i)), index_of(path)),
    decreases path.len(),
{
    if i == path.len() {
        assert(path.take(i) =~= path);
    } else {
        let p = path.drop_last();
        assert(p.take(i) =~= path.take(i));
        lemma_prefix_is_ancestor(p, i);
        lemma_index_of_positive(p);
        lemma_ancestor_le(index_of(path.take(i)), index_of(p));
        assert(index_of(path) / 2 == index_of(p));
    }
}

/// The leaf position that ends up holding the block first placed at `o`:
/// `o` doubled until it reaches the leaf level.
pub open spec fn leaf_slot(o: nat, n: nat) -> nat
    decreases 2 * n - o,
{
    if o == 0 || o >= n {
        o
    } else {
        leaf_slot(2 * o, n)
    }
}

pub proof fn lemma_leaf_slot(o: nat, n: nat)
    requires
        1 <= o < 2 * n,
    ensures
        n <= leaf_slot(o, n) < 2 * n,
        block_index(leaf_slot(o, n)) == block_index(o),
        is_ancestor(o, leaf_slot(o, n)),
    decreases 2 * n - o,
{
    if o < n {
        lemma_leaf_slot(2 * o, n);
        assert(block_index(2 * o) == block_index(o));
        lemma_ancestor_le(2 * o, leaf_slot(o, n));
        lemma_ancestor_parent(2 * o, leaf_slot(o, n));
    }
}

pub proof fn lemma_root_is_ancestor(d: nat)
    requires
        d >= 1,
    ensures
        is_ancestor(1, d),
    decreases d,
{
    if d > 1 {
        lemma_root_is_ancestor(d / 2);
    }
}

/// A path that passes through `j` and goes further passes through one of
/// `j`'s children.
pub proof fn lemma_child_toward(j: nat, d: nat)
    requires
        j >= 1,
        is_ancestor(j, d),
        d != j,
    ensures
        is_ancestor(2 * j, d) || is_ancestor(2 * j + 1, d),
    decreases d,
{
    if d / 2 != j {
        lemma_child_toward(j, d / 2);
        if is_ancestor(2 * j, d / 2) {
            lemma_ancestor_le(2 * j, d / 2);
        } else {
            lemma_ancestor_le(2 * j + 1, d / 2);
        }
    }
}

} // verus!
