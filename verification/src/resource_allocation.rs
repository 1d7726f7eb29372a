//! Block layout of the stacked allocation vector.
//!
//! The allocation problem optimizes over one vector that stacks the allocation of
//! every agent: the amount of resource `k` given to agent `b` sits at coordinate
//! `b * width + k`, where `width` is the number of resource types.

use vstd::prelude::*;
use vstd::arithmetic::div_mod::{lemma_fundamental_div_mod, lemma_div_pos_is_pos, lemma_mod_bound};
use vstd::arithmetic::mul::{lemma_mul_inequality, lemma_mul_is_distributive_add_other_way};

verus! {

/// `blocks` consecutive blocks of `width` coordinates each.
pub struct BlockLayout {
    blocks: usize,
    width: usize,
}

/// The coordinate of entry `k` of block `b`.
pub open spec fn flat_index(width: int, b: int, k: int) -> int {
    b * width + k
}

/// The coordinate of entry `k` of block `b` is `b * width + k`: block `b`
/// starts right after the `b` earlier blocks, and consecutive entries of a block
/// sit at consecutive coordinates.
pub proof fn lemma_flat_index_meaning(width: int, b: int, k: int)
    ensures
        flat_index(width, b, k) == b * width + k,
        flat_index(width, b, k + 1) == flat_index(width, b, k) + 1,
        flat_index(width, b + 1, 0) == flat_index(width, b, 0) + width,
        flat_index(width, 0, k) == k,
{
    vstd::arithmetic::mul::lemma_mul_is_distributive_add_other_way(width, b, 1);
}

/// Every (block, entry) pair has its own coordinate, and every coordinate below
/// `blocks * width` belongs to exactly one such pair: block `idx / width`, entry
/// `idx % width`.
pub proof fn lemma_layout_is_bijective(blocks: nat, width: nat)
    ensures
        forall|b1: int, k1: int, b2: int, k2: int|
            0 <= b1 < blocks && 0 <= k1 < width && 0 <= b2 < blocks && 0 <= k2 < width
                && #[trigger] flat_index(width as int, b1, k1) == #[trigger] flat_index(width as int, b2, k2)
                ==> b1 == b2 && k1 == k2,
        forall|b: int, k: int|
            0 <= b < blocks && 0 <= k < width ==> 0 <= #[trigger] flat_index(width as int, b, k) < blocks * width,
        forall|idx: int|
            0 <= idx < blocks * width ==> {
                &&& 0 <= #[trigger] (idx / (width as int)) < blocks
                &&& 0 <= (idx % (width as int)) < width
                &&& flat_index(width as int, idx / (width as int), idx % (width as int)) == idx
            },
{
    assert forall|b1: int, k1: int, b2: int, k2: int|
        0 <= b1 < blocks && 0 <= k1 < width && 0 <= b2 < blocks && 0 <= k2 < width
            && #[trigger] flat_index(width as int, b1, k1) == #[trigger] flat_index(width as int, b2, k2)
            implies b1 == b2 && k1 == k2 by {
        if b1 < b2 {
            lemma_mul_inequality(b1 + 1, b2, width as int);
            lemma_mul_is_distributive_add_other_way(width as int, b1, 1);
        } else if b2 < b1 {
            lemma_mul_inequality(b2 + 1, b1, width as int);
            lemma_mul_is_distributive_add_other_way(width as int, b2, 1);
        }
    }
    assert forall|b: int, k: int| 0 <= b < blocks && 0 <= k < width implies 0 <= #[trigger] flat_index(
        width as int,
        b,
        k,
    ) < blocks * width by {
        lemma_mul_inequality(b + 1, blocks as int, width as int);
        lemma_mul_is_distributive_add_other_way(width as int, b, 1);
        vstd::arithmetic::mul::lemma_mul_nonnegative(b, width as int);
    }
    assert forall|idx: int| 0 <= idx < blocks * width implies {
        &&& 0 <= #[trigger] (idx / (width as int)) < blocks
        &&& 0 <= (idx % (width as int)) < width
        &&& flat_index(width as int, idx / (width as int), idx % (width as int)) == idx
    } by {
        let w = width as int;
        assert(w > 0) by {
            if w == 0 {
                vstd::arithmetic::mul::lemma_mul_by_zero_is_zero(blocks as int);
            }
        }
        lemma_fundamental_div_mod(idx, w);
        lemma_mod_bound(idx, w);
        vstd::arithmetic::div_mod::lemma_div_pos_is_pos(idx, w);
        let q = idx / w;
        if q >= blocks {
            lemma_mul_inequality(blocks as int, q, w);
            vstd::arithmetic::mul::lemma_mul_is_commutative(w, q);
        }
        vstd::arithmetic::mul::lemma_mul_is_commutative(w, q);
    }
}

impl BlockLayout {
    #[verifier::type_invariant]
    spec fn fits(self) -> bool {
        self.blocks * self.width <= usize::MAX
    }

    /// The number of blocks (agents).
    pub closed spec fn block_count(self) -> nat {
        self.blocks as nat
    }

    /// The number of coordinates per block (resource types).
    pub closed spec fn block_width(self) -> nat {
        self.width as nat
    }

    /// The layout of `blocks` blocks of `width` coordinates each.
    pub fn new(blocks: usize, width: usize) -> (layout: BlockLayout)
        requires
            blocks * width <= usize::MAX,
        ensures
            layout.block_count() == blocks,
            layout.block_width() == width,
    {
        BlockLayout { blocks, width }
    }

    /// The length of the stacked vector, `blocks * width`.
    pub fn len(&self) -> (r: usize)
        ensures
            r == self.block_count() * self.block_width(),
    {
        proof {
            use_type_invariant(self);
        }
        self.blocks * self.width
    }

    /// The coordinate of entry `k` of block `b`.
    pub fn index(&self, b: usize, k: usize) -> (r: usize)
        requires
            b < self.block_count(),
            k < self.block_width(),
        ensures
            r == flat_index(self.block_width() as int, b as int, k as int),
            r < self.block_count() * self.block_width(),
    {
        proof {
            use_type_invariant(self);
            lemma_layout_is_bijective(self.blocks as nat, self.width as nat);
            assert(0 <= flat_index(self.width as int, b as int, k as int) < self.blocks * self.width);
            vstd::arithmetic::mul::lemma_mul_inequality(b as int, self.blocks as int, self.width as int);
        }
        b * self.width + k
    }

    /// The first coordinate of block `b`; the block spans `width` coordinates
    /// from there.
    pub fn block_start(&self, b: usize) -> (r: usize)
        requires
            b < self.block_count(),
        ensures
            r == b * self.block_width(),
            r + self.block_width() <= self.block_count() * self.block_width(),
    {
        proof {
            use_type_invariant(self);
            lemma_mul_inequality(b + 1, self.blocks as int, self.width as int);
            lemma_mul_is_distributive_add_other_way(self.width as int, b as int, 1);
            vstd::arithmetic::mul::lemma_mul_inequality(b as int, self.blocks as int, self.width as int);
        }
        b * self.width
    }
}

} // verus!
