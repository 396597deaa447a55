use vstd::prelude::*;
use vstd::set_lib::{lemma_int_range, set_int_range};

use crate::layout::{valid_node_coords, MemoryLayout};
use crate::math::{
    lemma_subtree_length_monotone, lemma_subtree_length_pos, pow8, spec_subtree_length,
};
use crate::octant::Octant;
use crate::util::subtree_length;

verus! {

/// A depth-first memory layout.
///
/// Octree values are stored such that the first value is the root octant,
/// immediately followed by the whole subtree of its first child, then the
/// whole subtree of its second child, and so on: every subtree is one
/// contiguous run of `SubtreeLength(depth)` elements.
///
/// This representation is better for CPU processing and collision detection,
/// since any subtree-scoped scan is a single linear pass.
#[derive(Debug, Clone, Copy)]
pub struct DepthFirst;

/// Element offset of node `(depth, index)` under the depth-first layout: the
/// root sits at 0, and the `o`-th child of a node at `p` with remaining
/// depth `d` sits at `p + 1 + SubtreeLength(d - 1) * o`.
pub open spec fn df_node_pos(size: nat, depth: nat, index: nat) -> nat
    decreases size - depth,
{
    if depth >= size {
        0
    } else {
        df_node_pos(size, (depth + 1) as nat, index / 8) + 1 + spec_subtree_length(depth) * (index
            % 8)
    }
}

/// A node's subtree occupies the contiguous element range starting at its
/// own slot.
pub proof fn lemma_df_pos_bounds(size: nat, depth: nat, index: nat)
    requires
        valid_node_coords(size, depth, index),
    ensures
        df_node_pos(size, depth, index) + spec_subtree_length(depth) <= spec_subtree_length(size),
    decreases size - depth,
{
    if depth >= size {
        assert(pow8(0) == 1);
        assert(index == 0);
    } else {
        let h = (size - depth) as nat;
        assert(pow8(h) == 8 * pow8((h - 1) as nat));
        assert(index / 8 < pow8((h - 1) as nat)) by (nonlinear_arith)
            requires
                index < 8 * pow8((h - 1) as nat),
        ;
        lemma_df_pos_bounds(size, (depth + 1) as nat, index / 8);
        assert(index % 8 < 8) by (nonlinear_arith);
        assert(spec_subtree_length(depth) * (index % 8) + spec_subtree_length(depth) <= 8
            * spec_subtree_length(depth)) by (nonlinear_arith)
            requires
                index % 8 < 8,
        ;
    }
}

/// Position of child `o` relative to its parent under the depth-first
/// layout: one slot for the parent's own value, then `o` whole sibling
/// subtrees.
pub proof fn lemma_df_child_pos(size: nat, depth: nat, index: nat, o: nat)
    requires
        valid_node_coords(size, depth, index),
        depth >= 1,
        o < 8,
    ensures
        df_node_pos(size, (depth - 1) as nat, 8 * index + o) == df_node_pos(size, depth, index) + 1
            + spec_subtree_length((depth - 1) as nat) * o,
{
    let ci = 8 * index + o;
    assert(ci / 8 == index && ci % 8 == o) by (nonlinear_arith)
        requires
            o < 8,
            ci == 8 * index + o,
    ;
    assert(df_node_pos(size, (depth - 1) as nat, ci) == df_node_pos(size, depth, ci / 8) + 1
        + spec_subtree_length((depth - 1) as nat) * (ci % 8));
}

impl MemoryLayout for DepthFirst {
    open spec fn node_pos(size: nat, depth: nat, index: nat) -> nat {
        df_node_pos(size, depth, index)
    }

    open spec fn in_subtree(size: nat, depth: nat, index: nat, k: int) -> bool {
        df_node_pos(size, depth, index) <= k < df_node_pos(size, depth, index)
            + spec_subtree_length(depth)
    }

    proof fn lemma_root_pos(size: nat) {
    }

    proof fn lemma_node_pos_bounds(size: nat, depth: nat, index: nat) {
        lemma_df_pos_bounds(size, depth, index);
        lemma_subtree_length_pos(depth);
    }

    proof fn lemma_in_subtree_bounds(size: nat, depth: nat, index: nat, k: int) {
        lemma_df_pos_bounds(size, depth, index);
    }

    proof fn lemma_children_partition(size: nat, depth: nat, index: nat) {
        let p = df_node_pos(size, depth, index) as int;
        let s = spec_subtree_length((depth - 1) as nat) as int;
        lemma_subtree_length_pos((depth - 1) as nat);
        assert forall|o: nat| o < 8 implies #[trigger] df_node_pos(
            size,
            (depth - 1) as nat,
            8 * index + o,
        ) == p + 1 + s * o by {
            lemma_df_child_pos(size, depth, index, o);
        }
        // every child's run stays inside the parent's run, after its own slot
        assert forall|o: nat| o < 8 implies p + 1 <= p + 1 + #[trigger] (s * o) && p + 1 + s * o
            + s <= p + spec_subtree_length(depth) by {
            assert(0 <= s * o && s * o + s <= 8 * s) by (nonlinear_arith)
                requires
                    o < 8,
                    s >= 1,
            ;
        }
        // any element of the run past the parent's slot lies in the run of
        // child (k - p - 1) / s
        assert forall|k: int|
            #[trigger] Self::in_subtree(size, depth, index, k) && k != p implies exists|o: nat|
            o < 8 && #[trigger] Self::in_subtree(size, (depth - 1) as nat, 8 * index + o, k) by {
            let q = k - p - 1;
            let o = q / s;
            assert(0 <= o < 8 && s * o <= q < s * o + s) by (nonlinear_arith)
                requires
                    0 <= q < 8 * s,
                    s >= 1,
                    o == q / s,
            ;
            assert(Self::in_subtree(size, (depth - 1) as nat, 8 * index + o as nat, k));
        }
        // runs of distinct children are disjoint
        assert forall|o1: nat, o2: nat| o1 < 8 && o2 < 8 && o1 != o2 implies (#[trigger] (s * o1)
            + s <= s * o2 || #[trigger] (s * o2) + s <= s * o1) by {
            assert(o1 < o2 ==> s * o1 + s <= s * o2) by (nonlinear_arith)
                requires
                    s >= 1,
            ;
            assert(o2 < o1 ==> s * o2 + s <= s * o1) by (nonlinear_arith)
                requires
                    s >= 1,
            ;
        }
    }

    proof fn lemma_subtree_member_count(size: nat, depth: nat, index: nat) {
        let p = df_node_pos(size, depth, index) as int;
        let s = spec_subtree_length(depth) as int;
        assert(Set::new(|k: int| Self::in_subtree(size, depth, index, k)) =~= set_int_range(
            p,
            p + s,
        ));
        lemma_int_range(p, p + s);
    }

    fn child_offset(octant: Octant, size: usize, depth: usize, index: usize) -> (r: usize) {
        let o = octant.as_usize();
        proof {
            lemma_subtree_length_monotone(depth as nat, size as nat);
            lemma_subtree_length_monotone((depth - 1) as nat, size as nat);
            lemma_df_child_pos(size as nat, depth as nat, index as nat, o as nat);
            assert(spec_subtree_length((depth - 1) as nat) * (o as nat) + spec_subtree_length(
                (depth - 1) as nat,
            ) <= 8 * spec_subtree_length((depth - 1) as nat)) by (nonlinear_arith)
                requires
                    o < 8,
            ;
        }
        let end_of_current: usize = 1;
        let start_of_next = subtree_length(depth - 1) * o;
        end_of_current + start_of_next
    }

    fn fill_node<T: Copy>(
        data: &mut Vec<T>,
        pos: usize,
        value: T,
        size: usize,
        depth: usize,
        index: usize,
    ) {
        proof {
            lemma_df_pos_bounds(size as nat, depth as nat, index as nat);
        }
        let n = data.len();
        let count = subtree_length(depth);
        let mut w: usize = 0;
        while w < count
            invariant
                w <= count,
                count == spec_subtree_length(depth as nat),
                pos + count <= n,
                n == data@.len(),
                data@.len() == old(data)@.len(),
                forall|k: int| pos <= k < pos + w ==> data@[k] == value,
                forall|k: int|
                    0 <= k < data@.len() && !(pos <= k < pos + w) ==> data@[k] == old(data)@[k],
            decreases count - w,
        {
            let idx = pos + w;
            data[idx] = value;
            w = w + 1;
        }
    }
}

} // verus!
