use vstd::prelude::*;

use crate::math::{pow8, spec_subtree_length};
use crate::octant::Octant;

verus! {

/// Whether `(depth, index)` names a node of a tree with maximal depth `size`:
/// `depth` is the remaining depth (0 at leaves, `size` at the root) and
/// `index` the node's position among the `8^(size - depth)` nodes of its
/// layer.
pub open spec fn valid_node_coords(size: nat, depth: nat, index: nat) -> bool {
    &&& depth <= size
    &&& index < pow8((size - depth) as nat)
}

/// A child's layer coordinates are again in range: child `o` of `(depth,
/// index)` is `(depth - 1, 8 * index + o)`.
pub proof fn lemma_child_coords_valid(size: nat, depth: nat, index: nat, o: nat)
    requires
        valid_node_coords(size, depth, index),
        depth >= 1,
        o < 8,
    ensures
        valid_node_coords(size, (depth - 1) as nat, 8 * index + o),
{
    let h = (size - depth) as nat;
    assert(pow8(h + 1) == 8 * pow8(h));
    assert(8 * index + o < 8 * pow8(h));
}

/// Distinct octants of one node resolve to distinct element offsets, under
/// any layout: each child's slot lies in its own subtree, and the subtrees
/// are disjoint.
pub proof fn lemma_child_positions_distinct<L: MemoryLayout>(
    size: nat,
    depth: nat,
    index: nat,
    o1: nat,
    o2: nat,
)
    requires
        valid_node_coords(size, depth, index),
        depth >= 1,
        o1 < 8,
        o2 < 8,
        o1 != o2,
    ensures
        L::node_pos(size, (depth - 1) as nat, 8 * index + o1) != L::node_pos(
            size,
            (depth - 1) as nat,
            8 * index + o2,
        ),
{
    lemma_child_coords_valid(size, depth, index, o1);
    lemma_child_coords_valid(size, depth, index, o2);
    L::lemma_node_pos_bounds(size, (depth - 1) as nat, 8 * index + o1);
    L::lemma_node_pos_bounds(size, (depth - 1) as nat, 8 * index + o2);
    L::lemma_children_partition(size, depth, index);
}

/// A strategy for arranging a complete octree in one contiguous buffer of
/// `SubtreeLength(size)` elements, with closed-form child addressing.
///
/// `node_pos` gives the element offset of a node's own value and
/// `in_subtree` says which elements its subtree occupies; the executable
/// members are proved against those two specifications.
pub trait MemoryLayout: Sized {
    /// Element offset of the value of node `(depth, index)` in the buffer of
    /// a tree with maximal depth `size`.
    spec fn node_pos(size: nat, depth: nat, index: nat) -> nat;

    /// Whether buffer element `k` holds the value of a node of the subtree
    /// rooted at `(depth, index)`.
    spec fn in_subtree(size: nat, depth: nat, index: nat, k: int) -> bool;

    /// The root's value sits at the very start of the buffer.
    proof fn lemma_root_pos(size: nat)
        ensures
            Self::node_pos(size, size, 0) == 0,
    ;

    /// A node's own slot lies inside the buffer and inside its own subtree.
    proof fn lemma_node_pos_bounds(size: nat, depth: nat, index: nat)
        requires
            valid_node_coords(size, depth, index),
        ensures
            Self::node_pos(size, depth, index) < spec_subtree_length(size),
            Self::in_subtree(size, depth, index, Self::node_pos(size, depth, index) as int),
    ;

    /// Every element of a subtree lies inside the buffer.
    proof fn lemma_in_subtree_bounds(size: nat, depth: nat, index: nat, k: int)
        requires
            valid_node_coords(size, depth, index),
            Self::in_subtree(size, depth, index, k),
        ensures
            0 <= k < spec_subtree_length(size),
    ;

    /// The 8 children of a node with remaining depth `depth >= 1` have
    /// pairwise disjoint subtrees, none of them contains the node's own
    /// slot, and together with that slot they cover the node's subtree
    /// exactly.
    proof fn lemma_children_partition(size: nat, depth: nat, index: nat)
        requires
            valid_node_coords(size, depth, index),
            depth >= 1,
        ensures
            forall|k: int|
                Self::in_subtree(size, depth, index, k) <==> (k == Self::node_pos(
                    size,
                    depth,
                    index,
                ) as int || exists|o: nat|
                    o < 8 && #[trigger] Self::in_subtree(
                        size,
                        (depth - 1) as nat,
                        8 * index + o,
                        k,
                    )),
            forall|o1: nat, o2: nat, k: int|
                o1 < 8 && o2 < 8 && o1 != o2 && #[trigger] Self::in_subtree(
                    size,
                    (depth - 1) as nat,
                    8 * index + o1,
                    k,
                ) ==> !(#[trigger] Self::in_subtree(size, (depth - 1) as nat, 8 * index + o2, k)),
            forall|o: nat|
                o < 8 ==> !(#[trigger] Self::in_subtree(
                    size,
                    (depth - 1) as nat,
                    8 * index + o,
                    Self::node_pos(size, depth, index) as int,
                )),
    ;

    /// A subtree with remaining depth `depth` occupies exactly
    /// `SubtreeLength(depth)` buffer elements.
    proof fn lemma_subtree_member_count(size: nat, depth: nat, index: nat)
        requires
            valid_node_coords(size, depth, index),
        ensures
            Set::new(|k: int| Self::in_subtree(size, depth, index, k)).finite(),
            Set::new(|k: int| Self::in_subtree(size, depth, index, k)).len()
                == spec_subtree_length(depth),
    ;

    /// Returns the element offset of the `octant` child from the node
    /// `(depth, index)` itself.
    fn child_offset(octant: Octant, size: usize, depth: usize, index: usize) -> (r: usize)
        requires
            valid_node_coords(size as nat, depth as nat, index as nat),
            depth >= 1,
            spec_subtree_length(size as nat) <= usize::MAX,
        ensures
            Self::node_pos(size as nat, (depth - 1) as nat, 8 * (index as nat) + octant.index())
                == Self::node_pos(size as nat, depth as nat, index as nat) + r,
    ;

    /// Writes `value` into every element of the subtree of the node `(depth,
    /// index)`, whose own value sits at element offset `pos`, and into no
    /// other element.
    fn fill_node<T: Copy>(
        data: &mut Vec<T>,
        pos: usize,
        value: T,
        size: usize,
        depth: usize,
        index: usize,
    )
        requires
            valid_node_coords(size as nat, depth as nat, index as nat),
            pos == Self::node_pos(size as nat, depth as nat, index as nat),
            old(data)@.len() == spec_subtree_length(size as nat),
        ensures
            final(data)@.len() == old(data)@.len(),
            forall|k: int|
                0 <= k < final(data)@.len() ==> final(data)@[k] == (if Self::in_subtree(
                    size as nat,
                    depth as nat,
                    index as nat,
                    k,
                ) {
                    value
                } else {
                    old(data)@[k]
                }),
    ;
}

} // verus!
