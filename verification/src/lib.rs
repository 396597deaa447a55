//! An implicit, 8-ary tree addressing and storage engine.
//!
//! A complete octree of a fixed maximal depth lives in one contiguous
//! buffer, with no stored pointers and no per-node overhead: the offset of
//! any node's value, of any of its 8 children, and of its whole subtree is
//! closed-form arithmetic on the node's position alone. Two physical
//! orderings of the buffer are provided — [`DepthFirst`], where every
//! subtree is one contiguous run, and [`BreathFirst`], where every layer of
//! the tree is one contiguous run — behind the common [`MemoryLayout`]
//! abstraction.
//!
//! The size formulas, the offset formulas, the fill discipline and the
//! disjointness of sibling subtrees are all stated as contracts and proved.

pub mod breath_first;
pub mod depth_first;
pub mod layout;
pub mod math;
pub mod octant;
pub mod octree;
pub mod util;

pub use breath_first::BreathFirst;
pub use depth_first::DepthFirst;
pub use layout::MemoryLayout;
pub use octant::{
    Octant, OctantLDB, OctantLDF, OctantLUB, OctantLUF, OctantRDB, OctantRDF, OctantRUB,
    OctantRUF, OctantT,
};
pub use octree::{Octree, OctreeError, OctreeNode};
pub use util::{
    checked_subtree_length, layer_length, subtree_layout, subtree_length, subtree_size,
    AllocationDescriptor,
};
