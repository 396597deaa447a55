use core::marker::PhantomData;
use vstd::prelude::*;

use crate::layout::{lemma_child_coords_valid, valid_node_coords, MemoryLayout};
use crate::math::{
    layer_offset, lemma_layer_offset_monotone, lemma_pow8_le_subtree_length,
    lemma_subtree_length_as_layers, lemma_subtree_length_monotone, pow8, spec_subtree_length,
};
use crate::octant::Octant;
use crate::util::{checked_subtree_length, layer_length, subtree_length, AllocationDescriptor};

verus! {

/// Why an octree operation was refused.
#[derive(Debug, Clone, Copy, PartialEq, Eq, Structural)]
pub enum OctreeError {
    /// The requested depth makes the buffer length overflow `usize`.
    SizeOverflow,
    /// Navigation past a leaf, or a layer past the maximal depth.
    OutOfRangeNavigation,
}

/// Octree structure.
///
/// One contiguous buffer of `SubtreeLength(depth)` elements holds the whole
/// complete tree; the memory layout `L` decides where each node's value
/// sits. There is no per-node allocation, and nodes are addressed purely by
/// arithmetic on their position.
pub struct Octree<T, L> {
    data: Vec<T>,
    depth: usize,
    layout: PhantomData<L>,
}

/// Octree node descriptor: the remaining depth and layer index of one node
/// of an [`Octree`], together with the element offset its value resolves to
/// under the layout `L`. It owns nothing; reads and writes go through the
/// owning store.
#[derive(Debug)]
pub struct OctreeNode<L> {
    pos: usize,
    size: usize,
    depth: usize,
    index: usize,
    layout: PhantomData<L>,
}

impl<L> OctreeNode<L> {
    /// The maximal depth of the tree this node belongs to.
    pub closed spec fn spec_size(&self) -> nat {
        self.size as nat
    }

    /// The node's remaining depth: 0 at a leaf.
    pub closed spec fn spec_depth(&self) -> nat {
        self.depth as nat
    }

    /// The node's position among the nodes of its layer.
    pub closed spec fn spec_index(&self) -> nat {
        self.index as nat
    }

    /// The element offset of the node's own value.
    pub closed spec fn spec_pos(&self) -> nat {
        self.pos as nat
    }

    /// Returns the element offset of the node's own value in the buffer.
    pub fn position(&self) -> (r: usize)
        ensures
            r == self.spec_pos(),
    {
        self.pos
    }

    /// Returns the node's remaining depth: 0 at a leaf.
    pub fn remaining_depth(&self) -> (r: usize)
        ensures
            r == self.spec_depth(),
    {
        self.depth
    }

    /// Returns the node's position among the nodes of its layer.
    pub fn layer_index(&self) -> (r: usize)
        ensures
            r == self.spec_index(),
    {
        self.index
    }
}

impl<L: MemoryLayout> OctreeNode<L> {
    /// A descriptor is well formed when its coordinates name a node of the
    /// tree and its position is the one the layout assigns to them.
    pub open spec fn wf(&self) -> bool {
        &&& valid_node_coords(self.spec_size(), self.spec_depth(), self.spec_index())
        &&& self.spec_pos() == L::node_pos(self.spec_size(), self.spec_depth(), self.spec_index())
        &&& spec_subtree_length(self.spec_size()) <= usize::MAX
    }

    /// Returns the node's octant relative to its parent.
    pub fn octant(&self) -> (r: Octant)
        requires
            self.wf(),
            self.spec_depth() < self.spec_size(),
        ensures
            r.index() == self.spec_index() % 8,
    {
        let i = self.index % 8;
        match Octant::try_from(i) {
            Some(o) => o,
            None => {
                proof {
                    assert(false);
                }
                Octant::LDF
            },
        }
    }

    /// Returns the node's value.
    pub fn value<T: Copy>(&self, tree: &Octree<T, L>) -> (r: T)
        requires
            tree.wf(),
            self.wf(),
            self.spec_size() == tree.spec_depth(),
        ensures
            r == tree@[self.spec_pos() as int],
    {
        proof {
            L::lemma_node_pos_bounds(self.spec_size(), self.spec_depth(), self.spec_index());
        }
        tree.data[self.pos]
    }

    /// Sets the `value` of this node as well as its whole subtree: every
    /// element the layout assigns to a descendant is repainted, and no other
    /// element changes.
    pub fn set_value<T: Copy>(&self, tree: &mut Octree<T, L>, value: T)
        requires
            old(tree).wf(),
            self.wf(),
            self.spec_size() == old(tree).spec_depth(),
        ensures
            final(tree).wf(),
            final(tree).spec_depth() == old(tree).spec_depth(),
            final(tree)@.len() == old(tree)@.len(),
            forall|k: int|
                0 <= k < final(tree)@.len() ==> final(tree)@[k] == (if L::in_subtree(
                    self.spec_size(),
                    self.spec_depth(),
                    self.spec_index(),
                    k,
                ) {
                    value
                } else {
                    old(tree)@[k]
                }),
    {
        L::fill_node(&mut tree.data, self.pos, value, self.size, self.depth, self.index)
    }

    /// Returns the child node at the given `octant`. A leaf has no
    /// children: remaining depth 0 is rejected.
    pub fn child(&self, octant: Octant) -> (r: OctreeNode<L>)
        requires
            self.wf(),
            self.spec_depth() >= 1,
        ensures
            r.wf(),
            r.spec_size() == self.spec_size(),
            r.spec_depth() == self.spec_depth() - 1,
            r.spec_index() == 8 * self.spec_index() + octant.index(),
    {
        let o = octant.as_usize();
        proof {
            lemma_child_coords_valid(
                self.spec_size(),
                self.spec_depth(),
                self.spec_index(),
                o as nat,
            );
            lemma_pow8_le_subtree_length(
                ((self.size - self.depth) + 1) as nat,
                self.size as nat,
            );
            L::lemma_node_pos_bounds(
                self.spec_size(),
                (self.spec_depth() - 1) as nat,
                8 * self.spec_index() + octant.index(),
            );
        }
        let off = L::child_offset(octant, self.size, self.depth, self.index);
        OctreeNode {
            pos: self.pos + off,
            size: self.size,
            depth: self.depth - 1,
            index: self.index * 8 + o,
            layout: PhantomData,
        }
    }

    /// Returns the child node at the given `octant`, or
    /// [`OctreeError::OutOfRangeNavigation`] when this node is a leaf.
    pub fn try_child(&self, octant: Octant) -> (r: Result<OctreeNode<L>, OctreeError>)
        requires
            self.wf(),
        ensures
            match r {
                Ok(c) => self.spec_depth() >= 1 && c.wf() && c.spec_size() == self.spec_size()
                    && c.spec_depth() == self.spec_depth() - 1 && c.spec_index() == 8
                    * self.spec_index() + octant.index(),
                Err(e) => e == OctreeError::OutOfRangeNavigation && self.spec_depth() == 0,
            },
    {
        if self.depth == 0 {
            Err(OctreeError::OutOfRangeNavigation)
        } else {
            Ok(self.child(octant))
        }
    }

    /// Returns all 8 children, in octant index order.
    pub fn children(&self) -> (r: [OctreeNode<L>; 8])
        requires
            self.wf(),
            self.spec_depth() >= 1,
        ensures
            forall|o: int|
                0 <= o < 8 ==> (#[trigger] r[o]).wf() && r[o].spec_size() == self.spec_size()
                    && r[o].spec_depth() == self.spec_depth() - 1 && r[o].spec_index() == 8
                    * self.spec_index() + o,
    {
        let r: [OctreeNode<L>; 8] = [
            self.child(Octant::LDF),
            self.child(Octant::RDF),
            self.child(Octant::LUF),
            self.child(Octant::RUF),
            self.child(Octant::LDB),
            self.child(Octant::RDB),
            self.child(Octant::LUB),
            self.child(Octant::RUB),
        ];
        assert forall|o: int| 0 <= o < 8 implies (#[trigger] r[o]).wf() && r[o].spec_size()
            == self.spec_size() && r[o].spec_depth() == self.spec_depth() - 1 && r[o].spec_index()
            == 8 * self.spec_index() + o by {
            assert(r[0].spec_index() == 8 * self.spec_index() + 0);
            assert(r[1].spec_index() == 8 * self.spec_index() + 1);
            assert(r[2].spec_index() == 8 * self.spec_index() + 2);
            assert(r[3].spec_index() == 8 * self.spec_index() + 3);
            assert(r[4].spec_index() == 8 * self.spec_index() + 4);
            assert(r[5].spec_index() == 8 * self.spec_index() + 5);
            assert(r[6].spec_index() == 8 * self.spec_index() + 6);
            assert(r[7].spec_index() == 8 * self.spec_index() + 7);
        }
        r
    }

    /// Propagates the most frequent child value into this node's own slot.
    ///
    /// The 8 direct children are compared pairwise, and the node's own value
    /// (not its subtree) becomes the value held by the most children; among
    /// equally frequent values the lowest octant wins. On a leaf this is a
    /// no-op. The pass is single-level by design: it inspects direct
    /// children only and does not recurse.
    ///
    /// The equality of `T` must be plain value equality, as it is for the
    /// primitive types: see `vstd::laws_eq::obeys_concrete_eq`.
    pub fn propagate_common<T: Copy + PartialEq>(&self, tree: &mut Octree<T, L>)
        requires
            old(tree).wf(),
            self.wf(),
            self.spec_size() == old(tree).spec_depth(),
            vstd::laws_eq::obeys_concrete_eq::<T>(),
        ensures
            final(tree).wf(),
            final(tree).spec_depth() == old(tree).spec_depth(),
            self.spec_depth() == 0 ==> final(tree)@ == old(tree)@,
            self.spec_depth() >= 1 ==> final(tree)@ == old(tree)@.update(
                self.spec_pos() as int,
                most_common_child_value::<T, L>(
                    old(tree)@,
                    self.spec_size(),
                    self.spec_depth(),
                    self.spec_index(),
                ),
            ),
    {
        if self.depth == 0 {
            return ;
        }
        let ghost cv = child_values::<T, L>(
            tree@,
            self.spec_size(),
            self.spec_depth(),
            self.spec_index(),
        );
        let kids = self.children();
        let mut vals: Vec<T> = Vec::new();
        let mut o: usize = 0;
        while o < 8
            invariant
                o <= 8,
                vals@.len() == o,
                forall|m: int| 0 <= m < o ==> vals@[m] == cv[m],
                tree.wf(),
                self.wf(),
                self.spec_size() == tree.spec_depth(),
                tree@ == old(tree)@,
                self.spec_depth() >= 1,
                cv == child_values::<T, L>(
                    tree@,
                    self.spec_size(),
                    self.spec_depth(),
                    self.spec_index(),
                ),
                forall|m: int|
                    0 <= m < 8 ==> (#[trigger] kids[m]).wf() && kids[m].spec_size()
                        == self.spec_size() && kids[m].spec_depth() == self.spec_depth() - 1
                        && kids[m].spec_index() == 8 * self.spec_index() + m,
            decreases 8 - o,
        {
            let v = kids[o].value(tree);
            vals.push(v);
            o = o + 1;
        }
        proof {
            assert(vals@ =~= cv);
        }
        let mut best: usize = 0;
        let mut best_count = count_matches(&vals, 0);
        let mut m: usize = 1;
        while m < 8
            invariant
                1 <= m <= 8,
                vals@ == cv,
                cv.len() == 8,
                vstd::laws_eq::obeys_concrete_eq::<T>(),
                best == best_candidate(cv, m as int),
                0 <= best < m,
                best_count == count_value(cv, cv[best as int]),
            decreases 8 - m,
        {
            let c = count_matches(&vals, m);
            if c > best_count {
                best = m;
                best_count = c;
            }
            m = m + 1;
        }
        let winner = vals[best];
        proof {
            L::lemma_node_pos_bounds(self.spec_size(), self.spec_depth(), self.spec_index());
        }
        tree.data[self.pos] = winner;
    }
}

/// How many entries of `vals` equal `x`.
pub open spec fn count_value<T>(vals: Seq<T>, x: T) -> int
    decreases vals.len(),
{
    if vals.len() == 0 {
        0
    } else {
        count_value(vals.drop_last(), x) + (if vals.last() == x {
            1int
        } else {
            0int
        })
    }
}

/// Index of the entry among `vals[0..upto]` whose value occurs most often in
/// `vals`, scanning left to right and keeping the earliest maximum.
pub open spec fn best_candidate<T>(vals: Seq<T>, upto: int) -> int
    decreases upto,
{
    if upto <= 1 {
        0
    } else {
        let prev = best_candidate(vals, upto - 1);
        if count_value(vals, vals[upto - 1]) > count_value(vals, vals[prev]) {
            upto - 1
        } else {
            prev
        }
    }
}

/// The best candidate is in range and no entry occurs more often.
pub proof fn lemma_best_candidate_props<T>(vals: Seq<T>, upto: int)
    requires
        1 <= upto <= vals.len(),
    ensures
        0 <= best_candidate(vals, upto) < upto,
        forall|m: int|
            0 <= m < upto ==> #[trigger] count_value(vals, vals[m]) <= count_value(
                vals,
                vals[best_candidate(vals, upto)],
            ),
    decreases upto,
{
    if upto > 1 {
        lemma_best_candidate_props(vals, upto - 1);
    }
}

/// The 8 values of the children of node `(depth, index)` as they stand in
/// the buffer `buf` under layout `L`, in octant order.
pub open spec fn child_values<T, L: MemoryLayout>(
    buf: Seq<T>,
    size: nat,
    depth: nat,
    index: nat,
) -> Seq<T> {
    Seq::new(8, |o: int| buf[L::node_pos(size, (depth - 1) as nat, (8 * index + o) as nat) as int])
}

/// The child value that [`OctreeNode::propagate_common`] settles on: the
/// most frequent one, ties resolved toward the lowest octant.
pub open spec fn most_common_child_value<T, L: MemoryLayout>(
    buf: Seq<T>,
    size: nat,
    depth: nat,
    index: nat,
) -> T {
    let vals = child_values::<T, L>(buf, size, depth, index);
    vals[best_candidate(vals, 8)]
}

/// In a store freshly filled with one value, the slot of every node of the
/// tree reads back that same value, so a round trip through any navigation
/// yields it everywhere.
pub proof fn lemma_uniform_store_reads_value<T, L: MemoryLayout>(
    buf: Seq<T>,
    value: T,
    size: nat,
    depth: nat,
    index: nat,
)
    requires
        buf.len() == spec_subtree_length(size),
        forall|k: int| 0 <= k < buf.len() ==> buf[k] == value,
        valid_node_coords(size, depth, index),
    ensures
        buf[L::node_pos(size, depth, index) as int] == value,
{
    L::lemma_node_pos_bounds(size, depth, index);
}

/// Counts how many entries of `vals` equal its `m`-th entry, by pairwise
/// comparison.
fn count_matches<T: Copy + PartialEq>(vals: &Vec<T>, m: usize) -> (c: usize)
    requires
        vstd::laws_eq::obeys_concrete_eq::<T>(),
        m < vals@.len(),
    ensures
        c == count_value(vals@, vals@[m as int]),
{
    proof {
        reveal(vstd::laws_eq::obeys_concrete_eq);
    }
    let x = vals[m];
    let n = vals.len();
    let mut c: usize = 0;
    let mut j: usize = 0;
    while j < n
        invariant
            vstd::laws_eq::obeys_concrete_eq::<T>(),
            j <= n,
            n == vals@.len(),
            m < vals@.len(),
            x == vals@[m as int],
            c <= j,
            c == count_value(vals@.subrange(0, j as int), x),
        decreases n - j,
    {
        proof {
            reveal(vstd::laws_eq::obeys_concrete_eq);
            assert(vals@.subrange(0, j + 1).drop_last() =~= vals@.subrange(0, j as int));
            assert(vals@.subrange(0, j + 1).last() == vals@[j as int]);
        }
        if vals[j] == x {
            c = c + 1;
        }
        j = j + 1;
    }
    proof {
        assert(vals@.subrange(0, vals@.len() as int) =~= vals@);
    }
    c
}

impl<T, L> Octree<T, L> {
    /// The buffer contents, in layout order.
    pub closed spec fn view(&self) -> Seq<T> {
        self.data@
    }

    /// The maximal depth of the tree, fixed at construction.
    pub closed spec fn spec_depth(&self) -> nat {
        self.depth as nat
    }
}

impl<T: Copy, L: MemoryLayout> Octree<T, L> {
    /// A store is well formed when its buffer holds exactly one element per
    /// node of the complete tree of its depth.
    pub open spec fn wf(&self) -> bool {
        &&& self@.len() == spec_subtree_length(self.spec_depth())
        &&& spec_subtree_length(self.spec_depth()) <= usize::MAX
    }

    /// Whether `n` describes a node of this tree.
    pub open spec fn valid_node(&self, n: OctreeNode<L>) -> bool {
        &&& n.wf()
        &&& n.spec_size() == self.spec_depth()
    }

    /// Creates an octree of the given maximal `depth` with all nodes holding
    /// the initial `value`.
    pub fn new(value: T, depth: usize) -> (r: Self)
        requires
            spec_subtree_length(depth as nat) <= usize::MAX,
        ensures
            r.wf(),
            r.spec_depth() == depth,
            forall|k: int| 0 <= k < r@.len() ==> r@[k] == value,
    {
        let entry_count = subtree_length(depth);
        let mut data: Vec<T> = Vec::new();
        let mut i: usize = 0;
        while i < entry_count
            invariant
                i <= entry_count,
                data@.len() == i,
                forall|k: int| 0 <= k < i ==> data@[k] == value,
            decreases entry_count - i,
        {
            data.push(value);
            i = i + 1;
        }
        Octree { data, depth, layout: PhantomData }
    }

    /// Creates an octree as [`Octree::new`] does, reporting
    /// [`OctreeError::SizeOverflow`] instead of demanding that the buffer
    /// length fits beforehand.
    pub fn create(value: T, depth: usize) -> (r: Result<Self, OctreeError>)
        ensures
            match r {
                Ok(t) => t.wf() && t.spec_depth() == depth && spec_subtree_length(depth as nat)
                    <= usize::MAX && (forall|k: int| 0 <= k < t@.len() ==> t@[k] == value),
                Err(e) => e == OctreeError::SizeOverflow && spec_subtree_length(depth as nat)
                    > usize::MAX,
            },
    {
        match checked_subtree_length(depth) {
            None => Err(OctreeError::SizeOverflow),
            Some(_) => Ok(Self::new(value, depth)),
        }
    }

    /// Refills the whole octree with the provided `value`, without
    /// reallocating.
    pub fn fill(&mut self, value: T)
        requires
            old(self).wf(),
        ensures
            final(self).wf(),
            final(self).spec_depth() == old(self).spec_depth(),
            final(self)@.len() == old(self)@.len(),
            forall|k: int| 0 <= k < final(self)@.len() ==> final(self)@[k] == value,
    {
        let count = self.data.len();
        let mut i: usize = 0;
        while i < count
            invariant
                i <= count,
                count == self.data@.len(),
                self.data@.len() == old(self).data@.len(),
                self.depth == old(self).depth,
                forall|k: int| 0 <= k < i ==> self.data@[k] == value,
            decreases count - i,
        {
            self.data[i] = value;
            i = i + 1;
        }
    }

    /// Returns the byte size of the octree's buffer.
    pub fn size(&self) -> (r: usize)
        requires
            self.wf(),
            spec_subtree_length(self.spec_depth()) * vstd::layout::size_of::<T>() <= usize::MAX,
        ensures
            r == spec_subtree_length(self.spec_depth()) * vstd::layout::size_of::<T>(),
    {
        crate::util::subtree_size::<T>(self.depth)
    }

    /// Returns the allocation size and alignment of the octree's buffer, or
    /// `None` when the byte size does not fit in `usize`.
    pub fn layout(&self) -> (r: Option<AllocationDescriptor>)
        ensures
            match r {
                Some(d) => d.size == spec_subtree_length(self.spec_depth())
                    * vstd::layout::size_of::<T>() && d.align == vstd::layout::align_of::<T>(),
                None => spec_subtree_length(self.spec_depth()) * vstd::layout::size_of::<T>()
                    > usize::MAX,
            },
    {
        crate::util::subtree_layout::<T>(self.depth)
    }

    /// Returns the maximal depth chosen at construction.
    pub fn max_depth(&self) -> (r: usize)
        ensures
            r == self.spec_depth(),
    {
        self.depth
    }

    /// Returns the descriptor of the root node.
    pub fn root(&self) -> (r: OctreeNode<L>)
        requires
            self.wf(),
        ensures
            self.valid_node(r),
            r.spec_depth() == self.spec_depth(),
            r.spec_index() == 0,
    {
        proof {
            L::lemma_root_pos(self.spec_depth());
            crate::math::lemma_pow8_pos(0);
        }
        OctreeNode {
            pos: 0,
            size: self.depth,
            depth: self.depth,
            index: 0,
            layout: PhantomData,
        }
    }

    /// Returns the whole buffer in layout order, for bulk consumption by the
    /// caller.
    pub fn as_slice(&self) -> (r: &[T])
        ensures
            r@ == self@,
    {
        self.data.as_slice()
    }
}

impl<T: Copy> Octree<T, crate::breath_first::BreathFirst> {
    /// Returns the contiguous run of the `8^height` values of all nodes at
    /// the given `height`: only the breath-first layout keeps a layer
    /// together.
    pub fn layer_slice(&self, height: usize) -> (r: &[T])
        requires
            self.wf(),
            height <= self.spec_depth(),
        ensures
            r@ == self@.subrange(
                layer_offset(height as nat) as int,
                layer_offset(height as nat) + pow8(height as nat) as int,
            ),
    {
        proof {
            lemma_subtree_length_as_layers(self.spec_depth());
            lemma_layer_offset_monotone((height + 1) as nat, self.spec_depth() + 1);
            assert(layer_offset((height + 1) as nat) == layer_offset(height as nat) + pow8(
                height as nat,
            ));
            lemma_pow8_le_subtree_length(height as nat, self.spec_depth());
            if height >= 1 {
                lemma_subtree_length_as_layers((height - 1) as nat);
                lemma_subtree_length_monotone((height - 1) as nat, self.spec_depth());
            }
        }
        let start: usize = if height == 0 {
            0
        } else {
            subtree_length(height - 1)
        };
        let llen = layer_length(height);
        vstd::slice::slice_subrange(self.data.as_slice(), start, start + llen)
    }

    /// Returns the layer at the given `height` as [`Octree::layer_slice`]
    /// does, or [`OctreeError::OutOfRangeNavigation`] for a `height` past
    /// the maximal depth.
    pub fn try_layer_slice(&self, height: usize) -> (r: Result<&[T], OctreeError>)
        requires
            self.wf(),
        ensures
            match r {
                Ok(s) => height <= self.spec_depth() && s@ == self@.subrange(
                    layer_offset(height as nat) as int,
                    layer_offset(height as nat) + pow8(height as nat) as int,
                ),
                Err(e) => e == OctreeError::OutOfRangeNavigation && height > self.spec_depth(),
            },
    {
        if height > self.max_depth() {
            Err(OctreeError::OutOfRangeNavigation)
        } else {
            Ok(self.layer_slice(height))
        }
    }
}

} // verus!
