use vstd::prelude::*;
use vstd::set_lib::{lemma_int_range, set_int_range};

use crate::layout::{valid_node_coords, MemoryLayout};
use crate::math::{
    layer_offset, lemma_disjoint_union_len, lemma_layer_offset_monotone,
    lemma_pow8_le_subtree_length, lemma_subtree_length_as_layers, lemma_subtree_length_lower,
    pow8, spec_subtree_length,
};
use crate::octant::Octant;
use crate::util::layer_length;

verus! {

/// A breath-first memory layout.
///
/// Octree values are stored layer by layer: the root layer (1 value), then
/// the first layer (8 values), then the next (64 values), and so on, each
/// layer ordered by layer index.
///
/// This representation is ideal for parallel processing and LOD streaming,
/// and allows accessing each layer directly as a slice of memory; the price
/// is that one node's subtree is scattered across every deeper layer.
#[derive(Debug, Clone, Copy)]
pub struct BreathFirst;

/// Element offset of node `(depth, index)` under the breath-first layout:
/// all layers above it, then its position within its own layer.
pub open spec fn bf_node_pos(size: nat, depth: nat, index: nat) -> nat {
    layer_offset((size - depth) as nat) + index
}

/// The `j`-th band of the subtree of node `(depth, index)`: the node's share
/// of the layer `j` levels below it, a contiguous run of `8^j` elements
/// starting at the layer's offset plus `index * 8^j`.
pub open spec fn bf_band(size: nat, depth: nat, index: nat, j: nat, k: int) -> bool {
    let start = layer_offset(((size - depth) + j) as nat) + index * pow8(j);
    start <= k < start + pow8(j)
}

/// Whether `k` lies in one of the first `t` bands of the subtree of
/// `(depth, index)`.
pub open spec fn bf_in_bands_below(size: nat, depth: nat, index: nat, t: nat, k: int) -> bool {
    exists|j: nat| j < t && #[trigger] bf_band(size, depth, index, j, k)
}

/// Adding one band to the first `j` of them covers exactly one more level.
pub proof fn lemma_bf_bands_below_step(size: nat, depth: nat, index: nat, j: nat, k: int)
    ensures
        bf_in_bands_below(size, depth, index, j + 1, k) <==> (bf_in_bands_below(
            size,
            depth,
            index,
            j,
            k,
        ) || bf_band(size, depth, index, j, k)),
{
    if bf_in_bands_below(size, depth, index, j + 1, k) {
        let j0 = choose|j0: nat| j0 < j + 1 && #[trigger] bf_band(size, depth, index, j0, k);
        if j0 < j {
            assert(bf_in_bands_below(size, depth, index, j, k));
        }
    }
    if bf_in_bands_below(size, depth, index, j, k) {
        let j0 = choose|j0: nat| j0 < j && #[trigger] bf_band(size, depth, index, j0, k);
        assert(j0 < j + 1 && bf_band(size, depth, index, j0, k));
        assert(bf_in_bands_below(size, depth, index, j + 1, k));
    }
    if bf_band(size, depth, index, j, k) {
        assert(j < j + 1 && bf_band(size, depth, index, j, k));
        assert(bf_in_bands_below(size, depth, index, j + 1, k));
    }
}

/// Each band lies inside its own layer, and inside the buffer.
pub proof fn lemma_bf_band_bounds(size: nat, depth: nat, index: nat, j: nat)
    requires
        valid_node_coords(size, depth, index),
        j <= depth,
    ensures
        layer_offset(((size - depth) + j) as nat) <= layer_offset(((size - depth) + j) as nat)
            + index * pow8(j),
        layer_offset(((size - depth) + j) as nat) + index * pow8(j) + pow8(j) <= layer_offset(
            ((size - depth) + j + 1) as nat,
        ),
        layer_offset(((size - depth) + j + 1) as nat) <= spec_subtree_length(size),
{
    let h = (size - depth) as nat;
    assert(index * pow8(j) >= 0) by (nonlinear_arith)
        requires
            index >= 0,
            pow8(j) >= 0,
    ;
    assert(index * pow8(j) + pow8(j) <= pow8(h) * pow8(j)) by (nonlinear_arith)
        requires
            index < pow8(h),
    ;
    crate::math::lemma_pow8_adds(h, j);
    assert(layer_offset((h + j + 1) as nat) == layer_offset((h + j) as nat) + pow8(
        (h + j) as nat,
    ));
    lemma_layer_offset_monotone((h + j + 1) as nat, size + 1);
    lemma_subtree_length_as_layers(size);
}

/// Bands at different levels never overlap: they lie in different layers.
pub proof fn lemma_bf_bands_distinct(size: nat, depth: nat, index: nat, j1: nat, j2: nat, k: int)
    requires
        valid_node_coords(size, depth, index),
        j1 < j2 <= depth,
        bf_band(size, depth, index, j1, k),
    ensures
        !bf_band(size, depth, index, j2, k),
{
    let h = (size - depth) as nat;
    lemma_bf_band_bounds(size, depth, index, j1);
    lemma_bf_band_bounds(size, depth, index, j2);
    lemma_layer_offset_monotone((h + j1 + 1) as nat, (h + j2) as nat);
}

/// Band `j` of child `o` is a run within band `j + 1` of the parent,
/// starting `o * 8^j` elements into it.
pub proof fn lemma_bf_child_band(size: nat, depth: nat, index: nat, o: nat, j: nat)
    requires
        valid_node_coords(size, depth, index),
        depth >= 1,
        o < 8,
        j <= depth - 1,
    ensures
        layer_offset(((size - (depth - 1)) + j) as nat) + (8 * index + o) * pow8(j) == layer_offset(
            ((size - depth) + (j + 1)) as nat,
        ) + index * pow8((j + 1) as nat) + o * pow8(j),
{
    assert(pow8((j + 1) as nat) == 8 * pow8(j));
    assert((8 * index + o) * pow8(j) == index * (8 * pow8(j)) + o * pow8(j)) by (nonlinear_arith);
}

impl MemoryLayout for BreathFirst {
    open spec fn node_pos(size: nat, depth: nat, index: nat) -> nat {
        bf_node_pos(size, depth, index)
    }

    open spec fn in_subtree(size: nat, depth: nat, index: nat, k: int) -> bool {
        bf_in_bands_below(size, depth, index, depth + 1, k)
    }

    proof fn lemma_root_pos(size: nat) {
    }

    proof fn lemma_node_pos_bounds(size: nat, depth: nat, index: nat) {
        let h = (size - depth) as nat;
        lemma_bf_band_bounds(size, depth, index, 0);
        assert(index * pow8(0) == index) by (nonlinear_arith)
            requires
                pow8(0) == 1,
        ;
        assert(bf_band(size, depth, index, 0, bf_node_pos(size, depth, index) as int));
    }

    proof fn lemma_in_subtree_bounds(size: nat, depth: nat, index: nat, k: int) {
        let j = choose|j: nat| j < depth + 1 && #[trigger] bf_band(size, depth, index, j, k);
        lemma_bf_band_bounds(size, depth, index, j);
    }

    proof fn lemma_children_partition(size: nat, depth: nat, index: nat) {
        let h = (size - depth) as nat;
        let p = bf_node_pos(size, depth, index) as int;
        let cd = (depth - 1) as nat;
        assert(index * pow8(0) == index) by (nonlinear_arith)
            requires
                pow8(0) == 1,
        ;
        // the node's own slot is the whole 0-th band of its subtree
        assert(bf_band(size, depth, index, 0, p));
        assert(Self::in_subtree(size, depth, index, p));
        // each child band sits inside the parent band one level further down
        assert forall|o: nat, j: nat, k: int|
            o < 8 && j <= cd && #[trigger] bf_band(size, cd, 8 * index + o, j, k) implies bf_band(
                size,
                depth,
                index,
                j + 1,
                k,
            ) by {
            lemma_bf_child_band(size, depth, index, o, j);
            assert(o * pow8(j) + pow8(j) <= 8 * pow8(j)) by (nonlinear_arith)
                requires
                    o < 8,
            ;
            assert(o * pow8(j) >= 0) by (nonlinear_arith)
                requires
                    o >= 0,
                    pow8(j) >= 0,
            ;
            assert(pow8((j + 1) as nat) == 8 * pow8(j));
        }
        // cover: an element of the subtree is the node's own slot or lies in
        // some child's subtree
        assert forall|k: int|
            #[trigger] Self::in_subtree(size, depth, index, k) && k != p implies exists|o: nat|
            o < 8 && #[trigger] Self::in_subtree(size, cd, 8 * index + o, k) by {
            let j = choose|j: nat| j < depth + 1 && #[trigger] bf_band(size, depth, index, j, k);
            if j == 0 {
                assert(k == p);
            } else {
                let start = layer_offset((h + j) as nat) + index * pow8(j);
                let q = k - start;
                let o = q / pow8((j - 1) as nat) as int;
                assert(pow8(j) == 8 * pow8((j - 1) as nat));
                assert(0 <= o < 8 && pow8((j - 1) as nat) * o <= q < pow8((j - 1) as nat) * o
                    + pow8((j - 1) as nat)) by (nonlinear_arith)
                    requires
                        0 <= q < 8 * pow8((j - 1) as nat),
                        pow8((j - 1) as nat) >= 1,
                        o == q / pow8((j - 1) as nat) as int,
                {
                }
                lemma_bf_child_band(size, depth, index, o as nat, (j - 1) as nat);
                assert(o * pow8((j - 1) as nat) == pow8((j - 1) as nat) * o) by (nonlinear_arith);
                assert(bf_band(size, cd, 8 * index + o as nat, (j - 1) as nat, k));
                assert(Self::in_subtree(size, cd, 8 * index + o as nat, k));
            }
        }
        // converse cover: a child's subtree lies inside the parent's
        assert forall|o: nat, k: int|
            o < 8 && #[trigger] Self::in_subtree(size, cd, 8 * index + o, k) implies
            Self::in_subtree(size, depth, index, k) by {
            let j = choose|j: nat| j < cd + 1 && #[trigger] bf_band(size, cd, 8 * index + o, j, k);
            assert(bf_band(size, depth, index, j + 1, k));
        }
        // children are pairwise disjoint
        assert forall|o1: nat, o2: nat, k: int|
            o1 < 8 && o2 < 8 && o1 != o2 && #[trigger] Self::in_subtree(size, cd, 8 * index + o1, k)
            implies !(#[trigger] Self::in_subtree(size, cd, 8 * index + o2, k)) by {
            if Self::in_subtree(size, cd, 8 * index + o2, k) {
                let j1 = choose|j: nat|
                    j < cd + 1 && #[trigger] bf_band(size, cd, 8 * index + o1, j, k);
                let j2 = choose|j: nat|
                    j < cd + 1 && #[trigger] bf_band(size, cd, 8 * index + o2, j, k);
                crate::layout::lemma_child_coords_valid(size, depth, index, o1);
                crate::layout::lemma_child_coords_valid(size, depth, index, o2);
                if j1 < j2 {
                    lemma_bf_band_bounds(size, cd, 8 * index + o1, j1);
                    lemma_bf_band_bounds(size, cd, 8 * index + o2, j2);
                    lemma_layer_offset_monotone((h + 1 + j1 + 1) as nat, (h + 1 + j2) as nat);
                } else if j2 < j1 {
                    lemma_bf_band_bounds(size, cd, 8 * index + o1, j1);
                    lemma_bf_band_bounds(size, cd, 8 * index + o2, j2);
                    lemma_layer_offset_monotone((h + 1 + j2 + 1) as nat, (h + 1 + j1) as nat);
                } else {
                    let j = j1;
                    lemma_bf_child_band(size, depth, index, o1, j);
                    lemma_bf_child_band(size, depth, index, o2, j);
                    assert(o1 < o2 ==> o1 * pow8(j) + pow8(j) <= o2 * pow8(j)) by (nonlinear_arith)
                        requires
                            pow8(j) >= 1,
                    ;
                    assert(o2 < o1 ==> o2 * pow8(j) + pow8(j) <= o1 * pow8(j)) by (nonlinear_arith)
                        requires
                            pow8(j) >= 1,
                    ;
                }
            }
        }
        // no child's subtree holds the node's own slot: it lies in an upper
        // layer
        assert forall|o: nat| o < 8 implies !(#[trigger] Self::in_subtree(size, cd, 8 * index + o, p))
            by {
            if Self::in_subtree(size, cd, 8 * index + o, p) {
                let j = choose|j: nat| j < cd + 1 && #[trigger] bf_band(size, cd, 8 * index + o, j, p);
                crate::layout::lemma_child_coords_valid(size, depth, index, o);
                lemma_bf_band_bounds(size, cd, 8 * index + o, j);
                lemma_layer_offset_monotone((h + 1) as nat, (h + 1 + j) as nat);
                assert(p < layer_offset((h + 1) as nat));
            }
        }
    }

    proof fn lemma_subtree_member_count(size: nat, depth: nat, index: nat) {
        lemma_bf_bands_below_count(size, depth, index, depth + 1);
        lemma_subtree_length_as_layers(depth);
        assert(Set::new(|k: int| Self::in_subtree(size, depth, index, k)) =~= Set::new(
            |k: int| bf_in_bands_below(size, depth, index, depth + 1, k),
        ));
    }

    fn child_offset(octant: Octant, size: usize, depth: usize, index: usize) -> (r: usize) {
        let o = octant.as_usize();
        let height = size - depth;
        proof {
            let h = height as nat;
            lemma_pow8_le_subtree_length((h + 1) as nat, size as nat);
            crate::math::lemma_pow8_monotone(h, (h + 1) as nat);
            assert(pow8((h + 1) as nat) == 8 * pow8(h));
            assert(layer_offset((h + 1) as nat) == layer_offset(h) + pow8(h));
        }
        let layer_size = layer_length(height);
        let end_of_current = layer_size - index;
        let start_of_next = index * 8 + o;
        end_of_current + start_of_next
    }

    fn fill_node<T: Copy>(
        data: &mut Vec<T>,
        pos: usize,
        value: T,
        size: usize,
        depth: usize,
        index: usize,
    ) {
        let height = size - depth;
        let n = data.len();
        proof {
            lemma_subtree_length_as_layers(size as nat);
            lemma_subtree_length_lower(size as nat);
            lemma_pow8_le_subtree_length(height as nat, size as nat);
            assert((index as int) * pow8(0) == index as int) by (nonlinear_arith)
                requires
                    pow8(0) == 1,
            ;
        }
        let mut layer_size = layer_length(height);
        let mut fill_size: usize = 1;
        let mut cursor = pos;
        let mut j: usize = 0;
        while j <= depth
            invariant
                j <= depth + 1,
                depth <= size,
                index < pow8((size - depth) as nat),
                height == size - depth,
                n == data@.len(),
                n == old(data)@.len(),
                n == spec_subtree_length(size as nat),
                spec_subtree_length(size as nat) <= usize::MAX,
                j <= depth ==> fill_size == pow8(j as nat),
                j <= depth ==> layer_size == pow8((height + j) as nat),
                j <= depth ==> cursor == layer_offset((height + j) as nat) + (index as int) * pow8(
                    j as nat,
                ),
                forall|k: int|
                    0 <= k < n ==> data@[k] == (if bf_in_bands_below(
                        size as nat,
                        depth as nat,
                        index as nat,
                        j as nat,
                        k,
                    ) {
                        value
                    } else {
                        old(data)@[k]
                    }),
            decreases depth + 1 - j,
        {
            proof {
                lemma_bf_band_bounds(size as nat, depth as nat, index as nat, j as nat);
                lemma_subtree_length_lower(size as nat);
                lemma_pow8_le_subtree_length((size - depth) as nat, size as nat);
            }
            let ghost prev = data@;
            let mut w: usize = 0;
            while w < fill_size
                invariant
                    w <= fill_size,
                    cursor + fill_size <= n,
                    n == data@.len(),
                    prev.len() == n,
                    forall|k: int| cursor <= k < cursor + w ==> data@[k] == value,
                    forall|k: int|
                        0 <= k < n && !(cursor <= k < cursor + w) ==> data@[k] == prev[k],
                decreases fill_size - w,
            {
                let idx = cursor + w;
                data[idx] = value;
                w = w + 1;
            }
            proof {
                let sz = size as nat;
                let dp = depth as nat;
                let ix = index as nat;
                let jn = j as nat;
                assert forall|k: int| 0 <= k < n implies data@[k] == (if bf_in_bands_below(
                    sz,
                    dp,
                    ix,
                    (jn + 1) as nat,
                    k,
                ) {
                    value
                } else {
                    old(data)@[k]
                }) by {
                    lemma_bf_bands_below_step(sz, dp, ix, jn, k);
                    if cursor <= k < cursor + fill_size {
                        assert(bf_band(sz, dp, ix, jn, k));
                        assert(data@[k] == value);
                    } else {
                        assert(!bf_band(sz, dp, ix, jn, k));
                        assert(data@[k] == prev[k]);
                    }
                }
            }
            if j < depth {
                proof {
                    let h = height as nat;
                    let jn = j as nat;
                    let ix = index as int;
                    lemma_bf_band_bounds(size as nat, depth as nat, index as nat, (jn + 1) as nat);
                    lemma_pow8_le_subtree_length((h + jn) as nat, size as nat);
                    lemma_pow8_le_subtree_length((h + jn + 1) as nat, size as nat);
                    crate::math::lemma_pow8_monotone((jn + 1) as nat, (h + jn + 1) as nat);
                    assert(pow8((jn + 1) as nat) == 8 * pow8(jn));
                    assert(pow8((h + jn + 1) as nat) == 8 * pow8((h + jn) as nat));
                    assert(layer_offset((h + jn + 1) as nat) == layer_offset((h + jn) as nat)
                        + pow8((h + jn) as nat));
                    crate::math::lemma_pow8_adds(h, jn);
                    assert((ix + 1) * pow8(jn) == ix * pow8(jn) + pow8(jn)) by (nonlinear_arith);
                    assert((ix + 1) * pow8(jn) <= pow8((h + jn) as nat)) by (nonlinear_arith)
                        requires
                            ix < pow8(h),
                            pow8((h + jn) as nat) == pow8(h) * pow8(jn),
                            pow8(jn) >= 0,
                    ;
                    assert(8 * (ix * pow8(jn)) == ix * (8 * pow8(jn))) by (nonlinear_arith);
                }
                let stride = (index + 1) * fill_size;
                let end_of_current = layer_size - stride;
                let skip_leading = index * fill_size * 8;
                cursor = cursor + fill_size + end_of_current + skip_leading;
                fill_size = fill_size * 8;
                layer_size = layer_size * 8;
            }
            j = j + 1;
        }
    }
}

/// The first `t` bands of a subtree hold exactly `layer_offset(t)` elements:
/// `8^0 + ... + 8^(t-1)`.
pub proof fn lemma_bf_bands_below_count(size: nat, depth: nat, index: nat, t: nat)
    requires
        valid_node_coords(size, depth, index),
        t <= depth + 1,
    ensures
        Set::new(|k: int| bf_in_bands_below(size, depth, index, t, k)).finite(),
        Set::new(|k: int| bf_in_bands_below(size, depth, index, t, k)).len() == layer_offset(t),
    decreases t,
{
    let members = Set::new(|k: int| bf_in_bands_below(size, depth, index, t, k));
    if t == 0 {
        assert(members =~= Set::empty());
    } else {
        let t0 = (t - 1) as nat;
        lemma_bf_bands_below_count(size, depth, index, t0);
        let below = Set::new(|k: int| bf_in_bands_below(size, depth, index, t0, k));
        let start = layer_offset(((size - depth) + t0) as nat) + index * pow8(t0);
        let band = set_int_range(start as int, start as int + pow8(t0));
        lemma_bf_band_bounds(size, depth, index, t0);
        lemma_int_range(start as int, start as int + pow8(t0));
        assert forall|k: int| #[trigger] band.contains(k) implies bf_band(size, depth, index, t0, k)
            by {}
        assert(below.disjoint(band)) by {
            assert forall|k: int| #[trigger] below.contains(k) implies !band.contains(k) by {
                let j0 = choose|j0: nat| j0 < t0 && #[trigger] bf_band(size, depth, index, j0, k);
                lemma_bf_bands_distinct(size, depth, index, j0, t0, k);
            }
        }
        lemma_disjoint_union_len(below, band);
        assert(members =~= below.union(band)) by {
            assert forall|k: int| #[trigger] members.contains(k) implies below.union(band).contains(
                k,
            ) by {
                let j0 = choose|j0: nat| j0 < t && #[trigger] bf_band(size, depth, index, j0, k);
                if j0 < t0 {
                    assert(below.contains(k));
                } else {
                    assert(band.contains(k));
                }
            }
            assert forall|k: int| #[trigger] below.union(band).contains(k) implies members.contains(
                k,
            ) by {
                if below.contains(k) {
                    let j0 = choose|j0: nat|
                        j0 < t0 && #[trigger] bf_band(size, depth, index, j0, k);
                    assert(bf_in_bands_below(size, depth, index, t, k));
                } else {
                    assert(bf_band(size, depth, index, t0, k));
                    assert(bf_in_bands_below(size, depth, index, t, k));
                }
            }
        }
        assert(layer_offset(t) == layer_offset(t0) + pow8(t0));
    }
}

} // verus!
