use vstd::prelude::*;

use crate::math::{
    lemma_pow8_monotone, lemma_subtree_length_monotone, pow8, spec_subtree_length,
};

verus! {

/// Size and alignment of the single allocation backing an octree: as many
/// elements as the subtree holds, each of the element type's size, at the
/// element type's alignment.
pub struct AllocationDescriptor {
    pub size: usize,
    pub align: usize,
}

/// Returns the length of an octree layer at the given `depth` below a node:
/// `8^depth` elements.
pub fn layer_length(depth: usize) -> (r: usize)
    requires
        pow8(depth as nat) <= usize::MAX,
    ensures
        r == pow8(depth as nat),
{
    let mut r: usize = 1;
    let mut i: usize = 0;
    while i < depth
        invariant
            i <= depth,
            r == pow8(i as nat),
            pow8(depth as nat) <= usize::MAX,
        decreases depth - i,
    {
        proof {
            lemma_pow8_monotone((i + 1) as nat, depth as nat);
        }
        r = r * 8;
        i = i + 1;
    }
    r
}

/// Returns the length of an octree subtree for the given `depth`:
/// `1 + 8 + ... + 8^depth` elements.
pub fn subtree_length(depth: usize) -> (r: usize)
    requires
        spec_subtree_length(depth as nat) <= usize::MAX,
    ensures
        r == spec_subtree_length(depth as nat),
{
    let mut accum: usize = 1;
    let mut i: usize = 0;
    while i < depth
        invariant
            i <= depth,
            accum == spec_subtree_length(i as nat),
            spec_subtree_length(depth as nat) <= usize::MAX,
        decreases depth - i,
    {
        proof {
            lemma_subtree_length_monotone((i + 1) as nat, depth as nat);
        }
        accum = accum * 8;
        accum = accum + 1;
        i = i + 1;
    }
    accum
}

/// Returns the length of an octree subtree for the given `depth`, or `None`
/// when that length does not fit in `usize`.
pub fn checked_subtree_length(depth: usize) -> (r: Option<usize>)
    ensures
        match r {
            Some(v) => v == spec_subtree_length(depth as nat) && spec_subtree_length(
                depth as nat,
            ) <= usize::MAX,
            None => spec_subtree_length(depth as nat) > usize::MAX,
        },
{
    let mut accum: usize = 1;
    let mut i: usize = 0;
    while i < depth
        invariant
            i <= depth,
            accum == spec_subtree_length(i as nat),
        decreases depth - i,
    {
        if accum > (usize::MAX - 1) / 8 {
            proof {
                assert(8 * accum + 1 > usize::MAX);
                lemma_subtree_length_monotone((i + 1) as nat, depth as nat);
            }
            return None;
        }
        accum = accum * 8;
        accum = accum + 1;
        i = i + 1;
    }
    Some(accum)
}

/// Returns the byte size of an octree subtree for the given `depth`.
pub fn subtree_size<T>(depth: usize) -> (r: usize)
    requires
        spec_subtree_length(depth as nat) <= usize::MAX,
        spec_subtree_length(depth as nat) * vstd::layout::size_of::<T>() <= usize::MAX,
    ensures
        r == spec_subtree_length(depth as nat) * vstd::layout::size_of::<T>(),
{
    let len = subtree_length(depth);
    len * core::mem::size_of::<T>()
}

/// Returns the allocation size and alignment of an octree subtree for the
/// given `depth`, or `None` when the byte size does not fit in `usize`.
pub fn subtree_layout<T>(depth: usize) -> (r: Option<AllocationDescriptor>)
    ensures
        match r {
            Some(d) => d.size == spec_subtree_length(depth as nat) * vstd::layout::size_of::<T>()
                && d.align == vstd::layout::align_of::<T>() && spec_subtree_length(depth as nat)
                * vstd::layout::size_of::<T>() <= usize::MAX,
            None => spec_subtree_length(depth as nat) * vstd::layout::size_of::<T>() > usize::MAX,
        },
{
    let elem: usize = core::mem::size_of::<T>();
    let align: usize = core::mem::align_of::<T>();
    if elem == 0 {
        proof {
            assert(spec_subtree_length(depth as nat) * 0 == 0) by (nonlinear_arith);
        }
        return Some(AllocationDescriptor { size: 0, align });
    }
    match checked_subtree_length(depth) {
        None => {
            proof {
                assert(spec_subtree_length(depth as nat) * (elem as nat) > usize::MAX)
                    by (nonlinear_arith)
                    requires
                        spec_subtree_length(depth as nat) > usize::MAX,
                        elem >= 1,
                ;
            }
            None
        },
        Some(len) => {
            if len > usize::MAX / elem {
                proof {
                    assert((len as int) * (elem as int) > usize::MAX as int) by (nonlinear_arith)
                        requires
                            (len as int) > (usize::MAX as int) / (elem as int),
                            elem >= 1,
                    ;
                }
                None
            } else {
                proof {
                    assert((len as int) * (elem as int) <= usize::MAX as int) by (nonlinear_arith)
                        requires
                            (len as int) <= (usize::MAX as int) / (elem as int),
                            elem >= 1,
                            len >= 0,
                    ;
                }
                Some(AllocationDescriptor { size: len * elem, align })
            }
        },
    }
}

} // verus!
