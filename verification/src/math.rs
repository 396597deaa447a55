use vstd::prelude::*;

verus! {

/// `8^n`: the number of nodes in an octree layer `n` levels below a single
/// node, and the length of the layer at height `n` of a whole tree.
pub open spec fn pow8(n: nat) -> nat
    decreases n,
{
    if n == 0 {
        1
    } else {
        8 * pow8((n - 1) as nat)
    }
}

/// Number of elements in a complete subtree with remaining depth `depth`:
/// `1 + 8 + ... + 8^depth`.
pub open spec fn spec_subtree_length(depth: nat) -> nat
    decreases depth,
{
    if depth == 0 {
        1
    } else {
        1 + 8 * spec_subtree_length((depth - 1) as nat)
    }
}

/// Index of the first element of the layer at height `height` in a
/// breadth-first buffer: `8^0 + 8^1 + ... + 8^(height-1)`.
pub open spec fn layer_offset(height: nat) -> nat
    decreases height,
{
    if height == 0 {
        0
    } else {
        layer_offset((height - 1) as nat) + pow8((height - 1) as nat)
    }
}

pub proof fn lemma_pow8_pos(n: nat)
    ensures
        pow8(n) >= 1,
    decreases n,
{
    if n > 0 {
        lemma_pow8_pos((n - 1) as nat);
    }
}

/// `8^(a+b) == 8^a * 8^b`.
pub proof fn lemma_pow8_adds(a: nat, b: nat)
    ensures
        pow8(a + b) == pow8(a) * pow8(b),
    decreases b,
{
    if b == 0 {
        assert(pow8(a) * 1 == pow8(a)) by (nonlinear_arith);
    } else {
        lemma_pow8_adds(a, (b - 1) as nat);
        assert(pow8((a + b - 1) as nat) == pow8(a) * pow8((b - 1) as nat));
        assert(pow8((a + b) as nat) == 8 * (pow8(a) * pow8((b - 1) as nat)));
        assert(8 * (pow8(a) * pow8((b - 1) as nat)) == pow8(a) * (8 * pow8((b - 1) as nat)))
            by (nonlinear_arith);
    }
}

pub proof fn lemma_pow8_monotone(a: nat, b: nat)
    requires
        a <= b,
    ensures
        pow8(a) <= pow8(b),
{
    lemma_pow8_adds(a, (b - a) as nat);
    lemma_pow8_pos(a);
    lemma_pow8_pos((b - a) as nat);
    assert(pow8(a) * 1 <= pow8(a) * pow8((b - a) as nat)) by (nonlinear_arith)
        requires
            pow8(a) >= 1,
            pow8((b - a) as nat) >= 1,
    ;
}

pub proof fn lemma_subtree_length_monotone(a: nat, b: nat)
    requires
        a <= b,
    ensures
        spec_subtree_length(a) <= spec_subtree_length(b),
    decreases b,
{
    if a < b {
        lemma_subtree_length_monotone(a, (b - 1) as nat);
    }
}

pub proof fn lemma_subtree_length_pos(d: nat)
    ensures
        spec_subtree_length(d) >= 1,
{
    lemma_subtree_length_monotone(0, d);
}

/// `layer_offset(h + 1) == 1 + 8 * layer_offset(h)`: skipping one more layer
/// is the same as widening every skipped layer eightfold and adding the root.
pub proof fn lemma_layer_offset_scale(h: nat)
    ensures
        layer_offset(h + 1) == 1 + 8 * layer_offset(h),
    decreases h,
{
    if h > 0 {
        lemma_layer_offset_scale((h - 1) as nat);
    }
}

pub proof fn lemma_layer_offset_monotone(a: nat, b: nat)
    requires
        a <= b,
    ensures
        layer_offset(a) <= layer_offset(b),
    decreases b,
{
    if a < b {
        lemma_layer_offset_monotone(a, (b - 1) as nat);
    }
}

/// A complete subtree of remaining depth `d` holds as many elements as the
/// first `d + 1` layers of a whole tree.
pub proof fn lemma_subtree_length_as_layers(d: nat)
    ensures
        spec_subtree_length(d) == layer_offset(d + 1),
    decreases d,
{
    if d == 0 {
    } else {
        lemma_subtree_length_as_layers((d - 1) as nat);
        lemma_layer_offset_scale(d);
    }
}

/// Every layer of the tree fits inside the whole buffer.
pub proof fn lemma_pow8_le_subtree_length(m: nat, size: nat)
    requires
        m <= size,
    ensures
        pow8(m) <= spec_subtree_length(size),
{
    lemma_layer_offset_monotone(m + 1, size + 1);
    lemma_subtree_length_as_layers(size);
}

/// A subtree of remaining depth `d` has more than `d` elements: one per
/// level at the very least.
pub proof fn lemma_subtree_length_lower(d: nat)
    ensures
        spec_subtree_length(d) >= d + 1,
    decreases d,
{
    if d > 0 {
        lemma_subtree_length_lower((d - 1) as nat);
    }
}

/// The union of two disjoint finite sets has the sum of their sizes.
pub proof fn lemma_disjoint_union_len<A>(s1: Set<A>, s2: Set<A>)
    requires
        s1.finite(),
        s2.finite(),
        s1.disjoint(s2),
    ensures
        s1.union(s2).finite(),
        s1.union(s2).len() == s1.len() + s2.len(),
    decreases s1.len(),
{
    if s1.len() == 0 {
        s1.lemma_len0_is_empty();
        assert(s1.union(s2) =~= s2);
    } else {
        let a = s1.choose();
        assert(s1.contains(a));
        lemma_disjoint_union_len(s1.remove(a), s2);
        assert(s1.remove(a).union(s2) =~= s1.union(s2).remove(a));
        assert(s1.union(s2) =~= s1.union(s2).remove(a).insert(a));
    }
}

/// Closed form of the subtree length: `SubtreeLength(d) == (8^(d+1) - 1) / 7`,
/// stated multiplicatively as `7 * SubtreeLength(d) + 1 == 8^(d+1)`.
pub proof fn lemma_subtree_length_closed_form(d: nat)
    ensures
        7 * spec_subtree_length(d) + 1 == pow8(d + 1),
    decreases d,
{
    if d == 0 {
        assert(pow8(1) == 8 * pow8(0));
    } else {
        lemma_subtree_length_closed_form((d - 1) as nat);
        assert(pow8(d + 1) == 8 * pow8(d));
    }
}

} // verus!
