use implicit_octree::{BreathFirst, DepthFirst, Octant, Octree};

#[test]
fn propagate_common_picks_most_frequent() {
    let mut t = Octree::<u32, BreathFirst>::new(0, 1);
    let root = t.root();
    let vals: [u32; 8] = [5, 5, 3, 5, 2, 2, 2, 2];
    for (o, v) in vals.iter().enumerate() {
        root.child(Octant::try_from(o).unwrap()).set_value(&mut t, *v);
    }
    root.propagate_common(&mut t);
    assert_eq!(root.value(&t), 2);
    // only the node's own value changes, not its subtree
    for (o, v) in vals.iter().enumerate() {
        assert_eq!(root.child(Octant::try_from(o).unwrap()).value(&t), *v);
    }
}

#[test]
fn propagate_common_tie_prefers_lowest_octant() {
    let mut t = Octree::<u32, DepthFirst>::new(0, 1);
    let root = t.root();
    let vals: [u32; 8] = [1, 2, 1, 2, 1, 2, 1, 2];
    for (o, v) in vals.iter().enumerate() {
        root.child(Octant::try_from(o).unwrap()).set_value(&mut t, *v);
    }
    root.propagate_common(&mut t);
    assert_eq!(root.value(&t), 1);
}

#[test]
fn propagate_common_leaf_is_noop() {
    let mut t = Octree::<u32, BreathFirst>::new(4, 1);
    let leaf = t.root().child(Octant::RUB);
    let before: Vec<u32> = t.as_slice().to_vec();
    leaf.propagate_common(&mut t);
    assert_eq!(t.as_slice(), &before[..]);
}
