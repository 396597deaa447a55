use implicit_octree::{checked_subtree_length, BreathFirst, Octant, Octree, OctreeError};

#[test]
fn leaf_child_fails() {
    let t = Octree::<u8, BreathFirst>::new(0, 1);
    let leaf = t.root().child(Octant::LDF);
    assert_eq!(leaf.remaining_depth(), 0);
    assert!(matches!(
        leaf.try_child(Octant::LDF),
        Err(OctreeError::OutOfRangeNavigation)
    ));
}

#[test]
fn layer_slice_out_of_range_fails() {
    let t = Octree::<u8, BreathFirst>::new(0, 1);
    assert!(t.try_layer_slice(0).is_ok());
    assert!(t.try_layer_slice(1).is_ok());
    assert!(matches!(
        t.try_layer_slice(2),
        Err(OctreeError::OutOfRangeNavigation)
    ));
}

#[test]
fn size_overflow_detected() {
    assert!(checked_subtree_length(64).is_none());
    assert!(checked_subtree_length(usize::MAX).is_none());
    assert!(matches!(
        Octree::<u64, BreathFirst>::create(0, 64),
        Err(OctreeError::SizeOverflow)
    ));
    let t = Octree::<u64, BreathFirst>::create(3, 1).unwrap();
    assert_eq!(t.as_slice(), &[3u64; 9][..]);
}
