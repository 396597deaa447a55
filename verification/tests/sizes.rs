use implicit_octree::{checked_subtree_length, layer_length, subtree_layout, subtree_length};

#[test]
fn lib_octree_size_test() {
    assert_eq!(implicit_octree::subtree_size::<u8>(0), 1);
    assert_eq!(implicit_octree::subtree_size::<u8>(1), 1 + 8 * 1);
    assert_eq!(implicit_octree::subtree_size::<u8>(2), 1 + 8 * (1 + 8 * 1));
    assert_eq!(implicit_octree::subtree_size::<u8>(3), 1 + 8 * (1 + 8 * (1 + 8 * 1)));
}

#[test]
fn util_octree_size_test() {
    assert_eq!(implicit_octree::util::subtree_size::<u8>(0), 1);
    assert_eq!(implicit_octree::util::subtree_size::<u8>(1), 1 + 8 * 1);
    assert_eq!(implicit_octree::util::subtree_size::<u8>(2), 1 + 8 * (1 + 8 * 1));
    assert_eq!(implicit_octree::util::subtree_size::<u8>(3), 1 + 8 * (1 + 8 * (1 + 8 * 1)));
}

#[test]
fn subtree_length_closed_form_small_depths() {
    for depth in 0..=6usize {
        let expected = (8usize.pow(depth as u32 + 1) - 1) / 7;
        assert_eq!(subtree_length(depth), expected);
        assert_eq!(checked_subtree_length(depth), Some(expected));
    }
    assert_eq!(subtree_length(0), 1);
    assert_eq!(subtree_length(1), 9);
    assert_eq!(subtree_length(2), 73);
    assert_eq!(subtree_length(3), 585);
}

#[test]
fn layer_length_values() {
    assert_eq!(layer_length(0), 1);
    assert_eq!(layer_length(1), 8);
    assert_eq!(layer_length(2), 64);
    assert_eq!(layer_length(3), 512);
}

#[test]
fn subtree_layout_descriptor() {
    let d = subtree_layout::<u64>(1).unwrap();
    assert_eq!(d.size, 72);
    assert_eq!(d.align, std::mem::align_of::<u64>());
    let b = subtree_layout::<u8>(2).unwrap();
    assert_eq!(b.size, 73);
    assert_eq!(b.align, 1);
    // a zero-sized element type never overflows, whatever the depth
    let z = subtree_layout::<()>(1000).unwrap();
    assert_eq!(z.size, 0);
}
