use implicit_octree::{BreathFirst, Octant, Octree};

#[test]
fn octree_layout_bf_test() {
    let mut test = Octree::<usize, BreathFirst>::new(1, 2);
    let root = test.root();
    root.set_value(&mut test, 2);
    let ldf = root.child(Octant::LDF);
    ldf.set_value(&mut test, 3);
    root.child(Octant::LUF).set_value(&mut test, 4);
    root.child(Octant::LUF).child(Octant::RUF).set_value(&mut test, 5);
    root.child(Octant::LUB).child(Octant::RDB).set_value(&mut test, 6);

    let expected_data: [usize; 73] = [
        2, 3, 2, 4, 2, 2, 2, 2, 2, 3, 3, 3, 3, 3, 3, 3, 3, 2, 2, 2, 2, 2, 2, 2, 2, 4, 4, 4, 5, 4,
        4, 4, 4, 2, 2, 2, 2, 2, 2, 2, 2, 2, 2, 2, 2, 2, 2, 2, 2, 2, 2, 2, 2, 2, 2, 2, 2, 2, 2, 2,
        2, 2, 6, 2, 2, 2, 2, 2, 2, 2, 2, 2, 2,
    ];

    for (i, value) in expected_data.into_iter().enumerate() {
        assert_eq!(test.as_slice()[i], value);
    }
}

#[test]
fn breadth_first_scenario_layers() {
    let mut t = Octree::<usize, BreathFirst>::new(1, 2);
    let root = t.root();
    root.set_value(&mut t, 2);
    root.child(Octant::LDF).set_value(&mut t, 3);
    root.child(Octant::RUB).set_value(&mut t, 4);
    root.child(Octant::LDB).child(Octant::LDB).set_value(&mut t, 5);

    assert_eq!(t.layer_slice(0), &[2][..]);
    assert_eq!(t.layer_slice(1), &[3, 2, 2, 2, 2, 2, 2, 4][..]);
    let layer2 = t.layer_slice(2);
    assert_eq!(layer2.len(), 64);
    for (i, &v) in layer2.iter().enumerate() {
        let expected = if i < 8 {
            3
        } else if i == 4 * 8 + 4 {
            5
        } else if i >= 7 * 8 {
            4
        } else {
            2
        };
        assert_eq!(v, expected, "layer 2 position {}", i);
    }
}

#[test]
fn round_trip_uniform_reads() {
    let test = Octree::<u32, BreathFirst>::new(9, 2);
    // every node via direct layer-slice access
    for h in 0..=2usize {
        let s = test.layer_slice(h);
        assert_eq!(s.len(), 8usize.pow(h as u32));
        for &v in s {
            assert_eq!(v, 9);
        }
    }
    // every node via recursive child navigation
    let root = test.root();
    assert_eq!(root.value(&test), 9);
    for o1 in 0..8usize {
        let c = root.child(Octant::try_from(o1).unwrap());
        assert_eq!(c.value(&test), 9);
        for o2 in 0..8usize {
            let g = c.child(Octant::try_from(o2).unwrap());
            assert_eq!(g.value(&test), 9);
        }
    }
}

#[test]
fn fill_resets_every_element() {
    let mut t = Octree::<u16, BreathFirst>::new(1, 2);
    let root = t.root();
    root.child(Octant::RUF).set_value(&mut t, 3);
    t.fill(8);
    assert_eq!(t.as_slice(), &[8u16; 73][..]);
}
