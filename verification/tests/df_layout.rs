use implicit_octree::{BreathFirst, DepthFirst, Octant, Octree};

#[test]
fn depth_first_scenario() {
    let mut t = Octree::<usize, DepthFirst>::new(1, 2);
    let root = t.root();
    root.set_value(&mut t, 2);
    root.child(Octant::LDF).set_value(&mut t, 3);
    root.child(Octant::RUB).set_value(&mut t, 4);
    root.child(Octant::LDB).child(Octant::LDB).set_value(&mut t, 5);

    let buf = t.as_slice();
    assert_eq!(buf.len(), 73);
    // node at 0, then one contiguous 9-element subtree per octant:
    // LDF at 1..10, LDB at 37..46 whose LDB child sits at 37 + 1 + 4,
    // RUB at 64..73.
    for (k, &v) in buf.iter().enumerate() {
        let expected = if (1..10).contains(&k) {
            3
        } else if k == 42 {
            5
        } else if (64..73).contains(&k) {
            4
        } else {
            2
        };
        assert_eq!(v, expected, "position {}", k);
    }
}

#[test]
fn depth_first_child_positions() {
    let t = Octree::<u8, DepthFirst>::new(0, 2);
    let root = t.root();
    for o in 0..8usize {
        let c = root.child(Octant::try_from(o).unwrap());
        assert_eq!(c.position(), 1 + 9 * o);
        for oo in 0..8usize {
            let g = c.child(Octant::try_from(oo).unwrap());
            assert_eq!(g.position(), 1 + 9 * o + 1 + oo);
        }
    }
}

#[test]
fn child_positions_distinct_and_tile() {
    // depth-first: the 8 child runs and the node's own slot tile the buffer
    let t = Octree::<u8, DepthFirst>::new(0, 2);
    let root = t.root();
    let mut seen = vec![false; 73];
    seen[root.position()] = true;
    for o in 0..8usize {
        let c = root.child(Octant::try_from(o).unwrap());
        let start = c.position();
        for k in start..start + 9 {
            assert!(!seen[k], "overlap at {}", k);
            seen[k] = true;
        }
    }
    assert!(seen.iter().all(|&b| b));
    // breadth-first: the 8 child offsets are pairwise distinct
    let t2 = Octree::<u8, BreathFirst>::new(0, 2);
    let root2 = t2.root();
    let mut positions = vec![];
    for o in 0..8usize {
        positions.push(root2.child(Octant::try_from(o).unwrap()).position());
    }
    for a in 0..8usize {
        for b in 0..8usize {
            if a != b {
                assert_ne!(positions[a], positions[b]);
            }
        }
    }
}

#[test]
fn set_value_touch_count_depth_first() {
    let mut t = Octree::<u32, DepthFirst>::new(0, 2);
    let before: Vec<u32> = t.as_slice().to_vec();
    let root = t.root();
    root.child(Octant::LUB).set_value(&mut t, 7);
    let changed = before.iter().zip(t.as_slice().iter()).filter(|(a, b)| a != b).count();
    assert_eq!(changed, 9);
}

#[test]
fn set_value_touch_count_breath_first() {
    let mut t = Octree::<u32, BreathFirst>::new(0, 2);
    let before: Vec<u32> = t.as_slice().to_vec();
    let root = t.root();
    root.child(Octant::LUB).set_value(&mut t, 7);
    let changed = before.iter().zip(t.as_slice().iter()).filter(|(a, b)| a != b).count();
    assert_eq!(changed, 9);
}
