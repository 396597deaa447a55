use implicit_octree::{BreathFirst, Octant, Octree};

#[test]
fn octree_index_bf_test() {
    let test = Octree::<usize, BreathFirst>::new(1, 3);
    let root = test.root();
    assert_eq!(root.child(Octant::LDF).position(), 1);
    assert_eq!(root.child(Octant::RDF).position(), 2);
    assert_eq!(root.child(Octant::LUF).position(), 3);
    assert_eq!(root.child(Octant::RUF).position(), 4);
    assert_eq!(root.child(Octant::LDB).position(), 5);
    assert_eq!(root.child(Octant::RDB).position(), 6);
    assert_eq!(root.child(Octant::LUB).position(), 7);
    assert_eq!(root.child(Octant::RUB).position(), 8);
    assert_eq!(root.child(Octant::LDF).child(Octant::LDF).position(), 9);
    assert_eq!(root.child(Octant::RDF).child(Octant::LDF).position(), 17);
    assert_eq!(
        root.child(Octant::LDF).child(Octant::LDF).child(Octant::LDF).position(),
        73,
    );
}

#[test]
fn octree_get_set_bf_test() {
    let mut test = Octree::<usize, BreathFirst>::new(1, 2);
    let root = test.root();
    root.set_value(&mut test, 2);
    let ldf = root.child(Octant::LDF);
    ldf.set_value(&mut test, 3);
    root.child(Octant::LUF).set_value(&mut test, 4);
    root.child(Octant::LUF).child(Octant::RUF).set_value(&mut test, 5);
    root.child(Octant::LUB).child(Octant::RDB).set_value(&mut test, 6);

    assert_eq!(root.value(&test), 2);

    assert_eq!(root.child(Octant::LDF).value(&test), 3);
    assert_eq!(root.child(Octant::LDF).child(Octant::LDF).value(&test), 3);
    assert_eq!(root.child(Octant::LDF).child(Octant::RDF).value(&test), 3);
    assert_eq!(root.child(Octant::LDF).child(Octant::LUF).value(&test), 3);
    assert_eq!(root.child(Octant::LDF).child(Octant::RUF).value(&test), 3);
    assert_eq!(root.child(Octant::LDF).child(Octant::LDB).value(&test), 3);
    assert_eq!(root.child(Octant::LDF).child(Octant::RDB).value(&test), 3);
    assert_eq!(root.child(Octant::LDF).child(Octant::LUB).value(&test), 3);
    assert_eq!(root.child(Octant::LDF).child(Octant::RUB).value(&test), 3);

    assert_eq!(root.child(Octant::RDF).value(&test), 2);
    assert_eq!(root.child(Octant::RDF).child(Octant::LDF).value(&test), 2);
    assert_eq!(root.child(Octant::RDF).child(Octant::RDF).value(&test), 2);
    assert_eq!(root.child(Octant::RDF).child(Octant::LUF).value(&test), 2);
    assert_eq!(root.child(Octant::RDF).child(Octant::RUF).value(&test), 2);
    assert_eq!(root.child(Octant::RDF).child(Octant::LDB).value(&test), 2);
    assert_eq!(root.child(Octant::RDF).child(Octant::RDB).value(&test), 2);
    assert_eq!(root.child(Octant::RDF).child(Octant::LUB).value(&test), 2);
    assert_eq!(root.child(Octant::RDF).child(Octant::RUB).value(&test), 2);

    assert_eq!(root.child(Octant::LUF).value(&test), 4);
    assert_eq!(root.child(Octant::LUF).child(Octant::LDF).value(&test), 4);
    assert_eq!(root.child(Octant::LUF).child(Octant::RDF).value(&test), 4);
    assert_eq!(root.child(Octant::LUF).child(Octant::LUF).value(&test), 4);
    assert_eq!(root.child(Octant::LUF).child(Octant::RUF).value(&test), 5);
    assert_eq!(root.child(Octant::LUF).child(Octant::LDB).value(&test), 4);
    assert_eq!(root.child(Octant::LUF).child(Octant::RDB).value(&test), 4);
    assert_eq!(root.child(Octant::LUF).child(Octant::LUB).value(&test), 4);
    assert_eq!(root.child(Octant::LUF).child(Octant::RUB).value(&test), 4);

    assert_eq!(root.child(Octant::RUF).value(&test), 2);
    assert_eq!(root.child(Octant::RUF).child(Octant::LDF).value(&test), 2);
    assert_eq!(root.child(Octant::RUF).child(Octant::RDF).value(&test), 2);
    assert_eq!(root.child(Octant::RUF).child(Octant::LUF).value(&test), 2);
    assert_eq!(root.child(Octant::RUF).child(Octant::RUF).value(&test), 2);
    assert_eq!(root.child(Octant::RUF).child(Octant::LDB).value(&test), 2);
    assert_eq!(root.child(Octant::RUF).child(Octant::RDB).value(&test), 2);
    assert_eq!(root.child(Octant::RUF).child(Octant::LUB).value(&test), 2);
    assert_eq!(root.child(Octant::RUF).child(Octant::RUB).value(&test), 2);

    assert_eq!(root.child(Octant::LDB).value(&test), 2);
    assert_eq!(root.child(Octant::LDB).child(Octant::LDF).value(&test), 2);
    assert_eq!(root.child(Octant::LDB).child(Octant::RDF).value(&test), 2);
    assert_eq!(root.child(Octant::LDB).child(Octant::LUF).value(&test), 2);
    assert_eq!(root.child(Octant::LDB).child(Octant::RUF).value(&test), 2);
    assert_eq!(root.child(Octant::LDB).child(Octant::LDB).value(&test), 2);
    assert_eq!(root.child(Octant::LDB).child(Octant::RDB).value(&test), 2);
    assert_eq!(root.child(Octant::LDB).child(Octant::LUB).value(&test), 2);
    assert_eq!(root.child(Octant::LDB).child(Octant::RUB).value(&test), 2);

    assert_eq!(root.child(Octant::RDB).value(&test), 2);
    assert_eq!(root.child(Octant::RDB).child(Octant::LDF).value(&test), 2);
    assert_eq!(root.child(Octant::RDB).child(Octant::RDF).value(&test), 2);
    assert_eq!(root.child(Octant::RDB).child(Octant::LUF).value(&test), 2);
    assert_eq!(root.child(Octant::RDB).child(Octant::RUF).value(&test), 2);
    assert_eq!(root.child(Octant::RDB).child(Octant::LDB).value(&test), 2);
    assert_eq!(root.child(Octant::RDB).child(Octant::RDB).value(&test), 2);
    assert_eq!(root.child(Octant::RDB).child(Octant::LUB).value(&test), 2);
    assert_eq!(root.child(Octant::RDB).child(Octant::RUB).value(&test), 2);

    assert_eq!(root.child(Octant::LUB).value(&test), 2);
    assert_eq!(root.child(Octant::LUB).child(Octant::LDF).value(&test), 2);
    assert_eq!(root.child(Octant::LUB).child(Octant::RDF).value(&test), 2);
    assert_eq!(root.child(Octant::LUB).child(Octant::LUF).value(&test), 2);
    assert_eq!(root.child(Octant::LUB).child(Octant::RUF).value(&test), 2);
    assert_eq!(root.child(Octant::LUB).child(Octant::LDB).value(&test), 2);
    assert_eq!(root.child(Octant::LUB).child(Octant::RDB).value(&test), 6);
    assert_eq!(root.child(Octant::LUB).child(Octant::LUB).value(&test), 2);
    assert_eq!(root.child(Octant::LUB).child(Octant::RUB).value(&test), 2);

    assert_eq!(root.child(Octant::RUB).value(&test), 2);
    assert_eq!(root.child(Octant::RUB).child(Octant::LDF).value(&test), 2);
    assert_eq!(root.child(Octant::RUB).child(Octant::RDF).value(&test), 2);
    assert_eq!(root.child(Octant::RUB).child(Octant::LUF).value(&test), 2);
    assert_eq!(root.child(Octant::RUB).child(Octant::RUF).value(&test), 2);
    assert_eq!(root.child(Octant::RUB).child(Octant::LDB).value(&test), 2);
    assert_eq!(root.child(Octant::RUB).child(Octant::RDB).value(&test), 2);
    assert_eq!(root.child(Octant::RUB).child(Octant::LUB).value(&test), 2);
    assert_eq!(root.child(Octant::RUB).child(Octant::RUB).value(&test), 2);
}
