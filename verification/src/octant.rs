use vstd::prelude::*;

verus! {

/// Octree octant values: one of the 8 children-slots of a node, identified by
/// a 3-bit axis code (left/right, down/up, front/back), index 0 to 7.
#[derive(Debug, Clone, Copy, PartialEq, Eq, Structural)]
pub enum Octant {
    /// Octree left-down-front octant (index 0)
    LDF,
    /// Octree right-down-front octant (index 1)
    RDF,
    /// Octree left-up-front octant (index 2)
    LUF,
    /// Octree right-up-front octant (index 3)
    RUF,
    /// Octree left-down-back octant (index 4)
    LDB,
    /// Octree right-down-back octant (index 5)
    RDB,
    /// Octree left-up-back octant (index 6)
    LUB,
    /// Octree right-up-back octant (index 7)
    RUB,
}

impl Octant {
    /// The octant's index, as specification: 0 for LDF up to 7 for RUB.
    pub open spec fn index(self) -> nat {
        match self {
            Octant::LDF => 0,
            Octant::RDF => 1,
            Octant::LUF => 2,
            Octant::RUF => 3,
            Octant::LDB => 4,
            Octant::RDB => 5,
            Octant::LUB => 6,
            Octant::RUB => 7,
        }
    }

    /// Returns the octant value as a `usize` in `0..8`.
    pub fn as_usize(&self) -> (r: usize)
        ensures
            r == self.index(),
            r < 8,
    {
        match self {
            Octant::LDF => 0,
            Octant::RDF => 1,
            Octant::LUF => 2,
            Octant::RUF => 3,
            Octant::LDB => 4,
            Octant::RDB => 5,
            Octant::LUB => 6,
            Octant::RUB => 7,
        }
    }

    /// Returns the octant with the given index, or `None` for a value
    /// outside `0..8`.
    pub fn try_from(value: usize) -> (r: Option<Octant>)
        ensures
            match r {
                Some(o) => value < 8 && o.index() == value,
                None => value >= 8,
            },
    {
        match value {
            0 => Some(Octant::LDF),
            1 => Some(Octant::RDF),
            2 => Some(Octant::LUF),
            3 => Some(Octant::RUF),
            4 => Some(Octant::LDB),
            5 => Some(Octant::RDB),
            6 => Some(Octant::LUB),
            7 => Some(Octant::RUB),
            _ => None,
        }
    }

    /// All 8 octant values, in index order.
    pub fn all() -> (r: [Octant; 8])
        ensures
            forall|j: int| 0 <= j < 8 ==> (#[trigger] r[j]).index() == j,
    {
        let r: [Octant; 8] = [
            Octant::LDF,
            Octant::RDF,
            Octant::LUF,
            Octant::RUF,
            Octant::LDB,
            Octant::RDB,
            Octant::LUB,
            Octant::RUB,
        ];
        assert(forall|j: int| 0 <= j < 8 ==> (#[trigger] r[j]).index() == j) by {
            assert(r[0].index() == 0);
            assert(r[1].index() == 1);
            assert(r[2].index() == 2);
            assert(r[3].index() == 3);
            assert(r[4].index() == 4);
            assert(r[5].index() == 5);
            assert(r[6].index() == 6);
            assert(r[7].index() == 7);
        }
        r
    }
}

/// A type standing for one fixed octant, so that an octant can be chosen at
/// the type level.
pub trait OctantT {
    /// The octant this type stands for.
    spec fn spec_value() -> Octant;

    /// Returns the octant this type stands for.
    fn value() -> (r: Octant)
        ensures
            r == Self::spec_value(),
    ;
}

/// Type representation of [`Octant::LDF`] (left-down-front octant).
pub struct OctantLDF;

impl OctantT for OctantLDF {
    open spec fn spec_value() -> Octant {
        Octant::LDF
    }

    fn value() -> Octant {
        Octant::LDF
    }
}

/// Type representation of [`Octant::RDF`] (right-down-front octant).
pub struct OctantRDF;

impl OctantT for OctantRDF {
    open spec fn spec_value() -> Octant {
        Octant::RDF
    }

    fn value() -> Octant {
        Octant::RDF
    }
}

/// Type representation of [`Octant::LUF`] (left-up-front octant).
pub struct OctantLUF;

impl OctantT for OctantLUF {
    open spec fn spec_value() -> Octant {
        Octant::LUF
    }

    fn value() -> Octant {
        Octant::LUF
    }
}

/// Type representation of [`Octant::RUF`] (right-up-front octant).
pub struct OctantRUF;

impl OctantT for OctantRUF {
    open spec fn spec_value() -> Octant {
        Octant::RUF
    }

    fn value() -> Octant {
        Octant::RUF
    }
}

/// Type representation of [`Octant::LDB`] (left-down-back octant).
pub struct OctantLDB;

impl OctantT for OctantLDB {
    open spec fn spec_value() -> Octant {
        Octant::LDB
    }

    fn value() -> Octant {
        Octant::LDB
    }
}

/// Type representation of [`Octant::RDB`] (right-down-back octant).
pub struct OctantRDB;

impl OctantT for OctantRDB {
    open spec fn spec_value() -> Octant {
        Octant::RDB
    }

    fn value() -> Octant {
        Octant::RDB
    }
}

/// Type representation of [`Octant::LUB`] (left-up-back octant).
pub struct OctantLUB;

impl OctantT for OctantLUB {
    open spec fn spec_value() -> Octant {
        Octant::LUB
    }

    fn value() -> Octant {
        Octant::LUB
    }
}

/// Type representation of [`Octant::RUB`] (right-up-back octant).
pub struct OctantRUB;

impl OctantT for OctantRUB {
    open spec fn spec_value() -> Octant {
        Octant::RUB
    }

    fn value() -> Octant {
        Octant::RUB
    }
}

} // verus!
