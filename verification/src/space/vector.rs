use vstd::prelude::*;

verus! {

/// A displacement in two- or three-dimensional space, with directly
/// accessible components.
#[derive(Clone, Copy, Debug, Hash, PartialEq, Eq, Structural)]
pub struct Vector {
    pub x: i32,
    pub y: i32,
    pub z: i32,
}

/// Argument forms accepted by [`Vector::of`]: an (x, y) pair, where z
/// defaults to 0, or an (x, y, z) triple.
pub trait Of {
    /// The vector that this argument form denotes.
    spec fn spec_of(self) -> Vector;

    /// Build the vector that this argument form denotes.
    fn of(self) -> (v: Vector)
        ensures
            v == self.spec_of(),
    ;
}

impl Vector {
    /// Build a vector from an (x, y) pair or an (x, y, z) triple.
    pub fn of<A: Of>(args: A) -> (v: Vector)
        ensures
            v == args.spec_of(),
    {
        args.of()
    }
}

impl Of for (i32, i32) {
    open spec fn spec_of(self) -> Vector {
        Vector { x: self.0, y: self.1, z: 0 }
    }

    fn of(self) -> (v: Vector) {
        Vector { x: self.0, y: self.1, z: 0 }
    }
}

impl Of for (i32, i32, i32) {
    open spec fn spec_of(self) -> Vector {
        Vector { x: self.0, y: self.1, z: self.2 }
    }

    fn of(self) -> (v: Vector) {
        Vector { x: self.0, y: self.1, z: self.2 }
    }
}

} // verus!
