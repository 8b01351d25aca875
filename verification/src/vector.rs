use vstd::prelude::*;
use crate::scalar::Scalar;

verus! {

/// A point or a direction in space, by its three coordinates.
#[derive(Clone, Copy, Debug, PartialEq, Eq)]
pub struct Vector {
    pub x: Scalar,
    pub y: Scalar,
    pub z: Scalar,
}

/// A position on a surface's texture.
#[derive(Clone, Copy, Debug, PartialEq, Eq)]
pub struct TextureCoord {
    pub x: Scalar,
    pub y: Scalar,
}

impl Vector {
    /// The vector that points the opposite way.
    pub open spec fn negated(self) -> Vector {
        Vector { x: self.x.negated(), y: self.y.negated(), z: self.z.negated() }
    }

    /// The origin: every coordinate is positive zero.
    pub open spec fn spec_origin() -> Vector {
        Vector { x: Scalar::zero(), y: Scalar::zero(), z: Scalar::zero() }
    }

    /// The vector of the three coordinates.
    pub fn new(x: Scalar, y: Scalar, z: Scalar) -> (v: Vector)
        ensures
            v == (Vector { x, y, z }),
    {
        Vector { x, y, z }
    }

    /// The vector that points the opposite way: every coordinate changes its sign and
    /// keeps its magnitude.
    pub fn neg(self) -> (v: Vector)
        ensures
            v == self.negated(),
    {
        Vector { x: self.x.neg(), y: self.y.neg(), z: self.z.neg() }
    }
}

impl Default for Vector {
    /// The origin.
    fn default() -> (v: Vector)
        ensures
            v == Vector::spec_origin(),
    {
        Vector { x: Scalar::zero(), y: Scalar::zero(), z: Scalar::zero() }
    }
}

impl TextureCoord {
    /// The texture position of the two coordinates.
    pub fn new(x: Scalar, y: Scalar) -> (c: TextureCoord)
        ensures
            c == (TextureCoord { x, y }),
    {
        TextureCoord { x, y }
    }
}

} // verus!
