use vstd::prelude::*;
use crate::model::Material;
use crate::scalar::Scalar;
use crate::vector::Vector;

verus! {

/// The encoding of one millionth: a ray must turn against the plane's normal by more
/// than this to meet the plane.
pub const GRAZE_BITS: u32 = 0x3586_37BD;

/// The encoding of one hundredth: a texture axis whose squared length is below this is
/// too short to measure along.
pub const SHORT_AXIS_BITS: u32 = 0x3C23_D70A;

/// An unbounded flat surface through `position`, facing along `normal`.
#[derive(Clone, Debug)]
pub struct Plane {
    pub position: Vector,
    pub normal: Vector,
    pub material: Material,
}

impl Plane {
    /// The least turn against the normal that still counts as meeting the plane.
    pub open spec fn graze() -> Scalar {
        Scalar { bits: GRAZE_BITS }
    }

    /// The squared length below which a texture axis is given up.
    pub open spec fn short_axis() -> Scalar {
        Scalar { bits: SHORT_AXIS_BITS }
    }

    /// Whether a ray runs along the plane or away from its face. `denom` is the product
    /// of the plane's normal and the ray's direction; at one millionth or less the ray
    /// does not meet the plane, wherever it starts.
    pub fn misses(denom: Scalar) -> (miss: bool)
        ensures
            miss == denom.at_most(Plane::graze()),
    {
        denom.le(Scalar::from_bits(GRAZE_BITS))
    }

    /// Whether the plane lies behind the ray's origin. `distance` is the signed distance
    /// along the ray to the plane.
    pub fn behind(distance: Scalar) -> (back: bool)
        ensures
            back == distance.below(Scalar::zero()),
    {
        distance.lt(Scalar::zero())
    }

    /// Whether the first choice of texture axis, the normal crossed with the depth axis,
    /// is too short, so that the normal crossed with the width axis takes its place.
    /// `mag_sq` is the squared length of the first choice.
    pub fn degenerate_axis(mag_sq: Scalar) -> (degenerate: bool)
        ensures
            degenerate == mag_sq.below(Plane::short_axis()),
    {
        mag_sq.lt(Scalar::from_bits(SHORT_AXIS_BITS))
    }

    /// The normal of the face that rays meet: the opposite of the configured normal, at
    /// every point of the plane.
    pub fn surface_normal(&self) -> (normal: Vector)
        ensures
            normal == self.normal.negated(),
    {
        self.normal.neg()
    }

    /// The material of the plane's surface.
    pub fn material(&self) -> (material: &Material)
        ensures
            *material == self.material,
    {
        &self.material
    }
}

impl Default for Plane {
    /// A plane through the origin with no direction to face, of the stand-in material.
    fn default() -> (plane: Plane)
        ensures
            plane.position == Vector::spec_origin(),
            plane.normal == Vector::spec_origin(),
            Material::is_stand_in(plane.material),
    {
        Plane { position: Vector::default(), normal: Vector::default(), material: Material::default() }
    }
}

} // verus!
