use vstd::prelude::*;
use crate::model::Material;
use crate::scalar::Scalar;
use crate::vector::Vector;

verus! {

/// A ball in space.
#[derive(Clone, Debug)]
pub struct Sphere {
    pub center: Vector,
    pub radius: Scalar,
    pub material: Material,
}

impl Sphere {
    /// Which of the two crossings of a ray's line with the sphere the ray meets first.
    /// `edge_front` and `edge_back` are their distances along the ray from its origin, a
    /// negative one lying behind it.
    pub open spec fn edge(edge_front: Scalar, edge_back: Scalar) -> Option<Scalar> {
        if edge_front.below(Scalar::zero()) && edge_back.below(Scalar::zero()) {
            None
        } else if edge_front.below(Scalar::zero()) {
            Some(edge_back)
        } else if edge_back.below(Scalar::zero()) {
            Some(edge_front)
        } else {
            Some(edge_front.lesser(edge_back))
        }
    }

    /// Whether a ray passes the sphere by. `distance` is the square of the distance
    /// between the sphere's centre and the ray's line, `radius_sq` the square of the
    /// radius. A ray that passes by has no crossing, so no root is taken for it.
    pub fn misses(distance: Scalar, radius_sq: Scalar) -> (miss: bool)
        ensures
            miss == radius_sq.below(distance),
    {
        distance.gt(radius_sq)
    }

    /// The distance along the ray to the point where it meets the sphere, from the
    /// distances to the two crossings of its line: none where both lie behind the
    /// origin, else the nearest that does not.
    pub fn distance_to_edge(edge_front: Scalar, edge_back: Scalar) -> (hit: Option<Scalar>)
        ensures
            hit == Sphere::edge(edge_front, edge_back),
            hit is None <==> edge_front.below(Scalar::zero()) && edge_back.below(Scalar::zero()),
            hit matches Some(d) ==> d == edge_front || d == edge_back,
            !edge_front.below(Scalar::zero()) && edge_front.at_most(edge_back) ==> hit == Some(
                edge_front,
            ),
            hit matches Some(d) ==> !edge_front.nan() && !edge_back.nan() ==> {
                &&& !d.below(Scalar::zero())
                &&& !edge_front.below(Scalar::zero()) ==> !edge_front.below(d)
                &&& !edge_back.below(Scalar::zero()) ==> !edge_back.below(d)
            },
    {
        let zero = Scalar::zero();
        if edge_front.lt(zero) && edge_back.lt(zero) {
            return None;
        }
        let distance_to_edge = if edge_front.lt(zero) {
            edge_back
        } else if edge_back.lt(zero) {
            edge_front
        } else {
            edge_front.min(edge_back)
        };
        Some(distance_to_edge)
    }

    /// The material of the sphere's surface.
    pub fn material(&self) -> (material: &Material)
        ensures
            *material == self.material,
    {
        &self.material
    }
}

impl Default for Sphere {
    /// A sphere of no extent at the origin, of the stand-in material.
    fn default() -> (sphere: Sphere)
        ensures
            sphere.center == Vector::spec_origin(),
            sphere.radius == Scalar::zero(),
            Material::is_stand_in(sphere.material),
    {
        Sphere { center: Vector::default(), radius: Scalar::zero(), material: Material::default() }
    }
}

} // verus!
