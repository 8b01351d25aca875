use vstd::prelude::*;
use std::cmp::Ordering;
use crate::color::Color;
use crate::model::Material;
use crate::scalar::Scalar;
use crate::vector::{TextureCoord, Vector};
use crate::world::Entity;

verus! {

/// The encoding of one thousandth: how far a derived ray starts off the surface it
/// leaves, so that it does not meet that surface again at once.
pub const BIAS_BITS: u32 = 0x3A83_126F;

/// A half-line: where it starts and the way it goes.
#[derive(Clone, Copy, Debug, PartialEq, Eq)]
pub struct Ray {
    pub origin: Vector,
    pub direction: Vector,
}

/// The surface at a point where a ray meets an entity.
#[derive(Clone, Copy, Debug)]
pub struct Contact<'a> {
    pub normal: Vector,
    pub texture: TextureCoord,
    pub material: &'a Material,
}

/// A point where a ray meets an entity. `distance_sq` is the squared distance from the
/// ray's origin to `hit`, by which hits on one ray are ordered.
#[derive(Clone, Copy, Debug)]
pub struct Intersection<'a> {
    pub hit: Vector,
    pub source: Ray,
    pub contact: Contact<'a>,
    pub distance_sq: Scalar,
}

impl Ray {
    /// The ray that starts at `origin` and runs along `direction`.
    pub fn new(origin: Vector, direction: Vector) -> (ray: Ray)
        ensures
            ray == (Ray { origin, direction }),
    {
        Ray { origin, direction }
    }

    /// How far a shadow ray or a mirrored ray starts off the surface: one thousandth.
    pub fn bias() -> (bias: Scalar)
        ensures
            bias.bits == BIAS_BITS,
    {
        Scalar::from_bits(BIAS_BITS)
    }
}

impl<'a> Contact<'a> {
    /// The surface of `entity` at a point of it, where it has the given normal and
    /// texture position.
    pub fn new(normal: Vector, texture: TextureCoord, entity: &'a Entity) -> (contact: Contact<'a>)
        ensures
            contact.normal == normal,
            contact.texture == texture,
            *contact.material == entity.spec_material(),
    {
        Contact { normal, texture, material: entity.material() }
    }
}

impl<'a> Intersection<'a> {
    /// Which of two hits lies nearer to the origin of its ray. Where either distance is
    /// no number, neither is nearer.
    pub open spec fn order(a: Intersection, b: Intersection) -> Ordering {
        if a.distance_sq.below(b.distance_sq) {
            Ordering::Less
        } else if b.distance_sq.below(a.distance_sq) {
            Ordering::Greater
        } else {
            Ordering::Equal
        }
    }

    /// The hit at `hit` of the ray `source` on `entity`, whose surface has there the
    /// given normal and texture position.
    pub fn new(
        hit: Vector,
        source: Ray,
        distance_sq: Scalar,
        normal: Vector,
        texture: TextureCoord,
        entity: &'a Entity,
    ) -> (intersection: Intersection<'a>)
        ensures
            intersection.hit == hit,
            intersection.source == source,
            intersection.distance_sq == distance_sq,
            intersection.contact.normal == normal,
            intersection.contact.texture == texture,
            *intersection.contact.material == entity.spec_material(),
    {
        let contact = Contact::new(normal, texture, entity);
        Intersection { hit, source, contact, distance_sq }
    }

    /// The squared distance from the ray's origin to the hit.
    pub fn magnitude_sq(&self) -> (distance_sq: Scalar)
        ensures
            distance_sq == self.distance_sq,
    {
        self.distance_sq
    }

    /// The colour of the surface at the hit. `x` and `y` are the hit's texture position
    /// counted in pixels of the material's pattern.
    pub fn color(&self, x: Scalar, y: Scalar) -> (color: Color)
        requires
            self.contact.material.color.samplable(),
        ensures
            self.contact.material.color.shows(x, y, color),
    {
        self.contact.material.color(x, y)
    }

    /// Orders two hits by their squared distances: `Less` where `a` is nearer, `Greater`
    /// where `b` is, and `Equal` otherwise, also where a distance is no number.
    pub fn closest(a: &Intersection, b: &Intersection) -> (order: Ordering)
        ensures
            order == Intersection::order(*a, *b),
    {
        if a.magnitude_sq().lt(b.magnitude_sq()) {
            Ordering::Less
        } else if b.magnitude_sq().lt(a.magnitude_sq()) {
            Ordering::Greater
        } else {
            Ordering::Equal
        }
    }
}

} // verus!
