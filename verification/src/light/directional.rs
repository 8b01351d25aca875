use vstd::prelude::*;
use crate::color::Color;
use crate::ray::Intersection;
use crate::scalar::Scalar;
use crate::vector::Vector;

verus! {

/// Light that arrives everywhere from one direction, from a source infinitely far away.
#[derive(Clone, Copy, Debug)]
pub struct DirectionalLight {
    pub direction: Vector,
    pub color: Color,
    pub intensity: Scalar,
}

impl DirectionalLight {
    /// The direction from a surface towards the light: the opposite of the direction in
    /// which the light travels.
    pub fn light_direction(&self) -> (direction: Vector)
        ensures
            direction == self.direction.negated(),
    {
        self.direction.neg()
    }

    /// The intensity with which the light reaches a point, given what the shadow ray
    /// from that point towards the light meets: the full intensity where it meets
    /// nothing, and positive zero where it meets anything, however far away.
    pub fn intensity_at(&self, shadow: Option<Intersection>) -> (intensity: Scalar)
        ensures
            shadow is None ==> intensity == self.intensity,
            shadow is Some ==> intensity == Scalar::zero(),
    {
        let in_light = shadow.is_none();
        if in_light {
            self.intensity
        } else {
            Scalar::zero()
        }
    }
}

} // verus!
