use vstd::prelude::*;
use crate::color::Color;
use crate::ray::Intersection;
use crate::scalar::Scalar;
use crate::vector::Vector;

verus! {

/// Light that spreads from one point and thins out with the square of the distance.
#[derive(Clone, Copy, Debug)]
pub struct PointLight {
    pub position: Vector,
    pub color: Color,
    pub intensity: Scalar,
}

impl PointLight {
    /// Whether light from a source at squared distance `distance` reaches a point, given
    /// what the shadow ray from the point towards the source meets.
    pub open spec fn lit(shadow: Option<Intersection>, distance: Scalar) -> bool {
        match shadow {
            Some(occluder) => distance.below(occluder.distance_sq),
            None => true,
        }
    }

    /// Whether the light reaches a point. `distance` is the squared distance from the
    /// point to the light, `shadow` what the shadow ray from the point towards the light
    /// meets. Only what lies beyond the light leaves the point lit.
    pub fn in_light(shadow: Option<Intersection>, distance: Scalar) -> (lit: bool)
        ensures
            lit == PointLight::lit(shadow, distance),
            shadow is None ==> lit,
            shadow matches Some(occluder) && occluder.distance_sq.below(distance) ==> !lit,
            shadow matches Some(occluder) && distance.below(occluder.distance_sq) ==> lit,
    {
        match shadow {
            Some(shadow_intersection) => shadow_intersection.magnitude_sq().gt(distance),
            None => true,
        }
    }

    /// The intensity with which the light reaches a point. `intensity` is the light's
    /// intensity thinned out over the squared distance `distance`; it arrives whole
    /// where the point is lit, and as positive zero where it is not.
    pub fn intensity_at(intensity: Scalar, shadow: Option<Intersection>, distance: Scalar) -> (received: Scalar)
        ensures
            received == if PointLight::lit(shadow, distance) { intensity } else { Scalar::zero() },
            shadow matches Some(occluder) && occluder.distance_sq.below(distance)
                ==> received == Scalar::zero(),
            shadow matches Some(occluder) && distance.below(occluder.distance_sq)
                ==> received == intensity,
    {
        let in_light = PointLight::in_light(shadow, distance);
        if in_light {
            intensity
        } else {
            Scalar::zero()
        }
    }
}

} // verus!
