use vstd::prelude::*;
use crate::scalar::{Scalar, ONE_BITS, SIGN_BIT};
use crate::vector::Vector;

verus! {

/// The eye of a picture: the size of the picture in pixels, the tangent of half the
/// angle of view, the place of the eye and the length of one step of it.
#[derive(Debug)]
pub struct Camera {
    pub viewport_height: Scalar,
    pub viewport_width: Scalar,
    pub fov: Scalar,
    pub origin: Vector,
    pub speed: Scalar,
}

impl Camera {
    /// One step into the picture: minus one along the depth axis.
    pub open spec fn forward() -> Vector {
        Vector {
            x: Scalar::zero(),
            y: Scalar::zero(),
            z: Scalar { bits: (ONE_BITS + SIGN_BIT) as u32 },
        }
    }

    /// One step out of the picture: plus one along the depth axis.
    pub open spec fn backward() -> Vector {
        Vector { x: Scalar::zero(), y: Scalar::zero(), z: Scalar::one() }
    }

    /// One step to the left: minus one along the width axis.
    pub open spec fn left() -> Vector {
        Vector {
            x: Scalar { bits: (ONE_BITS + SIGN_BIT) as u32 },
            y: Scalar::zero(),
            z: Scalar::zero(),
        }
    }

    /// One step to the right: plus one along the width axis.
    pub open spec fn right() -> Vector {
        Vector { x: Scalar::one(), y: Scalar::zero(), z: Scalar::zero() }
    }

    /// The steps that the held keys ask for, in the order in which they are taken.
    pub open spec fn steps(forward: bool, backward: bool, left: bool, right: bool) -> Seq<Vector> {
        (if forward {
            seq![Camera::forward()]
        } else {
            seq![]
        }) + (if backward {
            seq![Camera::backward()]
        } else {
            seq![]
        }) + (if left {
            seq![Camera::left()]
        } else {
            seq![]
        }) + (if right {
            seq![Camera::right()]
        } else {
            seq![]
        })
    }

    /// The steps by which the eye moves in one frame, given which of the four movement
    /// keys are held: one step for each held key, forward before backward before left
    /// before right. Each step is a direction of length one; the eye moves along it by
    /// its speed, one step after the other.
    pub fn update(forward: bool, backward: bool, left: bool, right: bool) -> (steps: Vec<Vector>)
        ensures
            steps@ == Camera::steps(forward, backward, left, right),
    {
        let minus_one = Scalar::from_bits(ONE_BITS + SIGN_BIT);
        let mut steps: Vec<Vector> = Vec::new();
        if forward {
            steps.push(Vector::new(Scalar::zero(), Scalar::zero(), minus_one));
        }
        if backward {
            steps.push(Vector::new(Scalar::zero(), Scalar::zero(), Scalar::one()));
        }
        if left {
            steps.push(Vector::new(minus_one, Scalar::zero(), Scalar::zero()));
        }
        if right {
            steps.push(Vector::new(Scalar::one(), Scalar::zero(), Scalar::zero()));
        }
        assert(steps@ =~= Camera::steps(forward, backward, left, right));
        steps
    }

    /// Takes over a new size of the picture, in pixels.
    pub fn resize(&mut self, width: u32, height: u32)
        ensures
            final(self).viewport_width.is_count(width),
            final(self).viewport_height.is_count(height),
            final(self).fov == old(self).fov,
            final(self).origin == old(self).origin,
            final(self).speed == old(self).speed,
    {
        self.viewport_width = Scalar::from_u32(width);
        self.viewport_height = Scalar::from_u32(height);
    }
}

} // verus!
