use vstd::prelude::*;
use crate::color::Color;
use crate::scalar::Scalar;
use crate::texture::Coloration;

pub mod plane;
pub mod sphere;

verus! {

/// The encoding of one half, the share of light that a surface gives back when a scene
/// names none.
pub const HALF_BITS: u32 = 0x3F00_0000;

/// How a surface answers light: it scatters it, or it also mirrors its surroundings.
#[derive(Clone, Copy, Debug, PartialEq, Eq)]
pub enum SurfaceType {
    Diffuse,
    Reflective { reflectivity: Scalar },
}

/// What a surface looks like: its colouring, the share of light it gives back, and
/// whether it mirrors.
#[derive(Clone, Debug)]
pub struct Material {
    pub color: Coloration,
    pub albedo: Scalar,
    pub surface: SurfaceType,
}

impl Material {
    /// The material is the stand-in for a missing one: plain red, giving back no light,
    /// not mirroring.
    pub open spec fn is_stand_in(material: Material) -> bool {
        &&& material.color == Coloration::Color(
            Color { r: Scalar::one(), g: Scalar::zero(), b: Scalar::zero() },
        )
        &&& material.albedo == Scalar::zero()
        &&& material.surface == SurfaceType::Diffuse
    }

    /// The colour of the surface at a texture position counted in pixels of the
    /// material's pattern; a plain material has one colour everywhere.
    pub fn color(&self, x: Scalar, y: Scalar) -> (color: Color)
        requires
            self.color.samplable(),
        ensures
            self.color.shows(x, y, color),
    {
        self.color.get(x, y)
    }

    /// The share of light given back by a surface when a scene names none: one half.
    pub fn default_albedo() -> (albedo: Scalar)
        ensures
            albedo.bits == HALF_BITS,
    {
        Scalar::from_bits(HALF_BITS)
    }
}

impl Default for SurfaceType {
    fn default() -> (surface: SurfaceType)
        ensures
            surface == SurfaceType::Diffuse,
    {
        SurfaceType::Diffuse
    }
}

impl Default for Material {
    /// The stand-in for a missing material: plain red, giving back no light, not
    /// mirroring.
    fn default() -> (material: Material)
        ensures
            Material::is_stand_in(material),
    {
        Material {
            color: Coloration::Color(Color::new(Scalar::one(), Scalar::zero(), Scalar::zero())),
            albedo: Scalar::zero(),
            surface: SurfaceType::Diffuse,
        }
    }
}

} // verus!
