use vstd::prelude::*;
use crate::camera::Camera;
use crate::light::directional::DirectionalLight;
use crate::light::point::PointLight;
use crate::light::Light;
use crate::model::plane::Plane;
use crate::model::sphere::Sphere;
use crate::model::Material;
use crate::scalar::Scalar;
use crate::vector::Vector;
use crate::world::{Entity, Sky, World};

verus! {

/// The encoding of sixty, the angle of view in degrees when a scene names none.
pub const DEFAULT_FOV_BITS: u32 = 0x4270_0000;

/// The encoding of one tenth, the length of a step of the eye when a scene names none.
pub const DEFAULT_SPEED_BITS: u32 = 0x3DCC_CCCD;

/// The deepest chain of mirror bounces followed when a scene names no limit.
pub fn reflection_depth() -> (depth: usize)
    ensures
        depth == 5,
{
    5
}

/// The eye as a scene description gives it: the picture's size in pixels, the angle of
/// view in degrees, the place of the eye and the length of one step.
#[derive(Clone, Copy, Debug)]
pub struct CameraConfig {
    pub width: u32,
    pub height: u32,
    pub fov: Scalar,
    pub origin: Vector,
    pub speed: Scalar,
}

/// A light as a scene description gives it.
#[derive(Clone, Copy, Debug)]
pub enum LightConfig {
    Directional(DirectionalLight),
    Point(PointLight),
}

/// An entity as a scene description gives it.
#[derive(Clone, Debug)]
pub enum EntityConfig {
    Sphere { material: Material, position: Vector, radius: Scalar },
    Plane { material: Material, position: Vector, normal: Vector },
}

/// A whole scene as its description gives it.
#[derive(Clone, Debug)]
pub struct WorldConfig {
    pub camera: CameraConfig,
    pub light: Vec<LightConfig>,
    pub entity: Vec<EntityConfig>,
    pub reflection_depth: usize,
    pub sky: Sky,
}

impl CameraConfig {
    /// The eye that the description stands for. `fov` is the tangent of half the angle
    /// of view.
    pub open spec fn built(self, fov: Scalar, camera: Camera) -> bool {
        &&& camera.viewport_width.is_count(self.width)
        &&& camera.viewport_height.is_count(self.height)
        &&& camera.fov == fov
        &&& camera.origin == self.origin
        &&& camera.speed == self.speed
    }

    /// The eye that the description stands for. `fov` is the tangent of half the
    /// described angle of view, which the caller has taken.
    pub fn build(self, fov: Scalar) -> (camera: Camera)
        ensures
            self.built(fov, camera),
    {
        Camera {
            viewport_width: Scalar::from_u32(self.width),
            viewport_height: Scalar::from_u32(self.height),
            fov,
            origin: self.origin,
            speed: self.speed,
        }
    }

    /// The angle of view, in degrees, when a scene names none: sixty.
    pub fn fov() -> (degrees: Scalar)
        ensures
            degrees.bits == DEFAULT_FOV_BITS,
    {
        Scalar::from_bits(DEFAULT_FOV_BITS)
    }

    /// The length of a step of the eye when a scene names none: one tenth.
    pub fn speed() -> (speed: Scalar)
        ensures
            speed.bits == DEFAULT_SPEED_BITS,
    {
        Scalar::from_bits(DEFAULT_SPEED_BITS)
    }
}

impl LightConfig {
    /// The light that the description stands for, where `unit` is the described
    /// direction scaled to length one.
    pub open spec fn built(self, unit: Vector) -> Light {
        match self {
            LightConfig::Directional(light) => Light::Directional(
                DirectionalLight { direction: unit, color: light.color, intensity: light.intensity },
            ),
            LightConfig::Point(light) => Light::Point(light),
        }
    }

    /// The light that the description stands for. A directional light shines along
    /// `unit`, which the caller has made of the described direction by scaling it to
    /// length one; a point light does not read it.
    pub fn build(self, unit: Vector) -> (light: Light)
        ensures
            light == self.built(unit),
    {
        match self {
            LightConfig::Directional(mut light) => {
                light.direction = unit;
                Light::Directional(light)
            },
            LightConfig::Point(light) => Light::Point(light),
        }
    }
}

impl EntityConfig {
    /// The entity that the description stands for.
    pub open spec fn built(self) -> Entity {
        match self {
            EntityConfig::Sphere { material, position, radius } => Entity::Sphere(
                Sphere { center: position, radius, material },
            ),
            EntityConfig::Plane { material, position, normal } => Entity::Plane(
                Plane { position, normal, material },
            ),
        }
    }

    /// The entity that the description stands for: a sphere around the described
    /// position, or a plane through it.
    pub fn build(self) -> (entity: Entity)
        ensures
            entity == self.built(),
    {
        match self {
            EntityConfig::Sphere { position: center, radius, material } => Entity::Sphere(
                Sphere { center, radius, material },
            ),
            EntityConfig::Plane { position, normal, material } => Entity::Plane(
                Plane { position, normal, material },
            ),
        }
    }
}

impl WorldConfig {
    /// The scene and the eye that the description stands for. `fov` is the tangent of
    /// half the described angle of view, and `units` holds for each described light,
    /// in their order, its direction scaled to length one (for a point light, anything).
    /// Lights and entities keep the order of the description.
    pub fn build(self, fov: Scalar, units: &Vec<Vector>) -> (scene: (World, Camera))
        requires
            units.len() == self.light.len(),
        ensures
            scene.0.reflection_depth == self.reflection_depth,
            scene.0.sky == self.sky,
            scene.0.lights@.len() == self.light@.len(),
            forall|i: int|
                0 <= i < self.light@.len() ==> scene.0.lights@[i] == self.light@[i].built(units@[i]),
            scene.0.entities@.len() == self.entity@.len(),
            forall|i: int|
                0 <= i < self.entity@.len() ==> scene.0.entities@[i] == self.entity@[i].built(),
            self.camera.built(fov, scene.1),
    {
        let mut world = World::new();

        world.reflection_depth = self.reflection_depth;
        world.sky = self.sky;

        let mut at: usize = 0;
        while at < self.light.len()
            invariant
                at <= self.light.len(),
                units.len() == self.light.len(),
                world.reflection_depth == self.reflection_depth,
                world.sky == self.sky,
                world.entities@.len() == 0,
                world.lights@.len() == at,
                forall|i: int| 0 <= i < at ==> world.lights@[i] == self.light@[i].built(units@[i]),
            decreases self.light.len() - at,
        {
            world.lights.push(self.light[at].build(units[at]));
            at += 1;
        }

        let ghost described = self.entity@;
        for entity in iter: self.entity
            invariant
                iter.seq() == described,
                world.reflection_depth == self.reflection_depth,
                world.sky == self.sky,
                world.lights@.len() == self.light@.len(),
                forall|i: int|
                    0 <= i < self.light@.len() ==> world.lights@[i] == self.light@[i].built(
                        units@[i],
                    ),
                world.entities@.len() == iter.index(),
                forall|i: int| 0 <= i < iter.index() ==> world.entities@[i] == described[i].built(),
        {
            world.entities.push(entity.build());
        }

        let camera = self.camera.build(fov);

        (world, camera)
    }
}

} // verus!
