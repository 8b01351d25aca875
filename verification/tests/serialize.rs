use raytracer::color::Color;
use raytracer::light::directional::DirectionalLight;
use raytracer::light::point::PointLight;
use raytracer::light::Light;
use raytracer::model::{Material, SurfaceType};
use raytracer::scalar::Scalar;
use raytracer::serialize::{
    reflection_depth, CameraConfig, EntityConfig, LightConfig, WorldConfig, DEFAULT_FOV_BITS,
    DEFAULT_SPEED_BITS,
};
use raytracer::texture::Coloration;
use raytracer::vector::Vector;
use raytracer::world::{Entity, Sky};

fn s(x: f32) -> Scalar {
    Scalar::from_bits(x.to_bits())
}

fn v(x: f32, y: f32, z: f32) -> Vector {
    Vector::new(s(x), s(y), s(z))
}

fn material(albedo: f32) -> Material {
    Material { color: Coloration::flat(0x10_20_30), albedo: s(albedo), surface: SurfaceType::Diffuse }
}

fn camera() -> CameraConfig {
    CameraConfig { width: 640, height: 480, fov: s(60.0), origin: v(0.0, 1.0, 2.0), speed: s(0.1) }
}

fn sun() -> LightConfig {
    LightConfig::Directional(DirectionalLight {
        direction: v(0.0, -3.0, 4.0),
        color: Color::from_hex(0xFF_FF_FF),
        intensity: s(2.0),
    })
}

fn lamp() -> LightConfig {
    LightConfig::Point(PointLight {
        position: v(1.0, 2.0, 3.0),
        color: Color::from_hex(0xFF_00_00),
        intensity: s(50.0),
    })
}

#[test]
fn default_reflection_depth_is_five() {
    assert_eq!(reflection_depth(), 5);
}

#[test]
fn default_angle_of_view_is_sixty_degrees() {
    assert_eq!(DEFAULT_FOV_BITS, 60.0f32.to_bits());
    assert_eq!(CameraConfig::fov(), s(60.0));
}

#[test]
fn default_speed_is_one_tenth() {
    assert_eq!(DEFAULT_SPEED_BITS, 0.1f32.to_bits());
    assert_eq!(CameraConfig::speed(), s(0.1));
}

#[test]
fn camera_is_built_from_its_description() {
    let eye = camera().build(s(0.577_350_26));
    assert_eq!(eye.viewport_width, s(640.0));
    assert_eq!(eye.viewport_height, s(480.0));
    assert_eq!(eye.fov, s(0.577_350_26));
    assert_eq!(eye.origin, v(0.0, 1.0, 2.0));
    assert_eq!(eye.speed, s(0.1));
}

#[test]
fn directional_light_is_built_with_the_unit_direction() {
    match sun().build(v(0.0, -0.6, 0.8)) {
        Light::Directional(light) => {
            assert_eq!(light.direction, v(0.0, -0.6, 0.8));
            assert_eq!(light.color, Color::from_hex(0xFF_FF_FF));
            assert_eq!(light.intensity, s(2.0));
        }
        Light::Point(_) => panic!("a directional light was expected"),
    }
}

#[test]
fn point_light_is_built_as_described() {
    match lamp().build(v(9.0, 9.0, 9.0)) {
        Light::Point(light) => {
            assert_eq!(light.position, v(1.0, 2.0, 3.0));
            assert_eq!(light.color, Color::from_hex(0xFF_00_00));
            assert_eq!(light.intensity, s(50.0));
        }
        Light::Directional(_) => panic!("a point light was expected"),
    }
}

#[test]
fn sphere_is_built_around_the_described_position() {
    let config = EntityConfig::Sphere { material: material(0.25), position: v(0.0, 0.0, -5.0), radius: s(1.5) };
    match config.build() {
        Entity::Sphere(sphere) => {
            assert_eq!(sphere.center, v(0.0, 0.0, -5.0));
            assert_eq!(sphere.radius, s(1.5));
            assert_eq!(sphere.material.albedo, s(0.25));
        }
        Entity::Plane(_) => panic!("a sphere was expected"),
    }
}

#[test]
fn plane_is_built_through_the_described_position() {
    let config = EntityConfig::Plane {
        material: material(0.75),
        position: v(0.0, -1.0, 0.0),
        normal: v(0.0, -1.0, 0.0),
    };
    match config.build() {
        Entity::Plane(plane) => {
            assert_eq!(plane.position, v(0.0, -1.0, 0.0));
            assert_eq!(plane.normal, v(0.0, -1.0, 0.0));
            assert_eq!(plane.material.albedo, s(0.75));
        }
        Entity::Sphere(_) => panic!("a plane was expected"),
    }
}

#[test]
fn world_is_assembled_in_the_order_of_its_description() {
    let config = WorldConfig {
        camera: camera(),
        light: vec![lamp(), sun(), lamp()],
        entity: vec![
            EntityConfig::Plane { material: material(0.1), position: v(0.0, -1.0, 0.0), normal: v(0.0, -1.0, 0.0) },
            EntityConfig::Sphere { material: material(0.2), position: v(0.0, 0.0, -5.0), radius: s(1.0) },
            EntityConfig::Sphere { material: material(0.3), position: v(2.0, 0.0, -5.0), radius: s(2.0) },
        ],
        reflection_depth: 7,
        sky: Sky { from: Color::from_hex(0x00_00_FF), to: Color::from_hex(0xFF_FF_FF) },
    };
    let units = vec![v(0.0, 0.0, 0.0), v(0.0, -0.6, 0.8), v(0.0, 0.0, 0.0)];
    let (world, eye) = config.build(s(0.5), &units);

    assert_eq!(world.reflection_depth, 7);
    assert_eq!(world.sky.from, Color::from_hex(0x00_00_FF));
    assert_eq!(world.sky.to, Color::from_hex(0xFF_FF_FF));

    assert_eq!(world.lights.len(), 3);
    assert!(matches!(world.lights[0], Light::Point(l) if l.position == v(1.0, 2.0, 3.0)));
    assert!(matches!(world.lights[1], Light::Directional(l) if l.direction == v(0.0, -0.6, 0.8)));
    assert!(matches!(world.lights[2], Light::Point(_)));

    assert_eq!(world.entities.len(), 3);
    assert!(matches!(&world.entities[0], Entity::Plane(p) if p.material.albedo == s(0.1)));
    assert!(matches!(&world.entities[1], Entity::Sphere(b) if b.radius == s(1.0)));
    assert!(matches!(&world.entities[2], Entity::Sphere(b) if b.center == v(2.0, 0.0, -5.0)));

    assert_eq!(eye.viewport_width, s(640.0));
    assert_eq!(eye.fov, s(0.5));
}

#[test]
fn an_empty_description_gives_an_empty_world() {
    let config = WorldConfig {
        camera: camera(),
        light: vec![],
        entity: vec![],
        reflection_depth: reflection_depth(),
        sky: Sky::default(),
    };
    let (world, _) = config.build(s(1.0), &vec![]);
    assert!(world.lights.is_empty());
    assert!(world.entities.is_empty());
    assert_eq!(world.reflection_depth, 5);
    assert_eq!(world.sky.from, Color::default());
}
