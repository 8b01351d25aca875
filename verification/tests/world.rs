use std::cmp::Ordering;

use raytracer::color::Color;
use raytracer::light::directional::DirectionalLight;
use raytracer::light::point::PointLight;
use raytracer::light::Light;
use raytracer::model::plane::Plane;
use raytracer::model::sphere::Sphere;
use raytracer::model::{Material, SurfaceType};
use raytracer::ray::{Contact, Intersection, Ray, BIAS_BITS};
use raytracer::scalar::Scalar;
use raytracer::texture::Coloration;
use raytracer::vector::{TextureCoord, Vector};
use raytracer::world::{Entity, Lighting, Radiance, Sky, World};

fn s(x: f32) -> Scalar {
    Scalar::from_bits(x.to_bits())
}

fn v(x: f32, y: f32, z: f32) -> Vector {
    Vector::new(s(x), s(y), s(z))
}

fn ball(surface: SurfaceType) -> Entity {
    Entity::Sphere(Sphere {
        center: v(0.0, 0.0, -5.0),
        radius: s(1.0),
        material: Material { color: Coloration::flat(0xFF_FF_FF), albedo: s(0.5), surface },
    })
}

fn floor() -> Entity {
    Entity::Plane(Plane {
        position: v(0.0, -1.0, 0.0),
        normal: v(0.0, -1.0, 0.0),
        material: Material::default(),
    })
}

fn ray() -> Ray {
    Ray::new(v(0.0, 0.0, 0.0), v(0.0, 0.0, -1.0))
}

fn hit_at(entity: &Entity, distance_sq: f32) -> Intersection<'_> {
    Intersection::new(
        v(0.0, 0.0, -distance_sq.sqrt()),
        ray(),
        s(distance_sq),
        v(0.0, 0.0, 1.0),
        TextureCoord::new(s(0.0), s(0.0)),
        entity,
    )
}

fn world(reflection_depth: usize) -> World {
    let mut world = World::new();
    world.reflection_depth = reflection_depth;
    world
}

#[test]
fn new_world_is_empty() {
    let world = World::new();
    assert!(world.lights.is_empty());
    assert!(world.entities.is_empty());
    assert_eq!(world.reflection_depth, 0);
    assert_eq!(world.sky.from, Color::default());
    assert_eq!(world.sky.to, Color::default());
}

#[test]
fn default_sky_is_black() {
    let sky = Sky::default();
    assert_eq!(sky.from, Color::default());
    assert_eq!(sky.to, Color::default());
}

#[test]
fn bias_is_one_thousandth() {
    assert_eq!(BIAS_BITS, 1e-3f32.to_bits());
    assert_eq!(Ray::bias(), s(1e-3));
}

#[test]
fn intersection_keeps_what_it_was_made_of() {
    let entity = ball(SurfaceType::Reflective { reflectivity: s(0.25) });
    let hit = Intersection::new(
        v(1.0, 2.0, 3.0),
        ray(),
        s(14.0),
        v(0.0, 1.0, 0.0),
        TextureCoord::new(s(0.5), s(0.75)),
        &entity,
    );
    assert_eq!(hit.hit, v(1.0, 2.0, 3.0));
    assert_eq!(hit.source, ray());
    assert_eq!(hit.magnitude_sq(), s(14.0));
    assert_eq!(hit.contact.normal, v(0.0, 1.0, 0.0));
    assert_eq!(hit.contact.texture, TextureCoord::new(s(0.5), s(0.75)));
    assert_eq!(hit.contact.material.albedo, s(0.5));
    assert_eq!(
        hit.contact.material.surface,
        SurfaceType::Reflective { reflectivity: s(0.25) }
    );
    assert_eq!(hit.color(s(0.0), s(0.0)), Color::from_hex(0xFF_FF_FF));
}

#[test]
fn contact_takes_the_material_of_its_entity() {
    let entity = floor();
    let contact = Contact::new(v(0.0, 1.0, 0.0), TextureCoord::new(s(1.0), s(2.0)), &entity);
    assert_eq!(contact.normal, v(0.0, 1.0, 0.0));
    assert_eq!(contact.texture, TextureCoord::new(s(1.0), s(2.0)));
    assert_eq!(contact.material.albedo, s(0.0));
}

#[test]
fn closest_orders_hits_by_distance() {
    let entity = floor();
    let near = hit_at(&entity, 1.0);
    let far = hit_at(&entity, 4.0);
    assert_eq!(Intersection::closest(&near, &far), Ordering::Less);
    assert_eq!(Intersection::closest(&far, &near), Ordering::Greater);
    assert_eq!(Intersection::closest(&near, &near), Ordering::Equal);
}

#[test]
fn closest_calls_hits_equal_where_a_distance_is_no_number() {
    let entity = floor();
    let near = hit_at(&entity, 1.0);
    let lost = hit_at(&entity, f32::NAN);
    assert_eq!(Intersection::closest(&near, &lost), Ordering::Equal);
    assert_eq!(Intersection::closest(&lost, &near), Ordering::Equal);
    let a = [1.0f32, 4.0, f32::NAN, 0.0, -0.0, f32::INFINITY];
    for x in a {
        for y in a {
            let want = x.partial_cmp(&y).unwrap_or(Ordering::Equal);
            assert_eq!(Intersection::closest(&hit_at(&entity, x), &hit_at(&entity, y)), want);
        }
    }
}

#[test]
fn a_ray_that_misses_every_entity_has_no_nearest_hit() {
    let world = world(3);
    assert!(world.intersect(&vec![]).is_none());
    assert!(world.intersect(&vec![None, None, None]).is_none());
}

#[test]
fn the_nearest_hit_is_the_least_distant() {
    let (a, b, c) = (floor(), ball(SurfaceType::Diffuse), floor());
    let world = world(3);
    let hits = vec![Some(hit_at(&a, 9.0)), None, Some(hit_at(&b, 4.0)), Some(hit_at(&c, 16.0))];
    let nearest = world.intersect(&hits).expect("a hit");
    assert_eq!(nearest.distance_sq, s(4.0));
    assert_eq!(nearest.contact.material.albedo, s(0.5));
}

#[test]
fn of_equally_near_hits_the_first_is_kept() {
    let (a, b) = (floor(), ball(SurfaceType::Diffuse));
    let world = world(3);
    let hits = vec![None, Some(hit_at(&a, 4.0)), Some(hit_at(&b, 4.0))];
    let nearest = world.intersect(&hits).expect("a hit");
    assert_eq!(nearest.contact.material.albedo, s(0.0));
    let hits = vec![Some(hit_at(&b, 4.0)), Some(hit_at(&a, 4.0))];
    let nearest = world.intersect(&hits).expect("a hit");
    assert_eq!(nearest.contact.material.albedo, s(0.5));
}

#[test]
fn nearest_hit_agrees_with_min_by() {
    let entity = floor();
    let keys = [7.0f32, 3.0, f32::NAN, 3.0, 0.5, f32::INFINITY, 0.5, 2.0];
    for start in 0..keys.len() {
        for len in 0..=(keys.len() - start) {
            let slice = &keys[start..start + len];
            let hits: Vec<Option<Intersection>> =
                slice.iter().map(|&k| Some(hit_at(&entity, k))).collect();
            let want = hits.iter().flatten().copied().min_by(Intersection::closest);
            let got = World::new().intersect(&hits);
            assert_eq!(got.map(|h| h.distance_sq), want.map(|h| h.distance_sq));
        }
    }
}

#[test]
fn a_cast_beyond_the_bound_is_cut_off() {
    let world = world(2);
    assert!(!world.cut_off(0));
    assert!(!world.cut_off(2));
    assert!(world.cut_off(3));
    assert!(world.cut_off(usize::MAX));
}

#[test]
fn a_ray_that_hits_nothing_resolves_to_the_sky() {
    let world = world(2);
    assert_eq!(world.cast_ray(None, 0), Radiance::Sky);
    assert_eq!(world.cast_ray(None, 1), Radiance::Sky);
    assert_eq!(world.cast_ray(None, 2), Radiance::Sky);
}

#[test]
fn beyond_the_bound_every_ray_resolves_to_black() {
    let entity = ball(SurfaceType::Reflective { reflectivity: s(1.0) });
    let world = world(2);
    assert_eq!(world.cast_ray(None, 3), Radiance::Black);
    assert_eq!(world.cast_ray(Some(hit_at(&entity, 4.0)), 3), Radiance::Black);
    assert_eq!(world.cast_ray(Some(hit_at(&entity, 4.0)), usize::MAX), Radiance::Black);
    let flat = World::new();
    assert_eq!(flat.cast_ray(None, 1), Radiance::Black);
    assert_eq!(flat.cast_ray(None, 0), Radiance::Sky);
}

#[test]
fn a_hit_within_the_bound_resolves_to_the_light_at_it() {
    let matte = ball(SurfaceType::Diffuse);
    let mirror = ball(SurfaceType::Reflective { reflectivity: s(0.75) });
    let world = world(2);
    assert_eq!(
        world.cast_ray(Some(hit_at(&matte, 4.0)), 2),
        Radiance::Light(Lighting::Diffuse)
    );
    assert_eq!(
        world.cast_ray(Some(hit_at(&mirror, 4.0)), 2),
        Radiance::Light(Lighting::Reflective { reflectivity: s(0.75), depth: Some(3) })
    );
}

#[test]
fn light_at_a_mirror_asks_for_a_cast_one_level_deeper() {
    let mirror = ball(SurfaceType::Reflective { reflectivity: s(0.5) });
    let world = world(5);
    for depth in [0usize, 1, 5, 17] {
        assert_eq!(
            world.compute_light(&hit_at(&mirror, 1.0), depth),
            Lighting::Reflective { reflectivity: s(0.5), depth: Some(depth + 1) }
        );
    }
}

#[test]
fn at_the_last_depth_that_the_machine_counts_a_mirror_has_no_depth_to_hand_on() {
    let mirror = ball(SurfaceType::Reflective { reflectivity: s(0.5) });
    let world = world(usize::MAX);
    let expected = Lighting::Reflective { reflectivity: s(0.5), depth: None };
    assert_eq!(world.compute_light(&hit_at(&mirror, 1.0), usize::MAX), expected);
    assert_eq!(world.cast_ray(Some(hit_at(&mirror, 1.0)), usize::MAX), Radiance::Light(expected));
    assert_eq!(
        world.cast_ray(Some(hit_at(&mirror, 1.0)), usize::MAX - 1),
        Radiance::Light(Lighting::Reflective { reflectivity: s(0.5), depth: Some(usize::MAX) })
    );
}

#[test]
fn default_world_is_the_new_world() {
    let world = World::default();
    assert!(world.lights.is_empty() && world.entities.is_empty());
    assert_eq!(world.reflection_depth, 0);
    assert_eq!(world.sky.to, Color::default());
}

#[test]
fn light_at_a_matte_surface_is_the_sum_of_the_lights() {
    let matte = ball(SurfaceType::Diffuse);
    let world = world(5);
    assert_eq!(world.compute_light(&hit_at(&matte, 1.0), 0), Lighting::Diffuse);
    assert_eq!(world.compute_light(&hit_at(&matte, 1.0), usize::MAX), Lighting::Diffuse);
}

#[test]
fn a_chain_of_mirrors_ends_in_black_after_the_bound() {
    let mirror = ball(SurfaceType::Reflective { reflectivity: s(1.0) });
    for bound in [0usize, 1, 2, 5] {
        let world = world(bound);
        let mut depth = 0;
        let mut lit = 0;
        loop {
            match world.cast_ray(Some(hit_at(&mirror, 1.0)), depth) {
                Radiance::Light(Lighting::Reflective { depth: next, .. }) => {
                    assert!(depth <= bound);
                    lit += 1;
                    depth = next.expect("a depth below the hit");
                }
                Radiance::Black => break,
                other => panic!("unexpected {other:?}"),
            }
        }
        assert_eq!(lit, bound + 1);
        assert_eq!(depth, bound + 1);
    }
}

#[test]
fn directional_light_points_back_along_its_direction() {
    let light = DirectionalLight {
        direction: v(0.0, -1.0, 0.5),
        color: Color::from_hex(0xFF_FF_FF),
        intensity: s(2.0),
    };
    assert_eq!(light.light_direction(), v(-0.0, 1.0, -0.5));
}

#[test]
fn directional_light_arrives_whole_where_nothing_is_in_the_way() {
    let light = DirectionalLight {
        direction: v(0.0, -1.0, 0.0),
        color: Color::from_hex(0xFF_FF_FF),
        intensity: s(2.0),
    };
    assert_eq!(light.intensity_at(None), s(2.0));
}

#[test]
fn directional_light_is_blocked_by_anything_however_far() {
    let entity = floor();
    let light = DirectionalLight {
        direction: v(0.0, -1.0, 0.0),
        color: Color::from_hex(0xFF_FF_FF),
        intensity: s(2.0),
    };
    assert_eq!(light.intensity_at(Some(hit_at(&entity, 0.001))), s(0.0));
    assert_eq!(light.intensity_at(Some(hit_at(&entity, 1e30))), s(0.0));
    assert_eq!(light.intensity_at(Some(hit_at(&entity, f32::NAN))), s(0.0));
}

#[test]
fn point_light_is_blocked_by_what_stands_before_it() {
    let entity = floor();
    assert!(!PointLight::in_light(Some(hit_at(&entity, 1.0)), s(4.0)));
    assert_eq!(PointLight::intensity_at(s(0.3), Some(hit_at(&entity, 1.0)), s(4.0)), s(0.0));
}

#[test]
fn point_light_is_not_blocked_by_what_stands_behind_it() {
    let entity = floor();
    assert!(PointLight::in_light(Some(hit_at(&entity, 9.0)), s(4.0)));
    assert_eq!(PointLight::intensity_at(s(0.3), Some(hit_at(&entity, 9.0)), s(4.0)), s(0.3));
}

#[test]
fn point_light_is_blocked_by_what_stands_at_its_own_distance() {
    let entity = floor();
    assert!(!PointLight::in_light(Some(hit_at(&entity, 4.0)), s(4.0)));
    assert_eq!(PointLight::intensity_at(s(0.3), Some(hit_at(&entity, 4.0)), s(4.0)), s(0.0));
}

#[test]
fn point_light_arrives_where_nothing_is_in_the_way() {
    assert!(PointLight::in_light(None, s(4.0)));
    assert_eq!(PointLight::intensity_at(s(0.3), None, s(4.0)), s(0.3));
    assert_eq!(PointLight::intensity_at(s(-0.3), None, s(f32::NAN)), s(-0.3));
}

#[test]
fn point_light_is_blocked_where_a_distance_is_no_number() {
    let entity = floor();
    assert!(!PointLight::in_light(Some(hit_at(&entity, f32::NAN)), s(4.0)));
    assert!(!PointLight::in_light(Some(hit_at(&entity, 9.0)), s(f32::NAN)));
}

#[test]
fn lights_of_both_kinds_fit_in_a_world() {
    let mut world = World::new();
    world.lights.push(Light::Directional(DirectionalLight {
        direction: v(0.0, 0.0, -1.0),
        color: Color::from_hex(0xFF_FF_FF),
        intensity: s(1.0),
    }));
    world.lights.push(Light::Point(PointLight {
        position: v(0.0, 5.0, 0.0),
        color: Color::from_hex(0xFF_00_00),
        intensity: s(100.0),
    }));
    world.entities.push(floor());
    assert_eq!(world.lights.len(), 2);
    assert_eq!(world.entities[0].material().albedo, s(0.0));
}
