use vstd::prelude::*;
use crate::color::Color;
use crate::light::Light;
use crate::model::plane::Plane;
use crate::model::sphere::Sphere;
use crate::model::{Material, SurfaceType};
use crate::ray::Intersection;
use crate::scalar::Scalar;

verus! {

/// The background: the colour `from`, shown to rays that run level or downwards, and the
/// colour `to`, shown to a ray that runs straight up; rays in between see a blend.
#[derive(Clone, Copy, Debug)]
pub struct Sky {
    pub from: Color,
    pub to: Color,
}

/// A thing that rays can meet.
#[derive(Clone, Debug)]
pub enum Entity {
    Sphere(Sphere),
    Plane(Plane),
}

/// Everything that a picture shows: the entities, the lights, the background, and the
/// number of mirror bounces that are followed.
#[derive(Debug)]
pub struct World {
    pub lights: Vec<Light>,
    pub entities: Vec<Entity>,
    pub reflection_depth: usize,
    pub sky: Sky,
}

/// How the light at a hit is made up.
#[derive(Clone, Copy, Debug, PartialEq, Eq)]
pub enum Lighting {
    /// The sum of what each light of the scene contributes at the hit.
    Diffuse,
    /// That sum weighted by one minus `reflectivity`, plus `reflectivity` times what the
    /// mirrored ray resolves to. The mirrored ray is cast at `depth`, one level below
    /// the hit; there is no `depth` where the machine cannot count that level.
    Reflective { reflectivity: Scalar, depth: Option<usize> },
}

/// What a ray cast into the scene resolves to.
#[derive(Clone, Copy, Debug, PartialEq, Eq)]
pub enum Radiance {
    /// Black: the chain of bounces is cut off, and the scene is not asked.
    Black,
    /// The background behind the ray.
    Sky,
    /// The light at the nearest hit.
    Light(Lighting),
}

impl Entity {
    /// The material of the entity's surface.
    pub open spec fn spec_material(self) -> Material {
        match self {
            Entity::Sphere(sphere) => sphere.material,
            Entity::Plane(plane) => plane.material,
        }
    }

    /// The material of the entity's surface.
    pub fn material(&self) -> (material: &Material)
        ensures
            *material == self.spec_material(),
    {
        match self {
            Entity::Sphere(sphere) => sphere.material(),
            Entity::Plane(plane) => plane.material(),
        }
    }
}

impl Default for Sky {
    /// Black all over.
    fn default() -> (sky: Sky)
        ensures
            sky.from == Color::black(),
            sky.to == Color::black(),
    {
        Sky { from: Color::default(), to: Color::default() }
    }
}

impl Default for World {
    /// An empty scene: no entity, no light, no bounce, a black sky.
    fn default() -> (world: World)
        ensures
            world.lights@.len() == 0,
            world.entities@.len() == 0,
            world.reflection_depth == 0,
            world.sky.from == Color::black(),
            world.sky.to == Color::black(),
    {
        World::new()
    }
}

impl World {
    /// Of two hits on one ray, the one that stays: the later one only where it is
    /// strictly nearer.
    pub open spec fn nearer<'a>(
        best: Option<Intersection<'a>>,
        next: Option<Intersection<'a>>,
    ) -> Option<Intersection<'a>> {
        match (best, next) {
            (Some(b), Some(n)) => if n.distance_sq.below(b.distance_sq) {
                next
            } else {
                best
            },
            (Some(_), None) => best,
            (None, _) => next,
        }
    }

    /// The nearest of the hits that a ray makes on the entities of a scene, taken in the
    /// entities' order: of several equally near, the first.
    pub open spec fn nearest<'a>(hits: Seq<Option<Intersection<'a>>>) -> Option<Intersection<'a>>
        decreases hits.len(),
    {
        if hits.len() == 0 {
            None
        } else {
            World::nearer(World::nearest(hits.drop_last()), hits.last())
        }
    }

    /// How the light at a surface met at `depth` is made up.
    pub open spec fn lighting(surface: SurfaceType, depth: usize) -> Lighting {
        match surface {
            SurfaceType::Diffuse => Lighting::Diffuse,
            SurfaceType::Reflective { reflectivity } => Lighting::Reflective {
                reflectivity,
                depth: if depth < usize::MAX {
                    Some((depth + 1) as usize)
                } else {
                    None
                },
            },
        }
    }

    /// What a ray cast at `depth` resolves to, where `hit` is the nearest hit it makes.
    pub open spec fn radiance(self, hit: Option<Intersection>, depth: usize) -> Radiance {
        if depth > self.reflection_depth {
            Radiance::Black
        } else {
            match hit {
                Some(intersection) => Radiance::Light(
                    World::lighting(intersection.contact.material.surface, depth),
                ),
                None => Radiance::Sky,
            }
        }
    }

    /// The hit, if there is one, has a number for its distance.
    pub open spec fn measured(hit: Option<Intersection>) -> bool {
        hit matches Some(h) ==> !h.distance_sq.nan()
    }

    /// The hit, if there is one, is not nearer than `best`.
    pub open spec fn no_nearer(hit: Option<Intersection>, best: Intersection) -> bool {
        hit matches Some(h) ==> !h.distance_sq.below(best.distance_sq)
    }

    /// The hit, if there is one, is farther than `best`.
    pub open spec fn farther(hit: Option<Intersection>, best: Intersection) -> bool {
        hit matches Some(h) ==> best.distance_sq.below(h.distance_sq)
    }

    /// `best` is the hit at place `i`, no hit is nearer, and every hit before it is
    /// farther.
    pub open spec fn first_least(hits: Seq<Option<Intersection>>, i: int, best: Intersection) -> bool {
        &&& 0 <= i < hits.len()
        &&& hits[i] == Some(best)
        &&& forall|j: int| 0 <= j < hits.len() ==> World::no_nearer(#[trigger] hits[j], best)
        &&& forall|j: int| 0 <= j < i ==> World::farther(#[trigger] hits[j], best)
    }

    /// The depths at which light is computed along a chain of mirror bounces, in the
    /// order of the bounces. The chain starts with a ray cast at `depth`; `hits` holds,
    /// ray by ray, the nearest hit that each ray of the chain makes. A ray cast beyond
    /// the scene's bound ends the chain, as does a ray that hits nothing or a surface
    /// that does not mirror.
    pub open spec fn lit(self, hits: Seq<Option<Intersection>>, depth: nat) -> Seq<nat>
        decreases hits.len(),
    {
        if hits.len() == 0 || depth > self.reflection_depth {
            seq![]
        } else {
            match hits[0] {
                Some(intersection) => match intersection.contact.material.surface {
                    SurfaceType::Reflective { reflectivity } => seq![depth] + self.lit(
                        hits.drop_first(),
                        depth + 1,
                    ),
                    SurfaceType::Diffuse => seq![depth],
                },
                None => seq![],
            }
        }
    }

    /// A scene answers with no hit only where no entity is hit, and its nearest hit is
    /// one of the hits on its entities.
    pub proof fn lemma_nearest_is_a_hit(hits: Seq<Option<Intersection>>)
        ensures
            World::nearest(hits) is None <==> forall|i: int| 0 <= i < hits.len() ==> hits[i] is None,
            World::nearest(hits) is Some ==> exists|i: int|
                0 <= i < hits.len() && hits[i] == World::nearest(hits),
        decreases hits.len(),
    {
        if hits.len() > 0 {
            let front = hits.drop_last();
            World::lemma_nearest_is_a_hit(front);
            assert forall|i: int| 0 <= i < front.len() implies front[i] == hits[i] by {}
            if World::nearest(hits) is Some {
                if World::nearest(hits) == hits.last() {
                    assert(hits[hits.len() - 1] == World::nearest(hits));
                } else {
                    let i = choose|i: int| 0 <= i < front.len() && front[i] == World::nearest(front);
                    assert(hits[i] == World::nearest(hits));
                }
            }
            if World::nearest(hits) is None {
                assert forall|i: int| 0 <= i < hits.len() implies hits[i] is None by {
                    if i < front.len() {
                        assert(front[i] is None);
                    }
                }
            }
        }
    }

    /// Where every hit has a number for its distance, the nearest hit of a scene is the
    /// first of its least distant ones: no hit is nearer, and every earlier hit is
    /// farther.
    pub proof fn lemma_nearest_is_first_least(hits: Seq<Option<Intersection>>)
        requires
            forall|i: int| 0 <= i < hits.len() ==> World::measured(#[trigger] hits[i]),
        ensures
            World::nearest(hits) matches Some(best) ==> exists|i: int|
                World::first_least(hits, i, best),
        decreases hits.len(),
    {
        if hits.len() > 0 {
            let front = hits.drop_last();
            let last = hits.len() - 1;
            assert forall|i: int| 0 <= i < front.len() implies front[i] == hits[i] by {}
            assert forall|i: int| 0 <= i < front.len() implies World::measured(
                #[trigger] front[i],
            ) by {
                assert(World::measured(hits[i]));
            }
            World::lemma_nearest_is_first_least(front);
            World::lemma_nearest_is_a_hit(front);
            assert(World::measured(hits[last]));
            match (World::nearest(front), hits.last()) {
                (Some(b), Some(n)) => {
                    let w = choose|i: int| World::first_least(front, i, b);
                    if n.distance_sq.below(b.distance_sq) {
                        assert forall|j: int| 0 <= j < hits.len() implies World::no_nearer(
                            #[trigger] hits[j],
                            n,
                        ) by {
                            if j < front.len() {
                                assert(World::no_nearer(front[j], b));
                                assert(World::measured(hits[j]));
                            }
                        }
                        assert forall|j: int| 0 <= j < last implies World::farther(
                            #[trigger] hits[j],
                            n,
                        ) by {
                            assert(World::no_nearer(front[j], b));
                            assert(World::measured(hits[j]));
                        }
                        assert(World::first_least(hits, last, n));
                    } else {
                        assert forall|j: int| 0 <= j < hits.len() implies World::no_nearer(
                            #[trigger] hits[j],
                            b,
                        ) by {
                            if j < front.len() {
                                assert(World::no_nearer(front[j], b));
                            }
                        }
                        assert forall|j: int| 0 <= j < w implies World::farther(
                            #[trigger] hits[j],
                            b,
                        ) by {
                            assert(World::farther(front[j], b));
                        }
                        assert(World::first_least(hits, w, b));
                    }
                },
                (Some(b), None) => {
                    let w = choose|i: int| World::first_least(front, i, b);
                    assert forall|j: int| 0 <= j < hits.len() implies World::no_nearer(
                        #[trigger] hits[j],
                        b,
                    ) by {
                        if j < front.len() {
                            assert(World::no_nearer(front[j], b));
                        }
                    }
                    assert forall|j: int| 0 <= j < w implies World::farther(
                        #[trigger] hits[j],
                        b,
                    ) by {
                        assert(World::farther(front[j], b));
                    }
                    assert(World::first_least(hits, w, b));
                },
                (None, Some(n)) => {
                    assert forall|j: int| 0 <= j < hits.len() implies World::no_nearer(
                        #[trigger] hits[j],
                        n,
                    ) by {
                        if j < front.len() {
                            assert(front[j] is None);
                        }
                    }
                    assert forall|j: int| 0 <= j < last implies World::farther(
                        #[trigger] hits[j],
                        n,
                    ) by {
                        assert(front[j] is None);
                    }
                    assert(World::first_least(hits, last, n));
                },
                (None, None) => {},
            }
        }
    }

    /// The chain of bounces follows the casts: what `cast_ray` resolves the first ray
    /// of a chain to says whether light is computed there, and the depth that it hands
    /// on for a mirrored ray is the depth at which the chain goes on.
    pub proof fn lemma_lit_follows_the_casts(self, hits: Seq<Option<Intersection>>, depth: usize)
        requires
            hits.len() > 0,
        ensures
            match self.radiance(hits[0], depth) {
                Radiance::Light(Lighting::Reflective { reflectivity, depth: next }) => {
                    &&& next matches Some(deeper) ==> deeper == depth + 1
                    &&& next is None <==> depth == usize::MAX
                    &&& self.lit(hits, depth as nat) == seq![depth as nat] + self.lit(
                        hits.drop_first(),
                        (depth + 1) as nat,
                    )
                },
                Radiance::Light(Lighting::Diffuse) => self.lit(hits, depth as nat) == seq![
                    depth as nat,
                ],
                _ => self.lit(hits, depth as nat) == Seq::<nat>::empty(),
            },
    {
    }

    /// Along a chain of mirror bounces light is computed at no ray cast deeper than the
    /// scene's bound, whatever the rays of the chain hit and at whatever depth the
    /// chain starts: the depths at which it is computed follow one another from `depth`
    /// on and none exceeds the bound, so that there are no more than the bound plus one
    /// minus `depth` of them, and none where the chain starts beyond the bound.
    pub proof fn lemma_lit_bounded(self, hits: Seq<Option<Intersection>>, depth: nat)
        ensures
            forall|k: int|
                0 <= k < self.lit(hits, depth).len() ==> #[trigger] self.lit(hits, depth)[k]
                    == depth + k && depth + k <= self.reflection_depth,
            depth > self.reflection_depth ==> self.lit(hits, depth).len() == 0,
            depth <= self.reflection_depth ==> self.lit(hits, depth).len()
                <= self.reflection_depth + 1 - depth,
            self.lit(hits, depth).len() <= hits.len(),
        decreases hits.len(),
    {
        if hits.len() > 0 && depth <= self.reflection_depth {
            let rest = self.lit(hits.drop_first(), depth + 1);
            self.lemma_lit_bounded(hits.drop_first(), depth + 1);
            assert forall|k: int| 0 <= k < self.lit(hits, depth).len() implies #[trigger] self.lit(
                hits,
                depth,
            )[k] == depth + k && depth + k <= self.reflection_depth by {
                if k > 0 {
                    assert(self.lit(hits, depth)[k] == rest[k - 1]);
                }
            }
        }
    }

    /// An empty scene: no entity, no light, no bounce, a black sky.
    pub fn new() -> (world: World)
        ensures
            world.lights@.len() == 0,
            world.entities@.len() == 0,
            world.reflection_depth == 0,
            world.sky.from == Color::black(),
            world.sky.to == Color::black(),
    {
        World { lights: Vec::new(), entities: Vec::new(), reflection_depth: 0, sky: Sky::default() }
    }

    /// The nearest hit of a ray in the scene. `hits` holds, entity by entity, the hit
    /// that the ray makes on it, if any.
    pub fn intersect<'a>(&self, hits: &Vec<Option<Intersection<'a>>>) -> (nearest: Option<Intersection<'a>>)
        ensures
            nearest == World::nearest(hits@),
            nearest is None <==> forall|i: int| 0 <= i < hits@.len() ==> hits@[i] is None,
            nearest is Some ==> exists|i: int| 0 <= i < hits@.len() && hits@[i] == nearest,
            (forall|i: int| 0 <= i < hits@.len() ==> World::measured(#[trigger] hits@[i])) ==> (
            nearest matches Some(best) ==> exists|i: int| World::first_least(hits@, i, best)),
    {
        let mut best: Option<Intersection<'a>> = None;
        let mut i: usize = 0;
        while i < hits.len()
            invariant
                i <= hits.len(),
                best == World::nearest(hits@.take(i as int)),
            decreases hits.len() - i,
        {
            let next = hits[i];
            proof {
                assert(hits@.take(i + 1).drop_last() == hits@.take(i as int));
            }
            best = match (best, next) {
                (Some(b), Some(n)) => if n.magnitude_sq().lt(b.magnitude_sq()) {
                    next
                } else {
                    best
                },
                (Some(_), None) => best,
                (None, _) => next,
            };
            i += 1;
        }
        proof {
            assert(hits@.take(i as int) == hits@);
            World::lemma_nearest_is_a_hit(hits@);
            if forall|i: int| 0 <= i < hits@.len() ==> World::measured(#[trigger] hits@[i]) {
                World::lemma_nearest_is_first_least(hits@);
            }
        }
        best
    }

    /// Whether a ray cast at `depth` is cut off without asking the scene.
    pub fn cut_off(&self, depth: usize) -> (cut: bool)
        ensures
            cut == (depth > self.reflection_depth),
    {
        depth > self.reflection_depth
    }

    /// How the light at a hit met at `depth` is made up. For a mirroring surface the
    /// mirrored ray is to be cast one level deeper, where the machine can count that
    /// level.
    pub fn compute_light(&self, intersection: &Intersection, depth: usize) -> (lighting: Lighting)
        ensures
            lighting == World::lighting(intersection.contact.material.surface, depth),
    {
        match intersection.contact.material.surface {
            SurfaceType::Reflective { reflectivity } => Lighting::Reflective {
                reflectivity,
                depth: if depth < usize::MAX {
                    Some(depth + 1)
                } else {
                    None
                },
            },
            SurfaceType::Diffuse => Lighting::Diffuse,
        }
    }

    /// What a ray cast at `depth` resolves to, where `hit` is the nearest hit it makes in
    /// the scene: black beyond the scene's bound on bounces, whatever it hits; within the
    /// bound the sky where it hits nothing, and else the light at the hit.
    pub fn cast_ray(&self, hit: Option<Intersection>, depth: usize) -> (radiance: Radiance)
        ensures
            radiance == self.radiance(hit, depth),
            depth > self.reflection_depth ==> radiance == Radiance::Black,
            depth <= self.reflection_depth && hit is None ==> radiance == Radiance::Sky,
            radiance is Light ==> depth <= self.reflection_depth && hit is Some,
            radiance matches Radiance::Light(Lighting::Reflective { reflectivity, depth: next })
                ==> (next matches Some(deeper) ==> deeper == depth + 1) && (next is None <==> depth
                == usize::MAX),
    {
        if depth > self.reflection_depth {
            return Radiance::Black;
        }
        if let Some(intersection) = hit {
            Radiance::Light(self.compute_light(&intersection, depth))
        } else {
            Radiance::Sky
        }
    }
}

} // verus!
