use vstd::prelude::*;
use crate::light::directional::DirectionalLight;
use crate::light::point::PointLight;

pub mod directional;
pub mod point;

verus! {

/// A source of light in a scene.
#[derive(Clone, Copy, Debug)]
pub enum Light {
    Directional(DirectionalLight),
    Point(PointLight),
}

} // verus!
