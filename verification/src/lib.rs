//! The discrete core of a ray tracer: the scene model, the decisions that a ray's way
//! through a scene turns on, and the passage between numbers and the bytes of colours,
//! textures and frames.
//!
//! Numbers are held by their encodings in the 32-bit binary interchange format. The
//! library compares, selects and converts them, exactly as the format prescribes; sums,
//! products and roots are left to its caller, who hands in their results.

pub mod camera;
pub mod color;
pub mod convert;
pub mod light;
pub mod model;
pub mod ray;
pub mod rounding;
pub mod scalar;
pub mod scene;
pub mod serialize;
pub mod texture;
pub mod value;
pub mod vector;
pub mod world;
