//! A Monte Carlo path tracer over saturating fixed-point arithmetic.
//!
//! A scene of spheres with diffuse, metallic and clear materials is seen
//! through a camera with a thin lens. The light that arrives along a ray is
//! estimated by following the ray from surface to surface, and a pixel is
//! the mean of many such estimates.
//!
//! Every number is a [`fixed::Fixed`]: a multiple of two to the power of
//! minus thirty-two, clamped into sixty-four bits. Each function states
//! exactly what it computes on those numbers. What the exact real numbers
//! would satisfy exactly, the computed ones satisfy up to rounding; the
//! modules `rounding`, `hit_accuracy`, `head_on`, `refract_accuracy` and
//! `round_trip` say by how much.
//!
//! Functions that draw random numbers come in pairs: one that takes the
//! values drawn as arguments and is exact, and one that draws them and
//! states what holds of every outcome.

pub mod camera;
pub mod color;
pub mod constants;
pub mod fixed;
pub mod head_on;
pub mod hit_accuracy;
pub mod hittable;
pub mod hittable_list;
pub mod integrator;
pub mod material;
pub mod ray;
pub mod refract_accuracy;
pub mod round_trip;
pub mod rounding;
pub mod scene;
pub mod sphere;
pub mod utilities;
pub mod vec3;
