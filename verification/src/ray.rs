//! Rays: a half-line given by an origin and a direction.

use vstd::prelude::*;
use vstd::std_specs::ops::{AddSpec, MulSpec};
use crate::fixed::{Fixed, SCALE};
use crate::vec3::{Point3, Vec3};

verus! {

/// A ray. The direction need not have unit length.
#[derive(Clone, Copy, Debug, PartialEq, Eq)]
pub struct Ray {
    pub origin: Point3,
    pub direction: Vec3,
}

impl Ray {
    /// The ray from the origin of space along the first axis.
    pub open spec fn spec_x_unit() -> Ray {
        Ray { origin: Vec3::zero(), direction: Vec3 { x: Fixed::one(), y: Fixed::zero(), z: Fixed::zero() } }
    }

    /// The point of the ray at parameter `t`: `origin + t * direction`.
    pub open spec fn spec_at(&self, t: Fixed) -> Point3 {
        self.origin.add_spec(t.mul_spec(self.direction))
    }

    /// The ray from `origin` along `direction`.
    pub fn new(origin: Point3, direction: Vec3) -> (r: Ray)
        ensures
            r == (Ray { origin, direction }),
    {
        Ray { origin, direction }
    }

    /// The ray from the origin of space along the first axis.
    #[verifier::when_used_as_spec(spec_x_unit)]
    pub fn x_unit() -> (r: Ray)
        ensures
            r == Self::spec_x_unit(),
    {
        Ray::new(Vec3::zero(), Vec3::new(Fixed::one(), Fixed::zero(), Fixed::zero()))
    }

    /// The point of the ray at parameter `t`: `origin + t * direction`.
    #[verifier::when_used_as_spec(spec_at)]
    pub fn at(&self, t: Fixed) -> (p: Point3)
        ensures
            p == self.spec_at(t),
    {
        self.origin + t * self.direction
    }
}

} // verus!
