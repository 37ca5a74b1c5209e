//! Hit records and the closed set of geometric primitives.

use vstd::prelude::*;
use core::ops::Neg;
use vstd::std_specs::ops::NegSpec;
use crate::color::Color;
use crate::fixed::{lemma_trunc_div_negated, Fixed, SCALE};
use crate::material::{Lambertian, Material};
use crate::ray::Ray;
use crate::sphere::{strictly_between, Sphere};
use crate::vec3::{Point3, Vec3};

verus! {

/// What is known of the place where a ray meets a surface.
#[derive(Clone, Copy, Debug, PartialEq, Eq)]
pub struct HitRecord {
    /// The point of intersection.
    pub p: Point3,
    /// The surface normal there, turned against the incoming ray.
    pub normal: Vec3,
    /// The ray parameter of the intersection.
    pub t: Fixed,
    /// Whether the ray met the surface from outside.
    pub front_face: bool,
    /// The material of the surface.
    pub material: Material,
}

impl HitRecord {
    /// A record with every number zero and a black diffuse material.
    pub open spec fn spec_zero() -> HitRecord {
        HitRecord {
            p: Vec3::zero(),
            normal: Vec3::zero(),
            t: Fixed::zero(),
            front_face: false,
            material: Material::Lambertian(Lambertian { albedo: Vec3::zero() }),
        }
    }

    /// Whether a ray of direction `direction` meets from outside a surface
    /// whose outward normal is `outward_normal`.
    pub open spec fn spec_front_face(direction: Vec3, outward_normal: Vec3) -> bool {
        direction.spec_dot(outward_normal).raw < 0
    }

    /// The outward normal, turned against a ray of direction `direction`.
    pub open spec fn spec_face_normal(direction: Vec3, outward_normal: Vec3) -> Vec3 {
        if Self::spec_front_face(direction, outward_normal) {
            outward_normal
        } else {
            outward_normal.neg_spec()
        }
    }

    /// The stored normal points against the ray: its scalar product with the
    /// direction of the ray is negative on the front face and never
    /// positive. This holds of every outward normal whose components can be
    /// negated without saturating.
    pub proof fn lemma_face_normal_opposes(direction: Vec3, outward_normal: Vec3)
        requires
            outward_normal.x.raw > i64::MIN,
            outward_normal.y.raw > i64::MIN,
            outward_normal.z.raw > i64::MIN,
        ensures
            Self::spec_front_face(direction, outward_normal) ==> direction.spec_dot(
                Self::spec_face_normal(direction, outward_normal),
            ).raw < 0,
            direction.spec_dot(Self::spec_face_normal(direction, outward_normal)).raw <= 0,
    {
        let d = direction;
        let o = outward_normal;
        assert(d.x.raw * (-o.x.raw) == -(d.x.raw * o.x.raw)) by (nonlinear_arith);
        assert(d.y.raw * (-o.y.raw) == -(d.y.raw * o.y.raw)) by (nonlinear_arith);
        assert(d.z.raw * (-o.z.raw) == -(d.z.raw * o.z.raw)) by (nonlinear_arith);
        lemma_trunc_div_negated(d.x.raw * o.x.raw, SCALE as int);
        lemma_trunc_div_negated(d.y.raw * o.y.raw, SCALE as int);
        lemma_trunc_div_negated(d.z.raw * o.z.raw, SCALE as int);
    }

    /// The record with the given fields.
    pub fn new(p: Point3, normal: Vec3, t: Fixed, front_face: bool, material: Material) -> (rec: Self)
        ensures
            rec == (HitRecord { p, normal, t, front_face, material }),
    {
        HitRecord { p, normal, t, front_face, material }
    }

    /// A record with every number zero and a black diffuse material.
    #[verifier::when_used_as_spec(spec_zero)]
    pub fn zero() -> (rec: Self)
        ensures
            rec == Self::spec_zero(),
    {
        Self::new(
            Vec3::zero(),
            Vec3::zero(),
            Fixed::zero(),
            false,
            Material::Lambertian(Lambertian { albedo: Color::zero() }),
        )
    }

    /// Records on which side the ray met the surface, and stores the normal
    /// that points against the ray.
    pub fn set_face_normal(&mut self, r: &Ray, outward_normal: &Vec3)
        ensures
            final(self).front_face == Self::spec_front_face(r.direction, *outward_normal),
            final(self).normal == Self::spec_face_normal(r.direction, *outward_normal),
            final(self).p == old(self).p,
            final(self).t == old(self).t,
            final(self).material == old(self).material,
    {
        self.front_face = r.direction.dot(*outward_normal).raw < 0;
        self.normal = if self.front_face {
            *outward_normal
        } else {
            outward_normal.neg()
        };
    }
}

/// A geometric primitive that a ray can hit.
#[derive(Clone, Copy, Debug, PartialEq, Eq)]
pub enum Hittable {
    Sphere(Sphere),
}

impl Hittable {
    /// Whether the primitive's material is well formed.
    pub open spec fn wf(&self) -> bool {
        match self {
            Hittable::Sphere(sphere) => sphere.wf(),
        }
    }

    /// The material of the primitive.
    pub open spec fn spec_material(&self) -> Material {
        match self {
            Hittable::Sphere(sphere) => sphere.material,
        }
    }

    /// A hit carries the material of the primitive that was hit.
    pub proof fn lemma_hit_material(&self, r: Ray, t_min: Fixed, t_max: Fixed)
        ensures
            match self.spec_hit(r, t_min, t_max) {
                Some(h) => h.material == self.spec_material(),
                None => true,
            },
    {
    }

    /// The hit of ray `r` on the primitive with parameter strictly between
    /// `t_min` and `t_max`, if there is one.
    pub open spec fn spec_hit(&self, r: Ray, t_min: Fixed, t_max: Fixed) -> Option<HitRecord> {
        match self {
            Hittable::Sphere(sphere) => sphere.spec_hit(r, t_min, t_max),
        }
    }

    /// A hit lies strictly between the two bounds it was asked for.
    pub proof fn lemma_hit_between(&self, r: Ray, t_min: Fixed, t_max: Fixed)
        ensures
            match self.spec_hit(r, t_min, t_max) {
                Some(h) => strictly_between(h.t, t_min, t_max),
                None => true,
            },
    {
        match self {
            Hittable::Sphere(sphere) => sphere.lemma_hit_between(r, t_min, t_max),
        }
    }

    /// Lowering the upper bound keeps a hit that is still below it, and loses
    /// any other: no hit appears that was not there before.
    pub proof fn lemma_hit_narrowed(&self, r: Ray, t_min: Fixed, t_max: Fixed, bound: Fixed)
        requires
            bound.raw <= t_max.raw,
        ensures
            self.spec_hit(r, t_min, bound) == match self.spec_hit(r, t_min, t_max) {
                Some(h) => if h.t.raw < bound.raw {
                    Some(h)
                } else {
                    None
                },
                None => None,
            },
    {
        match self {
            Hittable::Sphere(sphere) => sphere.lemma_hit_narrowed(r, t_min, t_max, bound),
        }
    }

    /// Tests whether the primitive's material is well formed.
    pub fn is_wf(&self) -> (b: bool)
        ensures
            b == self.wf(),
    {
        match self {
            Hittable::Sphere(sphere) => sphere.is_wf(),
        }
    }

    /// Tests ray `r` against the primitive. On a hit the record is filled in;
    /// otherwise it is left as it was.
    pub fn hit(&self, r: Ray, t_min: Fixed, t_max: Fixed, rec: &mut HitRecord) -> (found: bool)
        ensures
            found == self.spec_hit(r, t_min, t_max).is_some(),
            found ==> *final(rec) == self.spec_hit(r, t_min, t_max).unwrap(),
            !found ==> *final(rec) == *old(rec),
    {
        match self {
            Hittable::Sphere(sphere) => sphere.hit(r, t_min, t_max, rec),
        }
    }
}

} // verus!
