//! Spheres and their intersection with rays.

use vstd::prelude::*;
use core::ops::Neg;
use vstd::std_specs::ops::{AddSpec, DivSpec, MulSpec, NegSpec, SubSpec};
use crate::fixed::{lemma_trunc_div_monotonic, Fixed, SCALE};
use crate::hittable::HitRecord;
use crate::material::Material;
use crate::ray::Ray;
use crate::vec3::{Point3, Vec3};

verus! {

/// A sphere. One whose radius is not positive is hit by no ray.
#[derive(Clone, Copy, Debug, PartialEq, Eq)]
pub struct Sphere {
    pub center: Point3,
    pub radius: Fixed,
    pub material: Material,
}

/// Whether `t` lies strictly between `t_min` and `t_max`.
pub open spec fn strictly_between(t: Fixed, t_min: Fixed, t_max: Fixed) -> bool {
    t_min.raw < t.raw < t_max.raw
}

impl Sphere {
    /// Whether the sphere's material is well formed.
    pub open spec fn wf(&self) -> bool {
        self.material.wf()
    }

    /// Squared length of the direction of `r`: the leading coefficient of the
    /// quadratic `a t^2 + 2 half_b t + c = 0` whose roots are the parameters
    /// at which `r` meets the sphere.
    pub open spec fn spec_a(&self, r: Ray) -> Fixed {
        r.direction.spec_length_squared()
    }

    /// Half of the linear coefficient of the quadratic.
    pub open spec fn spec_half_b(&self, r: Ray) -> Fixed {
        r.origin.sub_spec(self.center).spec_dot(r.direction)
    }

    /// Constant coefficient of the quadratic.
    pub open spec fn spec_c(&self, r: Ray) -> Fixed {
        r.origin.sub_spec(self.center).spec_length_squared().sub_spec(
            self.radius.mul_spec(self.radius),
        )
    }

    /// A quarter of the discriminant of the quadratic.
    pub open spec fn spec_discriminant(&self, r: Ray) -> Fixed {
        self.spec_half_b(r).mul_spec(self.spec_half_b(r)).sub_spec(
            self.spec_a(r).mul_spec(self.spec_c(r)),
        )
    }

    /// Whether the quadratic has real roots that can be computed: the sphere
    /// has a positive radius, the discriminant is not negative and the
    /// leading coefficient is not zero.
    pub open spec fn spec_has_roots(&self, r: Ray) -> bool {
        &&& self.radius.raw > 0
        &&& self.spec_discriminant(r).raw >= 0
        &&& self.spec_a(r).raw != 0
    }

    /// The smaller root of the quadratic.
    pub open spec fn spec_near_root(&self, r: Ray) -> Fixed {
        self.spec_half_b(r).neg_spec().sub_spec(self.spec_discriminant(r).spec_sqrt()).div_spec(
            self.spec_a(r),
        )
    }

    /// The larger root of the quadratic.
    pub open spec fn spec_far_root(&self, r: Ray) -> Fixed {
        self.spec_half_b(r).neg_spec().add_spec(self.spec_discriminant(r).spec_sqrt()).div_spec(
            self.spec_a(r),
        )
    }

    /// The parameter at which `r` is taken to hit the sphere: the smaller
    /// root if it lies strictly between `t_min` and `t_max`, else the larger
    /// one if that does.
    pub open spec fn spec_root(&self, r: Ray, t_min: Fixed, t_max: Fixed) -> Option<Fixed> {
        if !self.spec_has_roots(r) {
            None
        } else if strictly_between(self.spec_near_root(r), t_min, t_max) {
            Some(self.spec_near_root(r))
        } else if strictly_between(self.spec_far_root(r), t_min, t_max) {
            Some(self.spec_far_root(r))
        } else {
            None
        }
    }

    /// The normal of the sphere at `p` that points away from the center.
    pub open spec fn spec_outward_normal(&self, p: Point3) -> Vec3 {
        p.sub_spec(self.center).div_spec(self.radius)
    }

    /// The record of the hit of `r` on the sphere at parameter `t`.
    pub open spec fn spec_record(&self, r: Ray, t: Fixed) -> HitRecord {
        let p = r.spec_at(t);
        let outward = self.spec_outward_normal(p);
        HitRecord {
            p,
            normal: HitRecord::spec_face_normal(r.direction, outward),
            t,
            front_face: HitRecord::spec_front_face(r.direction, outward),
            material: self.material,
        }
    }

    /// The hit of ray `r` on the sphere with parameter strictly between
    /// `t_min` and `t_max`, if there is one.
    pub open spec fn spec_hit(&self, r: Ray, t_min: Fixed, t_max: Fixed) -> Option<HitRecord> {
        match self.spec_root(r, t_min, t_max) {
            Some(t) => Some(self.spec_record(r, t)),
            None => None,
        }
    }

    /// The normal of a hit points against the ray. The hit is on the front
    /// face exactly when the ray runs against the outward normal, the stored
    /// normal is then the outward one, and its scalar product with the
    /// direction of the ray is negative; on the back face it is the opposite
    /// of the outward one, and the scalar product is not positive. This holds
    /// of every hit whose outward normal can be negated without saturating.
    pub proof fn lemma_hit_normal_opposes(&self, r: Ray, t_min: Fixed, t_max: Fixed)
        requires
            self.spec_hit(r, t_min, t_max).is_some(),
            self.spec_outward_normal(self.spec_hit(r, t_min, t_max).unwrap().p).x.raw > i64::MIN,
            self.spec_outward_normal(self.spec_hit(r, t_min, t_max).unwrap().p).y.raw > i64::MIN,
            self.spec_outward_normal(self.spec_hit(r, t_min, t_max).unwrap().p).z.raw > i64::MIN,
        ensures
            ({
                let h = self.spec_hit(r, t_min, t_max).unwrap();
                let outward = self.spec_outward_normal(h.p);
                &&& h.front_face == (r.direction.spec_dot(outward).raw < 0)
                &&& h.front_face ==> h.normal == outward && r.direction.spec_dot(h.normal).raw < 0
                &&& !h.front_face ==> h.normal == outward.neg_spec()
                &&& r.direction.spec_dot(h.normal).raw <= 0
            }),
    {
        let h = self.spec_hit(r, t_min, t_max).unwrap();
        HitRecord::lemma_face_normal_opposes(r.direction, self.spec_outward_normal(h.p));
    }

    /// The smaller root is not larger than the larger one.
    pub proof fn lemma_roots_ordered(&self, r: Ray)
        requires
            self.spec_has_roots(r),
        ensures
            self.spec_near_root(r).raw <= self.spec_far_root(r).raw,
    {
        let a = self.spec_a(r);
        let root = self.spec_discriminant(r).spec_sqrt();
        let base = self.spec_half_b(r).neg_spec();
        r.direction.lemma_length_squared_nonnegative();
        self.spec_discriminant(r).lemma_sqrt_bounds();
        let low = base.sub_spec(root);
        let high = base.add_spec(root);
        assert(low.raw * SCALE <= high.raw * SCALE) by (nonlinear_arith)
            requires
                low.raw <= high.raw,
        ;
        lemma_trunc_div_monotonic(low.raw * SCALE, high.raw * SCALE, a.raw as int);
    }

    /// A hit lies strictly between the two bounds it was asked for.
    pub proof fn lemma_hit_between(&self, r: Ray, t_min: Fixed, t_max: Fixed)
        ensures
            match self.spec_hit(r, t_min, t_max) {
                Some(h) => strictly_between(h.t, t_min, t_max),
                None => true,
            },
    {
    }

    /// Lowering the upper bound keeps a hit that is still below it, and loses
    /// any other: no hit appears that was not there before.
    pub proof fn lemma_hit_narrowed(&self, r: Ray, t_min: Fixed, t_max: Fixed, bound: Fixed)
        requires
            bound.raw <= t_max.raw,
        ensures
            self.spec_hit(r, t_min, bound) == match self.spec_hit(r, t_min, t_max) {
                Some(h) => if h.t.raw < bound.raw {
                    Some(h)
                } else {
                    None
                },
                None => None,
            },
    {
        if self.spec_has_roots(r) {
            self.lemma_roots_ordered(r);
        }
    }

    /// The sphere about `center` with the given radius and material.
    pub fn new(center: Point3, radius: Fixed, material: Material) -> (s: Self)
        ensures
            s == (Sphere { center, radius, material }),
    {
        Sphere { center, radius, material }
    }

    /// Tests whether the sphere's material is well formed.
    pub fn is_wf(&self) -> (b: bool)
        ensures
            b == self.wf(),
    {
        self.material.is_wf()
    }

    /// Tests ray `r` against the sphere. On a hit the record is filled in;
    /// otherwise it is left as it was.
    pub fn hit(&self, r: Ray, t_min: Fixed, t_max: Fixed, rec: &mut HitRecord) -> (found: bool)
        ensures
            found == self.spec_hit(r, t_min, t_max).is_some(),
            found ==> *final(rec) == self.spec_hit(r, t_min, t_max).unwrap(),
            !found ==> *final(rec) == *old(rec),
    {
        let oc = r.origin - self.center;
        let a = r.direction.length_squared();
        let half_b = oc.dot(r.direction);
        let c = oc.length_squared() - self.radius * self.radius;

        let discriminant = half_b * half_b - a * c;
        if self.radius.raw <= 0 || discriminant.raw < 0 || a.raw == 0 {
            return false;
        }
        let sqrtd = discriminant.sqrt();

        let near = (half_b.neg() - sqrtd) / a;
        let root = if near.raw <= t_min.raw || t_max.raw <= near.raw {
            (half_b.neg() + sqrtd) / a
        } else {
            near
        };
        if root.raw <= t_min.raw || t_max.raw <= root.raw {
            return false;
        }
        rec.t = root;
        rec.p = r.at(rec.t);
        let outward_normal = (rec.p - self.center) / self.radius;
        rec.set_face_normal(&r, &outward_normal);
        rec.material = self.material;

        true
    }
}

} // verus!
