//! Surface materials: how a surface sends an incoming ray on.
//!
//! Each material has a `scatter_with`, which takes the random quantity that
//! the material consumes as an argument and is exact, and a `scatter`, which
//! draws that quantity itself.

use vstd::prelude::*;
use core::ops::Neg;
use vstd::std_specs::ops::{AddSpec, DivSpec, MulSpec, NegSpec, SubSpec};
use crate::color::Color;
use crate::fixed::{lemma_trunc_div_sign, Fixed, SCALE};
use crate::hittable::HitRecord;
use crate::ray::Ray;
use crate::utilities::{is_unit_draw, rand_double};
use crate::vec3::{in_unit_ball, is_unit_of_ball_point, random_in_unit_sphere, random_unit_vector, Vec3};

verus! {

/// A diffuse surface.
#[derive(Clone, Copy, Debug, PartialEq, Eq)]
pub struct Lambertian {
    pub albedo: Color,
}

/// A mirror-like surface, blurred by `fuzz`.
#[derive(Clone, Copy, Debug, PartialEq, Eq)]
pub struct Metal {
    pub albedo: Color,
    pub fuzz: Fixed,
}

/// A clear surface that refracts, such as glass.
#[derive(Clone, Copy, Debug, PartialEq, Eq)]
pub struct Dielectric {
    pub index_of_refraction: Fixed,
}

/// The closed set of materials.
#[derive(Clone, Copy, Debug, PartialEq, Eq)]
pub enum Material {
    Lambertian(Lambertian),
    Metal(Metal),
    Dielectric(Dielectric),
}

/// The fifth power of `x`, by two squarings and one product.
pub open spec fn spec_fifth_power(x: Fixed) -> Fixed {
    let square = x.mul_spec(x);
    square.mul_spec(square).mul_spec(x)
}

/// Schlick's approximation of the share of light that a clear surface
/// reflects: `r0 + (1 - r0) (1 - cosine)^5`, where `r0` is the square of
/// `(1 - ref_idx) / (1 + ref_idx)`.
pub open spec fn spec_reflectance(cosine: Fixed, ref_idx: Fixed) -> Fixed {
    let ratio = Fixed::one().sub_spec(ref_idx).div_spec(Fixed::one().add_spec(ref_idx));
    let r0 = ratio.mul_spec(ratio);
    r0.add_spec(
        Fixed::one().sub_spec(r0).mul_spec(spec_fifth_power(Fixed::one().sub_spec(cosine))),
    )
}

/// The fifth power of `x`, by two squarings and one product.
#[verifier::when_used_as_spec(spec_fifth_power)]
pub fn fifth_power(x: Fixed) -> (r: Fixed)
    ensures
        r == spec_fifth_power(x),
{
    let square = x * x;
    square * square * x
}

/// Schlick's approximation of the share of light that a clear surface
/// reflects: `r0 + (1 - r0) (1 - cosine)^5`, where `r0` is the square of
/// `(1 - ref_idx) / (1 + ref_idx)`.
#[verifier::when_used_as_spec(spec_reflectance)]
pub fn reflectance(cosine: Fixed, ref_idx: Fixed) -> (r: Fixed)
    requires
        ref_idx.raw != -SCALE,
    ensures
        r == spec_reflectance(cosine, ref_idx),
{
    let r0 = (Fixed::one() - ref_idx) / (Fixed::one() + ref_idx);
    let r0 = r0 * r0;
    r0 + (Fixed::one() - r0) * fifth_power(Fixed::one() - cosine)
}

impl Lambertian {
    /// The direction in which a ray leaves a surface with normal `normal`,
    /// given the random unit vector `unit`: their sum, or the normal alone
    /// where the sum is near zero.
    pub open spec fn spec_direction(normal: Vec3, unit: Vec3) -> Vec3 {
        let sum = normal.add_spec(unit);
        if sum.spec_near_zero() {
            normal
        } else {
            sum
        }
    }

    /// What `scatter` hands back when the random unit vector is `unit`:
    /// whether the ray goes on, its attenuation, and the scattered ray.
    pub open spec fn spec_scatter(&self, rec: HitRecord, unit: Vec3) -> (bool, Color, Ray) {
        (true, self.albedo, Ray { origin: rec.p, direction: Self::spec_direction(rec.normal, unit) })
    }

    /// Off a surface whose normal is not zero, a diffuse material never
    /// sends a ray with a direction of zero length.
    pub proof fn lemma_direction_not_zero(normal: Vec3, unit: Vec3)
        requires
            !normal.is_zero(),
        ensures
            !Self::spec_direction(normal, unit).is_zero(),
    {
    }

    /// The diffuse material of albedo `a`.
    pub fn new(a: &Color) -> (m: Self)
        ensures
            m == (Lambertian { albedo: *a }),
    {
        Lambertian { albedo: *a }
    }

    /// Scatters off the surface at `rec`, given the random unit vector.
    pub fn scatter_with(
        &self,
        rec: &HitRecord,
        unit: Vec3,
        attenuation: &mut Color,
        scattered: &mut Ray,
    ) -> (b: bool)
        ensures
            (b, *final(attenuation), *final(scattered)) == self.spec_scatter(*rec, unit),
    {
        let mut scatter_direction = rec.normal + unit;
        if scatter_direction.near_zero() {
            scatter_direction = rec.normal;
        }
        *scattered = Ray::new(rec.p, scatter_direction);
        *attenuation = self.albedo;
        true
    }

    /// Scatters off the surface at `rec` in a random direction about the
    /// normal. The ray always goes on, attenuated by the albedo.
    pub fn scatter(
        &self,
        _r_in: &Ray,
        rec: &HitRecord,
        attenuation: &mut Color,
        scattered: &mut Ray,
    ) -> (b: bool)
        ensures
            exists|unit: Vec3|
                is_unit_of_ball_point(unit) && (b, *final(attenuation), *final(scattered))
                    == #[trigger] self.spec_scatter(*rec, unit),
            b,
            *final(attenuation) == self.albedo,
            final(scattered).origin == rec.p,
            !rec.normal.is_zero() ==> !final(scattered).direction.is_zero(),
    {
        let unit = random_unit_vector();
        self.scatter_with(rec, unit, attenuation, scattered)
    }
}

impl Metal {
    /// The direction in which the surface at `rec` mirrors the ray `r_in`.
    pub open spec fn spec_reflected(r_in: Ray, rec: HitRecord) -> Vec3 {
        r_in.direction.spec_unit_vector().spec_reflect(rec.normal)
    }

    /// What `scatter` hands back when the random point of the unit ball is
    /// `offset`: whether the ray goes on, its attenuation, and the scattered
    /// ray. The ray goes on if it leaves on the side of the normal.
    pub open spec fn spec_scatter(&self, r_in: Ray, rec: HitRecord, offset: Vec3) -> (
        bool,
        Color,
        Ray,
    ) {
        let direction = Self::spec_reflected(r_in, rec).add_spec(self.fuzz.mul_spec(offset));
        (direction.spec_dot(rec.normal).raw > 0, self.albedo, Ray { origin: rec.p, direction })
    }

    /// A metal without fuzz mirrors exactly, whatever point was drawn: the
    /// attenuation is the albedo and the direction the mirror image of the
    /// incoming unit direction.
    pub proof fn lemma_mirror_without_fuzz(&self, r_in: Ray, rec: HitRecord, offset: Vec3)
        requires
            self.fuzz.raw == 0,
        ensures
            self.spec_scatter(r_in, rec, offset).1 == self.albedo,
            self.spec_scatter(r_in, rec, offset).2 == (Ray {
                origin: rec.p,
                direction: Self::spec_reflected(r_in, rec),
            }),
    {
        assert(0int * offset.x.raw == 0 && 0int * offset.y.raw == 0 && 0int * offset.z.raw == 0);
        lemma_trunc_div_sign(0, SCALE as int);
    }

    /// The metal of albedo `a` and fuzz `f`.
    pub fn new(a: &Color, f: Fixed) -> (m: Self)
        ensures
            m == (Metal { albedo: *a, fuzz: f }),
    {
        Metal { albedo: *a, fuzz: f }
    }

    /// Scatters the ray `r_in` off the surface at `rec`, given the random
    /// point of the unit ball.
    pub fn scatter_with(
        &self,
        r_in: &Ray,
        rec: &HitRecord,
        offset: Vec3,
        attenuation: &mut Color,
        scattered: &mut Ray,
    ) -> (b: bool)
        requires
            !r_in.direction.is_zero(),
        ensures
            (b, *final(attenuation), *final(scattered)) == self.spec_scatter(*r_in, *rec, offset),
    {
        let reflected = r_in.direction.unit_vector().reflect(rec.normal);
        *scattered = Ray::new(rec.p, reflected + self.fuzz * offset);
        *attenuation = self.albedo;
        scattered.direction.dot(rec.normal).raw > 0
    }

    /// Mirrors the ray `r_in` at the surface at `rec`, blurred by a random
    /// offset of at most `fuzz`. The ray goes on if it leaves on the side of
    /// the normal.
    pub fn scatter(
        &self,
        r_in: &Ray,
        rec: &HitRecord,
        attenuation: &mut Color,
        scattered: &mut Ray,
    ) -> (b: bool)
        requires
            !r_in.direction.is_zero(),
        ensures
            exists|offset: Vec3|
                in_unit_ball(offset) && (b, *final(attenuation), *final(scattered))
                    == #[trigger] self.spec_scatter(*r_in, *rec, offset),
            *final(attenuation) == self.albedo,
            final(scattered).origin == rec.p,
            b == (final(scattered).direction.spec_dot(rec.normal).raw > 0),
            self.fuzz.raw == 0 ==> final(scattered).direction == Self::spec_reflected(*r_in, *rec),
    {
        let offset = random_in_unit_sphere();
        proof {
            if self.fuzz.raw == 0 {
                self.lemma_mirror_without_fuzz(*r_in, *rec, offset);
            }
        }
        self.scatter_with(r_in, rec, offset, attenuation, scattered)
    }
}

impl Dielectric {
    /// A refractive index is positive.
    pub open spec fn wf(&self) -> bool {
        self.index_of_refraction.raw > 0
    }

    /// Ratio of the refractive index on the side the ray comes from to that
    /// on the side it goes to.
    pub open spec fn spec_refraction_ratio(&self, front_face: bool) -> Fixed {
        if front_face {
            Fixed::one().div_spec(self.index_of_refraction)
        } else {
            self.index_of_refraction
        }
    }

    /// Cosine of the angle of incidence, capped at one.
    pub open spec fn spec_cos_theta(unit_direction: Vec3, normal: Vec3) -> Fixed {
        unit_direction.spec_dot(normal).neg_spec().spec_min(Fixed::one())
    }

    /// Sine of the angle of incidence, from its cosine.
    pub open spec fn spec_sin_theta(cos_theta: Fixed) -> Fixed {
        Fixed::one().sub_spec(cos_theta.mul_spec(cos_theta)).spec_max(Fixed::zero()).spec_sqrt()
    }

    /// Whether Snell's law has no solution, so that all light is reflected.
    pub open spec fn spec_cannot_refract(&self, r_in: Ray, rec: HitRecord) -> bool {
        let cos_theta = Self::spec_cos_theta(r_in.direction.spec_unit_vector(), rec.normal);
        self.spec_refraction_ratio(rec.front_face).mul_spec(Self::spec_sin_theta(cos_theta)).raw
            > SCALE
    }

    /// Whether the ray is reflected when the random draw is `draw`: if it
    /// cannot be refracted, or if the reflectance exceeds the draw.
    pub open spec fn spec_reflects(&self, r_in: Ray, rec: HitRecord, draw: Fixed) -> bool {
        let cos_theta = Self::spec_cos_theta(r_in.direction.spec_unit_vector(), rec.normal);
        self.spec_cannot_refract(r_in, rec) || spec_reflectance(
            cos_theta,
            self.spec_refraction_ratio(rec.front_face),
        ).raw > draw.raw
    }

    /// What `scatter` hands back when the random draw is `draw`: the ray
    /// always goes on, unattenuated, either reflected or refracted.
    pub open spec fn spec_scatter(&self, r_in: Ray, rec: HitRecord, draw: Fixed) -> (
        bool,
        Color,
        Ray,
    ) {
        let unit_direction = r_in.direction.spec_unit_vector();
        let direction = if self.spec_reflects(r_in, rec, draw) {
            unit_direction.spec_reflect(rec.normal)
        } else {
            unit_direction.spec_refract(rec.normal, self.spec_refraction_ratio(rec.front_face))
        };
        (
            true,
            Vec3 { x: Fixed::one(), y: Fixed::one(), z: Fixed::one() },
            Ray { origin: rec.p, direction },
        )
    }

    /// Either refraction ratio of a well-formed dielectric is positive.
    pub proof fn lemma_ratio_positive(&self, front_face: bool)
        requires
            self.wf(),
        ensures
            self.spec_refraction_ratio(front_face).raw > 0,
    {
        let index = self.index_of_refraction.raw as int;
        assert(SCALE * SCALE >= index) by (nonlinear_arith)
            requires
                index <= 0x7fff_ffff_ffff_ffff,
                SCALE == 0x1_0000_0000,
        ;
        lemma_trunc_div_sign(SCALE * SCALE, index);
    }

    /// The sine of an angle is at most one.
    pub proof fn lemma_sin_at_most_one(cos_theta: Fixed)
        ensures
            0 <= Self::spec_sin_theta(cos_theta).raw <= SCALE,
    {
        let c = cos_theta.raw as int;
        assert(c * c >= 0) by (nonlinear_arith);
        lemma_trunc_div_sign(c * c, SCALE as int);
        let under = Fixed::one().sub_spec(cos_theta.mul_spec(cos_theta)).spec_max(Fixed::zero());
        assert(0 <= under.raw <= SCALE);
        under.lemma_sqrt_bounds();
        crate::fixed::lemma_isqrt_monotonic(under.raw * SCALE, SCALE * SCALE);
        assert(SCALE * SCALE == 0x1_0000_0000_0000_0000int) by (nonlinear_arith)
            requires
                SCALE == 0x1_0000_0000,
        ;
        assert(under.raw * SCALE <= SCALE * SCALE) by (nonlinear_arith)
            requires
                under.raw <= SCALE,
        ;
        crate::fixed::lemma_isqrt_unique(SCALE * SCALE, SCALE as int);
    }

    /// At a refractive index of one there is no total reflection: whatever
    /// the angle, the ray can be refracted, and it is refracted at the ratio
    /// one whenever the draw is not below the reflectance.
    pub proof fn lemma_matched_index_refracts(&self, r_in: Ray, rec: HitRecord, draw: Fixed)
        requires
            self.index_of_refraction == Fixed::one(),
        ensures
            self.spec_refraction_ratio(rec.front_face) == Fixed::one(),
            !self.spec_cannot_refract(r_in, rec),
            !self.spec_reflects(r_in, rec, draw) ==> self.spec_scatter(r_in, rec, draw).2.direction
                == r_in.direction.spec_unit_vector().spec_refract(rec.normal, Fixed::one()),
    {
        assert(SCALE * SCALE == 0x1_0000_0000_0000_0000int) by (nonlinear_arith)
            requires
                SCALE == 0x1_0000_0000,
        ;
        assert(0x1_0000_0000_0000_0000int / 0x1_0000_0000int == 0x1_0000_0000int) by (nonlinear_arith);
        let cos_theta = Self::spec_cos_theta(r_in.direction.spec_unit_vector(), rec.normal);
        Self::lemma_sin_at_most_one(cos_theta);
        let sin = Self::spec_sin_theta(cos_theta).raw as int;
        assert(SCALE * sin / (SCALE as int) == sin) by (nonlinear_arith)
            requires
                SCALE == 0x1_0000_0000,
                sin >= 0,
        ;
    }

    /// Tests whether the refractive index is positive.
    pub fn is_wf(&self) -> (b: bool)
        ensures
            b == self.wf(),
    {
        self.index_of_refraction.raw > 0
    }

    /// The clear material of the given refractive index.
    pub fn new(index_of_refraction: Fixed) -> (m: Self)
        ensures
            m == (Dielectric { index_of_refraction }),
    {
        Dielectric { index_of_refraction }
    }

    /// Scatters the ray `r_in` off the surface at `rec`, given the random
    /// draw of the unit interval.
    pub fn scatter_with(
        &self,
        r_in: &Ray,
        rec: &HitRecord,
        draw: Fixed,
        attenuation: &mut Color,
        scattered: &mut Ray,
    ) -> (b: bool)
        requires
            self.wf(),
            !r_in.direction.is_zero(),
        ensures
            (b, *final(attenuation), *final(scattered)) == self.spec_scatter(*r_in, *rec, draw),
    {
        *attenuation = Color::new(Fixed::one(), Fixed::one(), Fixed::one());
        let refraction_ratio = if rec.front_face {
            Fixed::one() / self.index_of_refraction
        } else {
            self.index_of_refraction
        };
        proof {
            self.lemma_ratio_positive(rec.front_face);
            r_in.direction.lemma_unit_vector_not_zero();
        }
        let unit_direction = r_in.direction.unit_vector();
        let cos_theta = unit_direction.dot(rec.normal).neg().min(Fixed::one());
        let sin_theta = (Fixed::one() - cos_theta * cos_theta).max(Fixed::zero()).sqrt();

        let cannot_refract = (refraction_ratio * sin_theta).raw > SCALE;
        let direction = if cannot_refract || reflectance(cos_theta, refraction_ratio).raw > draw.raw {
            unit_direction.reflect(rec.normal)
        } else {
            unit_direction.refract(rec.normal, refraction_ratio)
        };
        *scattered = Ray::new(rec.p, direction);
        true
    }

    /// Reflects or refracts the ray `r_in` at the surface at `rec`. The ray
    /// always goes on, unattenuated.
    pub fn scatter(
        &self,
        r_in: &Ray,
        rec: &HitRecord,
        attenuation: &mut Color,
        scattered: &mut Ray,
    ) -> (b: bool)
        requires
            self.wf(),
            !r_in.direction.is_zero(),
        ensures
            exists|draw: Fixed|
                is_unit_draw(draw) && (b, *final(attenuation), *final(scattered))
                    == #[trigger] self.spec_scatter(*r_in, *rec, draw),
            b,
            *final(attenuation) == (Vec3 { x: Fixed::one(), y: Fixed::one(), z: Fixed::one() }),
            final(scattered).origin == rec.p,
    {
        let draw = rand_double();
        self.scatter_with(r_in, rec, draw, attenuation, scattered)
    }
}

impl Material {
    /// Whether the material's parameters are those of a material.
    pub open spec fn wf(&self) -> bool {
        match self {
            Material::Dielectric(glass) => glass.wf(),
            _ => true,
        }
    }

    /// Whether `outcome` is something that `scatter` may hand back for the
    /// ray `r_in` at the surface at `rec`: what the material computes from
    /// some value of the random quantity it draws.
    pub open spec fn may_scatter(&self, r_in: Ray, rec: HitRecord, outcome: (bool, Color, Ray)) -> bool {
        match self {
            Material::Lambertian(matte) => exists|unit: Vec3|
                is_unit_of_ball_point(unit) && outcome == #[trigger] matte.spec_scatter(rec, unit),
            Material::Metal(metal) => exists|offset: Vec3|
                in_unit_ball(offset) && outcome == #[trigger] metal.spec_scatter(r_in, rec, offset),
            Material::Dielectric(glass) => exists|draw: Fixed|
                is_unit_draw(draw) && outcome == #[trigger] glass.spec_scatter(r_in, rec, draw),
        }
    }

    /// Tests whether the material's parameters are those of a material.
    pub fn is_wf(&self) -> (b: bool)
        ensures
            b == self.wf(),
    {
        match self {
            Material::Dielectric(glass) => glass.is_wf(),
            _ => true,
        }
    }

    /// Asks the material whether and how the ray `r_in` goes on from the
    /// surface at `rec`. Returns whether it does, and stores its attenuation
    /// and the scattered ray.
    pub fn scatter(
        &self,
        r_in: &Ray,
        rec: &HitRecord,
        attenuation: &mut Color,
        scattered: &mut Ray,
    ) -> (b: bool)
        requires
            self.wf(),
            !r_in.direction.is_zero(),
        ensures
            self.may_scatter(*r_in, *rec, (b, *final(attenuation), *final(scattered))),
            final(scattered).origin == rec.p,
    {
        match self {
            Material::Lambertian(matte) => matte.scatter(r_in, rec, attenuation, scattered),
            Material::Metal(metal) => metal.scatter(r_in, rec, attenuation, scattered),
            Material::Dielectric(glass) => glass.scatter(r_in, rec, attenuation, scattered),
        }
    }
}

} // verus!
