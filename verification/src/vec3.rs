//! Three-component vectors, used alike for positions, directions and colors.

use vstd::prelude::*;
use core::ops::Neg;
use vstd::std_specs::ops::{AddSpec, DivSpec, MulSpec, NegSpec, SubSpec};
use crate::fixed::{
    isqrt, isqrt_u128, lemma_isqrt_bounds, lemma_isqrt_monotonic, lemma_isqrt_unique,
    lemma_trunc_div_sign, sat, Fixed, SCALE,
};
use crate::utilities::{is_draw_between, is_unit_draw, rand_double, random_double};

verus! {

/// Smallest raw magnitude that is not below one hundred-millionth.
pub const NEAR_ZERO_RAW: i64 = 43;

/// A vector of three scalars.
#[derive(Clone, Copy, Debug, PartialEq, Eq)]
pub struct Vec3 {
    pub x: Fixed,
    pub y: Fixed,
    pub z: Fixed,
}

/// A position in space.
pub type Point3 = Vec3;

impl vstd::std_specs::ops::AddSpecImpl for Vec3 {
    open spec fn obeys_add_spec() -> bool {
        true
    }

    open spec fn add_req(self, rhs: Vec3) -> bool {
        true
    }

    open spec fn add_spec(self, rhs: Vec3) -> Vec3 {
        Vec3 { x: AddSpec::add_spec(self.x, rhs.x), y: AddSpec::add_spec(self.y, rhs.y), z: AddSpec::add_spec(self.z, rhs.z) }
    }
}

impl core::ops::Add for Vec3 {
    type Output = Vec3;

    /// Componentwise sum: `add_spec`.
    fn add(self, rhs: Vec3) -> Vec3 {
        Vec3 { x: self.x + rhs.x, y: self.y + rhs.y, z: self.z + rhs.z }
    }
}

impl vstd::std_specs::ops::SubSpecImpl for Vec3 {
    open spec fn obeys_sub_spec() -> bool {
        true
    }

    open spec fn sub_req(self, rhs: Vec3) -> bool {
        true
    }

    open spec fn sub_spec(self, rhs: Vec3) -> Vec3 {
        Vec3 { x: SubSpec::sub_spec(self.x, rhs.x), y: SubSpec::sub_spec(self.y, rhs.y), z: SubSpec::sub_spec(self.z, rhs.z) }
    }
}

impl core::ops::Sub for Vec3 {
    type Output = Vec3;

    /// Componentwise difference: `sub_spec`.
    fn sub(self, rhs: Vec3) -> Vec3 {
        Vec3 { x: self.x - rhs.x, y: self.y - rhs.y, z: self.z - rhs.z }
    }
}

impl vstd::std_specs::ops::NegSpecImpl for Vec3 {
    open spec fn obeys_neg_spec() -> bool {
        true
    }

    open spec fn neg_req(self) -> bool {
        true
    }

    open spec fn neg_spec(self) -> Vec3 {
        Vec3 { x: NegSpec::neg_spec(self.x), y: NegSpec::neg_spec(self.y), z: NegSpec::neg_spec(self.z) }
    }
}

impl core::ops::Neg for Vec3 {
    type Output = Vec3;

    /// The opposite vector: `neg_spec`.
    fn neg(self) -> Vec3 {
        Vec3 { x: self.x.neg(), y: self.y.neg(), z: self.z.neg() }
    }
}

impl vstd::std_specs::ops::MulSpecImpl for Vec3 {
    open spec fn obeys_mul_spec() -> bool {
        true
    }

    open spec fn mul_req(self, rhs: Vec3) -> bool {
        true
    }

    open spec fn mul_spec(self, rhs: Vec3) -> Vec3 {
        Vec3 { x: MulSpec::mul_spec(self.x, rhs.x), y: MulSpec::mul_spec(self.y, rhs.y), z: MulSpec::mul_spec(self.z, rhs.z) }
    }
}

impl core::ops::Mul for Vec3 {
    type Output = Vec3;

    /// Componentwise product, `mul_spec`, as used to attenuate a color by
    /// another.
    fn mul(self, rhs: Vec3) -> Vec3 {
        Vec3 { x: self.x * rhs.x, y: self.y * rhs.y, z: self.z * rhs.z }
    }
}

impl vstd::std_specs::ops::MulSpecImpl<Fixed> for Vec3 {
    open spec fn obeys_mul_spec() -> bool {
        true
    }

    open spec fn mul_req(self, rhs: Fixed) -> bool {
        true
    }

    open spec fn mul_spec(self, rhs: Fixed) -> Vec3 {
        Vec3 { x: MulSpec::mul_spec(self.x, rhs), y: MulSpec::mul_spec(self.y, rhs), z: MulSpec::mul_spec(self.z, rhs) }
    }
}

impl core::ops::Mul<Fixed> for Vec3 {
    type Output = Vec3;

    /// The vector scaled by a scalar on its right: `mul_spec`.
    fn mul(self, rhs: Fixed) -> Vec3 {
        Vec3 { x: self.x * rhs, y: self.y * rhs, z: self.z * rhs }
    }
}

impl vstd::std_specs::ops::MulSpecImpl<Vec3> for Fixed {
    open spec fn obeys_mul_spec() -> bool {
        true
    }

    open spec fn mul_req(self, rhs: Vec3) -> bool {
        true
    }

    open spec fn mul_spec(self, rhs: Vec3) -> Vec3 {
        Vec3 { x: MulSpec::mul_spec(self, rhs.x), y: MulSpec::mul_spec(self, rhs.y), z: MulSpec::mul_spec(self, rhs.z) }
    }
}

impl core::ops::Mul<Vec3> for Fixed {
    type Output = Vec3;

    /// The vector scaled by a scalar on its left: `mul_spec`.
    fn mul(self, rhs: Vec3) -> Vec3 {
        Vec3 { x: self * rhs.x, y: self * rhs.y, z: self * rhs.z }
    }
}

impl vstd::std_specs::ops::DivSpecImpl<Fixed> for Vec3 {
    open spec fn obeys_div_spec() -> bool {
        true
    }

    open spec fn div_req(self, rhs: Fixed) -> bool {
        rhs.raw != 0
    }

    open spec fn div_spec(self, rhs: Fixed) -> Vec3 {
        Vec3 { x: DivSpec::div_spec(self.x, rhs), y: DivSpec::div_spec(self.y, rhs), z: DivSpec::div_spec(self.z, rhs) }
    }
}

impl core::ops::Div<Fixed> for Vec3 {
    type Output = Vec3;

    /// The vector divided by a scalar that is not zero: `div_spec`.
    fn div(self, rhs: Fixed) -> Vec3 {
        Vec3 { x: self.x / rhs, y: self.y / rhs, z: self.z / rhs }
    }
}

impl vstd::std_specs::ops::AddSpecImpl<Fixed> for Vec3 {
    open spec fn obeys_add_spec() -> bool {
        true
    }

    open spec fn add_req(self, rhs: Fixed) -> bool {
        true
    }

    open spec fn add_spec(self, rhs: Fixed) -> Vec3 {
        Vec3 { x: AddSpec::add_spec(self.x, rhs), y: AddSpec::add_spec(self.y, rhs), z: AddSpec::add_spec(self.z, rhs) }
    }
}

impl core::ops::Add<Fixed> for Vec3 {
    type Output = Vec3;

    /// The vector with a scalar added to each component: `add_spec`.
    fn add(self, rhs: Fixed) -> Vec3 {
        Vec3 { x: self.x + rhs, y: self.y + rhs, z: self.z + rhs }
    }
}

impl vstd::std_specs::ops::AddSpecImpl<Vec3> for Fixed {
    open spec fn obeys_add_spec() -> bool {
        true
    }

    open spec fn add_req(self, rhs: Vec3) -> bool {
        true
    }

    open spec fn add_spec(self, rhs: Vec3) -> Vec3 {
        Vec3 { x: AddSpec::add_spec(self, rhs.x), y: AddSpec::add_spec(self, rhs.y), z: AddSpec::add_spec(self, rhs.z) }
    }
}

impl core::ops::Add<Vec3> for Fixed {
    type Output = Vec3;

    /// The scalar added to each component of a vector: `add_spec`.
    fn add(self, rhs: Vec3) -> Vec3 {
        Vec3 { x: self + rhs.x, y: self + rhs.y, z: self + rhs.z }
    }
}

impl core::ops::AddAssign for Vec3 {
    /// Adds `rhs` to the vector, component by component.
    fn add_assign(&mut self, rhs: Vec3)
        ensures
            *final(self) == (*old(self)).add_spec(rhs),
    {
        self.x = self.x + rhs.x;
        self.y = self.y + rhs.y;
        self.z = self.z + rhs.z;
    }
}

impl core::ops::AddAssign<Fixed> for Vec3 {
    /// Adds the scalar `rhs` to each component.
    fn add_assign(&mut self, rhs: Fixed)
        ensures
            *final(self) == (*old(self)).add_spec(rhs),
    {
        self.x = self.x + rhs;
        self.y = self.y + rhs;
        self.z = self.z + rhs;
    }
}

impl core::ops::SubAssign<Fixed> for Vec3 {
    /// Subtracts the scalar `rhs` from each component.
    fn sub_assign(&mut self, rhs: Fixed)
        ensures
            *final(self) == (Vec3 {
                x: old(self).x.sub_spec(rhs),
                y: old(self).y.sub_spec(rhs),
                z: old(self).z.sub_spec(rhs),
            }),
    {
        self.x = self.x - rhs;
        self.y = self.y - rhs;
        self.z = self.z - rhs;
    }
}

impl core::ops::MulAssign<Fixed> for Vec3 {
    /// Scales the vector by `rhs`.
    fn mul_assign(&mut self, rhs: Fixed)
        ensures
            *final(self) == (*old(self)).mul_spec(rhs),
    {
        self.x = self.x * rhs;
        self.y = self.y * rhs;
        self.z = self.z * rhs;
    }
}

impl core::ops::DivAssign<Fixed> for Vec3 {
    /// Divides the vector by `rhs`, which is not zero.
    fn div_assign(&mut self, rhs: Fixed)
        requires
            rhs.raw != 0,
        ensures
            *final(self) == (*old(self)).div_spec(rhs),
    {
        self.x = self.x / rhs;
        self.y = self.y / rhs;
        self.z = self.z / rhs;
    }
}

impl Vec3 {
    /// The vector whose components are all zero.
    pub open spec fn spec_zero() -> Vec3 {
        Vec3 { x: Fixed::zero(), y: Fixed::zero(), z: Fixed::zero() }
    }

    /// Whether every component is exactly zero.
    pub open spec fn spec_is_zero(&self) -> bool {
        self.x.raw == 0 && self.y.raw == 0 && self.z.raw == 0
    }

    /// Scalar product: the sum of the products of the components.
    pub open spec fn spec_dot(&self, other: Vec3) -> Fixed {
        self.x.mul_spec(other.x).add_spec(self.y.mul_spec(other.y)).add_spec(
            self.z.mul_spec(other.z),
        )
    }

    /// Squared Euclidean length.
    pub open spec fn spec_length_squared(&self) -> Fixed {
        self.spec_dot(*self)
    }

    /// Sum of the squares of the raw components, without any rounding.
    pub open spec fn raw_norm_squared(self) -> int {
        self.x.raw * self.x.raw + self.y.raw * self.y.raw + self.z.raw * self.z.raw
    }

    /// Euclidean length, rounded down.
    pub open spec fn spec_length(&self) -> Fixed {
        Fixed { raw: sat(isqrt(self.raw_norm_squared())) }
    }

    /// Vector product.
    pub open spec fn spec_cross(&self, other: Vec3) -> Vec3 {
        Vec3 {
            x: self.y.mul_spec(other.z).sub_spec(self.z.mul_spec(other.y)),
            y: self.z.mul_spec(other.x).sub_spec(self.x.mul_spec(other.z)),
            z: self.x.mul_spec(other.y).sub_spec(self.y.mul_spec(other.x)),
        }
    }

    /// The vector divided by its length.
    pub open spec fn spec_unit_vector(&self) -> Vec3 {
        (*self).div_spec(self.spec_length())
    }

    /// Whether every component is smaller in magnitude than one
    /// hundred-millionth.
    pub open spec fn spec_near_zero(&self) -> bool {
        &&& self.x.spec_abs().raw < NEAR_ZERO_RAW
        &&& self.y.spec_abs().raw < NEAR_ZERO_RAW
        &&& self.z.spec_abs().raw < NEAR_ZERO_RAW
    }

    /// Mirror image of the vector in the plane with normal `n`:
    /// `v - 2 (v . n) n`.
    pub open spec fn spec_reflect(&self, n: Vec3) -> Vec3 {
        (*self).sub_spec(Fixed::from_int(2).mul_spec(self.spec_dot(n)).mul_spec(n))
    }

    /// Cosine of the angle between the reversed unit vector `uv` and the
    /// normal `n`, capped at one.
    pub open spec fn spec_cos_theta(uv: Vec3, n: Vec3) -> Fixed {
        uv.neg_spec().spec_dot(n).spec_min(Fixed::one())
    }

    /// Part of the refracted direction that is perpendicular to the normal.
    pub open spec fn spec_refract_perp(self, n: Vec3, etai_over_etat: Fixed) -> Vec3 {
        let uv = self.spec_unit_vector();
        etai_over_etat.mul_spec(uv.add_spec(Self::spec_cos_theta(uv, n).mul_spec(n)))
    }

    /// Direction of the vector after it crosses, against the normal `n`, a
    /// surface whose ratio of refractive indices is `etai_over_etat`.
    pub open spec fn spec_refract(&self, n: Vec3, etai_over_etat: Fixed) -> Vec3 {
        let perp = self.spec_refract_perp(n, etai_over_etat);
        let parallel = Fixed::one().sub_spec(
            perp.spec_length_squared(),
        ).spec_abs().spec_sqrt().neg_spec().mul_spec(n);
        parallel.add_spec(perp)
    }

    /// A squared length is not negative.
    pub proof fn lemma_length_squared_nonnegative(self)
        ensures
            self.spec_length_squared().raw >= 0,
    {
        let x = self.x.raw as int;
        let y = self.y.raw as int;
        let z = self.z.raw as int;
        assert(x * x >= 0 && y * y >= 0 && z * z >= 0) by (nonlinear_arith);
        lemma_trunc_div_sign(x * x, SCALE as int);
        lemma_trunc_div_sign(y * y, SCALE as int);
        lemma_trunc_div_sign(z * z, SCALE as int);
    }

    /// A vector that is not zero has a length that is not zero.
    pub proof fn lemma_length_positive(self)
        requires
            !self.is_zero(),
        ensures
            self.spec_length().raw >= 1,
    {
        let x = self.x.raw as int;
        let y = self.y.raw as int;
        let z = self.z.raw as int;
        assert(x * x + y * y + z * z >= 1) by (nonlinear_arith)
            requires
                x != 0 || y != 0 || z != 0,
        ;
        lemma_isqrt_unique(1, 1);
        lemma_isqrt_monotonic(1, self.raw_norm_squared());
    }

    /// The unit vector of a vector that is not zero is not zero.
    pub proof fn lemma_unit_vector_not_zero(self)
        requires
            !self.is_zero(),
        ensures
            !self.spec_unit_vector().is_zero(),
    {
        self.lemma_length_positive();
        let x = self.x.raw as int;
        let y = self.y.raw as int;
        let z = self.z.raw as int;
        let len = self.spec_length().raw as int;
        let root = isqrt(self.raw_norm_squared());
        assert(x * x >= 0 && y * y >= 0 && z * z >= 0) by (nonlinear_arith);
        assert(x * x + y * y + z * z >= 1) by (nonlinear_arith)
            requires
                x != 0 || y != 0 || z != 0,
        ;
        lemma_isqrt_bounds(self.raw_norm_squared());
        // The component largest in magnitude, `m`, carries at least a third
        // of the squared length, so the length is at most twice `|m|`.
        let m = if x * x >= y * y && x * x >= z * z {
            x
        } else if y * y >= z * z {
            y
        } else {
            z
        };
        assert(m != 0) by (nonlinear_arith)
            requires
                x * x + y * y + z * z >= 1,
                x * x + y * y + z * z <= 3 * (m * m),
        ;
        assert(m * SCALE >= len || m * SCALE <= -len) by (nonlinear_arith)
            requires
                m != 0,
                SCALE == 0x1_0000_0000,
                1 <= len <= root,
                root * root <= 3 * (m * m),
        ;
        lemma_trunc_div_sign(m * SCALE, len);
    }

    /// The vector with the components `x`, `y` and `z`.
    pub fn new(x: Fixed, y: Fixed, z: Fixed) -> (v: Self)
        ensures
            v == (Vec3 { x, y, z }),
    {
        Vec3 { x, y, z }
    }

    /// The vector whose components are all zero.
    #[verifier::when_used_as_spec(spec_zero)]
    pub fn zero() -> (v: Self)
        ensures
            v == Self::spec_zero(),
    {
        Self::new(Fixed::zero(), Fixed::zero(), Fixed::zero())
    }

    /// Squared Euclidean length.
    #[verifier::when_used_as_spec(spec_length_squared)]
    pub fn length_squared(&self) -> (r: Fixed)
        ensures
            r == self.spec_length_squared(),
    {
        self.x * self.x + self.y * self.y + self.z * self.z
    }

    /// Euclidean length, rounded down.
    #[verifier::when_used_as_spec(spec_length)]
    pub fn length(&self) -> (r: Fixed)
        ensures
            r == self.spec_length(),
            r.raw >= 0,
            !self.is_zero() ==> r.raw >= 1,
    {
        let x = self.x.raw as i128;
        let y = self.y.raw as i128;
        let z = self.z.raw as i128;
        assert(0 <= x * x <= 0x4000_0000_0000_0000_0000_0000_0000_0000) by (nonlinear_arith)
            requires
                -0x8000_0000_0000_0000 <= x <= 0x7fff_ffff_ffff_ffff,
        ;
        assert(0 <= y * y <= 0x4000_0000_0000_0000_0000_0000_0000_0000) by (nonlinear_arith)
            requires
                -0x8000_0000_0000_0000 <= y <= 0x7fff_ffff_ffff_ffff,
        ;
        assert(0 <= z * z <= 0x4000_0000_0000_0000_0000_0000_0000_0000) by (nonlinear_arith)
            requires
                -0x8000_0000_0000_0000 <= z <= 0x7fff_ffff_ffff_ffff,
        ;
        let sum: u128 = (x * x) as u128 + (y * y) as u128 + (z * z) as u128;
        let root = isqrt_u128(sum);
        proof {
            lemma_isqrt_bounds(sum as int);
            if !self.is_zero() {
                self.lemma_length_positive();
            }
        }
        if root > i64::MAX as u64 {
            Fixed { raw: i64::MAX }
        } else {
            Fixed { raw: root as i64 }
        }
    }

    /// The three components, in order.
    pub fn to_vec(&self) -> (a: [Fixed; 3])
        ensures
            a@ == seq![self.x, self.y, self.z],
    {
        [self.x, self.y, self.z]
    }

    /// Scalar product: the sum of the products of the components.
    #[verifier::when_used_as_spec(spec_dot)]
    pub fn dot(&self, other: Self) -> (r: Fixed)
        ensures
            r == self.spec_dot(other),
    {
        self.x * other.x + self.y * other.y + self.z * other.z
    }

    /// Vector product.
    #[verifier::when_used_as_spec(spec_cross)]
    pub fn cross(&self, other: Self) -> (v: Self)
        ensures
            v == self.spec_cross(other),
    {
        Self::new(
            self.y * other.z - self.z * other.y,
            self.z * other.x - self.x * other.z,
            self.x * other.y - self.y * other.x,
        )
    }

    /// The vector divided by its length.
    #[verifier::when_used_as_spec(spec_unit_vector)]
    pub fn unit_vector(&self) -> (v: Self)
        requires
            !self.is_zero(),
        ensures
            v == self.spec_unit_vector(),
    {
        *self / self.length()
    }

    /// A random vector whose components lie in the half-open unit interval.
    pub fn rand() -> (v: Self)
        ensures
            is_unit_draw(v.x),
            is_unit_draw(v.y),
            is_unit_draw(v.z),
    {
        Vec3::new(rand_double(), rand_double(), rand_double())
    }

    /// A random vector whose components lie on the segment from `min` to
    /// `max`.
    pub fn random(min: Fixed, max: Fixed) -> (v: Self)
        ensures
            is_draw_between(min, max, v.x),
            is_draw_between(min, max, v.y),
            is_draw_between(min, max, v.z),
    {
        Vec3::new(random_double(min, max), random_double(min, max), random_double(min, max))
    }

    /// Whether every component is exactly zero.
    #[verifier::when_used_as_spec(spec_is_zero)]
    pub fn is_zero(&self) -> (b: bool)
        ensures
            b == self.spec_is_zero(),
    {
        self.x.raw == 0 && self.y.raw == 0 && self.z.raw == 0
    }

    /// Whether every component is smaller in magnitude than one
    /// hundred-millionth.
    #[verifier::when_used_as_spec(spec_near_zero)]
    pub fn near_zero(&self) -> (b: bool)
        ensures
            b == self.spec_near_zero(),
    {
        self.x.abs().raw < NEAR_ZERO_RAW && self.y.abs().raw < NEAR_ZERO_RAW && self.z.abs().raw
            < NEAR_ZERO_RAW
    }

    /// Mirror image of the vector in the plane with normal `n`:
    /// `v - 2 (v . n) n`.
    #[verifier::when_used_as_spec(spec_reflect)]
    pub fn reflect(&self, n: Vec3) -> (v: Vec3)
        ensures
            v == self.spec_reflect(n),
    {
        *self - Fixed::from_int(2) * self.dot(n) * n
    }

    /// Direction of the vector after it crosses, against the normal `n`, a
    /// surface whose ratio of refractive indices is `etai_over_etat`.
    #[verifier::when_used_as_spec(spec_refract)]
    pub fn refract(&self, n: Vec3, etai_over_etat: Fixed) -> (v: Vec3)
        requires
            !self.is_zero(),
        ensures
            v == self.spec_refract(n, etai_over_etat),
    {
        let uv = self.unit_vector();
        let cos_theta = uv.neg().dot(n).min(Fixed::one());
        let r_out_perp = etai_over_etat * (uv + cos_theta * n);
        let r_out_parallel = (Fixed::one() - r_out_perp.length_squared()).abs().sqrt().neg() * n;
        r_out_parallel + r_out_perp
    }
}

/// How often a rejection sampler draws before it gives up and returns its
/// fallback.
pub const SAMPLING_ATTEMPTS: u32 = 128;

/// Whether `p` lies strictly inside the unit ball.
pub open spec fn in_unit_ball(p: Vec3) -> bool {
    p.spec_length_squared().raw < SCALE
}

/// Whether `p` lies strictly inside the unit disk of the plane `z = 0`.
pub open spec fn in_unit_disk(p: Vec3) -> bool {
    p.z.raw == 0 && in_unit_ball(p)
}

/// Whether `u` is the unit vector of a point of the unit ball other than its
/// center.
pub open spec fn is_unit_of_ball_point(u: Vec3) -> bool {
    exists|p: Vec3| in_unit_ball(p) && !p.is_zero() && u == #[trigger] p.spec_unit_vector()
}

/// `p` itself if it makes an acute angle with `normal`, else its opposite.
pub open spec fn spec_toward(p: Vec3, normal: Vec3) -> Vec3 {
    if p.spec_dot(normal).raw > 0 {
        p
    } else {
        p.neg_spec()
    }
}

/// Whether each component of `p` was drawn between minus one and one.
pub open spec fn is_cube_point(p: Vec3) -> bool {
    &&& is_draw_between(Fixed::from_int(-1i32), Fixed::from_int(1), p.x)
    &&& is_draw_between(Fixed::from_int(-1i32), Fixed::from_int(1), p.y)
    &&& is_draw_between(Fixed::from_int(-1i32), Fixed::from_int(1), p.z)
}

/// Whether `p` is a point of the plane `z = 0` whose other components were
/// drawn between minus one and one.
pub open spec fn is_square_point(p: Vec3) -> bool {
    &&& is_draw_between(Fixed::from_int(-1i32), Fixed::from_int(1), p.x)
    &&& is_draw_between(Fixed::from_int(-1i32), Fixed::from_int(1), p.y)
    &&& p.z.raw == 0
}

/// The first of `candidates` that lies strictly inside the unit ball, and
/// the center where none does.
pub open spec fn spec_first_in_unit_ball(candidates: Seq<Vec3>) -> Vec3
    decreases candidates.len(),
{
    if candidates.len() == 0 {
        Vec3::zero()
    } else if in_unit_ball(candidates.first()) {
        candidates.first()
    } else {
        spec_first_in_unit_ball(candidates.drop_first())
    }
}

/// Whether `p` is what a rejection sampler returns that drew the points
/// `drawn`, one after the other: it stops at the first point strictly inside
/// the unit ball and returns it, and after `SAMPLING_ATTEMPTS` points
/// outside it gives up and returns the center.
pub open spec fn is_rejection_outcome(drawn: Seq<Vec3>, p: Vec3) -> bool {
    &&& 1 <= drawn.len() <= SAMPLING_ATTEMPTS
    &&& forall|i: int| 0 <= i < drawn.len() - 1 ==> !in_unit_ball(#[trigger] drawn[i])
    &&& in_unit_ball(drawn.last()) || drawn.len() == SAMPLING_ATTEMPTS
    &&& p == spec_first_in_unit_ball(drawn)
}

/// After points that all lie outside the unit ball, the first point inside
/// it is the next one if that lies inside, and else there is none.
pub proof fn lemma_first_after_rejections(rejected: Seq<Vec3>, p: Vec3)
    requires
        forall|i: int| 0 <= i < rejected.len() ==> !in_unit_ball(#[trigger] rejected[i]),
    ensures
        spec_first_in_unit_ball(rejected.push(p)) == if in_unit_ball(p) {
            p
        } else {
            Vec3::zero()
        },
    decreases rejected.len(),
{
    let all = rejected.push(p);
    if rejected.len() == 0 {
        assert(all.first() == p);
        assert(all.drop_first().len() == 0);
        assert(spec_first_in_unit_ball(all.drop_first()) == Vec3::zero());
    } else {
        let rest = rejected.drop_first();
        assert(all.first() == rejected[0]);
        assert(!in_unit_ball(rejected[0]));
        assert(all.drop_first() == rest.push(p));
        assert forall|i: int| 0 <= i < rest.len() implies !in_unit_ball(#[trigger] rest[i]) by {
            assert(rest[i] == rejected[i + 1]);
        }
        lemma_first_after_rejections(rest, p);
    }
}

/// The center lies strictly inside the unit ball.
proof fn lemma_center_in_unit_ball()
    ensures
        in_unit_ball(Vec3::zero()),
{
    assert(0int * 0int == 0int);
    assert(0int / 4294967296int == 0int) by (nonlinear_arith);
}

/// The first of `candidates` that lies strictly inside the unit ball, and
/// the center where none does.
pub fn first_in_unit_ball(candidates: &Vec<Vec3>) -> (p: Vec3)
    ensures
        p == spec_first_in_unit_ball(candidates@),
        in_unit_ball(p),
{
    let mut i: usize = 0;
    assert(candidates@.skip(0) == candidates@);
    while i < candidates.len()
        invariant
            i <= candidates.len(),
            spec_first_in_unit_ball(candidates@) == spec_first_in_unit_ball(
                candidates@.skip(i as int),
            ),
        decreases candidates.len() - i,
    {
        let p = candidates[i];
        assert(candidates@.skip(i as int).first() == p);
        if p.length_squared().raw < SCALE {
            return p;
        }
        assert(candidates@.skip(i as int).drop_first() == candidates@.skip(i + 1));
        i += 1;
    }
    proof {
        assert(candidates@.skip(i as int).len() == 0);
        lemma_center_in_unit_ball();
    }
    Vec3::zero()
}

/// A random point strictly inside the unit ball, by rejection: points of the
/// enclosing cube are drawn until one falls inside, which is returned. After
/// `SAMPLING_ATTEMPTS` rejections the center is returned.
pub fn random_in_unit_sphere() -> (p: Vec3)
    ensures
        in_unit_ball(p),
        exists|drawn: Seq<Vec3>|
            {
                &&& forall|i: int| 0 <= i < drawn.len() ==> is_cube_point(#[trigger] drawn[i])
                &&& #[trigger] is_rejection_outcome(drawn, p)
            },
{
    let mut tries: u32 = 0;
    let mut rejected: Ghost<Seq<Vec3>> = Ghost(Seq::empty());
    while tries < SAMPLING_ATTEMPTS
        invariant
            tries <= SAMPLING_ATTEMPTS,
            rejected@.len() == tries,
            forall|i: int| 0 <= i < rejected@.len() ==> is_cube_point(#[trigger] rejected@[i]),
            forall|i: int| 0 <= i < rejected@.len() ==> !in_unit_ball(#[trigger] rejected@[i]),
        decreases SAMPLING_ATTEMPTS - tries,
    {
        let p = Vec3::random(Fixed::from_int(-1), Fixed::from_int(1));
        if p.length_squared().raw < SCALE {
            proof {
                lemma_first_after_rejections(rejected@, p);
                let drawn = rejected@.push(p);
                assert(drawn.last() == p);
                assert(is_rejection_outcome(drawn, p));
            }
            return p;
        }
        proof {
            rejected@ = rejected@.push(p);
        }
        tries += 1;
    }
    proof {
        let drawn = rejected@;
        assert(drawn == drawn.drop_last().push(drawn.last()));
        lemma_first_after_rejections(drawn.drop_last(), drawn.last());
        assert(is_rejection_outcome(drawn, Vec3::zero()));
        lemma_center_in_unit_ball();
    }
    Vec3::zero()
}

/// The unit vector of a random point of the unit ball. Where the point drawn
/// is the center, that of a point on the first axis.
pub fn random_unit_vector() -> (u: Vec3)
    ensures
        is_unit_of_ball_point(u),
{
    let drawn = random_in_unit_sphere();
    let p = if drawn.is_zero() {
        Vec3::new(Fixed { raw: 2147483648 }, Fixed::zero(), Fixed::zero())
    } else {
        drawn
    };
    assert(in_unit_ball(p)) by {
        if drawn.is_zero() {
            assert(2147483648int * 2147483648int == 4611686018427387904int) by (nonlinear_arith);
            assert(4611686018427387904int / 4294967296int == 1073741824int) by (nonlinear_arith);
            assert(0int * 0int == 0int);
            assert(0int / 4294967296int == 0int) by (nonlinear_arith);
        }
    }
    p.unit_vector()
}

/// `p` itself if it makes an acute angle with `normal`, else its opposite.
#[verifier::when_used_as_spec(spec_toward)]
pub fn toward(p: Vec3, normal: Vec3) -> (v: Vec3)
    ensures
        v == spec_toward(p, normal),
{
    if p.dot(normal).raw > 0 {
        p
    } else {
        p.neg()
    }
}

/// A random point of the unit ball on the side of the plane through its
/// center to which `normal` points.
pub fn random_in_hemisphere(normal: Vec3) -> (v: Vec3)
    ensures
        exists|p: Vec3| in_unit_ball(p) && v == spec_toward(p, normal),
{
    let in_unit_sphere = random_in_unit_sphere();
    toward(in_unit_sphere, normal)
}

/// A random point strictly inside the unit disk of the plane `z = 0`, by
/// rejection: points of the enclosing square are drawn until one falls
/// inside, which is returned. After `SAMPLING_ATTEMPTS` rejections the center
/// is returned.
pub fn random_in_unit_disk() -> (p: Vec3)
    ensures
        in_unit_disk(p),
        exists|drawn: Seq<Vec3>|
            {
                &&& forall|i: int| 0 <= i < drawn.len() ==> is_square_point(#[trigger] drawn[i])
                &&& #[trigger] is_rejection_outcome(drawn, p)
            },
{
    let mut tries: u32 = 0;
    let mut rejected: Ghost<Seq<Vec3>> = Ghost(Seq::empty());
    while tries < SAMPLING_ATTEMPTS
        invariant
            tries <= SAMPLING_ATTEMPTS,
            rejected@.len() == tries,
            forall|i: int| 0 <= i < rejected@.len() ==> is_square_point(#[trigger] rejected@[i]),
            forall|i: int| 0 <= i < rejected@.len() ==> !in_unit_ball(#[trigger] rejected@[i]),
        decreases SAMPLING_ATTEMPTS - tries,
    {
        let p = Vec3::new(
            random_double(Fixed::from_int(-1), Fixed::from_int(1)),
            random_double(Fixed::from_int(-1), Fixed::from_int(1)),
            Fixed::zero(),
        );
        if p.length_squared().raw < SCALE {
            proof {
                lemma_first_after_rejections(rejected@, p);
                let drawn = rejected@.push(p);
                assert(drawn.last() == p);
                assert(is_rejection_outcome(drawn, p));
            }
            return p;
        }
        proof {
            rejected@ = rejected@.push(p);
        }
        tries += 1;
    }
    proof {
        let drawn = rejected@;
        assert(drawn == drawn.drop_last().push(drawn.last()));
        lemma_first_after_rejections(drawn.drop_last(), drawn.last());
        assert(is_rejection_outcome(drawn, Vec3::zero()));
        lemma_center_in_unit_ball();
    }
    Vec3::zero()
}

} // verus!
