//! Saturating fixed-point scalars.
//!
//! A [`Fixed`] stands for the rational number `raw / SCALE`. Every operation
//! computes the exact result, rounds it toward zero to a multiple of
//! `1 / SCALE`, and clamps it into the representable range, so that no
//! operation overflows. The largest value doubles as positive infinity.

use vstd::prelude::*;
use vstd::arithmetic::power2::{lemma2_to64, lemma_pow2_unfold, pow2};
use vstd::std_specs::ops::{AddSpec, DivSpec, MulSpec, NegSpec, SubSpec};

verus! {

/// Raw value of the scalar one.
pub const SCALE: i64 = 4294967296;

/// Raw value of the largest scalar, which also stands for positive infinity.
pub const MAX_RAW: i64 = 9223372036854775807;

/// Clamps an integer into the range of raw values.
pub open spec fn sat(x: int) -> i64 {
    if x > i64::MAX {
        i64::MAX
    } else if x < i64::MIN {
        i64::MIN
    } else {
        x as i64
    }
}

/// Quotient of `a` by `b`, rounded toward zero.
pub open spec fn trunc_div(a: int, b: int) -> int {
    if a >= 0 {
        a / b
    } else {
        -((-a) / b)
    }
}

/// Whether `r` is the largest natural number with `r * r <= n`.
pub open spec fn is_isqrt(n: int, r: int) -> bool {
    0 <= r && r * r <= n < (r + 1) * (r + 1)
}

/// Integer square root: the largest `r` with `r * r <= n`.
pub open spec fn isqrt(n: int) -> int {
    choose|r: int| is_isqrt(n, r)
}

/// Any number squeezed between `r * r` and `(r + 1) * (r + 1)` has integer
/// square root `r`.
pub proof fn lemma_isqrt_unique(n: int, r: int)
    requires
        0 <= r,
        r * r <= n < (r + 1) * (r + 1),
    ensures
        isqrt(n) == r,
{
    let c = isqrt(n);
    assert(is_isqrt(n, r));
    assert(is_isqrt(n, c));
    assert(c == r) by (nonlinear_arith)
        requires
            0 <= r,
            0 <= c,
            r * r <= n < (r + 1) * (r + 1),
            c * c <= n < (c + 1) * (c + 1),
    ;
}

/// Every natural number has an integer square root.
pub proof fn lemma_isqrt_bounds(n: int)
    requires
        0 <= n,
    ensures
        0 <= isqrt(n),
        isqrt(n) * isqrt(n) <= n < (isqrt(n) + 1) * (isqrt(n) + 1),
    decreases n,
{
    if n == 0 {
        lemma_isqrt_unique(0, 0);
    } else {
        lemma_isqrt_bounds(n - 1);
        let r = isqrt(n - 1);
        if n < (r + 1) * (r + 1) {
            lemma_isqrt_unique(n, r);
        } else {
            assert((r + 1) * (r + 1) <= n < (r + 2) * (r + 2)) by (nonlinear_arith)
                requires
                    0 <= r,
                    r * r <= n - 1 < (r + 1) * (r + 1),
                    n >= (r + 1) * (r + 1),
            ;
            lemma_isqrt_unique(n, r + 1);
        }
    }
}

/// The integer square root grows with its argument.
pub proof fn lemma_isqrt_monotonic(a: int, b: int)
    requires
        0 <= a <= b,
    ensures
        isqrt(a) <= isqrt(b),
{
    lemma_isqrt_bounds(a);
    lemma_isqrt_bounds(b);
    let x = isqrt(a);
    let y = isqrt(b);
    assert(x <= y) by (nonlinear_arith)
        requires
            0 <= x,
            0 <= y,
            x * x <= a,
            a <= b,
            b < (y + 1) * (y + 1),
    ;
}

/// A quotient is no larger in magnitude than its dividend.
pub proof fn lemma_trunc_div_bound(a: int, b: int)
    by (nonlinear_arith)
    requires
        b != 0,
    ensures
        a >= 0 ==> -a <= trunc_div(a, b) <= a,
        a < 0 ==> a <= trunc_div(a, b) <= -a,
        a >= 0 ==> -a <= a / b <= a,
        a < 0 ==> a <= (-a) / b <= -a,
{
}

/// Over a positive divisor, the quotient grows with the dividend.
pub proof fn lemma_trunc_div_monotonic(a: int, b: int, d: int)
    by (nonlinear_arith)
    requires
        a <= b,
        0 < d,
    ensures
        trunc_div(a, d) <= trunc_div(b, d),
{
}

/// A quotient times its divisor misses the dividend by less than the
/// divisor, on the side of zero.
pub proof fn lemma_trunc_div_remainder(a: int, d: int)
    by (nonlinear_arith)
    requires
        0 < d,
    ensures
        a >= 0 ==> 0 <= a - d * trunc_div(a, d) < d,
        a <= 0 ==> -d < a - d * trunc_div(a, d) <= 0,
{
}

/// A quotient is at most `bound` in magnitude where the dividend is at most
/// `bound` times the divisor.
pub proof fn lemma_trunc_div_magnitude(a: int, d: int, bound: int)
    by (nonlinear_arith)
    requires
        0 < d,
        -(bound * d) <= a <= bound * d,
    ensures
        -bound <= trunc_div(a, d) <= bound,
{
}

/// Negating the dividend negates the quotient.
pub proof fn lemma_trunc_div_negated(a: int, d: int)
    by (nonlinear_arith)
    requires
        d != 0,
    ensures
        trunc_div(-a, d) == -trunc_div(a, d),
{
}

/// A quotient has the sign of its dividend, or is zero, when the divisor is
/// positive.
pub proof fn lemma_trunc_div_sign(a: int, d: int)
    by (nonlinear_arith)
    requires
        0 < d,
    ensures
        a >= 0 ==> trunc_div(a, d) >= 0,
        a <= 0 ==> trunc_div(a, d) <= 0,
        a >= d ==> trunc_div(a, d) >= 1,
        a <= -d ==> trunc_div(a, d) <= -1,
        -d < a < d ==> trunc_div(a, d) == 0,
{
}

/// Quotient of two wide integers, rounded toward zero.
pub fn div_wide(a: i128, b: i128) -> (q: i128)
    requires
        b != 0,
        a > i128::MIN,
    ensures
        q == trunc_div(a as int, b as int),
{
    proof {
        lemma_trunc_div_bound(a as int, b as int);
    }
    a / b
}

/// Clamps a wide integer into the range of raw values.
pub fn saturate(x: i128) -> (r: i64)
    ensures
        r == sat(x as int),
{
    if x > i64::MAX as i128 {
        i64::MAX
    } else if x < i64::MIN as i128 {
        i64::MIN
    } else {
        x as i64
    }
}

/// Integer square root of a 128-bit number, one result bit per round.
pub fn isqrt_u128(n: u128) -> (r: u64)
    ensures
        r == isqrt(n as int),
{
    let mut r: u64 = 0;
    let mut step: u128 = 0x1_0000_0000_0000_0000;
    let mut i: u32 = 64;
    proof {
        lemma2_to64();
        assert(0x1_0000_0000_0000_0000int * 0x1_0000_0000_0000_0000int
            == 0x1_0000_0000_0000_0000_0000_0000_0000_0000int) by (nonlinear_arith);
    }
    while i > 0
        invariant
            step == pow2(i as nat),
            i <= 64,
            r + step <= 0x1_0000_0000_0000_0000,
            r * r <= n,
            n < (r + step) * (r + step),
        decreases i,
    {
        proof {
            lemma_pow2_unfold(i as nat);
        }
        let half: u128 = step / 2;
        let cand: u128 = r as u128 + half;
        assert(cand * cand <= 0xffff_ffff_ffff_ffff * 0xffff_ffff_ffff_ffff) by (nonlinear_arith)
            requires
                0 <= cand <= 0xffff_ffff_ffff_ffff,
        ;
        if cand * cand <= n {
            r = cand as u64;
        }
        step = half;
        i = i - 1;
    }
    proof {
        assert(pow2(0) == 1) by {
            lemma2_to64();
        }
        lemma_isqrt_unique(n as int, r as int);
    }
    r
}

/// A fixed-point scalar: the rational number `raw / SCALE`.
#[derive(Clone, Copy, Debug, PartialEq, Eq, PartialOrd, Ord)]
pub struct Fixed {
    pub raw: i64,
}

impl vstd::std_specs::ops::AddSpecImpl for Fixed {
    open spec fn obeys_add_spec() -> bool {
        true
    }

    open spec fn add_req(self, rhs: Fixed) -> bool {
        true
    }

    open spec fn add_spec(self, rhs: Fixed) -> Fixed {
        Fixed { raw: sat(self.raw + rhs.raw) }
    }
}

impl core::ops::Add for Fixed {
    type Output = Fixed;

    /// Saturating sum: `add_spec`.
    fn add(self, rhs: Fixed) -> Fixed {
        Fixed { raw: saturate(self.raw as i128 + rhs.raw as i128) }
    }
}

impl vstd::std_specs::ops::SubSpecImpl for Fixed {
    open spec fn obeys_sub_spec() -> bool {
        true
    }

    open spec fn sub_req(self, rhs: Fixed) -> bool {
        true
    }

    open spec fn sub_spec(self, rhs: Fixed) -> Fixed {
        Fixed { raw: sat(self.raw - rhs.raw) }
    }
}

impl core::ops::Sub for Fixed {
    type Output = Fixed;

    /// Saturating difference: `sub_spec`.
    fn sub(self, rhs: Fixed) -> Fixed {
        Fixed { raw: saturate(self.raw as i128 - rhs.raw as i128) }
    }
}

impl vstd::std_specs::ops::NegSpecImpl for Fixed {
    open spec fn obeys_neg_spec() -> bool {
        true
    }

    open spec fn neg_req(self) -> bool {
        true
    }

    open spec fn neg_spec(self) -> Fixed {
        Fixed { raw: sat(-self.raw) }
    }
}

impl core::ops::Neg for Fixed {
    type Output = Fixed;

    /// Saturating negation, `neg_spec`: the most negative scalar becomes the
    /// largest one.
    fn neg(self) -> Fixed {
        Fixed { raw: saturate(-(self.raw as i128)) }
    }
}

impl vstd::std_specs::ops::MulSpecImpl for Fixed {
    open spec fn obeys_mul_spec() -> bool {
        true
    }

    open spec fn mul_req(self, rhs: Fixed) -> bool {
        true
    }

    open spec fn mul_spec(self, rhs: Fixed) -> Fixed {
        Fixed { raw: sat(trunc_div(self.raw * rhs.raw, SCALE as int)) }
    }
}

impl core::ops::Mul for Fixed {
    type Output = Fixed;

    /// Saturating product, rounded toward zero: `mul_spec`.
    fn mul(self, rhs: Fixed) -> Fixed {
        let a = self.raw;
        let b = rhs.raw;
        assert(-0x4000_0000_0000_0000_0000_0000_0000_0000 <= a * b
            <= 0x4000_0000_0000_0000_0000_0000_0000_0000) by (nonlinear_arith)
            requires
                -0x8000_0000_0000_0000 <= a <= 0x7fff_ffff_ffff_ffff,
                -0x8000_0000_0000_0000 <= b <= 0x7fff_ffff_ffff_ffff,
        ;
        let wide: i128 = (a as i128) * (b as i128);
        Fixed { raw: saturate(div_wide(wide, SCALE as i128)) }
    }
}

impl vstd::std_specs::ops::DivSpecImpl for Fixed {
    open spec fn obeys_div_spec() -> bool {
        true
    }

    open spec fn div_req(self, rhs: Fixed) -> bool {
        rhs.raw != 0
    }

    open spec fn div_spec(self, rhs: Fixed) -> Fixed {
        Fixed { raw: sat(trunc_div(self.raw * SCALE, rhs.raw as int)) }
    }
}

impl core::ops::Div for Fixed {
    type Output = Fixed;

    /// Saturating quotient, rounded toward zero: `div_spec`. The divisor is
    /// not zero.
    fn div(self, rhs: Fixed) -> Fixed {
        let wide: i128 = (self.raw as i128) * 4294967296;
        Fixed { raw: saturate(div_wide(wide, rhs.raw as i128)) }
    }
}

impl Fixed {
    /// The square root of a scalar that is not negative is not negative, and
    /// is the integer square root of the raw value times the scale.
    pub proof fn lemma_sqrt_bounds(self)
        requires
            self.raw >= 0,
        ensures
            0 <= self.spec_sqrt().raw < 0x1_0000_0000_0000,
            self.spec_sqrt().raw == isqrt(self.raw * SCALE),
    {
        let n = self.raw * SCALE;
        lemma_isqrt_bounds(n);
        let root = isqrt(n);
        assert(root < 0x1_0000_0000_0000) by (nonlinear_arith)
            requires
                0 <= root,
                root * root <= n,
                n < 0x1_0000_0000_0000 * 0x1_0000_0000_0000,
        ;
    }

    /// The scalar zero.
    pub open spec fn spec_zero() -> Fixed {
        Fixed { raw: 0 }
    }

    /// The scalar one.
    pub open spec fn spec_one() -> Fixed {
        Fixed { raw: SCALE }
    }

    /// The largest scalar, which stands for positive infinity.
    pub open spec fn spec_infinity() -> Fixed {
        Fixed { raw: MAX_RAW }
    }

    /// The scalar that stands for the whole number `n`.
    pub open spec fn spec_from_int(n: i32) -> Fixed {
        Fixed { raw: (n * SCALE) as i64 }
    }

    /// The ratio `num / den` of two integers, rounded toward zero.
    pub open spec fn spec_from_ratio(num: i64, den: i64) -> Fixed {
        Fixed { raw: sat(trunc_div(num * SCALE, den as int)) }
    }

    /// Absolute value; that of the most negative scalar is the largest one.
    pub open spec fn spec_abs(self) -> Fixed {
        Fixed { raw: sat(if self.raw < 0 { -self.raw } else { self.raw as int }) }
    }

    /// The smaller of two scalars.
    pub open spec fn spec_min(self, other: Fixed) -> Fixed {
        if other.raw < self.raw {
            other
        } else {
            self
        }
    }

    /// The larger of two scalars.
    pub open spec fn spec_max(self, other: Fixed) -> Fixed {
        if other.raw > self.raw {
            other
        } else {
            self
        }
    }

    /// Square root, rounded down. Meaningful for scalars that are not negative.
    pub open spec fn spec_sqrt(self) -> Fixed {
        Fixed { raw: isqrt(self.raw * SCALE) as i64 }
    }

    /// The scalar zero.
    #[verifier::when_used_as_spec(spec_zero)]
    pub fn zero() -> (r: Fixed)
        ensures
            r == Self::spec_zero(),
    {
        Fixed { raw: 0 }
    }

    /// The scalar one.
    #[verifier::when_used_as_spec(spec_one)]
    pub fn one() -> (r: Fixed)
        ensures
            r == Self::spec_one(),
    {
        Fixed { raw: SCALE }
    }

    /// The largest scalar, which stands for positive infinity.
    #[verifier::when_used_as_spec(spec_infinity)]
    pub fn infinity() -> (r: Fixed)
        ensures
            r == Self::spec_infinity(),
    {
        Fixed { raw: MAX_RAW }
    }

    /// The scalar that stands for the whole number `n`.
    #[verifier::when_used_as_spec(spec_from_int)]
    pub fn from_int(n: i32) -> (r: Fixed)
        ensures
            r == Self::spec_from_int(n),
            r.raw == n * SCALE,
    {
        Fixed { raw: (n as i64) * SCALE }
    }

    /// The ratio `num / den` of two integers, rounded toward zero.
    #[verifier::when_used_as_spec(spec_from_ratio)]
    pub fn from_ratio(num: i64, den: i64) -> (r: Fixed)
        requires
            den != 0,
        ensures
            r == Self::spec_from_ratio(num, den),
    {
        let wide: i128 = (num as i128) * 4294967296;
        Fixed { raw: saturate(div_wide(wide, den as i128)) }
    }

    /// Absolute value; that of the most negative scalar is the largest one.
    #[verifier::when_used_as_spec(spec_abs)]
    pub fn abs(self) -> (r: Fixed)
        ensures
            r == self.spec_abs(),
    {
        if self.raw < 0 {
            Fixed { raw: saturate(-(self.raw as i128)) }
        } else {
            self
        }
    }

    /// The smaller of two scalars.
    #[verifier::when_used_as_spec(spec_min)]
    pub fn min(self, other: Fixed) -> (r: Fixed)
        ensures
            r == self.spec_min(other),
    {
        if other.raw < self.raw {
            other
        } else {
            self
        }
    }

    /// The larger of two scalars.
    #[verifier::when_used_as_spec(spec_max)]
    pub fn max(self, other: Fixed) -> (r: Fixed)
        ensures
            r == self.spec_max(other),
    {
        if other.raw > self.raw {
            other
        } else {
            self
        }
    }

    /// Square root, rounded down. Meaningful for scalars that are not negative.
    #[verifier::when_used_as_spec(spec_sqrt)]
    pub fn sqrt(self) -> (r: Fixed)
        requires
            self.raw >= 0,
        ensures
            r == self.spec_sqrt(),
            0 <= r.raw,
            r.raw * r.raw <= self.raw * SCALE < (r.raw + 1) * (r.raw + 1),
    {
        let n: u128 = (self.raw as u128) * (SCALE as u128);
        let root = isqrt_u128(n);
        proof {
            lemma_isqrt_bounds(n as int);
            assert(root < 0x1_0000_0000_0000) by (nonlinear_arith)
                requires
                    0 <= root,
                    root * root <= n,
                    n < 0x1_0000_0000_0000 * 0x1_0000_0000_0000,
            ;
        }
        Fixed { raw: root as i64 }
    }
}

} // verus!
