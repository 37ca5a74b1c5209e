//! How close a refraction followed by the opposite refraction comes back to
//! the direction it started from.

use vstd::prelude::*;
use vstd::std_specs::ops::{AddSpec, MulSpec, NegSpec, SubSpec};
use crate::fixed::{
    isqrt, lemma_isqrt_bounds, lemma_trunc_div_negated, lemma_trunc_div_remainder, trunc_div,
    Fixed, SCALE,
};
use crate::refract_accuracy::{lemma_cosine_unclamped, lemma_multiples_near, lemma_perp_norm};
use crate::rounding::{
    dot_raw, is_near_unit, lemma_distribute, lemma_mul_raw_bound, lemma_near_unit_components,
    lemma_product_bound, lemma_unit_vector_near_unit, lemma_unit_vector_unclamped, magnitude,
    max_magnitude, mul_raw,
};
use crate::vec3::Vec3;

verus! {

/// One component of a multiple of the normal against the normal: with `x`
/// the component of the multiple by `k` and `xi` what rounding took off it.
proof fn lemma_multiple_component(n: int, x: int, k: int, xi: int)
    requires
        0x1_0000_0000 * x == k * n - xi,
    ensures
        0x1_0000_0000 * (x * n) == k * (n * n) - xi * n,
        0x1_0000_0000_0000_0000 * (x * x) == (k * k) * (n * n) - 2 * (k * (n * xi)) + xi * xi,
{
    let y = 0x1_0000_0000 * x;
    let b = k * n;
    assert(y * n == 0x1_0000_0000 * (x * n)) by (nonlinear_arith)
        requires
            y == 0x1_0000_0000 * x,
    ;
    assert(y * n == b * n - xi * n) by (nonlinear_arith)
        requires
            y == b - xi,
    ;
    assert(b * n == k * (n * n)) by (nonlinear_arith)
        requires
            b == k * n,
    ;
    assert(y * y == 0x1_0000_0000_0000_0000 * (x * x)) by (nonlinear_arith)
        requires
            y == 0x1_0000_0000 * x,
    ;
    assert(y * y == b * b - 2 * (b * xi) + xi * xi) by (nonlinear_arith)
        requires
            y == b - xi,
    ;
    assert(b * b == (k * k) * (n * n)) by (nonlinear_arith)
        requires
            b == k * n,
    ;
    assert(b * xi == k * (n * xi)) by (nonlinear_arith)
        requires
            b == k * n,
    ;
}

/// A multiple of a normal that is a unit vector up to rounding: its scalar
/// product with the normal is the factor `k`, and its squared length the
/// square of `k`, up to some twenty units in the last place. Here `x` is
/// the multiple of `n` by `k`, as raw values, and `k` is at most `cap`
/// times the scale in magnitude.
proof fn lemma_along_normal(n: (int, int, int), x: (int, int, int), k: int, cap: int)
    requires
        magnitude(n.0 * n.0 + n.1 * n.1 + n.2 * n.2 - 0x1_0000_0000_0000_0000) <= 16
            * 0x1_0000_0000,
        magnitude(n.0) <= 0x1_0000_0000 + 7,
        magnitude(n.1) <= 0x1_0000_0000 + 7,
        magnitude(n.2) <= 0x1_0000_0000 + 7,
        1 <= cap <= 16,
        magnitude(k) <= cap * 0x1_0000_0000,
        -0x1_0000_0000 < k * n.0 - 0x1_0000_0000 * x.0 < 0x1_0000_0000,
        -0x1_0000_0000 < k * n.1 - 0x1_0000_0000 * x.1 < 0x1_0000_0000,
        -0x1_0000_0000 < k * n.2 - 0x1_0000_0000 * x.2 < 0x1_0000_0000,
    ensures
        magnitude(x.0 * n.0 + x.1 * n.1 + x.2 * n.2 - 0x1_0000_0000 * k) <= 20 * cap
            * 0x1_0000_0000,
        magnitude(x.0 * x.0 + x.1 * x.1 + x.2 * x.2 - k * k) <= 23 * (cap * cap) * 0x1_0000_0000,
{
    let s = 0x1_0000_0000int;
    let s2 = 0x1_0000_0000_0000_0000int;
    let (nx, ny, nz) = n;
    let (xx, xy, xz) = x;
    let (gx, gy, gz) = (k * nx - s * xx, k * ny - s * xy, k * nz - s * xz);
    lemma_multiple_component(nx, xx, k, gx);
    lemma_multiple_component(ny, xy, k, gy);
    lemma_multiple_component(nz, xz, k, gz);
    let nn = nx * nx + ny * ny + nz * nz;
    let xn = xx * nx + xy * ny + xz * nz;
    let x2 = xx * xx + xy * xy + xz * xz;
    let gn = gx * nx + gy * ny + gz * nz;
    let ng = nx * gx + ny * gy + nz * gz;
    let gg = gx * gx + gy * gy + gz * gz;
    let kk = k * k;
    let eta = nn - s2;
    lemma_distribute(k, nx * nx, ny * ny, nz * nz);
    lemma_distribute(kk, nx * nx, ny * ny, nz * nz);
    lemma_distribute(k, nx * gx, ny * gy, nz * gz);
    assert(s * xn == k * nn - gn);
    assert(s2 * x2 == kk * nn - 2 * (k * ng) + gg);
    assert(k * nn == s2 * k + k * eta) by (nonlinear_arith)
        requires
            eta == nn - s2,
    ;
    assert(kk * nn == s2 * kk + kk * eta) by (nonlinear_arith)
        requires
            eta == nn - s2,
    ;
    assert(gx * nx == nx * gx && gy * ny == ny * gy && gz * nz == nz * gz) by (nonlinear_arith);
    lemma_product_bound(nx, gx, s + 7, s);
    lemma_product_bound(ny, gy, s + 7, s);
    lemma_product_bound(nz, gz, s + 7, s);
    lemma_product_bound(gx, gx, s, s);
    lemma_product_bound(gy, gy, s, s);
    lemma_product_bound(gz, gz, s, s);
    lemma_product_bound(k, eta, cap * s, 16 * s);
    lemma_product_bound(k, k, cap * s, cap * s);
    lemma_product_bound(kk, eta, (cap * s) * (cap * s), 16 * s);
    lemma_product_bound(k, ng, cap * s, 3 * ((s + 7) * s));
    assert((s + 7) * s == s2 + 7 * s && s * s == s2);
    assert((cap * s) * (16 * s) == 16 * cap * s2 && (cap * s) * (cap * s) == (cap * cap) * s2 && ((
    cap * s) * (cap * s)) * (16 * s) == 16 * ((cap * cap) * (s2 * s)) && (cap * s) * (3 * ((s + 7)
        * s)) == 3 * cap * (s2 * s) + 21 * cap * s2) by (nonlinear_arith)
        requires
            s == 0x1_0000_0000,
            s2 == 0x1_0000_0000_0000_0000,
    ;
    assert(cap * cap >= cap && cap * cap <= 256) by (nonlinear_arith)
        requires
            1 <= cap <= 16,
    ;
    lemma_along_combined(xn, x2, k, kk, k * eta, kk * eta, gn, k * ng, gg, cap, cap * cap);
}

/// The sums of the parts of a multiple of the normal, each product taken as
/// a number of its own.
proof fn lemma_along_combined(
    xn: int,
    x2: int,
    k: int,
    kk: int,
    keta: int,
    kketa: int,
    gn: int,
    kng: int,
    gg: int,
    cap: int,
    cap2: int,
)
    requires
        0x1_0000_0000 * xn == 0x1_0000_0000_0000_0000 * k + keta - gn,
        0x1_0000_0000_0000_0000 * x2 == 0x1_0000_0000_0000_0000 * kk + kketa - 2 * kng + gg,
        1 <= cap <= 16,
        cap <= cap2 <= 256,
        magnitude(keta) <= 16 * cap * 0x1_0000_0000_0000_0000,
        magnitude(kketa) <= 16 * (cap2 * (0x1_0000_0000_0000_0000 * 0x1_0000_0000)),
        magnitude(gn) <= 3 * (0x1_0000_0000_0000_0000 + 7 * 0x1_0000_0000),
        magnitude(kng) <= 3 * cap * (0x1_0000_0000_0000_0000 * 0x1_0000_0000) + 21 * cap
            * 0x1_0000_0000_0000_0000,
        magnitude(gg) <= 3 * 0x1_0000_0000_0000_0000,
    ensures
        magnitude(xn - 0x1_0000_0000 * k) <= 20 * cap * 0x1_0000_0000,
        magnitude(x2 - kk) <= 23 * cap2 * 0x1_0000_0000,
{
    assert(16 * (cap2 * (0x1_0000_0000_0000_0000 * 0x1_0000_0000)) == (16 * cap2)
        * 0x1_0000_0000_0000_0000_0000_0000) by (nonlinear_arith);
    assert(3 * cap * (0x1_0000_0000_0000_0000 * 0x1_0000_0000) == (3 * cap)
        * 0x1_0000_0000_0000_0000_0000_0000) by (nonlinear_arith);
}

/// Whether a ratio of refractive indices lies between a quarter and four.
pub open spec fn is_moderate_ratio(eta: Fixed) -> bool {
    0x4000_0000 <= eta.raw <= 0x4_0000_0000
}

/// Where nothing is clamped, a refraction is what its formulas say on raw
/// values. This is stated for a vector whose unit vector is a unit vector
/// up to rounding, a normal that is one too, and a ratio between a quarter
/// and four.
pub proof fn lemma_refract_unclamped(v: Vec3, n: Vec3, eta: Fixed)
    requires
        is_near_unit(v.spec_unit_vector()),
        is_near_unit(n),
        is_moderate_ratio(eta),
    ensures
        ({
            let u = v.spec_unit_vector();
            let c = Vec3::spec_cos_theta(u, n).raw as int;
            let perp = v.spec_refract_perp(n, eta);
            let len2 = perp.spec_length_squared().raw as int;
            let root = Fixed::one().sub_spec(perp.spec_length_squared()).spec_abs().spec_sqrt().raw as int;
            let out = v.spec_refract(n, eta);
            &&& -SCALE - 19 <= c <= SCALE
            &&& perp.x.raw == mul_raw(eta.raw as int, u.x.raw + mul_raw(c, n.x.raw as int))
            &&& perp.y.raw == mul_raw(eta.raw as int, u.y.raw + mul_raw(c, n.y.raw as int))
            &&& perp.z.raw == mul_raw(eta.raw as int, u.z.raw + mul_raw(c, n.z.raw as int))
            &&& max_magnitude(perp) <= 9 * SCALE
            &&& len2 == dot_raw(perp, perp)
            &&& 0 <= len2 <= 243 * SCALE
            &&& root == isqrt(magnitude(SCALE - len2) * SCALE)
            &&& 0 <= root <= 16 * SCALE
            &&& out.x.raw == perp.x.raw - mul_raw(root, n.x.raw as int)
            &&& out.y.raw == perp.y.raw - mul_raw(root, n.y.raw as int)
            &&& out.z.raw == perp.z.raw - mul_raw(root, n.z.raw as int)
            &&& max_magnitude(out) <= 26 * SCALE
        }),
{
    let s = 0x1_0000_0000int;
    assert(s == SCALE);
    let u = v.spec_unit_vector();
    lemma_near_unit_components(u);
    lemma_near_unit_components(n);
    lemma_cosine_unclamped(u, n);
    let (ux, uy, uz) = (u.x.raw as int, u.y.raw as int, u.z.raw as int);
    let (nx, ny, nz) = (n.x.raw as int, n.y.raw as int, n.z.raw as int);
    let c = Vec3::spec_cos_theta(u, n).raw as int;
    let e = eta.raw as int;
    // The normal times the cosine, and the perpendicular part.
    assert((s + 19) * (s + 7) <= (s + 27) * s) by (nonlinear_arith)
        requires
            s == 0x1_0000_0000,
    ;
    lemma_mul_raw_bound(c, nx, s + 19, s + 7, s + 27);
    lemma_mul_raw_bound(c, ny, s + 19, s + 7, s + 27);
    lemma_mul_raw_bound(c, nz, s + 19, s + 7, s + 27);
    let (gx, gy, gz) = (ux + mul_raw(c, nx), uy + mul_raw(c, ny), uz + mul_raw(c, nz));
    assert((4 * s) * (2 * s + s / 4) <= (9 * s) * s) by (nonlinear_arith)
        requires
            s == 0x1_0000_0000,
    ;
    lemma_mul_raw_bound(e, gx, 4 * s, 2 * s + s / 4, 9 * s);
    lemma_mul_raw_bound(e, gy, 4 * s, 2 * s + s / 4, 9 * s);
    lemma_mul_raw_bound(e, gz, 4 * s, 2 * s + s / 4, 9 * s);
    let perp = v.spec_refract_perp(n, eta);
    let (px, py, pz) = (mul_raw(e, gx), mul_raw(e, gy), mul_raw(e, gz));
    assert(perp.x.raw == px && perp.y.raw == py && perp.z.raw == pz);
    // Its squared length, and the root of what is left of one.
    assert((9 * s) * (9 * s) <= (81 * s) * s) by (nonlinear_arith);
    lemma_mul_raw_bound(px, px, 9 * s, 9 * s, 81 * s);
    lemma_mul_raw_bound(py, py, 9 * s, 9 * s, 81 * s);
    lemma_mul_raw_bound(pz, pz, 9 * s, 9 * s, 81 * s);
    lemma_trunc_div_remainder(px * px, s);
    lemma_trunc_div_remainder(py * py, s);
    lemma_trunc_div_remainder(pz * pz, s);
    assert(px * px >= 0 && py * py >= 0 && pz * pz >= 0) by (nonlinear_arith);
    let len2 = mul_raw(px, px) + mul_raw(py, py) + mul_raw(pz, pz);
    assert(perp.spec_length_squared().raw == len2);
    let under = Fixed::one().sub_spec(perp.spec_length_squared()).spec_abs();
    assert(under.raw == magnitude(s - len2));
    under.lemma_sqrt_bounds();
    lemma_isqrt_bounds(under.raw * SCALE);
    let root = under.spec_sqrt().raw as int;
    assert(root <= 16 * s) by (nonlinear_arith)
        requires
            0 <= root,
            root * root <= under.raw * SCALE,
            under.raw <= 243 * s,
            SCALE == 0x1_0000_0000,
            s == 0x1_0000_0000,
    ;
    // The part along the normal, and the sum.
    assert((16 * s) * (s + 7) <= (17 * s) * s) by (nonlinear_arith)
        requires
            s == 0x1_0000_0000,
    ;
    lemma_mul_raw_bound(-root, nx, 16 * s, s + 7, 17 * s);
    lemma_mul_raw_bound(-root, ny, 16 * s, s + 7, 17 * s);
    lemma_mul_raw_bound(-root, nz, 16 * s, s + 7, 17 * s);
    assert((-root) * nx == -(root * nx) && (-root) * ny == -(root * ny) && (-root) * nz == -(root
        * nz)) by (nonlinear_arith);
    lemma_trunc_div_negated(root * nx, s);
    lemma_trunc_div_negated(root * ny, s);
    lemma_trunc_div_negated(root * nz, s);
}

/// One component of a scaled vector against the normal: with `p` the
/// component of the multiple of `g` by `eta` and `tau` what rounding took
/// off it.
proof fn lemma_scaled_component(g: int, n: int, p: int, eta: int, tau: int)
    requires
        0x1_0000_0000 * p == eta * g - tau,
    ensures
        0x1_0000_0000 * (p * n) == eta * (g * n) - tau * n,
{
    let y = 0x1_0000_0000 * p;
    let b = eta * g;
    assert(y * n == 0x1_0000_0000 * (p * n)) by (nonlinear_arith)
        requires
            y == 0x1_0000_0000 * p,
    ;
    assert(y * n == b * n - tau * n) by (nonlinear_arith)
        requires
            y == b - tau,
    ;
    assert(b * n == eta * (g * n)) by (nonlinear_arith)
        requires
            b == eta * g,
    ;
}

/// The perpendicular part of a refraction is perpendicular to the normal,
/// up to rounding: its scalar product with the normal is at most 172 units
/// in the last place. Here `u` is the unit direction, `w` the normal times
/// the cosine `c`, and `p` their sum times the ratio `eta`.
proof fn lemma_perp_against_normal(
    u: (int, int, int),
    n: (int, int, int),
    w: (int, int, int),
    p: (int, int, int),
    c: int,
    eta: int,
)
    requires
        magnitude(n.0 * n.0 + n.1 * n.1 + n.2 * n.2 - 0x1_0000_0000_0000_0000) <= 16
            * 0x1_0000_0000,
        magnitude(n.0) <= 0x1_0000_0000 + 7,
        magnitude(n.1) <= 0x1_0000_0000 + 7,
        magnitude(n.2) <= 0x1_0000_0000 + 7,
        magnitude(c) <= 0x1_0000_0000,
        magnitude(u.0 * n.0 + u.1 * n.1 + u.2 * n.2 + 0x1_0000_0000 * c) <= 22 * 0x1_0000_0000,
        -0x1_0000_0000 < c * n.0 - 0x1_0000_0000 * w.0 < 0x1_0000_0000,
        -0x1_0000_0000 < c * n.1 - 0x1_0000_0000 * w.1 < 0x1_0000_0000,
        -0x1_0000_0000 < c * n.2 - 0x1_0000_0000 * w.2 < 0x1_0000_0000,
        0 <= eta <= 4 * 0x1_0000_0000,
        -0x1_0000_0000 < eta * (u.0 + w.0) - 0x1_0000_0000 * p.0 < 0x1_0000_0000,
        -0x1_0000_0000 < eta * (u.1 + w.1) - 0x1_0000_0000 * p.1 < 0x1_0000_0000,
        -0x1_0000_0000 < eta * (u.2 + w.2) - 0x1_0000_0000 * p.2 < 0x1_0000_0000,
    ensures
        magnitude(p.0 * n.0 + p.1 * n.1 + p.2 * n.2) <= 172 * 0x1_0000_0000,
{
    let s = 0x1_0000_0000int;
    let (ux, uy, uz) = u;
    let (nx, ny, nz) = n;
    let (wx, wy, wz) = w;
    let (px, py, pz) = p;
    lemma_along_normal(n, w, c, 1);
    let (gx, gy, gz) = (ux + wx, uy + wy, uz + wz);
    let gn = gx * nx + gy * ny + gz * nz;
    assert(gx * nx == ux * nx + wx * nx && gy * ny == uy * ny + wy * ny && gz * nz == uz * nz + wz
        * nz) by (nonlinear_arith)
        requires
            gx == ux + wx,
            gy == uy + wy,
            gz == uz + wz,
    ;
    assert(magnitude(gn) <= 42 * s);
    let (tx, ty, tz) = (eta * gx - s * px, eta * gy - s * py, eta * gz - s * pz);
    lemma_scaled_component(gx, nx, px, eta, tx);
    lemma_scaled_component(gy, ny, py, eta, ty);
    lemma_scaled_component(gz, nz, pz, eta, tz);
    lemma_distribute(eta, gx * nx, gy * ny, gz * nz);
    let pn = px * nx + py * ny + pz * nz;
    let tn = tx * nx + ty * ny + tz * nz;
    assert(s * pn == eta * gn - tn);
    lemma_product_bound(eta, gn, 4 * s, 42 * s);
    lemma_product_bound(tx, nx, s, s + 7);
    lemma_product_bound(ty, ny, s, s + 7);
    lemma_product_bound(tz, nz, s, s + 7);
    assert((4 * s) * (42 * s) == 168 * 0x1_0000_0000_0000_0000 && s * (s + 7)
        == 0x1_0000_0000_0000_0000 + 7 * s);
}

/// One component of the product of two vectors of which the second is a
/// multiple of the normal: with `x` the multiple by `k` and `xi` what
/// rounding took off it.
proof fn lemma_cross_component(p: int, n: int, x: int, k: int, xi: int)
    requires
        0x1_0000_0000 * x == k * n - xi,
    ensures
        0x1_0000_0000 * (p * x) == k * (p * n) - p * xi,
        (p - x) * (p - x) == p * p - 2 * (p * x) + x * x,
        (p - x) * n == p * n - x * n,
{
    let y = 0x1_0000_0000 * x;
    let b = k * n;
    assert(p * y == 0x1_0000_0000 * (p * x)) by (nonlinear_arith)
        requires
            y == 0x1_0000_0000 * x,
    ;
    assert(p * y == p * b - p * xi) by (nonlinear_arith)
        requires
            y == b - xi,
    ;
    assert(p * b == k * (p * n)) by (nonlinear_arith)
        requires
            b == k * n,
    ;
    assert((p - x) * (p - x) == p * p - 2 * (p * x) + x * x) by (nonlinear_arith);
    assert((p - x) * n == p * n - x * n) by (nonlinear_arith);
}

/// What leaves a refraction is a unit vector up to 426 units in the last
/// place, and its scalar product with the normal is minus the root of what
/// the perpendicular part leaves of one, up to 192 units. Here `p` is the
/// perpendicular part, `len2` its squared length as a scalar, `root` the
/// root and `x` the normal times the root; total reflection is left out.
proof fn lemma_exit_norm(
    n: (int, int, int),
    p: (int, int, int),
    x: (int, int, int),
    len2: int,
    root: int,
)
    requires
        magnitude(n.0 * n.0 + n.1 * n.1 + n.2 * n.2 - 0x1_0000_0000_0000_0000) <= 16
            * 0x1_0000_0000,
        magnitude(n.0) <= 0x1_0000_0000 + 7,
        magnitude(n.1) <= 0x1_0000_0000 + 7,
        magnitude(n.2) <= 0x1_0000_0000 + 7,
        magnitude(p.0) <= 9 * 0x1_0000_0000,
        magnitude(p.1) <= 9 * 0x1_0000_0000,
        magnitude(p.2) <= 9 * 0x1_0000_0000,
        magnitude(p.0 * n.0 + p.1 * n.1 + p.2 * n.2) <= 172 * 0x1_0000_0000,
        0 <= len2 <= 0x1_0000_0000,
        0 <= (p.0 * p.0 + p.1 * p.1 + p.2 * p.2) - 0x1_0000_0000 * len2 < 3 * 0x1_0000_0000,
        0 <= root,
        root * root <= (0x1_0000_0000 - len2) * 0x1_0000_0000 < (root + 1) * (root + 1),
        -0x1_0000_0000 < root * n.0 - 0x1_0000_0000 * x.0 < 0x1_0000_0000,
        -0x1_0000_0000 < root * n.1 - 0x1_0000_0000 * x.1 < 0x1_0000_0000,
        -0x1_0000_0000 < root * n.2 - 0x1_0000_0000 * x.2 < 0x1_0000_0000,
    ensures
        root <= 0x1_0000_0000,
        magnitude(
            (p.0 - x.0) * (p.0 - x.0) + (p.1 - x.1) * (p.1 - x.1) + (p.2 - x.2) * (p.2 - x.2)
                - 0x1_0000_0000_0000_0000,
        ) <= 426 * 0x1_0000_0000,
        magnitude(
            (p.0 - x.0) * n.0 + (p.1 - x.1) * n.1 + (p.2 - x.2) * n.2 + 0x1_0000_0000 * root,
        ) <= 192 * 0x1_0000_0000,
{
    let s = 0x1_0000_0000int;
    let s2 = 0x1_0000_0000_0000_0000int;
    let (nx, ny, nz) = n;
    let (px, py, pz) = p;
    let (xx, xy, xz) = x;
    assert(root <= s) by (nonlinear_arith)
        requires
            0 <= root,
            root * root <= (s - len2) * s,
            0 <= len2 <= s,
            s == 0x1_0000_0000,
    ;
    lemma_along_normal(n, x, root, 1);
    let (gx, gy, gz) = (root * nx - s * xx, root * ny - s * xy, root * nz - s * xz);
    lemma_cross_component(px, nx, xx, root, gx);
    lemma_cross_component(py, ny, xy, root, gy);
    lemma_cross_component(pz, nz, xz, root, gz);
    let pn = px * nx + py * ny + pz * nz;
    let px_sum = px * xx + py * xy + pz * xz;
    let pg = px * gx + py * gy + pz * gz;
    lemma_distribute(root, px * nx, py * ny, pz * nz);
    assert(s * px_sum == root * pn - pg);
    lemma_product_bound(root, pn, s, 172 * s);
    lemma_product_bound(px, gx, 9 * s, s);
    lemma_product_bound(py, gy, 9 * s, s);
    lemma_product_bound(pz, gz, 9 * s, s);
    assert(s * (172 * s) == 172 * s2 && (9 * s) * s == 9 * s2);
    assert(magnitude(px_sum) <= 199 * s);
    let rr = root * root;
    assert(0 <= (s - len2) * s - rr <= 2 * root) by (nonlinear_arith)
        requires
            rr == root * root,
            root * root <= (s - len2) * s < (root + 1) * (root + 1),
    ;
    assert((s - len2) * s == s2 - s * len2);
}

/// One component of a vector that is a unit vector up to 426 units in the
/// last place, divided by the length, is within 216 of the component.
proof fn lemma_unit_component_within(x: int, len: int)
    requires
        magnitude(x) <= 0x1_0000_0000 + 213,
        0x1_0000_0000 - 214 <= len <= 0x1_0000_0000 + 213,
    ensures
        magnitude(trunc_div(x * 0x1_0000_0000, len) - x) <= 216,
{
    let s = 0x1_0000_0000int;
    lemma_trunc_div_remainder(x * s, len);
    let q = trunc_div(x * s, len);
    lemma_product_bound(x, s - len, s + 213, 214);
    assert(len * (q - x) == x * (s - len) - (x * s - len * q)) by (nonlinear_arith);
    assert(magnitude(q - x) <= 216) by (nonlinear_arith)
        requires
            len * (q - x) == x * (s - len) - (x * s - len * q),
            magnitude(x * (s - len)) <= (s + 213) * 214,
            magnitude(x * s - len * q) < len,
            s - 214 <= len,
            s == 0x1_0000_0000,
    ;
}

/// The unit vector of what leaves a refraction: a unit vector up to
/// rounding, within 216 units in the last place of the vector itself in
/// each component, and with nearly the same scalar product with the
/// normal.
proof fn lemma_unit_of_exit(o: Vec3, n: Vec3)
    requires
        magnitude(o.raw_norm_squared() - 0x1_0000_0000_0000_0000) <= 426 * 0x1_0000_0000,
        max_magnitude(n) <= 0x1_0000_0000 + 7,
    ensures
        !o.is_zero(),
        is_near_unit(o.spec_unit_vector()),
        max_magnitude(o) <= 0x1_0000_0000 + 213,
        magnitude(o.spec_unit_vector().x.raw - o.x.raw) <= 216,
        magnitude(o.spec_unit_vector().y.raw - o.y.raw) <= 216,
        magnitude(o.spec_unit_vector().z.raw - o.z.raw) <= 216,
        magnitude(
            (o.spec_unit_vector().x.raw * n.x.raw + o.spec_unit_vector().y.raw * n.y.raw
                + o.spec_unit_vector().z.raw * n.z.raw) - (o.x.raw * n.x.raw + o.y.raw * n.y.raw
                + o.z.raw * n.z.raw),
        ) <= 649 * 0x1_0000_0000,
{
    let s = 0x1_0000_0000int;
    assert(s == SCALE);
    let (x, y, z) = (o.x.raw as int, o.y.raw as int, o.z.raw as int);
    let (nx, ny, nz) = (n.x.raw as int, n.y.raw as int, n.z.raw as int);
    let norm = o.raw_norm_squared();
    assert(magnitude(x) <= s + 213 && magnitude(y) <= s + 213 && magnitude(z) <= s + 213)
        by (nonlinear_arith)
        requires
            x * x + y * y + z * z <= 0x1_0000_0000_0000_0000 + 426 * s,
            s == 0x1_0000_0000,
    ;
    if o.is_zero() {
        assert(norm == 0) by (nonlinear_arith)
            requires
                norm == x * x + y * y + z * z,
                x == 0 && y == 0 && z == 0,
        ;
    }
    lemma_unit_vector_unclamped(o);
    let len = isqrt(norm);
    assert(s - 214 <= len <= s + 213) by (nonlinear_arith)
        requires
            0 <= len,
            len * len <= norm < (len + 1) * (len + 1),
            0x1_0000_0000_0000_0000 - 426 * s <= norm <= 0x1_0000_0000_0000_0000 + 426 * s,
            s == 0x1_0000_0000,
    ;
    lemma_unit_vector_near_unit(o);
    lemma_unit_component_within(x, len);
    lemma_unit_component_within(y, len);
    lemma_unit_component_within(z, len);
    let u = o.spec_unit_vector();
    let (ux, uy, uz) = (u.x.raw as int, u.y.raw as int, u.z.raw as int);
    lemma_product_bound(ux - x, nx, 216, s + 7);
    lemma_product_bound(uy - y, ny, 216, s + 7);
    lemma_product_bound(uz - z, nz, 216, s + 7);
    assert((ux - x) * nx == ux * nx - x * nx && (uy - y) * ny == uy * ny - y * ny && (uz - z) * nz
        == uz * nz - z * nz) by (nonlinear_arith);
}

/// One component of the perpendicular part of the second refraction is
/// within 4274 units in the last place of that of the first before it was
/// scaled: scaling by a ratio and then by its inverse leaves a vector as
/// it is. Here `g` is the component before scaling and `p` after it, `g2`
/// and `pb` are those of the second refraction, and `g2` is within 1063
/// units of `p`.
proof fn lemma_scaled_back(g: int, p: int, g2: int, pb: int, eta: int, eta2: int)
    requires
        magnitude(g) <= 2 * 0x1_0000_0000 + 34,
        -0x1_0000_0000 < eta * g - 0x1_0000_0000 * p < 0x1_0000_0000,
        -0x1_0000_0000 < eta2 * g2 - 0x1_0000_0000 * pb < 0x1_0000_0000,
        magnitude(g2 - p) <= 1063,
        0 <= eta2 <= 4 * 0x1_0000_0000,
        magnitude(eta * eta2 - 0x1_0000_0000_0000_0000) <= 8 * 0x1_0000_0000,
    ensures
        magnitude(pb - g) <= 4274,
{
    let s = 0x1_0000_0000int;
    let s2 = 0x1_0000_0000_0000_0000int;
    let tau = eta * g - s * p;
    let tau2 = eta2 * g2 - s * pb;
    let delta = g2 - p;
    let kappa = eta * eta2 - s2;
    // eta2 * (s * g2) in two ways.
    assert(eta2 * (s * g2) == s * (eta2 * g2)) by (nonlinear_arith);
    assert(eta2 * (s * g2) == (eta * eta2) * g - eta2 * tau + s * (eta2 * delta)) by (nonlinear_arith)
        requires
            s * g2 == eta * g - tau + s * delta,
    ;
    assert((eta * eta2) * g == s2 * g + kappa * g) by (nonlinear_arith)
        requires
            kappa == eta * eta2 - s2,
    ;
    lemma_product_bound(kappa, g, 8 * s, 2 * s + 34);
    lemma_product_bound(eta2, tau, 4 * s, s);
    lemma_product_bound(eta2, delta, 4 * s, 1063);
    assert((8 * s) * (2 * s + 34) == 16 * s2 + 272 * s && (4 * s) * s == 4 * s2);
    assert(s2 * (pb - g) == kappa * g - eta2 * tau + s * (eta2 * delta) - s * tau2);
}

/// The difference of the squares of two numbers that differ by at most
/// 4274, the second little more than twice the scale in magnitude.
proof fn lemma_square_near(p: int, g: int)
    requires
        magnitude(p - g) <= 4274,
        magnitude(g) <= 2 * 0x1_0000_0000 + 34,
    ensures
        magnitude(p * p - g * g) <= 4274 * (4 * 0x1_0000_0000 + 4342),
{
    lemma_product_bound(p - g, p + g, 4274, 4 * 0x1_0000_0000int + 4342);
    assert((p - g) * (p + g) == p * p - g * g) by (nonlinear_arith);
}

/// A square root of nearly the square of `c` is near `c`: within two to
/// the power of twenty-four where the square is missed by at most 52000
/// times the scale.
proof fn lemma_root_within(c: int, e: int, root: int)
    by (nonlinear_arith)
    requires
        0 <= c <= 0x1_0000_0000,
        -52000 * 0x1_0000_0000 <= e <= 52000 * 0x1_0000_0000,
        0 <= root,
        root * root <= magnitude(c * c + e) < (root + 1) * (root + 1),
    ensures
        magnitude(root - c) <= 0x100_0000,
{
}

/// Raw value of the cosine of the angle of incidence of `v` on `n`.
pub open spec fn spec_cosine_raw(v: Vec3, n: Vec3) -> int {
    Vec3::spec_cos_theta(v.spec_unit_vector(), n).raw as int
}

/// Raw components of the perpendicular part of a refraction before it is
/// scaled by the ratio: the unit vector of `v` and the normal times the
/// cosine.
pub open spec fn spec_unscaled_perp(v: Vec3, n: Vec3) -> (int, int, int) {
    let u = v.spec_unit_vector();
    let c = spec_cosine_raw(v, n);
    (
        u.x.raw + mul_raw(c, n.x.raw as int),
        u.y.raw + mul_raw(c, n.y.raw as int),
        u.z.raw + mul_raw(c, n.z.raw as int),
    )
}

/// Raw value of the root of what the perpendicular part of a refraction
/// leaves of one.
pub open spec fn spec_exit_root(v: Vec3, n: Vec3, eta: Fixed) -> int {
    Fixed::one().sub_spec(
        v.spec_refract_perp(n, eta).spec_length_squared(),
    ).spec_abs().spec_sqrt().raw as int
}

/// The sum of the squares of three raw values.
pub open spec fn sum_of_squares(g: (int, int, int)) -> int {
    g.0 * g.0 + g.1 * g.1 + g.2 * g.2
}

/// What is known of a first refraction that is not a total reflection.
proof fn lemma_first_refraction(v: Vec3, n: Vec3, eta: Fixed)
    requires
        max_magnitude(v) <= 0x2000_0000_0000_0000,
        v.spec_length().raw >= 0x4000_0000,
        is_near_unit(n),
        spec_cosine_raw(v, n) >= 0,
        is_moderate_ratio(eta),
        v.spec_refract_perp(n, eta).spec_length_squared().raw <= SCALE,
    ensures
        ({
            let u = v.spec_unit_vector();
            let c = spec_cosine_raw(v, n);
            let g = spec_unscaled_perp(v, n);
            let p = v.spec_refract_perp(n, eta);
            let root = spec_exit_root(v, n, eta);
            let out = v.spec_refract(n, eta);
            &&& 0 <= c <= 0x1_0000_0000
            &&& magnitude(g.0) <= 2 * 0x1_0000_0000 + 34
            &&& magnitude(g.1) <= 2 * 0x1_0000_0000 + 34
            &&& magnitude(g.2) <= 2 * 0x1_0000_0000 + 34
            &&& -0x1_0000_0000 < eta.raw * g.0 - 0x1_0000_0000 * p.x.raw < 0x1_0000_0000
            &&& -0x1_0000_0000 < eta.raw * g.1 - 0x1_0000_0000 * p.y.raw < 0x1_0000_0000
            &&& -0x1_0000_0000 < eta.raw * g.2 - 0x1_0000_0000 * p.z.raw < 0x1_0000_0000
            &&& magnitude(sum_of_squares(g) - 0x1_0000_0000_0000_0000 + c * c) <= 89
                * 0x1_0000_0000
            &&& 0 <= root <= 0x1_0000_0000
            &&& out.x.raw == p.x.raw - mul_raw(root, n.x.raw as int)
            &&& out.y.raw == p.y.raw - mul_raw(root, n.y.raw as int)
            &&& out.z.raw == p.z.raw - mul_raw(root, n.z.raw as int)
            &&& magnitude(out.raw_norm_squared() - 0x1_0000_0000_0000_0000) <= 426 * 0x1_0000_0000
            &&& magnitude(
                out.x.raw * n.x.raw + out.y.raw * n.y.raw + out.z.raw * n.z.raw + 0x1_0000_0000
                    * root,
            ) <= 192 * 0x1_0000_0000
        }),
{
    let s = 0x1_0000_0000int;
    let s2 = 0x1_0000_0000_0000_0000int;
    assert(s == SCALE);
    assert(SCALE * SCALE == 0x1_0000_0000_0000_0000) by (nonlinear_arith)
        requires
            SCALE == 0x1_0000_0000,
    ;
    let u = v.spec_unit_vector();
    lemma_unit_vector_near_unit(v);
    lemma_near_unit_components(u);
    lemma_near_unit_components(n);
    lemma_cosine_unclamped(u, n);
    lemma_refract_unclamped(v, n, eta);
    let (ux, uy, uz) = (u.x.raw as int, u.y.raw as int, u.z.raw as int);
    let (nx, ny, nz) = (n.x.raw as int, n.y.raw as int, n.z.raw as int);
    let c = spec_cosine_raw(v, n);
    let e = eta.raw as int;
    let a = ux * nx + uy * ny + uz * nz;
    assert(magnitude(a + s * c) <= 22 * s);
    let (wx, wy, wz) = (mul_raw(c, nx), mul_raw(c, ny), mul_raw(c, nz));
    assert((s + 19) * (s + 7) <= (s + 27) * s) by (nonlinear_arith)
        requires
            s == 0x1_0000_0000,
    ;
    lemma_mul_raw_bound(c, nx, s + 19, s + 7, s + 27);
    lemma_mul_raw_bound(c, ny, s + 19, s + 7, s + 27);
    lemma_mul_raw_bound(c, nz, s + 19, s + 7, s + 27);
    lemma_trunc_div_remainder(c * nx, s);
    lemma_trunc_div_remainder(c * ny, s);
    lemma_trunc_div_remainder(c * nz, s);
    let (gx, gy, gz) = (ux + wx, uy + wy, uz + wz);
    lemma_trunc_div_remainder(e * gx, s);
    lemma_trunc_div_remainder(e * gy, s);
    lemma_trunc_div_remainder(e * gz, s);
    let p = v.spec_refract_perp(n, eta);
    let (px, py, pz) = (p.x.raw as int, p.y.raw as int, p.z.raw as int);
    lemma_perp_norm((ux, uy, uz), (nx, ny, nz), (wx, wy, wz), c);
    assert(s2 * s2 == 0x1_0000_0000_0000_0000 * 0x1_0000_0000_0000_0000);
    assert(0x1_0000_0000_0000_0000 * 0x1_0000_0000 == 0x1_0000_0000_0000_0000_0000_0000int);
    lemma_perp_against_normal((ux, uy, uz), (nx, ny, nz), (wx, wy, wz), (px, py, pz), c, e);
    // The root, and the part along the normal.
    let len2 = p.spec_length_squared().raw as int;
    lemma_trunc_div_remainder(px * px, s);
    lemma_trunc_div_remainder(py * py, s);
    lemma_trunc_div_remainder(pz * pz, s);
    assert(px * px >= 0 && py * py >= 0 && pz * pz >= 0) by (nonlinear_arith);
    let root = spec_exit_root(v, n, eta);
    lemma_isqrt_bounds((s - len2) * s);
    let (xx, xy, xz) = (mul_raw(root, nx), mul_raw(root, ny), mul_raw(root, nz));
    lemma_trunc_div_remainder(root * nx, s);
    lemma_trunc_div_remainder(root * ny, s);
    lemma_trunc_div_remainder(root * nz, s);
    lemma_exit_norm((nx, ny, nz), (px, py, pz), (xx, xy, xz), len2, root);
}

/// What is known of a second refraction, of a vector that left a first
/// one: its perpendicular part before scaling is within 1063 units in the
/// last place of that of the first after scaling. Here `root` is the root
/// of the first refraction.
proof fn lemma_second_refraction(o: Vec3, n: Vec3, eta2: Fixed, root: int)
    requires
        magnitude(o.raw_norm_squared() - 0x1_0000_0000_0000_0000) <= 426 * 0x1_0000_0000,
        is_near_unit(n),
        is_moderate_ratio(eta2),
        0 <= root <= 0x1_0000_0000,
        magnitude(o.x.raw * n.x.raw + o.y.raw * n.y.raw + o.z.raw * n.z.raw + 0x1_0000_0000 * root)
            <= 192 * 0x1_0000_0000,
    ensures
        ({
            let g2 = spec_unscaled_perp(o, n);
            let pb = o.spec_refract_perp(n, eta2);
            let len2 = pb.spec_length_squared().raw as int;
            let root2 = spec_exit_root(o, n, eta2);
            let out2 = o.spec_refract(n, eta2);
            &&& magnitude(g2.0 - (o.x.raw + mul_raw(root, n.x.raw as int))) <= 1063
            &&& magnitude(g2.1 - (o.y.raw + mul_raw(root, n.y.raw as int))) <= 1063
            &&& magnitude(g2.2 - (o.z.raw + mul_raw(root, n.z.raw as int))) <= 1063
            &&& -0x1_0000_0000 < eta2.raw * g2.0 - 0x1_0000_0000 * pb.x.raw < 0x1_0000_0000
            &&& -0x1_0000_0000 < eta2.raw * g2.1 - 0x1_0000_0000 * pb.y.raw < 0x1_0000_0000
            &&& -0x1_0000_0000 < eta2.raw * g2.2 - 0x1_0000_0000 * pb.z.raw < 0x1_0000_0000
            &&& 0 <= pb.raw_norm_squared() - 0x1_0000_0000 * len2 < 3 * 0x1_0000_0000
            &&& 0 <= root2
            &&& root2 * root2 <= magnitude(0x1_0000_0000 - len2) * 0x1_0000_0000 < (root2 + 1) * (
            root2 + 1)
            &&& out2.x.raw == pb.x.raw - mul_raw(root2, n.x.raw as int)
            &&& out2.y.raw == pb.y.raw - mul_raw(root2, n.y.raw as int)
            &&& out2.z.raw == pb.z.raw - mul_raw(root2, n.z.raw as int)
        }),
{
    let s = 0x1_0000_0000int;
    assert(s == SCALE);
    lemma_near_unit_components(n);
    lemma_unit_of_exit(o, n);
    let u2 = o.spec_unit_vector();
    lemma_near_unit_components(u2);
    lemma_cosine_unclamped(u2, n);
    lemma_refract_unclamped(o, n, eta2);
    let (nx, ny, nz) = (n.x.raw as int, n.y.raw as int, n.z.raw as int);
    let c2 = spec_cosine_raw(o, n);
    let d2 = dot_raw(u2, n);
    let a2 = u2.x.raw * n.x.raw + u2.y.raw * n.y.raw + u2.z.raw * n.z.raw;
    // The cosine of the second refraction is the root of the first.
    assert(magnitude(a2 + s * root) <= 841 * s);
    assert(magnitude(-d2 - root) <= 844);
    assert(magnitude(root - c2) <= 844);
    lemma_multiples_near(c2, root, nx, 844);
    lemma_multiples_near(c2, root, ny, 844);
    lemma_multiples_near(c2, root, nz, 844);
    // The scaling, the squared length and the root.
    let g2 = spec_unscaled_perp(o, n);
    let e2 = eta2.raw as int;
    lemma_trunc_div_remainder(e2 * g2.0, s);
    lemma_trunc_div_remainder(e2 * g2.1, s);
    lemma_trunc_div_remainder(e2 * g2.2, s);
    let pb = o.spec_refract_perp(n, eta2);
    let (px, py, pz) = (pb.x.raw as int, pb.y.raw as int, pb.z.raw as int);
    lemma_trunc_div_remainder(px * px, s);
    lemma_trunc_div_remainder(py * py, s);
    lemma_trunc_div_remainder(pz * pz, s);
    assert(px * px >= 0 && py * py >= 0 && pz * pz >= 0) by (nonlinear_arith);
    let len2 = pb.spec_length_squared().raw as int;
    lemma_isqrt_bounds(magnitude(s - len2) * s);
}

/// A refraction followed by the opposite refraction restores the direction,
/// up to rounding. For a vector whose length is at least a quarter and
/// whose components are at most two to the power of twenty-nine, a normal
/// that is a unit vector up to rounding and does not point along the
/// vector, and two ratios between a quarter and four whose product is one
/// up to eight units in the last place: where the first refraction is not a
/// total reflection, each component of what the second one returns differs
/// from that of the unit vector of the vector by at most two to the power
/// of minus eight and two to the power of minus nineteen together.
pub proof fn lemma_refract_round_trip(v: Vec3, n: Vec3, eta: Fixed, eta2: Fixed)
    requires
        max_magnitude(v) <= 0x2000_0000_0000_0000,
        v.spec_length().raw >= 0x4000_0000,
        is_near_unit(n),
        spec_cosine_raw(v, n) >= 0,
        is_moderate_ratio(eta),
        is_moderate_ratio(eta2),
        magnitude(eta.raw * eta2.raw - SCALE * SCALE) <= 8 * SCALE,
        v.spec_refract_perp(n, eta).spec_length_squared().raw <= SCALE,
    ensures
        ({
            let back = v.spec_refract(n, eta).spec_refract(n, eta2);
            let u = v.spec_unit_vector();
            &&& magnitude(back.x.raw - u.x.raw) <= 0x100_0000 + 0x2000
            &&& magnitude(back.y.raw - u.y.raw) <= 0x100_0000 + 0x2000
            &&& magnitude(back.z.raw - u.z.raw) <= 0x100_0000 + 0x2000
        }),
{
    let s = 0x1_0000_0000int;
    let s2 = 0x1_0000_0000_0000_0000int;
    assert(s == SCALE);
    assert(SCALE * SCALE == 0x1_0000_0000_0000_0000) by (nonlinear_arith)
        requires
            SCALE == 0x1_0000_0000,
    ;
    lemma_first_refraction(v, n, eta);
    let o = v.spec_refract(n, eta);
    let root = spec_exit_root(v, n, eta);
    lemma_second_refraction(o, n, eta2, root);
    lemma_near_unit_components(n);
    let (nx, ny, nz) = (n.x.raw as int, n.y.raw as int, n.z.raw as int);
    let c = spec_cosine_raw(v, n);
    let g = spec_unscaled_perp(v, n);
    let p = v.spec_refract_perp(n, eta);
    let g2 = spec_unscaled_perp(o, n);
    let pb = o.spec_refract_perp(n, eta2);
    let (qx, qy, qz) = (pb.x.raw as int, pb.y.raw as int, pb.z.raw as int);
    // Scaling by the ratio and back.
    lemma_scaled_back(g.0, p.x.raw as int, g2.0, qx, eta.raw as int, eta2.raw as int);
    lemma_scaled_back(g.1, p.y.raw as int, g2.1, qy, eta.raw as int, eta2.raw as int);
    lemma_scaled_back(g.2, p.z.raw as int, g2.2, qz, eta.raw as int, eta2.raw as int);
    lemma_square_near(qx, g.0);
    lemma_square_near(qy, g.1);
    lemma_square_near(qz, g.2);
    // The root of the second refraction is the cosine of the first.
    let len2 = pb.spec_length_squared().raw as int;
    let root2 = spec_exit_root(o, n, eta2);
    let e = s * (s - len2) - c * c;
    assert(4274 * (4 * s + 4342) * 3 <= 51289 * s);
    assert(-52000 * s <= e <= 52000 * s);
    assert(magnitude(s - len2) * s == magnitude(c * c + e)) by (nonlinear_arith)
        requires
            e == s * (s - len2) - c * c,
            s > 0,
    ;
    lemma_root_within(c, e, root2);
    lemma_multiples_near(c, root2, nx, 0x100_0000);
    lemma_multiples_near(c, root2, ny, 0x100_0000);
    lemma_multiples_near(c, root2, nz, 0x100_0000);
}

} // verus!
