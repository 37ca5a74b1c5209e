//! How close to the incoming direction a refraction at matched indices
//! stays.

use vstd::prelude::*;
use vstd::std_specs::ops::{AddSpec, MulSpec, NegSpec, SubSpec};
use crate::fixed::{
    isqrt, lemma_isqrt_bounds, lemma_trunc_div_negated, lemma_trunc_div_remainder, trunc_div,
    Fixed, SCALE,
};
use crate::rounding::{
    dot_raw, is_near_unit, lemma_distribute, lemma_mul_raw_bound, lemma_near_unit_components,
    lemma_product_bound, lemma_unit_vector_near_unit, magnitude, max_magnitude, mul_raw,
};
use crate::hittable::HitRecord;
use crate::material::Dielectric;
use crate::ray::Ray;
use crate::vec3::Vec3;

verus! {

/// The product of two squares is the square of the product.
proof fn lemma_square_product(a: int, b: int)
    by (nonlinear_arith)
    ensures
        (a * a) * (b * b) == (a * b) * (a * b),
{
}

/// Twice a product of four numbers is at most the sum of the squares of the
/// cross products.
proof fn lemma_cross_terms(a: int, b: int, d: int, e: int)
    ensures
        2 * ((a * d) * (b * e)) <= (a * e) * (a * e) + (b * d) * (b * d),
{
    let x = a * e;
    let y = b * d;
    assert((a * d) * (b * e) == x * y) by (nonlinear_arith)
        requires
            x == a * e,
            y == b * d,
    ;
    assert(2 * (x * y) <= x * x + y * y) by (nonlinear_arith);
}

/// A sum of three numbers times another is the sum of the nine products.
proof fn lemma_distribute_both(a: int, b: int, c: int, d: int, e: int, f: int)
    by (nonlinear_arith)
    ensures
        (a + b + c) * (d + e + f) == a * d + a * e + a * f + b * d + b * e + b * f + c * d + c * e
            + c * f,
{
}

/// The square of a scalar product is at most the product of the squared
/// lengths.
pub proof fn lemma_cauchy_schwarz(x: (int, int, int), y: (int, int, int))
    ensures
        (x.0 * y.0 + x.1 * y.1 + x.2 * y.2) * (x.0 * y.0 + x.1 * y.1 + x.2 * y.2) <= (x.0 * x.0
            + x.1 * x.1 + x.2 * x.2) * (y.0 * y.0 + y.1 * y.1 + y.2 * y.2),
{
    let (a, b, c) = x;
    let (d, e, f) = y;
    lemma_distribute_both(a * d, b * e, c * f, a * d, b * e, c * f);
    lemma_distribute_both(a * a, b * b, c * c, d * d, e * e, f * f);
    lemma_square_product(a, d);
    lemma_square_product(a, e);
    lemma_square_product(a, f);
    lemma_square_product(b, d);
    lemma_square_product(b, e);
    lemma_square_product(b, f);
    lemma_square_product(c, d);
    lemma_square_product(c, e);
    lemma_square_product(c, f);
    lemma_cross_terms(a, b, d, e);
    lemma_cross_terms(a, c, d, f);
    lemma_cross_terms(b, c, e, f);
    assert((b * e) * (a * d) == (a * d) * (b * e)) by (nonlinear_arith);
    assert((c * f) * (a * d) == (a * d) * (c * f)) by (nonlinear_arith);
    assert((c * f) * (b * e) == (b * e) * (c * f)) by (nonlinear_arith);
}

/// The cosine of the angle of incidence of a unit vector `u` on a normal
/// `n`, both unit vectors up to rounding: minus their scalar product, which
/// exceeds one by at most nineteen units in the last place.
pub proof fn lemma_cosine_unclamped(u: Vec3, n: Vec3)
    requires
        is_near_unit(u),
        is_near_unit(n),
    ensures
        u.neg_spec().spec_dot(n).raw == -dot_raw(u, n),
        magnitude(dot_raw(u, n)) <= SCALE + 19,
        magnitude(u.x.raw * n.x.raw + u.y.raw * n.y.raw + u.z.raw * n.z.raw - SCALE * dot_raw(u, n))
            < 3 * SCALE,
        Vec3::spec_cos_theta(u, n).raw == if -dot_raw(u, n) > SCALE {
            SCALE as int
        } else {
            -dot_raw(u, n)
        },
{
    let s = 0x1_0000_0000int;
    assert(s == SCALE);
    lemma_near_unit_components(u);
    lemma_near_unit_components(n);
    let (ux, uy, uz) = (u.x.raw as int, u.y.raw as int, u.z.raw as int);
    let (nx, ny, nz) = (n.x.raw as int, n.y.raw as int, n.z.raw as int);
    assert((s + 7) * (s + 7) <= (2 * s) * s) by (nonlinear_arith)
        requires
            s == 0x1_0000_0000,
    ;
    lemma_mul_raw_bound(ux, nx, s + 7, s + 7, 2 * s);
    lemma_mul_raw_bound(uy, ny, s + 7, s + 7, 2 * s);
    lemma_mul_raw_bound(uz, nz, s + 7, s + 7, 2 * s);
    assert((-ux) * nx == -(ux * nx) && (-uy) * ny == -(uy * ny) && (-uz) * nz == -(uz * nz))
        by (nonlinear_arith);
    lemma_trunc_div_negated(ux * nx, s);
    lemma_trunc_div_negated(uy * ny, s);
    lemma_trunc_div_negated(uz * nz, s);
    lemma_trunc_div_remainder(ux * nx, s);
    lemma_trunc_div_remainder(uy * ny, s);
    lemma_trunc_div_remainder(uz * nz, s);
    let a = ux * nx + uy * ny + uz * nz;
    let d = dot_raw(u, n);
    lemma_cauchy_schwarz((ux, uy, uz), (nx, ny, nz));
    let nu = ux * ux + uy * uy + uz * uz;
    let nn = nx * nx + ny * ny + nz * nz;
    assert(SCALE * SCALE == 0x1_0000_0000_0000_0000) by (nonlinear_arith)
        requires
            SCALE == 0x1_0000_0000,
    ;
    let top = 0x1_0000_0000_0000_0000 + 16 * s;
    assert(nu >= 0 && nn >= 0) by (nonlinear_arith)
        requires
            nu == ux * ux + uy * uy + uz * uz,
            nn == nx * nx + ny * ny + nz * nz,
    ;
    assert(nu * nn <= top * top) by (nonlinear_arith)
        requires
            0 <= nu <= top,
            0 <= nn <= top,
    ;
    assert(magnitude(a) <= top) by (nonlinear_arith)
        requires
            a * a <= nu * nn,
            nu * nn <= top * top,
            top >= 0,
    ;
}

/// The square of one component of the perpendicular part, scaled: with `u`
/// the component of the unit direction, `w` that of the normal times the
/// cosine `c`, and `sigma` what rounding took off `w`.
proof fn lemma_perp_component(u: int, n: int, w: int, c: int, sigma: int)
    requires
        0x1_0000_0000 * w == c * n - sigma,
    ensures
        0x1_0000_0000_0000_0000 * ((u + w) * (u + w)) == 0x1_0000_0000_0000_0000 * (u * u)
            + 0x2_0000_0000 * (c * (u * n)) - 0x2_0000_0000 * (u * sigma) + (c * c) * (n * n) - 2
            * (c * (n * sigma)) + sigma * sigma,
{
    let a = 0x1_0000_0000 * u;
    let b = c * n;
    let y = 0x1_0000_0000 * (u + w);
    assert(y == a + b - sigma);
    assert(y * y == 0x1_0000_0000_0000_0000 * ((u + w) * (u + w))) by (nonlinear_arith)
        requires
            y == 0x1_0000_0000 * (u + w),
    ;
    assert(y * y == a * a + b * b + sigma * sigma + 2 * (a * b) - 2 * (a * sigma) - 2 * (b * sigma))
        by (nonlinear_arith)
        requires
            y == a + b - sigma,
    ;
    assert(a * a == 0x1_0000_0000_0000_0000 * (u * u)) by (nonlinear_arith)
        requires
            a == 0x1_0000_0000 * u,
    ;
    assert(b * b == (c * c) * (n * n)) by (nonlinear_arith)
        requires
            b == c * n,
    ;
    assert(a * b == 0x1_0000_0000 * (c * (u * n))) by (nonlinear_arith)
        requires
            a == 0x1_0000_0000 * u,
            b == c * n,
    ;
    assert(a * sigma == 0x1_0000_0000 * (u * sigma)) by (nonlinear_arith)
        requires
            a == 0x1_0000_0000 * u,
    ;
    assert(b * sigma == c * (n * sigma)) by (nonlinear_arith)
        requires
            b == c * n,
    ;
}

/// The squared length of the perpendicular part: one minus the squared
/// cosine, up to eighty-nine units in the last place. Stated for the unit
/// direction `u`, the normal `n`, the cosine `c` and the normal times the
/// cosine `w`, all as raw values.
pub proof fn lemma_perp_norm(u: (int, int, int), n: (int, int, int), w: (int, int, int), c: int)
    requires
        magnitude(u.0 * u.0 + u.1 * u.1 + u.2 * u.2 - 0x1_0000_0000_0000_0000) <= 16
            * 0x1_0000_0000,
        magnitude(n.0 * n.0 + n.1 * n.1 + n.2 * n.2 - 0x1_0000_0000_0000_0000) <= 16
            * 0x1_0000_0000,
        magnitude(u.0) <= 0x1_0000_0000 + 7,
        magnitude(u.1) <= 0x1_0000_0000 + 7,
        magnitude(u.2) <= 0x1_0000_0000 + 7,
        magnitude(n.0) <= 0x1_0000_0000 + 7,
        magnitude(n.1) <= 0x1_0000_0000 + 7,
        magnitude(n.2) <= 0x1_0000_0000 + 7,
        magnitude(c) <= 0x1_0000_0000,
        magnitude(u.0 * n.0 + u.1 * n.1 + u.2 * n.2 + 0x1_0000_0000 * c) <= 22 * 0x1_0000_0000,
        -0x1_0000_0000 < c * n.0 - 0x1_0000_0000 * w.0 < 0x1_0000_0000,
        -0x1_0000_0000 < c * n.1 - 0x1_0000_0000 * w.1 < 0x1_0000_0000,
        -0x1_0000_0000 < c * n.2 - 0x1_0000_0000 * w.2 < 0x1_0000_0000,
    ensures
        magnitude(
            0x1_0000_0000_0000_0000 * ((u.0 + w.0) * (u.0 + w.0) + (u.1 + w.1) * (u.1 + w.1) + (u.2
                + w.2) * (u.2 + w.2)) - 0x1_0000_0000_0000_0000 * 0x1_0000_0000_0000_0000
                + 0x1_0000_0000_0000_0000 * (c * c),
        ) <= 89 * (0x1_0000_0000_0000_0000 * 0x1_0000_0000),
{
    let s = 0x1_0000_0000int;
    let s2 = 0x1_0000_0000_0000_0000int;
    let (ux, uy, uz) = u;
    let (nx, ny, nz) = n;
    let (wx, wy, wz) = w;
    let (gx, gy, gz) = (c * nx - s * wx, c * ny - s * wy, c * nz - s * wz);
    lemma_perp_component(ux, nx, wx, c, gx);
    lemma_perp_component(uy, ny, wy, c, gy);
    lemma_perp_component(uz, nz, wz, c, gz);
    let nu = ux * ux + uy * uy + uz * uz;
    let nn = nx * nx + ny * ny + nz * nz;
    let a = ux * nx + uy * ny + uz * nz;
    let cc = c * c;
    let us = ux * gx + uy * gy + uz * gz;
    let ns = nx * gx + ny * gy + nz * gz;
    let ss = gx * gx + gy * gy + gz * gz;
    let pp = (ux + wx) * (ux + wx) + (uy + wy) * (uy + wy) + (uz + wz) * (uz + wz);
    lemma_distribute(c, ux * nx, uy * ny, uz * nz);
    lemma_distribute(cc, nx * nx, ny * ny, nz * nz);
    lemma_distribute(c, nx * gx, ny * gy, nz * gz);
    assert(s2 * pp == s2 * nu + 0x2_0000_0000 * (c * a) - 0x2_0000_0000 * us + cc * nn - 2 * (c
        * ns) + ss);
    // The sizes of the parts.
    let rho = a + s * c;
    assert(c * a == c * rho - s * cc) by (nonlinear_arith)
        requires
            rho == a + s * c,
            cc == c * c,
    ;
    let eta = nn - s2;
    assert(cc * nn == s2 * cc + cc * eta) by (nonlinear_arith)
        requires
            eta == nn - s2,
    ;
    lemma_product_bound(c, rho, s, 22 * s);
    lemma_product_bound(c, c, s, s);
    lemma_product_bound(cc, eta, s * s, 16 * s);
    lemma_product_bound(ux, gx, s + 7, s);
    lemma_product_bound(uy, gy, s + 7, s);
    lemma_product_bound(uz, gz, s + 7, s);
    lemma_product_bound(nx, gx, s + 7, s);
    lemma_product_bound(ny, gy, s + 7, s);
    lemma_product_bound(nz, gz, s + 7, s);
    lemma_product_bound(c, ns, s, 3 * ((s + 7) * s));
    lemma_product_bound(gx, gx, s, s);
    lemma_product_bound(gy, gy, s, s);
    lemma_product_bound(gz, gz, s, s);
    assert(s * s == s2 && (s + 7) * s == s2 + 7 * s && s * (22 * s) == 22 * s2 && (s * s) * (16 * s)
        == 16 * (s2 * s) && s * (3 * ((s + 7) * s)) == 3 * (s2 * s) + 21 * s2) by (nonlinear_arith)
        requires
            s == 0x1_0000_0000,
            s2 == 0x1_0000_0000_0000_0000,
    ;
    assert(s2 * s2 == 0x1_0000_0000_0000_0000 * 0x1_0000_0000_0000_0000);
    lemma_perp_combined(s2 * pp, nu, c * a, us, cc * nn, c * ns, ss, cc, c * rho, cc * eta, eta);
}

/// The sum of the parts of the squared length of the perpendicular part,
/// each product taken as a number of its own.
proof fn lemma_perp_combined(
    spp: int,
    nu: int,
    ca: int,
    us: int,
    ccnn: int,
    cns: int,
    ss: int,
    cc: int,
    crho: int,
    cceta: int,
    eta: int,
)
    requires
        spp == 0x1_0000_0000_0000_0000 * nu + 0x2_0000_0000 * ca - 0x2_0000_0000 * us + ccnn - 2
            * cns + ss,
        ca == crho - 0x1_0000_0000 * cc,
        ccnn == 0x1_0000_0000_0000_0000 * cc + cceta,
        magnitude(nu - 0x1_0000_0000_0000_0000) <= 16 * 0x1_0000_0000,
        magnitude(crho) <= 22 * 0x1_0000_0000_0000_0000,
        magnitude(us) <= 3 * (0x1_0000_0000_0000_0000 + 7 * 0x1_0000_0000),
        magnitude(cceta) <= 16 * (0x1_0000_0000_0000_0000 * 0x1_0000_0000),
        magnitude(cns) <= 3 * (0x1_0000_0000_0000_0000 * 0x1_0000_0000) + 21
            * 0x1_0000_0000_0000_0000,
        magnitude(ss) <= 3 * 0x1_0000_0000_0000_0000,
    ensures
        magnitude(
            spp - 0x1_0000_0000_0000_0000 * 0x1_0000_0000_0000_0000 + 0x1_0000_0000_0000_0000 * cc,
        ) <= 89 * (0x1_0000_0000_0000_0000 * 0x1_0000_0000),
{
}

/// A square root of nearly the square of `c` is near `c`: within two to
/// the power of twenty where the square is missed by at most ninety-two
/// times the scale.
proof fn lemma_root_near(c: int, e: int, root: int)
    by (nonlinear_arith)
    requires
        0 <= c <= 0x1_0000_0000,
        -92 * 0x1_0000_0000 <= e <= 92 * 0x1_0000_0000,
        0 <= root,
        root * root <= magnitude(c * c + e) < (root + 1) * (root + 1),
    ensures
        magnitude(root - c) <= 0x10_0000,
{
}

/// The difference of two multiples of one component of a normal, where the
/// factors differ by at most `gap`.
pub proof fn lemma_multiples_near(c: int, root: int, n: int, gap: int)
    requires
        magnitude(root - c) <= gap <= 0x1000_0000,
        magnitude(n) <= SCALE + 7,
    ensures
        magnitude(mul_raw(c, n) - mul_raw(root, n)) <= gap + 3,
{
    let s = 0x1_0000_0000int;
    assert(s == SCALE);
    lemma_trunc_div_remainder(c * n, s);
    lemma_trunc_div_remainder(root * n, s);
    lemma_product_bound(c - root, n, gap, s + 7);
    assert((c - root) * n == c * n - root * n) by (nonlinear_arith);
    assert(gap * (s + 7) + 2 * s <= (gap + 3) * s) by (nonlinear_arith)
        requires
            0 <= gap <= 0x1000_0000,
            s == 0x1_0000_0000,
    ;
}

/// Refraction at a ratio of one leaves a direction as it is, up to
/// rounding. For a vector whose length is at least a quarter and whose
/// components are at most two to the power of twenty-nine, and a normal
/// that is a unit vector up to rounding and does not point along the
/// vector, each component of the refracted direction differs from that of
/// the unit vector of the vector by at most two to the power of minus
/// twelve, and eight units in the last place.
pub proof fn lemma_refract_at_one(v: Vec3, n: Vec3)
    requires
        max_magnitude(v) <= 0x2000_0000_0000_0000,
        v.spec_length().raw >= 0x4000_0000,
        is_near_unit(n),
        Vec3::spec_cos_theta(v.spec_unit_vector(), n).raw >= 0,
    ensures
        ({
            let out = v.spec_refract(n, Fixed::one());
            let u = v.spec_unit_vector();
            &&& magnitude(out.x.raw - u.x.raw) <= 0x10_0000 + 8
            &&& magnitude(out.y.raw - u.y.raw) <= 0x10_0000 + 8
            &&& magnitude(out.z.raw - u.z.raw) <= 0x10_0000 + 8
        }),
{
    let s = 0x1_0000_0000int;
    let s2 = 0x1_0000_0000_0000_0000int;
    assert(s == SCALE);
    let u = v.spec_unit_vector();
    lemma_unit_vector_near_unit(v);
    lemma_near_unit_components(u);
    lemma_near_unit_components(n);
    lemma_cosine_unclamped(u, n);
    assert(SCALE * SCALE == 0x1_0000_0000_0000_0000) by (nonlinear_arith)
        requires
            SCALE == 0x1_0000_0000,
    ;
    let (ux, uy, uz) = (u.x.raw as int, u.y.raw as int, u.z.raw as int);
    let (nx, ny, nz) = (n.x.raw as int, n.y.raw as int, n.z.raw as int);
    let cos = Vec3::spec_cos_theta(u, n);
    let c = cos.raw as int;
    let d = dot_raw(u, n);
    let a = ux * nx + uy * ny + uz * nz;
    assert(magnitude(a + s * c) <= 22 * s);

    // The normal times the cosine, and the perpendicular part.
    assert(s * (s + 7) <= (2 * s) * s) by (nonlinear_arith)
        requires
            s == 0x1_0000_0000,
    ;
    lemma_mul_raw_bound(c, nx, s, s + 7, 2 * s);
    lemma_mul_raw_bound(c, ny, s, s + 7, 2 * s);
    lemma_mul_raw_bound(c, nz, s, s + 7, 2 * s);
    let (wx, wy, wz) = (mul_raw(c, nx), mul_raw(c, ny), mul_raw(c, nz));
    let (px, py, pz) = (ux + wx, uy + wy, uz + wz);
    assert(trunc_div(s * px, s) == px && trunc_div(s * py, s) == py && trunc_div(s * pz, s) == pz)
        by (nonlinear_arith)
        requires
            s == 0x1_0000_0000,
    ;
    assert(Fixed::spec_one().raw * px == s * px);
    let perp = v.spec_refract_perp(n, Fixed::one());
    assert(perp.x.raw == px && perp.y.raw == py && perp.z.raw == pz);

    // Its squared length, and what is left of one.
    assert((4 * s) * (4 * s) <= (16 * s) * s) by (nonlinear_arith);
    lemma_mul_raw_bound(px, px, 4 * s, 4 * s, 16 * s);
    lemma_mul_raw_bound(py, py, 4 * s, 4 * s, 16 * s);
    lemma_mul_raw_bound(pz, pz, 4 * s, 4 * s, 16 * s);
    lemma_trunc_div_remainder(px * px, s);
    lemma_trunc_div_remainder(py * py, s);
    lemma_trunc_div_remainder(pz * pz, s);
    assert(px * px >= 0 && py * py >= 0 && pz * pz >= 0) by (nonlinear_arith);
    let len2 = mul_raw(px, px) + mul_raw(py, py) + mul_raw(pz, pz);
    assert(perp.spec_length_squared().raw == len2);
    let pp = px * px + py * py + pz * pz;
    let rho_p = pp - s * len2;
    assert(0 <= rho_p < 3 * s);
    lemma_trunc_div_remainder(c * nx, s);
    lemma_trunc_div_remainder(c * ny, s);
    lemma_trunc_div_remainder(c * nz, s);
    lemma_perp_norm((ux, uy, uz), (nx, ny, nz), (wx, wy, wz), c);
    let e = s * (s - len2) - c * c;
    assert(s2 * s2 == 0x1_0000_0000_0000_0000 * 0x1_0000_0000_0000_0000);
    assert(s2 * e == -(s2 * pp - s2 * s2 + s2 * (c * c)) + s2 * rho_p);
    assert(-92 * s <= e <= 92 * s);
    let under = Fixed::one().sub_spec(perp.spec_length_squared()).spec_abs();
    assert(under.raw == magnitude(s - len2));
    assert(under.raw * SCALE == magnitude(c * c + e)) by (nonlinear_arith)
        requires
            under.raw == magnitude(s - len2),
            e == s * (s - len2) - c * c,
            s == 0x1_0000_0000,
            SCALE == 0x1_0000_0000,
    ;
    under.lemma_sqrt_bounds();
    lemma_isqrt_bounds(under.raw * SCALE);
    let root = under.spec_sqrt().raw as int;
    lemma_root_near(c, e, root);

    // The part along the normal, and the sum.
    assert((0x1_0000_0000_0000) * (s + 7) <= 0x2_0000_0000_0000 * s) by (nonlinear_arith)
        requires
            s == 0x1_0000_0000,
    ;
    lemma_mul_raw_bound(-root, nx, 0x1_0000_0000_0000, s + 7, 0x2_0000_0000_0000);
    lemma_mul_raw_bound(-root, ny, 0x1_0000_0000_0000, s + 7, 0x2_0000_0000_0000);
    lemma_mul_raw_bound(-root, nz, 0x1_0000_0000_0000, s + 7, 0x2_0000_0000_0000);
    assert((-root) * nx == -(root * nx) && (-root) * ny == -(root * ny) && (-root) * nz == -(root
        * nz)) by (nonlinear_arith);
    lemma_trunc_div_negated(root * nx, s);
    lemma_trunc_div_negated(root * ny, s);
    lemma_trunc_div_negated(root * nz, s);
    lemma_multiples_near(c, root, nx, 0x10_0000);
    lemma_multiples_near(c, root, ny, 0x10_0000);
    lemma_multiples_near(c, root, nz, 0x10_0000);
    let out = v.spec_refract(n, Fixed::one());
    assert(out.x.raw == px - mul_raw(root, nx));
    assert(out.y.raw == py - mul_raw(root, ny));
    assert(out.z.raw == pz - mul_raw(root, nz));
}

/// The unit vector of a vector that is a unit vector up to rounding differs
/// from it by at most twelve units in the last place in each component, and
/// the length of such a vector is at least the scale minus nine.
pub proof fn lemma_unit_of_near_unit(u: Vec3)
    requires
        is_near_unit(u),
    ensures
        u.spec_length().raw >= SCALE - 9,
        magnitude(u.spec_unit_vector().x.raw - u.x.raw) <= 12,
        magnitude(u.spec_unit_vector().y.raw - u.y.raw) <= 12,
        magnitude(u.spec_unit_vector().z.raw - u.z.raw) <= 12,
{
    let s = 0x1_0000_0000int;
    assert(s == SCALE);
    assert(SCALE * SCALE == 0x1_0000_0000_0000_0000) by (nonlinear_arith)
        requires
            SCALE == 0x1_0000_0000,
    ;
    lemma_near_unit_components(u);
    let (x, y, z) = (u.x.raw as int, u.y.raw as int, u.z.raw as int);
    let norm = u.raw_norm_squared();
    lemma_isqrt_bounds(norm);
    let len = isqrt(norm);
    assert(s - 9 <= len <= s + 8) by (nonlinear_arith)
        requires
            0 <= len,
            len * len <= norm < (len + 1) * (len + 1),
            0x1_0000_0000_0000_0000 - 16 * s <= norm <= 0x1_0000_0000_0000_0000 + 16 * s,
            s == 0x1_0000_0000,
    ;
    assert(u.spec_length().raw == len);
    lemma_unit_component_near(x, len);
    lemma_unit_component_near(y, len);
    lemma_unit_component_near(z, len);
}

/// One component of a vector that is nearly of unit length, divided by the
/// length, is within twelve of the component.
proof fn lemma_unit_component_near(x: int, len: int)
    requires
        magnitude(x) <= SCALE + 7,
        SCALE - 9 <= len <= SCALE + 8,
    ensures
        magnitude(trunc_div(x * SCALE, len) - x) <= 12,
        -0x7fff_ffff_ffff_ffff <= trunc_div(x * SCALE, len) <= 0x7fff_ffff_ffff_ffff,
{
    let s = 0x1_0000_0000int;
    assert(s == SCALE);
    lemma_trunc_div_remainder(x * s, len);
    let q = trunc_div(x * s, len);
    lemma_product_bound(x, s - len, s + 7, 9);
    assert(len * (q - x) == x * (s - len) - (x * s - len * q)) by (nonlinear_arith);
    assert(magnitude(q - x) <= 12) by (nonlinear_arith)
        requires
            len * (q - x) == x * (s - len) - (x * s - len * q),
            magnitude(x * (s - len)) <= (s + 7) * 9,
            magnitude(x * s - len * q) < len,
            s - 9 <= len,
            s == 0x1_0000_0000,
    ;
}

/// Glass of refractive index one lets light straight through, up to
/// rounding. Where the ray is not reflected, the direction of the scattered
/// ray differs from the unit direction of the incoming ray, in each
/// component, by at most two to the power of minus twelve and thirty-two
/// units in the last place. This is stated for a direction of a length of at
/// least a quarter and components of at most two to the power of
/// twenty-nine, and a normal that is a unit vector up to rounding and does
/// not point along the ray.
pub proof fn lemma_matched_index_keeps_direction(
    glass: Dielectric,
    r_in: Ray,
    rec: HitRecord,
    draw: Fixed,
)
    requires
        glass.index_of_refraction == Fixed::one(),
        max_magnitude(r_in.direction) <= 0x2000_0000_0000_0000,
        r_in.direction.spec_length().raw >= 0x4000_0000,
        is_near_unit(rec.normal),
        Vec3::spec_cos_theta(r_in.direction.spec_unit_vector().spec_unit_vector(), rec.normal).raw
            >= 0,
        !glass.spec_reflects(r_in, rec, draw),
    ensures
        ({
            let out = glass.spec_scatter(r_in, rec, draw).2.direction;
            let incoming = r_in.direction.spec_unit_vector();
            &&& magnitude(out.x.raw - incoming.x.raw) <= 0x10_0000 + 32
            &&& magnitude(out.y.raw - incoming.y.raw) <= 0x10_0000 + 32
            &&& magnitude(out.z.raw - incoming.z.raw) <= 0x10_0000 + 32
        }),
{
    let incoming = r_in.direction.spec_unit_vector();
    lemma_unit_vector_near_unit(r_in.direction);
    lemma_near_unit_components(incoming);
    lemma_unit_of_near_unit(incoming);
    glass.lemma_matched_index_refracts(r_in, rec, draw);
    lemma_refract_at_one(incoming, rec.normal);
}

} // verus!
