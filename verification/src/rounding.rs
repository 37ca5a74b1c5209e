//! How far rounding lets vector operations stray from the laws of exact
//! arithmetic.

use vstd::prelude::*;
use vstd::std_specs::ops::{MulSpec, SubSpec};
use crate::fixed::{
    isqrt, lemma_isqrt_bounds, lemma_trunc_div_magnitude, lemma_trunc_div_remainder, trunc_div,
    Fixed, SCALE,
};
use crate::vec3::Vec3;

verus! {

/// Largest raw magnitude of a component for which the bound on a double
/// reflection is stated: two to the power of fifty.
pub const REFLECT_RANGE_RAW: i64 = 0x4_0000_0000_0000;

/// Absolute value of an integer.
pub open spec fn magnitude(x: int) -> int {
    if x < 0 {
        -x
    } else {
        x
    }
}

/// The largest raw magnitude among the components of `v`.
pub open spec fn max_magnitude(v: Vec3) -> int {
    let x = magnitude(v.x.raw as int);
    let y = magnitude(v.y.raw as int);
    let z = magnitude(v.z.raw as int);
    if x >= y && x >= z {
        x
    } else if y >= z {
        y
    } else {
        z
    }
}

/// Whether `n` is a unit vector up to rounding: the exact sum of the squares
/// of its raw components misses the square of the scale by at most sixteen
/// times the scale, so that its squared length misses one by at most
/// sixteen units in the last place.
pub open spec fn is_near_unit(n: Vec3) -> bool {
    -16 * SCALE <= n.raw_norm_squared() - SCALE * SCALE <= 16 * SCALE
}

/// Raw value of the product of two scalars, before it is clamped.
pub open spec fn mul_raw(a: int, b: int) -> int {
    trunc_div(a * b, SCALE as int)
}

/// Raw value of the scalar product of two vectors, where nothing is
/// clamped.
pub open spec fn dot_raw(v: Vec3, n: Vec3) -> int {
    mul_raw(v.x.raw as int, n.x.raw as int) + mul_raw(v.y.raw as int, n.y.raw as int) + mul_raw(
        v.z.raw as int,
        n.z.raw as int,
    )
}

/// No component of a vector that is a unit vector up to rounding exceeds
/// the scale by more than seven.
pub proof fn lemma_near_unit_components(n: Vec3)
    requires
        is_near_unit(n),
    ensures
        max_magnitude(n) <= SCALE + 7,
{
    let x = n.x.raw as int;
    let y = n.y.raw as int;
    let z = n.z.raw as int;
    assert(magnitude(x) <= SCALE + 7 && magnitude(y) <= SCALE + 7 && magnitude(z) <= SCALE + 7)
        by (nonlinear_arith)
        requires
            x * x + y * y + z * z <= 0x1_0000_0000 * 0x1_0000_0000 + 16 * 0x1_0000_0000,
            SCALE == 0x1_0000_0000,
    ;
}

/// The product of a scalar of magnitude at most `a` and one of magnitude at
/// most `b`, where `a * b` is at most `bound` times the scale, has a
/// magnitude of at most `bound`.
pub proof fn lemma_mul_raw_bound(x: int, y: int, a: int, b: int, bound: int)
    requires
        magnitude(x) <= a,
        magnitude(y) <= b,
        a * b <= bound * SCALE,
    ensures
        magnitude(mul_raw(x, y)) <= bound,
        magnitude(x * y - SCALE * mul_raw(x, y)) < SCALE,
{
    assert(magnitude(x * y) <= a * b) by (nonlinear_arith)
        requires
            magnitude(x) <= a,
            magnitude(y) <= b,
    ;
    lemma_trunc_div_remainder(x * y, SCALE as int);
    let q = mul_raw(x, y);
    assert(magnitude(q) <= bound) by (nonlinear_arith)
        requires
            magnitude(x * y) <= bound * SCALE,
            magnitude(x * y - SCALE * q) < SCALE,
            x * y >= 0 ==> 0 <= x * y - SCALE * q,
            x * y <= 0 ==> x * y - SCALE * q <= 0,
            SCALE == 0x1_0000_0000,
    ;
}

/// Where nothing is clamped, a reflection is what its formula says on raw
/// values, and it enlarges no component beyond twelve times the largest.
proof fn lemma_reflect_unclamped(v: Vec3, n: Vec3, m: int)
    requires
        0 <= m <= 0x100_0000_0000_0000,
        max_magnitude(v) <= m,
        max_magnitude(n) <= SCALE + 7,
    ensures
        v.spec_dot(n).raw == dot_raw(v, n),
        magnitude(dot_raw(v, n)) <= 4 * m,
        v.spec_reflect(n).x.raw == v.x.raw - mul_raw(2 * dot_raw(v, n), n.x.raw as int),
        v.spec_reflect(n).y.raw == v.y.raw - mul_raw(2 * dot_raw(v, n), n.y.raw as int),
        v.spec_reflect(n).z.raw == v.z.raw - mul_raw(2 * dot_raw(v, n), n.z.raw as int),
        max_magnitude(v.spec_reflect(n)) <= 12 * m,
{
    let s = SCALE as int;
    // Three products of the scalar product, each at most four thirds of `m`.
    assert(3 * (m * (s + 7)) <= (4 * m) * s) by (nonlinear_arith)
        requires
            0 <= m,
            s == 0x1_0000_0000,
    ;
    let px = mul_raw(v.x.raw as int, n.x.raw as int);
    let py = mul_raw(v.y.raw as int, n.y.raw as int);
    let pz = mul_raw(v.z.raw as int, n.z.raw as int);
    lemma_third_bound(v.x.raw as int, n.x.raw as int, m);
    lemma_third_bound(v.y.raw as int, n.y.raw as int, m);
    lemma_third_bound(v.z.raw as int, n.z.raw as int, m);
    let d = px + py + pz;
    assert(magnitude(d) <= 4 * m);
    // Twice the scalar product is exact.
    assert(trunc_div((2 * s) * d, s) == 2 * d) by (nonlinear_arith)
        requires
            s == 0x1_0000_0000,
    ;
    assert(Fixed::spec_from_int(2).raw == 2 * s);
    let k = 2 * d;
    assert(Fixed::spec_from_int(2).mul_spec(v.spec_dot(n)).raw == k);
    // The three components of the part that is taken off.
    assert((8 * m) * (s + 7) <= (11 * m) * s) by (nonlinear_arith)
        requires
            0 <= m,
            s == 0x1_0000_0000,
    ;
    lemma_mul_raw_bound(k, n.x.raw as int, 8 * m, s + 7, 11 * m);
    lemma_mul_raw_bound(k, n.y.raw as int, 8 * m, s + 7, 11 * m);
    lemma_mul_raw_bound(k, n.z.raw as int, 8 * m, s + 7, 11 * m);
}

/// A product of a component of magnitude at most `m` and one of magnitude
/// at most the scale plus seven is at most four thirds of `m`.
proof fn lemma_third_bound(x: int, y: int, m: int)
    requires
        0 <= m,
        magnitude(x) <= m,
        magnitude(y) <= SCALE + 7,
    ensures
        3 * magnitude(mul_raw(x, y)) <= 4 * m,
{
    let s = SCALE as int;
    assert(magnitude(x * y) <= m * (s + 7)) by (nonlinear_arith)
        requires
            magnitude(x) <= m,
            magnitude(y) <= s + 7,
    ;
    lemma_trunc_div_remainder(x * y, s);
    let q = mul_raw(x, y);
    assert(3 * magnitude(q) <= 4 * m) by (nonlinear_arith)
        requires
            0 <= m,
            magnitude(x * y) <= m * (s + 7),
            magnitude(x * y - s * q) < s,
            x * y >= 0 ==> 0 <= x * y - s * q,
            x * y <= 0 ==> x * y - s * q <= 0,
            s == 0x1_0000_0000,
    ;
}

/// The magnitude of a product is at most the product of bounds on the
/// magnitudes of its factors.
pub proof fn lemma_product_bound(x: int, y: int, a: int, b: int)
    by (nonlinear_arith)
    requires
        magnitude(x) <= a,
        magnitude(y) <= b,
    ensures
        magnitude(x * y) <= a * b,
{
}

/// What one component adds to the scalar product of a reflection with its
/// normal: with `w` the part taken off the component `x` and `sigma` what
/// rounding took off `w`, the product of the scale, the reflected component
/// and the normal's component `y`.
proof fn lemma_component_identity(x: int, y: int, w: int, d: int, sigma: int)
    by (nonlinear_arith)
    requires
        SCALE * w == 2 * d * y - sigma,
    ensures
        SCALE * ((x - w) * y) == SCALE * (x * y) - 2 * d * (y * y) + sigma * y,
{
}

/// The scalar products of a vector and of its reflection with the normal
/// cancel, up to rounding and up to what the normal's length misses of one.
proof fn lemma_dots_cancel(v: Vec3, n: Vec3, m: int)
    requires
        0 <= m <= REFLECT_RANGE_RAW,
        max_magnitude(v) <= m,
        is_near_unit(n),
    ensures
        SCALE * magnitude(dot_raw(v, n) + dot_raw(v.spec_reflect(n), n)) <= 10 * SCALE + 128 * m,
{
    let s = SCALE as int;
    let (vx, vy, vz) = (v.x.raw as int, v.y.raw as int, v.z.raw as int);
    let (nx, ny, nz) = (n.x.raw as int, n.y.raw as int, n.z.raw as int);
    lemma_near_unit_components(n);
    lemma_reflect_unclamped(v, n, m);
    let r = v.spec_reflect(n);
    lemma_reflect_unclamped(r, n, 12 * m);
    let (rx, ry, rz) = (r.x.raw as int, r.y.raw as int, r.z.raw as int);
    let d = dot_raw(v, n);
    let d2 = dot_raw(r, n);

    // What rounding took off each product.
    lemma_trunc_div_remainder(vx * nx, s);
    lemma_trunc_div_remainder(vy * ny, s);
    lemma_trunc_div_remainder(vz * nz, s);
    let rho = (vx * nx - s * mul_raw(vx, nx)) + (vy * ny - s * mul_raw(vy, ny)) + (vz * nz - s
        * mul_raw(vz, nz));
    lemma_trunc_div_remainder(rx * nx, s);
    lemma_trunc_div_remainder(ry * ny, s);
    lemma_trunc_div_remainder(rz * nz, s);
    let rho2 = (rx * nx - s * mul_raw(rx, nx)) + (ry * ny - s * mul_raw(ry, ny)) + (rz * nz - s
        * mul_raw(rz, nz));
    let (wx, wy, wz) = (mul_raw(2 * d, nx), mul_raw(2 * d, ny), mul_raw(2 * d, nz));
    lemma_trunc_div_remainder(2 * d * nx, s);
    lemma_trunc_div_remainder(2 * d * ny, s);
    lemma_trunc_div_remainder(2 * d * nz, s);
    let (sx, sy, sz) = (2 * d * nx - s * wx, 2 * d * ny - s * wy, 2 * d * nz - s * wz);

    let a = vx * nx + vy * ny + vz * nz;
    let b = rx * nx + ry * ny + rz * nz;
    let q = nx * nx + ny * ny + nz * nz;
    let t = sx * nx + sy * ny + sz * nz;
    let eta = q - s * s;
    assert(s * d == a - rho);
    assert(s * d2 == b - rho2);
    assert(-3 * s < rho < 3 * s);
    assert(-3 * s < rho2 < 3 * s);

    // The scalar product of the reflection, from that of the vector.
    lemma_component_identity(vx, nx, wx, d, sx);
    lemma_component_identity(vy, ny, wy, d, sy);
    lemma_component_identity(vz, nz, wz, d, sz);
    assert(s * b == s * a - 2 * d * q + t) by (nonlinear_arith)
        requires
            b == rx * nx + ry * ny + rz * nz,
            a == vx * nx + vy * ny + vz * nz,
            q == nx * nx + ny * ny + nz * nz,
            t == sx * nx + sy * ny + sz * nz,
            s * (rx * nx) == s * (vx * nx) - 2 * d * (nx * nx) + sx * nx,
            s * (ry * ny) == s * (vy * ny) - 2 * d * (ny * ny) + sy * ny,
            s * (rz * nz) == s * (vz * nz) - 2 * d * (nz * nz) + sz * nz,
    ;
    let e = d + d2;
    assert(s * (s * e) == s * (rho - rho2) - 2 * (d * eta) + t) by (nonlinear_arith)
        requires
            e == d + d2,
            s * d == a - rho,
            s * d2 == b - rho2,
            s * b == s * a - 2 * d * q + t,
            eta == q - s * s,
    ;
    // The sizes of the three terms.
    lemma_product_bound(sx, nx, s, s + 7);
    lemma_product_bound(sy, ny, s, s + 7);
    lemma_product_bound(sz, nz, s, s + 7);
    assert(magnitude(t) <= 3 * (s * (s + 7)));
    assert(magnitude(d * eta) <= (4 * m) * (16 * s)) by (nonlinear_arith)
        requires
            magnitude(d) <= 4 * m,
            magnitude(eta) <= 16 * s,
    ;
    assert(s * magnitude(e) <= 10 * s + 128 * m) by (nonlinear_arith)
        requires
            s * (s * e) == s * (rho - rho2) - 2 * (d * eta) + t,
            magnitude(t) <= 3 * (s * (s + 7)),
            magnitude(d * eta) <= (4 * m) * (16 * s),
            -3 * s < rho < 3 * s,
            -3 * s < rho2 < 3 * s,
            s == 0x1_0000_0000,
            0 <= m,
    ;
}

/// What is left of one component after two reflections differs from the
/// component by little, where the two scalar products nearly cancel.
proof fn lemma_component_restored(d: int, d2: int, y: int, m: int)
    requires
        0 <= m,
        magnitude(y) <= SCALE + 7,
        SCALE * magnitude(d + d2) <= 10 * SCALE + 128 * m,
    ensures
        magnitude(mul_raw(2 * d, y) + mul_raw(2 * d2, y)) <= m / 0x80_0000 + 32,
{
    let s = SCALE as int;
    let w = mul_raw(2 * d, y);
    let w2 = mul_raw(2 * d2, y);
    lemma_trunc_div_remainder(2 * d * y, s);
    lemma_trunc_div_remainder(2 * d2 * y, s);
    let e = d + d2;
    assert(s * (w + w2) == 2 * (e * y) - (2 * d * y - s * w) - (2 * d2 * y - s * w2))
        by (nonlinear_arith)
        requires
            e == d + d2,
    ;
    assert(s * magnitude(e * y) <= (10 * s + 128 * m) * (s + 7)) by (nonlinear_arith)
        requires
            s * magnitude(e) <= 10 * s + 128 * m,
            magnitude(y) <= s + 7,
            0 <= m,
            s > 0,
    ;
    assert(s * magnitude(w + w2) <= 23 * s + 260 * m) by (nonlinear_arith)
        requires
            s * (w + w2) == 2 * (e * y) - (2 * d * y - s * w) - (2 * d2 * y - s * w2),
            s * magnitude(e * y) <= (10 * s + 128 * m) * (s + 7),
            magnitude(2 * d * y - s * w) < s,
            magnitude(2 * d2 * y - s * w2) < s,
            s == 0x1_0000_0000,
            0 <= m,
    ;
}

/// Reflecting a reflection restores the vector, up to rounding. For a
/// vector whose components are at most two to the power of eighteen in
/// magnitude, and a normal that is a unit vector up to rounding, each
/// component of the double reflection differs from that of the vector by
/// at most thirty-two units in the last place and an eight-millionth of
/// the vector's largest component.
pub proof fn lemma_reflect_twice(v: Vec3, n: Vec3)
    requires
        max_magnitude(v) <= REFLECT_RANGE_RAW,
        is_near_unit(n),
    ensures
        ({
            let back = v.spec_reflect(n).spec_reflect(n);
            let tolerance = max_magnitude(v) / 0x80_0000 + 32;
            &&& magnitude(back.x.raw - v.x.raw) <= tolerance
            &&& magnitude(back.y.raw - v.y.raw) <= tolerance
            &&& magnitude(back.z.raw - v.z.raw) <= tolerance
        }),
{
    let m = max_magnitude(v);
    lemma_near_unit_components(n);
    lemma_reflect_unclamped(v, n, m);
    let r = v.spec_reflect(n);
    lemma_reflect_unclamped(r, n, 12 * m);
    lemma_dots_cancel(v, n, m);
    let d = dot_raw(v, n);
    let d2 = dot_raw(r, n);
    lemma_component_restored(d, d2, n.x.raw as int, m);
    lemma_component_restored(d, d2, n.y.raw as int, m);
    lemma_component_restored(d, d2, n.z.raw as int, m);
}

/// A number times a sum of three is the sum of the three products.
pub proof fn lemma_distribute(x: int, a: int, b: int, c: int)
    by (nonlinear_arith)
    ensures
        x * (a + b + c) == x * a + x * b + x * c,
{
}

/// The square of one component of a vector divided by a scalar, times the
/// square of that scalar: with `q` the component, `n` the quotient and
/// `delta` what rounding took off the quotient.
proof fn lemma_quotient_component(q: int, n: int, rad: int, delta: int)
    requires
        rad * n == 0x1_0000_0000 * q - delta,
        -rad < delta < rad,
    ensures
        (rad * rad) * (n * n) == 0x1_0000_0000_0000_0000 * (q * q) - 0x2_0000_0000 * (q * delta)
            + delta * delta,
        magnitude(q * delta) <= magnitude(q) * rad,
        0 <= delta * delta <= rad * rad,
{
    let y = rad * n;
    let x = 0x1_0000_0000 * q;
    assert(y * y == (rad * rad) * (n * n)) by (nonlinear_arith)
        requires
            y == rad * n,
    ;
    assert(y * y == x * x - 2 * (x * delta) + delta * delta) by (nonlinear_arith)
        requires
            y == x - delta,
    ;
    assert(x * x == 0x1_0000_0000_0000_0000 * (q * q)) by (nonlinear_arith)
        requires
            x == 0x1_0000_0000 * q,
    ;
    assert(x * delta == 0x1_0000_0000 * (q * delta)) by (nonlinear_arith)
        requires
            x == 0x1_0000_0000 * q,
    ;
    lemma_product_bound(q, delta, magnitude(q), rad);
    lemma_product_bound(delta, delta, rad, rad);
    assert(delta * delta >= 0) by (nonlinear_arith);
}

/// How far from one the squared length of a vector divided by a scalar is:
/// for the vector `q`, the scalar `rad` and the quotient `n`, where the
/// squared length of `q` misses the square of `rad` by at most `tolerance`.
pub proof fn lemma_quotient_length(q: (int, int, int), n: (int, int, int), rad: int, tolerance: int)
    requires
        0 < rad,
        -rad < 0x1_0000_0000 * q.0 - rad * n.0 < rad,
        -rad < 0x1_0000_0000 * q.1 - rad * n.1 < rad,
        -rad < 0x1_0000_0000 * q.2 - rad * n.2 < rad,
        magnitude(q.0 * q.0 + q.1 * q.1 + q.2 * q.2 - rad * rad) <= tolerance,
    ensures
        (rad * rad) * magnitude(n.0 * n.0 + n.1 * n.1 + n.2 * n.2 - 0x1_0000_0000_0000_0000)
            <= 0x1_0000_0000_0000_0000 * tolerance + 0x2_0000_0000 * (rad * (magnitude(q.0)
            + magnitude(q.1) + magnitude(q.2))) + 3 * (rad * rad),
{
    let rr = rad * rad;
    assert(rr > 0) by (nonlinear_arith)
        requires
            rr == rad * rad,
            rad > 0,
    ;
    lemma_quotient_component(q.0, n.0, rad, 0x1_0000_0000 * q.0 - rad * n.0);
    lemma_quotient_component(q.1, n.1, rad, 0x1_0000_0000 * q.1 - rad * n.1);
    lemma_quotient_component(q.2, n.2, rad, 0x1_0000_0000 * q.2 - rad * n.2);
    let nn = n.0 * n.0 + n.1 * n.1 + n.2 * n.2;
    let qq = q.0 * q.0 + q.1 * q.1 + q.2 * q.2;
    lemma_distribute(rr, n.0 * n.0, n.1 * n.1, n.2 * n.2);
    lemma_distribute(rad, magnitude(q.0), magnitude(q.1), magnitude(q.2));
    assert(rr * (nn - 0x1_0000_0000_0000_0000) == rr * nn - 0x1_0000_0000_0000_0000 * rr)
        by (nonlinear_arith);
    let gap = rr * (nn - 0x1_0000_0000_0000_0000);
    assert(magnitude(gap) == rr * magnitude(nn - 0x1_0000_0000_0000_0000)) by (nonlinear_arith)
        requires
            gap == rr * (nn - 0x1_0000_0000_0000_0000),
            rr > 0,
    ;
}

/// Where nothing is clamped, the length of a vector and its unit vector are
/// what their formulas say on raw values: the integer square root of the
/// sum of the squares, and each component times the scale over that. No
/// component is longer than the vector.
pub proof fn lemma_unit_vector_unclamped(v: Vec3)
    requires
        max_magnitude(v) <= 0x2000_0000_0000_0000,
        !v.is_zero(),
    ensures
        ({
            let len = isqrt(v.raw_norm_squared());
            let u = v.spec_unit_vector();
            &&& 1 <= len < 0x4000_0000_0000_0000
            &&& len * len <= v.raw_norm_squared() < (len + 1) * (len + 1)
            &&& v.spec_length().raw == len
            &&& max_magnitude(v) <= len
            &&& u.x.raw == trunc_div(v.x.raw * SCALE, len)
            &&& u.y.raw == trunc_div(v.y.raw * SCALE, len)
            &&& u.z.raw == trunc_div(v.z.raw * SCALE, len)
            &&& max_magnitude(u) <= SCALE
        }),
{
    let s = 0x1_0000_0000int;
    assert(s == SCALE);
    let (x, y, z) = (v.x.raw as int, v.y.raw as int, v.z.raw as int);
    let norm = v.raw_norm_squared();
    let reach = 0x2000_0000_0000_0000int;
    lemma_product_bound(x, x, reach, reach);
    lemma_product_bound(y, y, reach, reach);
    lemma_product_bound(z, z, reach, reach);
    assert(x * x >= 0 && y * y >= 0 && z * z >= 0) by (nonlinear_arith);
    lemma_isqrt_bounds(norm);
    let len = isqrt(norm);
    assert(len < 0x4000_0000_0000_0000) by (nonlinear_arith)
        requires
            0 <= len,
            len * len <= norm,
            norm <= 3 * (0x2000_0000_0000_0000 * 0x2000_0000_0000_0000),
    ;
    v.lemma_length_positive();
    assert(magnitude(x) <= len && magnitude(y) <= len && magnitude(z) <= len) by (nonlinear_arith)
        requires
            0 <= len,
            x * x + y * y + z * z < (len + 1) * (len + 1),
            x * x >= 0 && y * y >= 0 && z * z >= 0,
    ;
    lemma_product_bound(x, s, len, s);
    lemma_product_bound(y, s, len, s);
    lemma_product_bound(z, s, len, s);
    assert(len * s == s * len) by (nonlinear_arith);
    lemma_trunc_div_magnitude(x * s, len, s);
    lemma_trunc_div_magnitude(y * s, len, s);
    lemma_trunc_div_magnitude(z * s, len, s);
}

/// The unit vector of a vector whose length is at least a quarter, and
/// whose components are at most two to the power of twenty-nine in
/// magnitude, is a unit vector up to rounding.
pub proof fn lemma_unit_vector_near_unit(v: Vec3)
    requires
        max_magnitude(v) <= 0x2000_0000_0000_0000,
        v.spec_length().raw >= 0x4000_0000,
    ensures
        is_near_unit(v.spec_unit_vector()),
{
    let s = 0x1_0000_0000int;
    assert(s == SCALE);
    let (x, y, z) = (v.x.raw as int, v.y.raw as int, v.z.raw as int);
    let norm = v.raw_norm_squared();
    if v.is_zero() {
        assert(norm == 0) by (nonlinear_arith)
            requires
                norm == x * x + y * y + z * z,
                x == 0 && y == 0 && z == 0,
        ;
        crate::fixed::lemma_isqrt_unique(0, 0);
    }
    lemma_unit_vector_unclamped(v);
    let len = isqrt(norm);
    lemma_trunc_div_remainder(x * s, len);
    lemma_trunc_div_remainder(y * s, len);
    lemma_trunc_div_remainder(z * s, len);
    let u = v.spec_unit_vector();
    let (ux, uy, uz) = (u.x.raw as int, u.y.raw as int, u.z.raw as int);
    assert(x * s == s * x && y * s == s * y && z * s == s * z) by (nonlinear_arith);
    assert(magnitude(norm - len * len) <= 2 * len) by (nonlinear_arith)
        requires
            len * len <= norm < (len + 1) * (len + 1),
    ;
    lemma_quotient_length((x, y, z), (ux, uy, uz), len, 2 * len);
    let gap = magnitude(ux * ux + uy * uy + uz * uz - 0x1_0000_0000_0000_0000);
    lemma_product_bound(len, magnitude(x) + magnitude(y) + magnitude(z), len, 3 * len);
    assert(gap <= 16 * s) by (nonlinear_arith)
        requires
            (len * len) * gap <= 0x1_0000_0000_0000_0000 * (2 * len) + 0x2_0000_0000 * (len * (
            magnitude(x) + magnitude(y) + magnitude(z))) + 3 * (len * len),
            magnitude(len * (magnitude(x) + magnitude(y) + magnitude(z))) <= len * (3 * len),
            len >= 0x4000_0000,
            gap >= 0,
            s == 0x1_0000_0000,
    ;
    assert(SCALE * SCALE == 0x1_0000_0000_0000_0000) by (nonlinear_arith)
        requires
            SCALE == 0x1_0000_0000,
    ;
}

} // verus!
