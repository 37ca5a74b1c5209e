//! How close to the sphere a computed hit lies.

use vstd::prelude::*;
use vstd::std_specs::ops::SubSpec;
use crate::fixed::{
    isqrt, lemma_isqrt_bounds, lemma_trunc_div_magnitude, lemma_trunc_div_remainder, trunc_div,
    Fixed, SCALE,
};
use crate::ray::Ray;
use crate::rounding::{
    dot_raw, lemma_distribute, lemma_mul_raw_bound, lemma_product_bound, lemma_quotient_length,
    magnitude, max_magnitude, mul_raw,
};
use crate::sphere::Sphere;
use crate::vec3::Vec3;

verus! {

/// Whether the sphere and the ray are of a size for which the accuracy of a
/// hit is stated, so that nothing is clamped on the way to the hit: origin
/// and center within two to the power of twenty-nine of the origin of space
/// and within 2048 of each other, a direction with components of at most
/// thirty-two and a squared length of at least a quarter, a radius of at
/// most 2048, half the linear coefficient of the quadratic at most 16384
/// and the product of the other two coefficients at most two to the power
/// of twenty-nine.
pub open spec fn in_scene_range(sphere: Sphere, r: Ray) -> bool {
    let oc = r.origin.sub_spec(sphere.center);
    &&& max_magnitude(r.origin) <= 0x2000_0000_0000_0000
    &&& max_magnitude(sphere.center) <= 0x2000_0000_0000_0000
    &&& max_magnitude(oc) <= 0x800_0000_0000
    &&& max_magnitude(r.direction) <= 0x20_0000_0000
    &&& dot_raw(r.direction, r.direction) >= 0x4000_0000
    &&& 0 < sphere.radius.raw <= 0x800_0000_0000
    &&& magnitude(dot_raw(oc, r.direction)) <= 0x4000_0000_0000
    &&& magnitude(
        dot_raw(r.direction, r.direction) * (dot_raw(oc, oc) - mul_raw(
            sphere.radius.raw as int,
            sphere.radius.raw as int,
        )),
    ) <= 0x2000_0000_0000_0000_0000_0000
}

/// Where nothing is clamped, the coefficients of the quadratic are what
/// their formulas say on raw values.
pub proof fn lemma_coefficients_unclamped(sphere: Sphere, r: Ray)
    requires
        in_scene_range(sphere, r),
    ensures
        ({
            let oc = r.origin.sub_spec(sphere.center);
            let d = r.direction;
            let a = dot_raw(d, d);
            let hb = dot_raw(oc, d);
            let c0 = dot_raw(oc, oc) - mul_raw(sphere.radius.raw as int, sphere.radius.raw as int);
            &&& oc.x.raw == r.origin.x.raw - sphere.center.x.raw
            &&& oc.y.raw == r.origin.y.raw - sphere.center.y.raw
            &&& oc.z.raw == r.origin.z.raw - sphere.center.z.raw
            &&& sphere.spec_a(r).raw == a
            &&& 0x4000_0000 <= a <= 3072 * SCALE
            &&& sphere.spec_half_b(r).raw == hb
            &&& magnitude(hb) <= 0x4000_0000_0000
            &&& sphere.spec_c(r).raw == c0
            &&& magnitude(c0) <= 0xc0_0000_0000_0000
            &&& sphere.spec_discriminant(r).raw == mul_raw(hb, hb) - mul_raw(a, c0)
            &&& magnitude(mul_raw(hb, hb) - mul_raw(a, c0)) <= 0x3000_0000_0000_0000
        }),
{
    let s = SCALE as int;
    let oc = r.origin.sub_spec(sphere.center);
    let d = r.direction;
    let rad = sphere.radius.raw as int;
    let big = 0x800_0000_0000int;
    let small = 0x20_0000_0000int;
    // The squared length of the direction.
    lemma_mul_raw_bound(d.x.raw as int, d.x.raw as int, small, small, 1024 * s);
    lemma_mul_raw_bound(d.y.raw as int, d.y.raw as int, small, small, 1024 * s);
    lemma_mul_raw_bound(d.z.raw as int, d.z.raw as int, small, small, 1024 * s);
    // Half the linear coefficient.
    lemma_mul_raw_bound(oc.x.raw as int, d.x.raw as int, big, small, 0x1_0000_0000_0000);
    lemma_mul_raw_bound(oc.y.raw as int, d.y.raw as int, big, small, 0x1_0000_0000_0000);
    lemma_mul_raw_bound(oc.z.raw as int, d.z.raw as int, big, small, 0x1_0000_0000_0000);
    // The constant coefficient.
    lemma_mul_raw_bound(oc.x.raw as int, oc.x.raw as int, big, big, 0x40_0000_0000_0000);
    lemma_mul_raw_bound(oc.y.raw as int, oc.y.raw as int, big, big, 0x40_0000_0000_0000);
    lemma_mul_raw_bound(oc.z.raw as int, oc.z.raw as int, big, big, 0x40_0000_0000_0000);
    lemma_mul_raw_bound(rad, rad, big, big, 0x40_0000_0000_0000);
    lemma_square_not_negative(oc.x.raw as int);
    lemma_square_not_negative(oc.y.raw as int);
    lemma_square_not_negative(oc.z.raw as int);
    lemma_square_not_negative(rad);
    // The discriminant.
    let a = dot_raw(d, d);
    let hb = dot_raw(oc, d);
    let c0 = dot_raw(oc, oc) - mul_raw(rad, rad);
    assert(magnitude(c0) <= 0xc0_0000_0000_0000);
    lemma_mul_raw_bound(hb, hb, 0x4000_0000_0000, 0x4000_0000_0000, 0x1000_0000_0000_0000);
    lemma_trunc_div_magnitude(a * c0, s, 0x2000_0000_0000_0000);
}

/// The square of a raw value, as a scalar, is not negative.
proof fn lemma_square_not_negative(x: int)
    ensures
        mul_raw(x, x) >= 0,
{
    assert(x * x >= 0) by (nonlinear_arith);
    lemma_trunc_div_remainder(x * x, SCALE as int);
    assert(mul_raw(x, x) >= 0) by (nonlinear_arith)
        requires
            0 <= x * x - SCALE * mul_raw(x, x) < SCALE,
            x * x >= 0,
            SCALE == 0x1_0000_0000,
    ;
}

/// The smaller or the larger root of the quadratic.
pub open spec fn spec_chosen_root(sphere: Sphere, r: Ray, far: bool) -> Fixed {
    if far {
        sphere.spec_far_root(r)
    } else {
        sphere.spec_near_root(r)
    }
}

/// What is divided by the leading coefficient to find a root: minus half
/// the linear coefficient, minus or plus the root of the discriminant.
pub open spec fn spec_root_numerator(sphere: Sphere, r: Ray, far: bool) -> int {
    let hb = sphere.spec_half_b(r).raw as int;
    let sq = sphere.spec_discriminant(r).spec_sqrt().raw as int;
    if far {
        -hb + sq
    } else {
        -hb - sq
    }
}

/// Where nothing is clamped, a root and the point of the ray at it are
/// what their formulas say on raw values.
pub proof fn lemma_root_unclamped(sphere: Sphere, r: Ray, far: bool)
    requires
        in_scene_range(sphere, r),
        sphere.spec_has_roots(r),
    ensures
        ({
            let oc = r.origin.sub_spec(sphere.center);
            let d = r.direction;
            let sq = sphere.spec_discriminant(r).spec_sqrt().raw as int;
            let t = spec_chosen_root(sphere, r, far);
            let q = r.spec_at(t).sub_spec(sphere.center);
            &&& 0 <= sq < 0x1_0000_0000_0000
            &&& sq * sq <= sphere.spec_discriminant(r).raw * SCALE < (sq + 1) * (sq + 1)
            &&& t.raw == trunc_div(
                spec_root_numerator(sphere, r, far) * SCALE,
                sphere.spec_a(r).raw as int,
            )
            &&& magnitude(t.raw as int) <= 0x4_0000_0000_0000
            &&& q.x.raw == oc.x.raw + mul_raw(t.raw as int, d.x.raw as int)
            &&& q.y.raw == oc.y.raw + mul_raw(t.raw as int, d.y.raw as int)
            &&& q.z.raw == oc.z.raw + mul_raw(t.raw as int, d.z.raw as int)
            &&& max_magnitude(q) <= 0x100_0000_0000_0000
        }),
{
    let s = SCALE as int;
    lemma_coefficients_unclamped(sphere, r);
    let disc = sphere.spec_discriminant(r);
    disc.lemma_sqrt_bounds();
    lemma_isqrt_bounds(disc.raw * SCALE);
    let a = sphere.spec_a(r).raw as int;
    let num = spec_root_numerator(sphere, r, far);
    let sq = disc.spec_sqrt().raw as int;
    assert(sq <= 0x8000_0000_0000) by (nonlinear_arith)
        requires
            0 <= sq,
            sq * sq <= disc.raw * SCALE,
            disc.raw <= 0x3000_0000_0000_0000,
            SCALE == 0x1_0000_0000,
    ;
    assert(-(0x4_0000_0000_0000 * a) <= num * s <= 0x4_0000_0000_0000 * a) by (nonlinear_arith)
        requires
            magnitude(num) <= 0x1_0000_0000_0000,
            a >= 0x4000_0000,
            s == 0x1_0000_0000,
    ;
    lemma_trunc_div_magnitude(num * s, a, 0x4_0000_0000_0000);
    let t = spec_chosen_root(sphere, r, far);
    assert(t.raw == trunc_div(num * s, a));
    let d = r.direction;
    let reach = 0x4_0000_0000_0000int;
    let small = 0x20_0000_0000int;
    lemma_mul_raw_bound(t.raw as int, d.x.raw as int, reach, small, 0x80_0000_0000_0000);
    lemma_mul_raw_bound(t.raw as int, d.y.raw as int, reach, small, 0x80_0000_0000_0000);
    lemma_mul_raw_bound(t.raw as int, d.z.raw as int, reach, small, 0x80_0000_0000_0000);
}

/// The sum of the terms of the residual, each product taken as a number of
/// its own.
proof fn lemma_residual_combined(
    ak: int,
    ac0: int,
    hbat: int,
    atat: int,
    nn: int,
    nr: int,
    rr: int,
    hn: int,
    hr: int,
    ee: int,
    er: int,
    hh: int,
    ss: int,
    rho_s: int,
    rho_d: int,
)
    requires
        ak == 0x1_0000_0000_0000_0000 * ac0 + 0x2_0000_0000 * hbat + atat,
        atat == 0x1_0000_0000_0000_0000 * nn - 0x2_0000_0000 * nr + rr,
        hbat == 0x1_0000_0000 * hn - hr,
        ee == nn + 2 * hn + hh,
        er == nr + hr,
        ee == ss,
        ac0 - hh == -ss - rho_s - rho_d,
    ensures
        ak == -0x1_0000_0000_0000_0000 * (rho_s + rho_d) - 0x2_0000_0000 * er + rr,
{
}

/// How much a computed root misses of solving the quadratic: for the
/// quadratic `a t^2 + 2 hb t + c0` in scalars, given what rounding took off
/// the root, the root of the discriminant and the discriminant.
proof fn lemma_quadratic_residual(
    a: int,
    t: int,
    hb: int,
    c0: int,
    sq: int,
    num: int,
    rho_t: int,
    rho_s: int,
    rho_d: int,
)
    requires
        a >= 0x4000_0000,
        a * t == SCALE * num - rho_t,
        -a < rho_t < a,
        num + hb == sq || num + hb == -sq,
        0 <= sq,
        a * c0 - hb * hb == -(sq * sq) - rho_s - rho_d,
        0 <= rho_s <= 2 * sq,
        -2 * SCALE < rho_d < 2 * SCALE,
    ensures
        magnitude(SCALE * SCALE * c0 + 2 * SCALE * (t * hb) + a * (t * t)) <= 10 * SCALE * sq + 8
            * SCALE * SCALE + a,
{
    let s = SCALE as int;
    let k = s * s * c0 + 2 * s * (t * hb) + a * (t * t);
    let e = num + hb;
    let at = a * t;
    assert(e * e == sq * sq) by (nonlinear_arith)
        requires
            e == sq || e == -sq,
    ;
    let th = t * hb;
    let tt = t * t;
    assert(a * (s * s * c0) == s * s * (a * c0)) by (nonlinear_arith);
    assert(a * (2 * s * th) == 2 * s * (hb * at)) by (nonlinear_arith)
        requires
            th == t * hb,
            at == a * t,
    ;
    assert(a * (a * tt) == at * at) by (nonlinear_arith)
        requires
            tt == t * t,
            at == a * t,
    ;
    assert(a * k == a * (s * s * c0) + a * (2 * s * th) + a * (a * tt)) by (nonlinear_arith)
        requires
            k == (s * s * c0) + (2 * s * th) + (a * tt),
    ;
    assert(at * at == s * s * (num * num) - 2 * s * (num * rho_t) + rho_t * rho_t)
        by (nonlinear_arith)
        requires
            at == s * num - rho_t,
    ;
    assert(hb * at == s * (hb * num) - hb * rho_t) by (nonlinear_arith)
        requires
            at == s * num - rho_t,
    ;
    assert(e * e == num * num + 2 * (hb * num) + hb * hb) by (nonlinear_arith)
        requires
            e == num + hb,
    ;
    assert(e * rho_t == num * rho_t + hb * rho_t) by (nonlinear_arith)
        requires
            e == num + hb,
    ;
    assert(s == 0x1_0000_0000);
    lemma_residual_combined(
        a * k,
        a * c0,
        hb * at,
        at * at,
        num * num,
        num * rho_t,
        rho_t * rho_t,
        hb * num,
        hb * rho_t,
        e * e,
        e * rho_t,
        hb * hb,
        sq * sq,
        rho_s,
        rho_d,
    );
    assert(a * k == -(s * s) * (rho_s + rho_d) - 2 * s * (e * rho_t) + rho_t * rho_t);
    lemma_product_bound(e, rho_t, sq, a);
    lemma_product_bound(rho_t, rho_t, a, a);
    assert(magnitude(a * k) <= a * (10 * s * sq + 8 * s * s + a)) by (nonlinear_arith)
        requires
            a * k == -(s * s) * (rho_s + rho_d) - 2 * s * (e * rho_t) + rho_t * rho_t,
            magnitude(e * rho_t) <= sq * a,
            magnitude(rho_t * rho_t) <= a * a,
            0 <= rho_s <= 2 * sq,
            -2 * s < rho_d < 2 * s,
            0 <= sq,
            4 * a >= s,
            s == 0x1_0000_0000,
    ;
    assert(magnitude(k) <= 10 * s * sq + 8 * s * s + a) by (nonlinear_arith)
        requires
            magnitude(a * k) <= a * (10 * s * sq + 8 * s * s + a),
            a > 0,
    ;
}

/// The square of one component of the hit point relative to the center,
/// scaled: with `u` the step along the ray in that component and `eps` what
/// rounding took off it.
proof fn lemma_component_square(oc: int, d: int, t: int, u: int, eps: int)
    requires
        0x1_0000_0000 * u == t * d - eps,
    ensures
        0x1_0000_0000_0000_0000 * ((oc + u) * (oc + u)) == 0x1_0000_0000_0000_0000 * (oc * oc)
            + 0x2_0000_0000 * (t * (oc * d)) + (t * t) * (d * d) - 2 * ((0x1_0000_0000 * (oc + u)
            + eps) * eps) + eps * eps,
{
    let q = oc + u;
    let a = 0x1_0000_0000 * oc;
    let b = t * d;
    let x = a + b;
    let y = 0x1_0000_0000 * q;
    assert(y * y == 0x1_0000_0000_0000_0000 * (q * q)) by (nonlinear_arith)
        requires
            y == 0x1_0000_0000 * q,
    ;
    assert(y * y == x * x - 2 * (x * eps) + eps * eps) by (nonlinear_arith)
        requires
            y == x - eps,
    ;
    assert(x * x == a * a + 2 * (a * b) + b * b) by (nonlinear_arith)
        requires
            x == a + b,
    ;
    assert(a * a == 0x1_0000_0000_0000_0000 * (oc * oc)) by (nonlinear_arith)
        requires
            a == 0x1_0000_0000 * oc,
    ;
    assert(a * b == 0x1_0000_0000 * (t * (oc * d))) by (nonlinear_arith)
        requires
            a == 0x1_0000_0000 * oc,
            b == t * d,
    ;
    assert(b * b == (t * t) * (d * d)) by (nonlinear_arith)
        requires
            b == t * d,
    ;
    assert(x == 0x1_0000_0000 * (oc + u) + eps);
}

/// The size of what rounding of one component of the hit point adds to the
/// squared distance.
proof fn lemma_component_error(q: int, eps: int)
    requires
        -0x1_0000_0000 < eps < 0x1_0000_0000,
    ensures
        magnitude(-2 * ((0x1_0000_0000 * q + eps) * eps) + eps * eps) <= 0x2_0000_0000_0000_0000
            * magnitude(q) + 3 * 0x1_0000_0000_0000_0000,
{
    let reach = 0x1_0000_0000 * magnitude(q) + 0x1_0000_0000;
    lemma_product_bound(0x1_0000_0000 * q + eps, eps, reach, 0x1_0000_0000);
    lemma_product_bound(eps, eps, 0x1_0000_0000, 0x1_0000_0000);
    assert(reach * 0x1_0000_0000 == 0x1_0000_0000_0000_0000 * magnitude(q)
        + 0x1_0000_0000_0000_0000) by (nonlinear_arith)
        requires
            reach == 0x1_0000_0000 * magnitude(q) + 0x1_0000_0000,
    ;
    assert(0x1_0000_0000int * 0x1_0000_0000int == 0x1_0000_0000_0000_0000int) by (nonlinear_arith);
}

/// By how much the sum of the squares of the raw offset of a computed hit
/// from the center may miss the square of the raw radius. Divided by the
/// scale, this is the miss of the squared distance in units of the last
/// place: ten times the root of the discriminant, six times the root `t`,
/// three times its square, twice the offset of the hit from the center, and
/// twelve, each taken as the number that it stands for.
pub open spec fn spec_hit_tolerance(sphere: Sphere, r: Ray, t: Fixed) -> int {
    let q = r.spec_at(t).sub_spec(sphere.center);
    let sq = sphere.spec_discriminant(r).spec_sqrt().raw as int;
    10 * sq + 6 * magnitude(t.raw as int) + 3 * (t.raw * t.raw / (SCALE as int)) + 2 * (magnitude(
        q.x.raw as int,
    ) + magnitude(q.y.raw as int) + magnitude(q.z.raw as int)) + 12 * SCALE
}

/// The distance bound on raw values: for the coefficients, the root and the
/// steps along the ray, each given with what rounding may have taken off
/// it, the squared offset of the hit point misses the squared radius by at
/// most the tolerance.
proof fn lemma_distance_core(
    o: (int, int, int),
    d: (int, int, int),
    u: (int, int, int),
    rad: int,
    a: int,
    hb: int,
    c0: int,
    disc: int,
    sq: int,
    num: int,
    t: int,
)
    requires
        0x4000_0000 <= a <= 3072 * 0x1_0000_0000,
        0 <= (d.0 * d.0 + d.1 * d.1 + d.2 * d.2) - 0x1_0000_0000 * a < 3 * 0x1_0000_0000,
        -3 * 0x1_0000_0000 < (o.0 * d.0 + o.1 * d.1 + o.2 * d.2) - 0x1_0000_0000 * hb < 3
            * 0x1_0000_0000,
        -0x1_0000_0000 < (o.0 * o.0 + o.1 * o.1 + o.2 * o.2 - rad * rad) - 0x1_0000_0000 * c0 < 3
            * 0x1_0000_0000,
        -0x1_0000_0000 < (hb * hb - a * c0) - 0x1_0000_0000 * disc < 2 * 0x1_0000_0000,
        0 <= sq,
        sq * sq <= 0x1_0000_0000 * disc < (sq + 1) * (sq + 1),
        num + hb == sq || num + hb == -sq,
        -a < 0x1_0000_0000 * num - a * t < a,
        -0x1_0000_0000 < t * d.0 - 0x1_0000_0000 * u.0 < 0x1_0000_0000,
        -0x1_0000_0000 < t * d.1 - 0x1_0000_0000 * u.1 < 0x1_0000_0000,
        -0x1_0000_0000 < t * d.2 - 0x1_0000_0000 * u.2 < 0x1_0000_0000,
    ensures
        magnitude(
            (o.0 + u.0) * (o.0 + u.0) + (o.1 + u.1) * (o.1 + u.1) + (o.2 + u.2) * (o.2 + u.2) - rad
                * rad,
        ) <= 10 * sq + 6 * magnitude(t) + 3 * (t * t / 0x1_0000_0000) + 2 * (magnitude(o.0 + u.0)
            + magnitude(o.1 + u.1) + magnitude(o.2 + u.2)) + 12 * 0x1_0000_0000,
{
    let s = 0x1_0000_0000int;
    assert(s == SCALE);
    let (ox, oy, oz) = o;
    let (dx, dy, dz) = d;
    let (ux, uy, uz) = u;
    let (qx, qy, qz) = (ox + ux, oy + uy, oz + uz);
    let rho_a = (dx * dx + dy * dy + dz * dz) - s * a;
    let rho_b = (ox * dx + oy * dy + oz * dz) - s * hb;
    let rho_c = (ox * ox + oy * oy + oz * oz - rad * rad) - s * c0;
    let rho_d = (hb * hb - a * c0) - s * disc;
    let rho_s = s * disc - sq * sq;
    assert(0 <= rho_s <= 2 * sq) by (nonlinear_arith)
        requires
            rho_s == s * disc - sq * sq,
            sq * sq <= s * disc < (sq + 1) * (sq + 1),
    ;
    let rho_t = s * num - a * t;
    let (ex, ey, ez) = (t * dx - s * ux, t * dy - s * uy, t * dz - s * uz);

    // The residual of the quadratic at the computed root.
    lemma_quadratic_residual(a, t, hb, c0, sq, num, rho_t, rho_s, rho_d);
    let k = 0x1_0000_0000_0000_0000 * c0 + 0x2_0000_0000 * (t * hb) + a * (t * t);
    assert(k == SCALE * SCALE * c0 + 2 * SCALE * (t * hb) + a * (t * t)) by (nonlinear_arith)
        requires
            k == 0x1_0000_0000_0000_0000 * c0 + 0x2_0000_0000 * (t * hb) + a * (t * t),
            SCALE == 0x1_0000_0000,
    ;
    assert(10 * SCALE * sq + 8 * SCALE * SCALE + a == 10 * s * sq + 8 * 0x1_0000_0000_0000_0000 + a)
        by (nonlinear_arith)
        requires
            SCALE == 0x1_0000_0000,
            s == 0x1_0000_0000,
    ;
    assert(magnitude(k) <= 10 * s * sq + 8 * 0x1_0000_0000_0000_0000 + a);

    // The squared distance, component by component.
    lemma_component_square(ox, dx, t, ux, ex);
    lemma_component_square(oy, dy, t, uy, ey);
    lemma_component_square(oz, dz, t, uz, ez);
    lemma_component_error(qx, ex);
    lemma_component_error(qy, ey);
    lemma_component_error(qz, ez);
    let err = (-2 * ((s * qx + ex) * ex) + ex * ex) + (-2 * ((s * qy + ey) * ey) + ey * ey) + (-2
        * ((s * qz + ez) * ez) + ez * ez);
    let tt = t * t;
    let g = qx * qx + qy * qy + qz * qz - rad * rad;
    let oo = ox * ox + oy * oy + oz * oz;
    let od = ox * dx + oy * dy + oz * dz;
    let dd = dx * dx + dy * dy + dz * dz;
    lemma_distribute(t, ox * dx, oy * dy, oz * dz);
    lemma_distribute(tt, dx * dx, dy * dy, dz * dz);
    assert(0x1_0000_0000_0000_0000 * (qx * qx + qy * qy + qz * qz) == 0x1_0000_0000_0000_0000 * oo
        + 0x2_0000_0000 * (t * od) + tt * dd + err);
    assert(t * od == s * (t * hb) + t * rho_b) by (nonlinear_arith)
        requires
            od == s * hb + rho_b,
    ;
    assert(tt * dd == s * (a * tt) + tt * rho_a) by (nonlinear_arith)
        requires
            dd == s * a + rho_a,
    ;
    lemma_product_bound(t, rho_b, magnitude(t), 3 * s);
    assert(0 <= tt * rho_a <= tt * (3 * s)) by (nonlinear_arith)
        requires
            tt == t * t,
            0 <= rho_a < 3 * s,
    ;
    lemma_distance_combined(
        g,
        qx * qx + qy * qy + qz * qz,
        rad * rad,
        oo,
        c0,
        rho_c,
        t * od,
        t * hb,
        t * rho_b,
        tt * dd,
        a * tt,
        tt * rho_a,
        err,
        k,
    );
    let bound = 10 * sq + 11 * s + 6 * magnitude(t) + 2 * (magnitude(qx) + magnitude(qy)
        + magnitude(qz)) + 9;
    assert(0x1_0000_0000_0000_0000 * magnitude(g) <= 0x1_0000_0000_0000_0000 * bound + s * (a + 3
        * tt)) by (nonlinear_arith)
        requires
            0x1_0000_0000_0000_0000 * g == s * k + 0x1_0000_0000_0000_0000 * rho_c + 0x2_0000_0000
                * (t * rho_b) + tt * rho_a + err,
            magnitude(k) <= 10 * s * sq + 8 * 0x1_0000_0000_0000_0000 + a,
            -s < rho_c < 3 * s,
            magnitude(t * rho_b) <= magnitude(t) * (3 * s),
            0 <= tt * rho_a <= tt * (3 * s),
            magnitude(err) <= 0x2_0000_0000_0000_0000 * (magnitude(qx) + magnitude(qy)
                + magnitude(qz)) + 9 * 0x1_0000_0000_0000_0000,
            bound == 10 * sq + 11 * s + 6 * magnitude(t) + 2 * (magnitude(qx) + magnitude(qy)
                + magnitude(qz)) + 9,
            s == 0x1_0000_0000,
    ;
    assert(tt >= 0) by (nonlinear_arith)
        requires
            tt == t * t,
    ;
    assert(magnitude(g) <= bound - 11 * s - 9 + 3 * (tt / s) + 12 * s) by (nonlinear_arith)
        requires
            0x1_0000_0000_0000_0000 * magnitude(g) <= 0x1_0000_0000_0000_0000 * bound + s * (a + 3
                * tt),
            0 <= a <= 3072 * s,
            tt >= 0,
            bound >= 11 * s + 9,
            s == 0x1_0000_0000,
    ;
}

/// The point of the ray at either root of the quadratic lies on the sphere,
/// up to rounding: the exact sum of the squares of the raw components of
/// its offset from the center misses the square of the raw radius by at
/// most the tolerance.
pub proof fn lemma_root_on_sphere(sphere: Sphere, r: Ray, far: bool)
    requires
        in_scene_range(sphere, r),
        sphere.spec_has_roots(r),
    ensures
        ({
            let t = spec_chosen_root(sphere, r, far);
            let q = r.spec_at(t).sub_spec(sphere.center);
            magnitude(q.raw_norm_squared() - sphere.radius.raw * sphere.radius.raw)
                <= spec_hit_tolerance(sphere, r, t)
        }),
{
    let s = 0x1_0000_0000int;
    assert(s == SCALE);
    lemma_coefficients_unclamped(sphere, r);
    lemma_root_unclamped(sphere, r, far);
    let oc = r.origin.sub_spec(sphere.center);
    let d = r.direction;
    let (ox, oy, oz) = (oc.x.raw as int, oc.y.raw as int, oc.z.raw as int);
    let (dx, dy, dz) = (d.x.raw as int, d.y.raw as int, d.z.raw as int);
    let rad = sphere.radius.raw as int;
    let a = dot_raw(d, d);
    let hb = dot_raw(oc, d);
    let c0 = dot_raw(oc, oc) - mul_raw(rad, rad);
    let disc = mul_raw(hb, hb) - mul_raw(a, c0);
    let sq = sphere.spec_discriminant(r).spec_sqrt().raw as int;
    let num = spec_root_numerator(sphere, r, far);
    let t = spec_chosen_root(sphere, r, far).raw as int;
    let (ux, uy, uz) = (mul_raw(t, dx), mul_raw(t, dy), mul_raw(t, dz));

    // What rounding took off each product.
    lemma_trunc_div_remainder(dx * dx, s);
    lemma_trunc_div_remainder(dy * dy, s);
    lemma_trunc_div_remainder(dz * dz, s);
    assert(dx * dx >= 0 && dy * dy >= 0 && dz * dz >= 0) by (nonlinear_arith);
    lemma_trunc_div_remainder(ox * dx, s);
    lemma_trunc_div_remainder(oy * dy, s);
    lemma_trunc_div_remainder(oz * dz, s);
    lemma_trunc_div_remainder(ox * ox, s);
    lemma_trunc_div_remainder(oy * oy, s);
    lemma_trunc_div_remainder(oz * oz, s);
    lemma_trunc_div_remainder(rad * rad, s);
    assert(ox * ox >= 0 && oy * oy >= 0 && oz * oz >= 0 && rad * rad >= 0) by (nonlinear_arith);
    lemma_trunc_div_remainder(hb * hb, s);
    lemma_trunc_div_remainder(a * c0, s);
    assert(hb * hb >= 0) by (nonlinear_arith);
    lemma_trunc_div_remainder(num * s, a);
    lemma_trunc_div_remainder(t * dx, s);
    lemma_trunc_div_remainder(t * dy, s);
    lemma_trunc_div_remainder(t * dz, s);
    assert(s * num == num * s) by (nonlinear_arith);
    assert(s * disc == disc * s) by (nonlinear_arith);
    lemma_distance_core((ox, oy, oz), (dx, dy, dz), (ux, uy, uz), rad, a, hb, c0, disc, sq, num, t);
}

/// The squared distance, from its parts, each product taken as a number of
/// its own.
proof fn lemma_distance_combined(
    g: int,
    qq: int,
    rr: int,
    oo: int,
    c0: int,
    rho_c: int,
    tod: int,
    thb: int,
    trb: int,
    ttdd: int,
    att: int,
    ttra: int,
    err: int,
    k: int,
)
    requires
        g == qq - rr,
        0x1_0000_0000_0000_0000 * qq == 0x1_0000_0000_0000_0000 * oo + 0x2_0000_0000 * tod + ttdd
            + err,
        oo - rr - 0x1_0000_0000 * c0 == rho_c,
        tod == 0x1_0000_0000 * thb + trb,
        ttdd == 0x1_0000_0000 * att + ttra,
        k == 0x1_0000_0000_0000_0000 * c0 + 0x2_0000_0000 * thb + att,
    ensures
        0x1_0000_0000_0000_0000 * g == 0x1_0000_0000 * k + 0x1_0000_0000_0000_0000 * rho_c
            + 0x2_0000_0000 * trb + ttra + err,
{
}

/// A point whose squared distance from the center misses the squared
/// radius by at most `tolerance` is at a distance that misses the radius by
/// at most `tolerance / radius + 1`.
proof fn lemma_distance_from_square(norm: int, radius: int, tolerance: int)
    requires
        0 <= norm,
        0 < radius,
        magnitude(norm - radius * radius) <= tolerance,
    ensures
        radius * magnitude(isqrt(norm) - radius) <= tolerance + radius,
{
    lemma_isqrt_bounds(norm);
    let len = isqrt(norm);
    assert(radius * magnitude(len - radius) <= tolerance + radius) by (nonlinear_arith)
        requires
            0 <= len,
            len * len <= norm < (len + 1) * (len + 1),
            0 < radius,
            magnitude(norm - radius * radius) <= tolerance,
    ;
}

/// A hit lies on the sphere, up to rounding. For a sphere and a ray within
/// the range of a scene, the squared distance of the hit point from the
/// center misses the squared radius by at most the tolerance, and its
/// distance misses the radius by at most the tolerance divided by the
/// radius, and one.
pub proof fn lemma_hit_on_sphere(sphere: Sphere, r: Ray, t_min: Fixed, t_max: Fixed)
    requires
        in_scene_range(sphere, r),
        sphere.spec_hit(r, t_min, t_max).is_some(),
    ensures
        ({
            let h = sphere.spec_hit(r, t_min, t_max).unwrap();
            let q = r.spec_at(h.t).sub_spec(sphere.center);
            &&& h.p == r.spec_at(h.t)
            &&& magnitude(q.raw_norm_squared() - sphere.radius.raw * sphere.radius.raw)
                <= spec_hit_tolerance(sphere, r, h.t)
            &&& sphere.radius.raw * magnitude(q.spec_length().raw - sphere.radius.raw)
                <= spec_hit_tolerance(sphere, r, h.t) + sphere.radius.raw
        }),
{
    let h = sphere.spec_hit(r, t_min, t_max).unwrap();
    let far = h.t != sphere.spec_near_root(r);
    lemma_root_on_sphere(sphere, r, far);
    lemma_root_unclamped(sphere, r, far);
    let q = r.spec_at(h.t).sub_spec(sphere.center);
    let (qx, qy, qz) = (q.x.raw as int, q.y.raw as int, q.z.raw as int);
    assert(qx * qx >= 0 && qy * qy >= 0 && qz * qz >= 0) by (nonlinear_arith);
    lemma_distance_from_square(
        q.raw_norm_squared(),
        sphere.radius.raw as int,
        spec_hit_tolerance(sphere, r, h.t),
    );
    // The length is not clamped.
    lemma_product_bound(qx, qx, 0x100_0000_0000_0000, 0x100_0000_0000_0000);
    lemma_product_bound(qy, qy, 0x100_0000_0000_0000, 0x100_0000_0000_0000);
    lemma_product_bound(qz, qz, 0x100_0000_0000_0000, 0x100_0000_0000_0000);
    lemma_isqrt_bounds(q.raw_norm_squared());
    let len = isqrt(q.raw_norm_squared());
    assert(len < 0x4000_0000_0000_0000) by (nonlinear_arith)
        requires
            0 <= len,
            len * len <= q.raw_norm_squared(),
            q.raw_norm_squared() <= 3 * (0x100_0000_0000_0000 * 0x100_0000_0000_0000),
    ;
}

/// The normal of a hit is a unit vector, up to rounding. For a sphere and a
/// ray within the range of a scene and a radius of at least a sixty-fourth,
/// the squared length of the normal misses one by at most the tolerance of
/// the hit over the squared radius, twice the offset of the hit over the
/// radius, and three, all in units of the last place.
pub proof fn lemma_hit_normal_near_unit(sphere: Sphere, r: Ray, t_min: Fixed, t_max: Fixed)
    requires
        in_scene_range(sphere, r),
        sphere.radius.raw >= 0x400_0000,
        sphere.spec_hit(r, t_min, t_max).is_some(),
    ensures
        ({
            let h = sphere.spec_hit(r, t_min, t_max).unwrap();
            let q = h.p.sub_spec(sphere.center);
            let rad = sphere.radius.raw as int;
            (rad * rad) * magnitude(h.normal.raw_norm_squared() - SCALE * SCALE) <= SCALE * SCALE
                * spec_hit_tolerance(sphere, r, h.t) + 2 * SCALE * (rad * (magnitude(q.x.raw as int)
                + magnitude(q.y.raw as int) + magnitude(q.z.raw as int))) + 3 * (rad * rad)
        }),
{
    let s = 0x1_0000_0000int;
    assert(s == SCALE);
    let h = sphere.spec_hit(r, t_min, t_max).unwrap();
    let far = h.t != sphere.spec_near_root(r);
    lemma_root_on_sphere(sphere, r, far);
    lemma_root_unclamped(sphere, r, far);
    let q = h.p.sub_spec(sphere.center);
    let rad = sphere.radius.raw as int;
    let outward = sphere.spec_outward_normal(h.p);
    let (qx, qy, qz) = (q.x.raw as int, q.y.raw as int, q.z.raw as int);
    // The outward normal is not clamped.
    assert(0x4000_0000_0000_0000 * rad >= 0x100_0000_0000_0000 * s) by (nonlinear_arith)
        requires
            rad >= 0x400_0000,
            s == 0x1_0000_0000,
    ;
    lemma_product_bound(qx, s, 0x100_0000_0000_0000, s);
    lemma_product_bound(qy, s, 0x100_0000_0000_0000, s);
    lemma_product_bound(qz, s, 0x100_0000_0000_0000, s);
    lemma_trunc_div_magnitude(qx * s, rad, 0x4000_0000_0000_0000);
    lemma_trunc_div_magnitude(qy * s, rad, 0x4000_0000_0000_0000);
    lemma_trunc_div_magnitude(qz * s, rad, 0x4000_0000_0000_0000);
    lemma_trunc_div_remainder(qx * s, rad);
    lemma_trunc_div_remainder(qy * s, rad);
    lemma_trunc_div_remainder(qz * s, rad);
    let (nx, ny, nz) = (outward.x.raw as int, outward.y.raw as int, outward.z.raw as int);
    assert(nx == trunc_div(qx * s, rad));
    assert(qx * s == s * qx && qy * s == s * qy && qz * s == s * qz) by (nonlinear_arith);
    lemma_quotient_length((qx, qy, qz), (nx, ny, nz), rad, spec_hit_tolerance(sphere, r, h.t));
    // Turning the normal against the ray keeps its length.
    assert((-nx) * (-nx) == nx * nx && (-ny) * (-ny) == ny * ny && (-nz) * (-nz) == nz * nz)
        by (nonlinear_arith);
    assert(h.normal.raw_norm_squared() == nx * nx + ny * ny + nz * nz);
    assert(SCALE * SCALE == 0x1_0000_0000_0000_0000) by (nonlinear_arith)
        requires
            SCALE == 0x1_0000_0000,
    ;
    assert(SCALE * SCALE * spec_hit_tolerance(sphere, r, h.t) == 0x1_0000_0000_0000_0000
        * spec_hit_tolerance(sphere, r, h.t)) by (nonlinear_arith)
        requires
            SCALE == 0x1_0000_0000,
    ;
    let reach = rad * (magnitude(qx) + magnitude(qy) + magnitude(qz));
    assert(2 * SCALE * reach == 0x2_0000_0000 * reach) by (nonlinear_arith)
        requires
            SCALE == 0x1_0000_0000,
    ;
}

} // verus!
