//! The normal of a hit by a ray that is aimed at the center of the sphere.

use vstd::prelude::*;
use vstd::std_specs::ops::{NegSpec, SubSpec};
use crate::fixed::{
    isqrt, lemma_trunc_div_magnitude, lemma_trunc_div_negated, lemma_trunc_div_remainder,
    trunc_div, Fixed, SCALE,
};
use crate::hit_accuracy::{
    in_scene_range, lemma_coefficients_unclamped, lemma_root_on_sphere, lemma_root_unclamped,
    spec_chosen_root, spec_hit_tolerance, spec_root_numerator,
};
use crate::hittable::HitRecord;
use crate::ray::Ray;
use crate::rounding::{
    dot_raw, lemma_distribute, lemma_mul_raw_bound, lemma_product_bound,
    lemma_unit_vector_unclamped, magnitude, max_magnitude, mul_raw,
};
use crate::sphere::Sphere;
use crate::vec3::Vec3;

verus! {

/// The square of one component of the offset of the hit from the center,
/// scaled: with `d` the component of the direction, `kappa` the root less
/// one and `eps` what rounding took off the step along the ray.
proof fn lemma_offset_square(q: int, d: int, kappa: int, eps: int)
    requires
        0x1_0000_0000 * q == kappa * d - eps,
    ensures
        0x1_0000_0000_0000_0000 * (q * q) == (kappa * kappa) * (d * d) - 2 * (kappa * (d * eps))
            + eps * eps,
{
    let y = 0x1_0000_0000 * q;
    let b = kappa * d;
    assert(y * y == 0x1_0000_0000_0000_0000 * (q * q)) by (nonlinear_arith)
        requires
            y == 0x1_0000_0000 * q,
    ;
    assert(y * y == b * b - 2 * (b * eps) + eps * eps) by (nonlinear_arith)
        requires
            y == b - eps,
    ;
    assert(b * b == (kappa * kappa) * (d * d)) by (nonlinear_arith)
        requires
            b == kappa * d,
    ;
    assert(b * eps == kappa * (d * eps)) by (nonlinear_arith)
        requires
            b == kappa * d,
    ;
}

/// Two numbers that are not negative, the second positive, differ by
/// little where their squares do.
proof fn lemma_difference_from_squares(y: int, x: int, e: int)
    by (nonlinear_arith)
    requires
        0 <= y,
        0 < x,
        magnitude(y * y - x * x) <= e,
    ensures
        magnitude(y - x) * x <= e,
{
}

/// How far the length of the direction times the root less one is from the
/// radius times the scale: for a ray aimed at the center, the hit is as far
/// from the center along the ray as the radius says.
proof fn lemma_head_on_reach(
    d: (int, int, int),
    q: (int, int, int),
    kappa: int,
    rad: int,
    len: int,
    tolerance: int,
    dmax: int,
)
    requires
        -0x1_0000_0000 < kappa * d.0 - 0x1_0000_0000 * q.0 < 0x1_0000_0000,
        -0x1_0000_0000 < kappa * d.1 - 0x1_0000_0000 * q.1 < 0x1_0000_0000,
        -0x1_0000_0000 < kappa * d.2 - 0x1_0000_0000 * q.2 < 0x1_0000_0000,
        magnitude(d.0) <= dmax,
        magnitude(d.1) <= dmax,
        magnitude(d.2) <= dmax,
        0 < rad,
        0 <= len,
        len * len <= d.0 * d.0 + d.1 * d.1 + d.2 * d.2 < (len + 1) * (len + 1),
        magnitude(q.0 * q.0 + q.1 * q.1 + q.2 * q.2 - rad * rad) <= tolerance,
    ensures
        magnitude(len * magnitude(kappa) - rad * 0x1_0000_0000) * (rad * 0x1_0000_0000)
            <= 0x1_0000_0000_0000_0000 * tolerance + 6 * (magnitude(kappa) * (0x1_0000_0000
            * dmax)) + 3 * 0x1_0000_0000_0000_0000 + 2 * ((kappa * kappa) * len),
{
    let s = 0x1_0000_0000int;
    let s2 = 0x1_0000_0000_0000_0000int;
    let (dx, dy, dz) = d;
    let (qx, qy, qz) = q;
    let (ex, ey, ez) = (kappa * dx - s * qx, kappa * dy - s * qy, kappa * dz - s * qz);
    lemma_offset_square(qx, dx, kappa, ex);
    lemma_offset_square(qy, dy, kappa, ey);
    lemma_offset_square(qz, dz, kappa, ez);
    let kk = kappa * kappa;
    let dd = dx * dx + dy * dy + dz * dz;
    let de = dx * ex + dy * ey + dz * ez;
    let ee = ex * ex + ey * ey + ez * ez;
    let nn = qx * qx + qy * qy + qz * qz;
    lemma_distribute(kk, dx * dx, dy * dy, dz * dz);
    lemma_distribute(kappa, dx * ex, dy * ey, dz * ez);
    assert(s2 * nn == kk * dd - 2 * (kappa * de) + ee);
    let lambda = dd - len * len;
    assert(0 <= lambda <= 2 * len) by (nonlinear_arith)
        requires
            lambda == dd - len * len,
            len * len <= dd < (len + 1) * (len + 1),
    ;
    assert(kk * dd == kk * (len * len) + kk * lambda) by (nonlinear_arith)
        requires
            lambda == dd - len * len,
    ;
    let y = len * magnitude(kappa);
    let x = rad * s;
    assert(y * y == kk * (len * len)) by (nonlinear_arith)
        requires
            y == len * magnitude(kappa),
            kk == kappa * kappa,
    ;
    assert(x * x == s2 * (rad * rad)) by (nonlinear_arith)
        requires
            x == rad * s,
            s == 0x1_0000_0000,
            s2 == 0x1_0000_0000_0000_0000,
    ;
    assert(kk >= 0) by (nonlinear_arith)
        requires
            kk == kappa * kappa,
    ;
    assert(0 <= kk * lambda <= kk * (2 * len)) by (nonlinear_arith)
        requires
            kk >= 0,
            0 <= lambda <= 2 * len,
    ;
    assert(kk * (2 * len) == 2 * (kk * len)) by (nonlinear_arith);
    lemma_product_bound(dx, ex, dmax, s);
    lemma_product_bound(dy, ey, dmax, s);
    lemma_product_bound(dz, ez, dmax, s);
    lemma_product_bound(kappa, de, magnitude(kappa), 3 * (dmax * s));
    assert(magnitude(kappa) * (3 * (dmax * s)) == 3 * (magnitude(kappa) * (s * dmax)))
        by (nonlinear_arith);
    lemma_product_bound(ex, ex, s, s);
    lemma_product_bound(ey, ey, s, s);
    lemma_product_bound(ez, ez, s, s);
    assert(ex * ex >= 0 && ey * ey >= 0 && ez * ez >= 0) by (nonlinear_arith);
    assert(s * s == s2);
    let e = s2 * tolerance + 6 * (magnitude(kappa) * (s * dmax)) + 3 * s2 + 2 * (kk * len);
    assert(y * y - x * x == s2 * (nn - rad * rad) + 2 * (kappa * de) - ee - kk * lambda);
    assert(magnitude(y * y - x * x) <= e);
    assert(y >= 0) by (nonlinear_arith)
        requires
            y == len * magnitude(kappa),
            len >= 0,
            magnitude(kappa) >= 0,
    ;
    lemma_difference_from_squares(y, x, e);
}

/// One component of the outward normal against that of the unit direction:
/// their sum at the smaller root, their difference at the larger one, is
/// small where the hit is as far along the ray as the radius says.
proof fn lemma_head_on_component(
    d: int,
    q: int,
    o: int,
    u: int,
    kappa: int,
    rad: int,
    len: int,
    near: bool,
    dmax: int,
    e: int,
)
    requires
        -0x1_0000_0000 < kappa * d - 0x1_0000_0000 * q < 0x1_0000_0000,
        -rad < 0x1_0000_0000 * q - rad * o < rad,
        -len < 0x1_0000_0000 * d - len * u < len,
        magnitude(d) <= dmax,
        0 < rad,
        0 < len,
        near ==> kappa <= 0,
        !near ==> kappa >= 0,
        magnitude(len * magnitude(kappa) - rad * 0x1_0000_0000) * (rad * 0x1_0000_0000) <= e,
    ensures
        (rad * rad * 0x1_0000_0000 * len) * magnitude(
            if near {
                o + u
            } else {
                o - u
            },
        ) <= dmax * e + (rad * 0x1_0000_0000 * len) * (0x1_0000_0000 + 2 * rad),
{
    let s = 0x1_0000_0000int;
    let eps = kappa * d - s * q;
    let delta = s * q - rad * o;
    let gamma = s * d - len * u;
    let y = len * magnitude(kappa);
    let x = rad * s;
    // The outward normal and the unit direction, each times both divisors.
    let ro = rad * o;
    let lu = len * u;
    let kd = kappa * d;
    assert((rad * len) * o == len * ro && (rad * len) * u == rad * lu) by (nonlinear_arith)
        requires
            ro == rad * o,
            lu == len * u,
    ;
    assert(len * ro == (len * kappa) * d - len * (eps + delta)) by (nonlinear_arith)
        requires
            ro == kappa * d - (eps + delta),
    ;
    assert(rad * lu == x * d - rad * gamma) by (nonlinear_arith)
        requires
            lu == s * d - gamma,
            x == rad * s,
    ;
    lemma_product_bound(len, eps + delta, len, s + rad);
    lemma_product_bound(rad, gamma, rad, len);
    lemma_product_bound(d, y - x, dmax, magnitude(y - x));
    assert(d * (y - x) == y * d - x * d) by (nonlinear_arith);
    assert(rad * len > 0) by (nonlinear_arith)
        requires
            rad > 0,
            len > 0,
    ;
    let w = if near {
        o + u
    } else {
        o - u
    };
    assert(magnitude((rad * len) * w) <= dmax * magnitude(y - x) + len * (s + rad) + rad * len) by {
        if near {
            assert((len * kappa) * d == -(y * d)) by (nonlinear_arith)
                requires
                    y == len * magnitude(kappa),
                    kappa <= 0,
            ;
            assert((rad * len) * (o + u) == (rad * len) * o + (rad * len) * u) by (nonlinear_arith);
        } else {
            assert((len * kappa) * d == y * d) by (nonlinear_arith)
                requires
                    y == len * magnitude(kappa),
                    kappa >= 0,
            ;
            assert((rad * len) * (o - u) == (rad * len) * o - (rad * len) * u) by (nonlinear_arith);
        }
    }
    let lhs = (rad * len) * magnitude(w);
    assert(lhs == magnitude((rad * len) * w)) by (nonlinear_arith)
        requires
            lhs == (rad * len) * magnitude(w),
            rad * len > 0,
    ;
    assert(x > 0) by (nonlinear_arith)
        requires
            x == rad * s,
            rad > 0,
            s == 0x1_0000_0000,
    ;
    assert((rad * rad * s * len) * magnitude(w) == lhs * x) by (nonlinear_arith)
        requires
            lhs == (rad * len) * magnitude(w),
            x == rad * s,
    ;
    assert(lhs * x <= dmax * (magnitude(y - x) * x) + (rad * s * len) * (s + 2 * rad))
        by (nonlinear_arith)
        requires
            lhs <= dmax * magnitude(y - x) + len * (s + rad) + rad * len,
            x == rad * s,
            x > 0,
    ;
    assert(dmax * (magnitude(y - x) * x) <= dmax * e) by (nonlinear_arith)
        requires
            magnitude(y - x) * x <= e,
            dmax >= 0,
    ;
}

/// On which face a ray aimed at the center meets the sphere: the scalar
/// product of its direction with the outward normal is negative where that
/// normal is nearly the opposite of the unit direction, and not negative
/// where it is nearly the unit direction.
proof fn lemma_head_on_face(
    d: (int, int, int),
    o: (int, int, int),
    u: (int, int, int),
    len: int,
    near: bool,
    dmax: int,
    bound: int,
)
    requires
        magnitude(d.0) <= dmax,
        magnitude(d.1) <= dmax,
        magnitude(d.2) <= dmax,
        dmax <= 0x20_0000_0000,
        0x8000_0000 <= len,
        len * len <= d.0 * d.0 + d.1 * d.1 + d.2 * d.2,
        -len < 0x1_0000_0000 * d.0 - len * u.0 < len,
        -len < 0x1_0000_0000 * d.1 - len * u.1 < len,
        -len < 0x1_0000_0000 * d.2 - len * u.2 < len,
        0 <= bound <= 0x100_0000,
        magnitude(if near { o.0 + u.0 } else { o.0 - u.0 }) <= bound,
        magnitude(if near { o.1 + u.1 } else { o.1 - u.1 }) <= bound,
        magnitude(if near { o.2 + u.2 } else { o.2 - u.2 }) <= bound,
    ensures
        near ==> mul_raw(d.0, o.0) + mul_raw(d.1, o.1) + mul_raw(d.2, o.2) < 0,
        !near ==> mul_raw(d.0, o.0) + mul_raw(d.1, o.1) + mul_raw(d.2, o.2) >= 0,
{
    let s = 0x1_0000_0000int;
    assert(s == SCALE);
    let (dx, dy, dz) = d;
    let (ox, oy, oz) = o;
    let (ux, uy, uz) = u;
    let (gx, gy, gz) = (s * dx - len * ux, s * dy - len * uy, s * dz - len * uz);
    let dd = dx * dx + dy * dy + dz * dz;
    let du = dx * ux + dy * uy + dz * uz;
    let dg = dx * gx + dy * gy + dz * gz;
    let dox = dx * ox + dy * oy + dz * oz;
    // The direction against its own unit vector.
    lemma_against_unit(dx, ux, gx, len);
    lemma_against_unit(dy, uy, gy, len);
    lemma_against_unit(dz, uz, gz, len);
    lemma_distribute(len, dx * ux, dy * uy, dz * uz);
    assert(len * du == s * dd - dg);
    lemma_product_bound(dx, gx, dmax, len);
    lemma_product_bound(dy, gy, dmax, len);
    lemma_product_bound(dz, gz, dmax, len);
    assert(du >= s * len - 3 * dmax) by (nonlinear_arith)
        requires
            len * du == s * dd - dg,
            magnitude(dg) <= 3 * (dmax * len),
            len * len <= dd,
            len > 0,
            s > 0,
    ;
    assert(dmax * bound <= 0x20_0000_0000 * 0x100_0000) by (nonlinear_arith)
        requires
            0 <= dmax <= 0x20_0000_0000,
            0 <= bound <= 0x100_0000,
    ;
    assert(s * len >= 0x1_0000_0000 * 0x8000_0000) by (nonlinear_arith)
        requires
            s == 0x1_0000_0000,
            len >= 0x8000_0000,
    ;
    if near {
        let (wx, wy, wz) = (ox + ux, oy + uy, oz + uz);
        lemma_product_bound(dx, wx, dmax, bound);
        lemma_product_bound(dy, wy, dmax, bound);
        lemma_product_bound(dz, wz, dmax, bound);
        assert(dx * wx == dx * ox + dx * ux && dy * wy == dy * oy + dy * uy && dz * wz == dz * oz
            + dz * uz) by (nonlinear_arith)
            requires
                wx == ox + ux,
                wy == oy + uy,
                wz == oz + uz,
        ;
        assert(dox <= -3 * s);
    } else {
        let (wx, wy, wz) = (ox - ux, oy - uy, oz - uz);
        lemma_product_bound(dx, wx, dmax, bound);
        lemma_product_bound(dy, wy, dmax, bound);
        lemma_product_bound(dz, wz, dmax, bound);
        assert(dx * wx == dx * ox - dx * ux && dy * wy == dy * oy - dy * uy && dz * wz == dz * oz
            - dz * uz) by (nonlinear_arith)
            requires
                wx == ox - ux,
                wy == oy - uy,
                wz == oz - uz,
        ;
        assert(dox >= 3 * s);
    }
    lemma_trunc_div_remainder(dx * ox, s);
    lemma_trunc_div_remainder(dy * oy, s);
    lemma_trunc_div_remainder(dz * oz, s);
}

/// One component of a direction times that of its unit vector, times the
/// length: with `g` what rounding took off the unit vector.
proof fn lemma_against_unit(d: int, u: int, g: int, len: int)
    by (nonlinear_arith)
    requires
        len * u == 0x1_0000_0000 * d - g,
    ensures
        len * (d * u) == 0x1_0000_0000 * (d * d) - d * g,
{
}

/// Whether the ray is aimed at the center of the sphere: its direction is
/// the offset from its origin to the center.
pub open spec fn is_aimed_at_center(sphere: Sphere, r: Ray) -> bool {
    r.direction == sphere.center.sub_spec(r.origin)
}

/// By how much the square of the distance that a ray aimed at the center
/// covers up to the hit, beyond or short of its whole direction, may miss
/// the square of the radius: the tolerance of the hit, and what rounding
/// adds along the ray and to the length of the direction.
pub open spec fn spec_head_on_slack(sphere: Sphere, r: Ray, t: Fixed) -> int {
    let kappa = magnitude(t.raw - SCALE);
    SCALE * SCALE * spec_hit_tolerance(sphere, r, t) + 6 * (kappa * (SCALE * max_magnitude(
        r.direction,
    ))) + 3 * (SCALE * SCALE) + 2 * ((kappa * kappa) * r.direction.spec_length().raw)
}

/// By how much a component of the normal of a head-on hit may differ from
/// that of the opposite of the unit direction, in raw units.
pub open spec fn spec_head_on_tolerance(sphere: Sphere, r: Ray, t: Fixed) -> int {
    let rad = sphere.radius.raw as int;
    let len = r.direction.spec_length().raw as int;
    (max_magnitude(r.direction) * spec_head_on_slack(sphere, r, t) + (rad * SCALE * len) * (SCALE
        + 2 * rad)) / (rad * rad * SCALE * len) + 1
}

/// A number whose multiple by a positive divisor is at most `n` is at most
/// the quotient of `n` by the divisor.
proof fn lemma_quotient_bound(w: int, divisor: int, n: int)
    by (nonlinear_arith)
    requires
        0 < divisor,
        0 <= w,
        divisor * w <= n,
    ensures
        w <= n / divisor,
{
}

/// For a ray aimed at the center, the root less one has the sign of the
/// root that was chosen: not positive at the smaller, not negative at the
/// larger.
proof fn lemma_head_on_sign(a: int, t: int, sq: int, num: int, far: bool)
    by (nonlinear_arith)
    requires
        0 < a,
        0 <= sq,
        num == if far {
            a + sq
        } else {
            a - sq
        },
        num >= 0 ==> 0 <= 0x1_0000_0000 * num - a * t < a,
        num <= 0 ==> -a < 0x1_0000_0000 * num - a * t <= 0,
    ensures
        far ==> t - 0x1_0000_0000 >= 0,
        !far ==> t - 0x1_0000_0000 <= 0,
{
}

/// For a ray aimed at the center, the steps from origin to hit: the root
/// less one has the sign of the root that was chosen, and the offset of the
/// hit from the center is the direction times the root less one.
proof fn lemma_head_on_offset(sphere: Sphere, r: Ray, far: bool)
    requires
        in_scene_range(sphere, r),
        is_aimed_at_center(sphere, r),
        sphere.spec_has_roots(r),
    ensures
        ({
            let t = spec_chosen_root(sphere, r, far);
            let kappa = t.raw - 0x1_0000_0000;
            let q = r.spec_at(t).sub_spec(sphere.center);
            let d = r.direction;
            &&& far ==> kappa >= 0
            &&& !far ==> kappa <= 0
            &&& -0x1_0000_0000 < kappa * d.x.raw - 0x1_0000_0000 * q.x.raw < 0x1_0000_0000
            &&& -0x1_0000_0000 < kappa * d.y.raw - 0x1_0000_0000 * q.y.raw < 0x1_0000_0000
            &&& -0x1_0000_0000 < kappa * d.z.raw - 0x1_0000_0000 * q.z.raw < 0x1_0000_0000
            &&& max_magnitude(q) <= 0x100_0000_0000_0000
        }),
{
    let s = 0x1_0000_0000int;
    assert(s == SCALE);
    lemma_coefficients_unclamped(sphere, r);
    lemma_root_unclamped(sphere, r, far);
    let d = r.direction;
    let oc = r.origin.sub_spec(sphere.center);
    let (dx, dy, dz) = (d.x.raw as int, d.y.raw as int, d.z.raw as int);
    let a = dot_raw(d, d);
    let hb = dot_raw(oc, d);
    let sq = sphere.spec_discriminant(r).spec_sqrt().raw as int;
    let num = spec_root_numerator(sphere, r, far);
    let t = spec_chosen_root(sphere, r, far).raw as int;
    let kappa = t - s;
    // The offset from center to origin is the opposite of the direction.
    assert(oc.x.raw == -dx && oc.y.raw == -dy && oc.z.raw == -dz);
    assert((-dx) * dx == -(dx * dx) && (-dy) * dy == -(dy * dy) && (-dz) * dz == -(dz * dz))
        by (nonlinear_arith);
    lemma_trunc_div_negated(dx * dx, s);
    lemma_trunc_div_negated(dy * dy, s);
    lemma_trunc_div_negated(dz * dz, s);
    assert(hb == -a);
    lemma_trunc_div_remainder(num * s, a);
    assert(num * s == s * num) by (nonlinear_arith);
    assert(num >= 0 ==> num * s >= 0) by (nonlinear_arith)
        requires
            s > 0,
    ;
    assert(num <= 0 ==> num * s <= 0) by (nonlinear_arith)
        requires
            s > 0,
    ;
    lemma_head_on_sign(a, t, sq, num, far);
    lemma_trunc_div_remainder(t * dx, s);
    lemma_trunc_div_remainder(t * dy, s);
    lemma_trunc_div_remainder(t * dz, s);
    assert(kappa * dx == t * dx - s * dx && kappa * dy == t * dy - s * dy && kappa * dz == t * dz
        - s * dz) by (nonlinear_arith)
        requires
            kappa == t - s,
    ;
}

/// Where nothing is clamped, the outward normal at a hit is the offset of
/// the hit from the center over the radius, on raw values.
proof fn lemma_outward_unclamped(sphere: Sphere, p: Vec3)
    requires
        sphere.radius.raw >= 0x400_0000,
        max_magnitude(p.sub_spec(sphere.center)) <= 0x100_0000_0000_0000,
    ensures
        ({
            let q = p.sub_spec(sphere.center);
            let o = sphere.spec_outward_normal(p);
            let rad = sphere.radius.raw as int;
            &&& -rad < 0x1_0000_0000 * q.x.raw - rad * o.x.raw < rad
            &&& -rad < 0x1_0000_0000 * q.y.raw - rad * o.y.raw < rad
            &&& -rad < 0x1_0000_0000 * q.z.raw - rad * o.z.raw < rad
            &&& max_magnitude(o) <= 0x4000_0000_0000_0000
        }),
{
    let s = 0x1_0000_0000int;
    assert(s == SCALE);
    let q = p.sub_spec(sphere.center);
    let (qx, qy, qz) = (q.x.raw as int, q.y.raw as int, q.z.raw as int);
    let rad = sphere.radius.raw as int;
    assert(0x4000_0000_0000_0000 * rad >= 0x100_0000_0000_0000 * s) by (nonlinear_arith)
        requires
            rad >= 0x400_0000,
            s == 0x1_0000_0000,
    ;
    lemma_product_bound(qx, s, 0x100_0000_0000_0000, s);
    lemma_product_bound(qy, s, 0x100_0000_0000_0000, s);
    lemma_product_bound(qz, s, 0x100_0000_0000_0000, s);
    lemma_trunc_div_magnitude(qx * s, rad, 0x4000_0000_0000_0000);
    lemma_trunc_div_magnitude(qy * s, rad, 0x4000_0000_0000_0000);
    lemma_trunc_div_magnitude(qz * s, rad, 0x4000_0000_0000_0000);
    lemma_trunc_div_remainder(qx * s, rad);
    lemma_trunc_div_remainder(qy * s, rad);
    lemma_trunc_div_remainder(qz * s, rad);
    assert(qx * s == s * qx && qy * s == s * qy && qz * s == s * qz) by (nonlinear_arith);
}

/// The unit vector of a direction within the range of a scene: its length
/// is at least a half, and each component times the length misses the
/// component of the direction times the scale by less than the length.
proof fn lemma_direction_unit(d: Vec3)
    requires
        max_magnitude(d) <= 0x20_0000_0000,
        dot_raw(d, d) >= 0x4000_0000,
    ensures
        ({
            let len = d.spec_length().raw as int;
            let u = d.spec_unit_vector();
            &&& 0x8000_0000 <= len
            &&& len * len <= d.raw_norm_squared() < (len + 1) * (len + 1)
            &&& -len < 0x1_0000_0000 * d.x.raw - len * u.x.raw < len
            &&& -len < 0x1_0000_0000 * d.y.raw - len * u.y.raw < len
            &&& -len < 0x1_0000_0000 * d.z.raw - len * u.z.raw < len
            &&& max_magnitude(u) <= 0x1_0000_0000
        }),
{
    let s = 0x1_0000_0000int;
    assert(s == SCALE);
    let (dx, dy, dz) = (d.x.raw as int, d.y.raw as int, d.z.raw as int);
    lemma_trunc_div_remainder(dx * dx, s);
    lemma_trunc_div_remainder(dy * dy, s);
    lemma_trunc_div_remainder(dz * dz, s);
    assert(dx * dx >= 0 && dy * dy >= 0 && dz * dz >= 0) by (nonlinear_arith);
    let dd = dx * dx + dy * dy + dz * dz;
    assert(dd >= s * dot_raw(d, d));
    if d.is_zero() {
        assert(dd == 0) by (nonlinear_arith)
            requires
                dd == dx * dx + dy * dy + dz * dz,
                dx == 0 && dy == 0 && dz == 0,
        ;
    }
    lemma_unit_vector_unclamped(d);
    let len = isqrt(d.raw_norm_squared());
    assert(len >= 0x8000_0000) by (nonlinear_arith)
        requires
            0 <= len,
            dd < (len + 1) * (len + 1),
            dd >= 0x1_0000_0000 * 0x4000_0000,
    ;
    lemma_trunc_div_remainder(dx * s, len);
    lemma_trunc_div_remainder(dy * s, len);
    lemma_trunc_div_remainder(dz * s, len);
    assert(dx * s == s * dx && dy * s == s * dy && dz * s == s * dz) by (nonlinear_arith);
}

/// For a ray aimed at the center, the outward normal at the smaller root is
/// the opposite of the unit direction, and at the larger root the unit
/// direction, up to the tolerance less one.
proof fn lemma_head_on_outward(sphere: Sphere, r: Ray, far: bool)
    requires
        in_scene_range(sphere, r),
        sphere.radius.raw >= 0x400_0000,
        is_aimed_at_center(sphere, r),
        sphere.spec_has_roots(r),
    ensures
        ({
            let t = spec_chosen_root(sphere, r, far);
            let o = sphere.spec_outward_normal(r.spec_at(t));
            let u = r.direction.spec_unit_vector();
            let bound = spec_head_on_tolerance(sphere, r, t) - 1;
            &&& bound >= 0
            &&& magnitude(if far { o.x.raw - u.x.raw } else { o.x.raw + u.x.raw }) <= bound
            &&& magnitude(if far { o.y.raw - u.y.raw } else { o.y.raw + u.y.raw }) <= bound
            &&& magnitude(if far { o.z.raw - u.z.raw } else { o.z.raw + u.z.raw }) <= bound
        }),
{
    let s = 0x1_0000_0000int;
    let s2 = 0x1_0000_0000_0000_0000int;
    assert(s == SCALE);
    let t = spec_chosen_root(sphere, r, far);
    let p = r.spec_at(t);
    let d = r.direction;
    lemma_head_on_offset(sphere, r, far);
    lemma_outward_unclamped(sphere, p);
    lemma_direction_unit(d);
    lemma_root_on_sphere(sphere, r, far);
    let q = p.sub_spec(sphere.center);
    let o = sphere.spec_outward_normal(p);
    let u = d.spec_unit_vector();
    let (dx, dy, dz) = (d.x.raw as int, d.y.raw as int, d.z.raw as int);
    let (qx, qy, qz) = (q.x.raw as int, q.y.raw as int, q.z.raw as int);
    let (ox, oy, oz) = (o.x.raw as int, o.y.raw as int, o.z.raw as int);
    let (ux, uy, uz) = (u.x.raw as int, u.y.raw as int, u.z.raw as int);
    let rad = sphere.radius.raw as int;
    let len = d.spec_length().raw as int;
    let kappa = t.raw - s;
    let dmax = max_magnitude(d);
    let tol = spec_hit_tolerance(sphere, r, t);
    lemma_head_on_reach((dx, dy, dz), (qx, qy, qz), kappa, rad, len, tol, dmax);
    let slack = s2 * tol + 6 * (magnitude(kappa) * (s * dmax)) + 3 * s2 + 2 * ((kappa * kappa) * len);
    assert(magnitude(kappa) * magnitude(kappa) == kappa * kappa) by (nonlinear_arith);
    assert(SCALE * SCALE == 0x1_0000_0000_0000_0000) by (nonlinear_arith)
        requires
            SCALE == 0x1_0000_0000,
    ;
    assert(slack == spec_head_on_slack(sphere, r, t));
    lemma_head_on_component(dx, qx, ox, ux, kappa, rad, len, !far, dmax, slack);
    lemma_head_on_component(dy, qy, oy, uy, kappa, rad, len, !far, dmax, slack);
    lemma_head_on_component(dz, qz, oz, uz, kappa, rad, len, !far, dmax, slack);
    let divisor = rad * rad * s * len;
    let budget = dmax * slack + (rad * s * len) * (s + 2 * rad);
    assert(divisor > 0) by (nonlinear_arith)
        requires
            divisor == rad * rad * s * len,
            rad > 0,
            len > 0,
            s > 0,
    ;
    let (wx, wy, wz) = if far {
        (ox - ux, oy - uy, oz - uz)
    } else {
        (ox + ux, oy + uy, oz + uz)
    };
    lemma_quotient_bound(magnitude(wx), divisor, budget);
    lemma_quotient_bound(magnitude(wy), divisor, budget);
    lemma_quotient_bound(magnitude(wz), divisor, budget);
    assert(spec_head_on_tolerance(sphere, r, t) == budget / divisor + 1);
}

/// For a ray aimed at the center of the sphere, the normal of the hit is
/// the opposite of the unit direction of the ray, up to rounding: each of
/// its components differs from that of the negated unit direction by at
/// most the tolerance. This is stated for a sphere and a ray within the
/// range of a scene, a radius of at least a sixty-fourth, and a tolerance
/// of at most two to the power of minus eight.
pub proof fn lemma_head_on_normal(sphere: Sphere, r: Ray, t_min: Fixed, t_max: Fixed)
    requires
        in_scene_range(sphere, r),
        sphere.radius.raw >= 0x400_0000,
        is_aimed_at_center(sphere, r),
        sphere.spec_hit(r, t_min, t_max).is_some(),
        spec_head_on_tolerance(sphere, r, sphere.spec_hit(r, t_min, t_max).unwrap().t)
            <= 0x100_0000,
    ensures
        ({
            let h = sphere.spec_hit(r, t_min, t_max).unwrap();
            let tolerance = spec_head_on_tolerance(sphere, r, h.t);
            let unit = r.direction.spec_unit_vector();
            &&& magnitude(h.normal.x.raw + unit.x.raw) <= tolerance
            &&& magnitude(h.normal.y.raw + unit.y.raw) <= tolerance
            &&& magnitude(h.normal.z.raw + unit.z.raw) <= tolerance
        }),
{
    let s = 0x1_0000_0000int;
    assert(s == SCALE);
    let h = sphere.spec_hit(r, t_min, t_max).unwrap();
    let far = h.t != sphere.spec_near_root(r);
    lemma_head_on_outward(sphere, r, far);
    let d = r.direction;
    lemma_direction_unit(d);
    let outward = sphere.spec_outward_normal(h.p);
    let unit = d.spec_unit_vector();
    let (dx, dy, dz) = (d.x.raw as int, d.y.raw as int, d.z.raw as int);
    let (ox, oy, oz) = (outward.x.raw as int, outward.y.raw as int, outward.z.raw as int);
    let (ux, uy, uz) = (unit.x.raw as int, unit.y.raw as int, unit.z.raw as int);
    let len = d.spec_length().raw as int;
    let bound = spec_head_on_tolerance(sphere, r, h.t);
    // The face that the ray meets.
    lemma_head_on_face((dx, dy, dz), (ox, oy, oz), (ux, uy, uz), len, !far, max_magnitude(d), bound);
    assert(0x20_0000_0000 * 0x2_0000_0000 <= 0x40_0000_0000 * s);
    lemma_mul_raw_bound(dx, ox, 0x20_0000_0000, 0x2_0000_0000, 0x40_0000_0000);
    lemma_mul_raw_bound(dy, oy, 0x20_0000_0000, 0x2_0000_0000, 0x40_0000_0000);
    lemma_mul_raw_bound(dz, oz, 0x20_0000_0000, 0x2_0000_0000, 0x40_0000_0000);
    assert(d.spec_dot(outward).raw == mul_raw(dx, ox) + mul_raw(dy, oy) + mul_raw(dz, oz));
    assert(h.front_face == !far);
}

} // verus!
