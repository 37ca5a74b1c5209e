//! The estimator of the light that arrives along a ray, and the sampler that
//! averages it over a pixel.

use vstd::prelude::*;
use vstd::std_specs::ops::{AddSpec, DivSpec, MulSpec, SubSpec};
use crate::camera::Camera;
use crate::color::{spec_color_sum, Color};
use crate::constants::INFINITY_RAW;
use crate::fixed::Fixed;
use crate::hittable::{HitRecord, Hittable};
use crate::hittable_list::{lemma_hit_is_closest, spec_hit_among, HittableList};
use crate::ray::Ray;
use crate::utilities::{is_unit_draw, rand_double};
use crate::vec3::{in_unit_disk, Vec3};

verus! {

/// Raw value of the smallest ray parameter at which a hit counts: a
/// thousandth, so that a scattered ray does not hit the surface it leaves.
pub const T_MIN_RAW: i64 = 4294967;

/// Raw value of one half.
pub const HALF_RAW: i64 = 2147483648;

/// Raw value of seven tenths, the green of the sky.
pub const SKY_GREEN_RAW: i64 = 3006477107;

/// White.
pub open spec fn spec_white() -> Color {
    Vec3 { x: Fixed::one(), y: Fixed::one(), z: Fixed::one() }
}

/// The blue of the sky.
pub open spec fn spec_sky_blue() -> Color {
    Vec3 { x: Fixed { raw: HALF_RAW }, y: Fixed { raw: SKY_GREEN_RAW }, z: Fixed::one() }
}

/// The color of the sky along ray `r`: white blended into blue by the
/// height `t = (y + 1) / 2` of the unit direction.
pub open spec fn spec_background(r: Ray) -> Color {
    let unit_direction = r.direction.spec_unit_vector();
    let t = Fixed { raw: HALF_RAW }.mul_spec(unit_direction.y.add_spec(Fixed::one()));
    Fixed::one().sub_spec(t).mul_spec(spec_white()).add_spec(t.mul_spec(spec_sky_blue()))
}

/// Whether `color` is what a surface sends back, given what its material
/// made of the ray and the light `beyond` that arrives along the scattered
/// ray: that light attenuated, or black if the material absorbed the ray.
pub open spec fn shaded(outcome: (bool, Color, Ray), beyond: Color, color: Color) -> bool {
    if outcome.0 {
        color == outcome.1.mul_spec(beyond)
    } else {
        color == Vec3::zero()
    }
}

/// Whether `color` is an estimate that `ray_color` may return for ray `r`
/// in the scene `objects` with `depth` bounces left.
///
/// With no bounce left, or for a ray without direction, it is black. A ray
/// that hits nothing has the color of the sky. A ray that hits a surface
/// has what the surface sends back for some outcome of its material and
/// some estimate for the scattered ray with one bounce fewer.
pub open spec fn may_color(r: Ray, objects: Seq<Hittable>, depth: int, color: Color) -> bool
    decreases depth,
{
    if depth <= 0 || r.direction.is_zero() {
        color == Vec3::zero()
    } else {
        match spec_hit_among(objects, r, Fixed { raw: T_MIN_RAW }, Fixed { raw: INFINITY_RAW }) {
            None => color == spec_background(r),
            Some(rec) => exists|outcome: (bool, Color, Ray), beyond: Color|
                {
                    &&& rec.material.may_scatter(r, rec, outcome)
                    &&& outcome.0 ==> may_color(outcome.2, objects, depth - 1, beyond)
                    &&& #[trigger] shaded(outcome, beyond, color)
                },
        }
    }
}

/// The color of the sky along ray `r`: white blended into blue by the
/// height `t = (y + 1) / 2` of the unit direction.
#[verifier::when_used_as_spec(spec_background)]
pub fn background(r: Ray) -> (color: Color)
    requires
        !r.direction.is_zero(),
    ensures
        color == spec_background(r),
{
    let unit_direction = r.direction.unit_vector();
    let t = Fixed { raw: HALF_RAW } * (unit_direction.y + Fixed::one());
    (Fixed::one() - t) * Color::new(Fixed::one(), Fixed::one(), Fixed::one()) + t * Color::new(
        Fixed { raw: HALF_RAW },
        Fixed { raw: SKY_GREEN_RAW },
        Fixed::one(),
    )
}

/// Estimates the light that arrives along ray `r` from the scene `world`,
/// following at most `depth` bounces.
pub fn ray_color(r: Ray, world: &HittableList, depth: i32) -> (color: Color)
    requires
        world.wf(),
    ensures
        may_color(r, world.objects@, depth as int, color),
        depth <= 0 ==> color == Vec3::zero(),
    decreases depth,
{
    let mut rec = HitRecord::zero();

    // Once the bounce limit is reached, no more light is gathered.
    if depth <= 0 {
        return Color::zero();
    }
    if r.direction.is_zero() {
        return Color::zero();
    }
    let t_min = Fixed { raw: T_MIN_RAW };
    let t_max = Fixed { raw: INFINITY_RAW };
    if world.hit(r, t_min, t_max, &mut rec) {
        let mut scattered = Ray::x_unit();
        let mut attenuation = Vec3::new(Fixed::one(), Fixed::one(), Fixed::one());
        proof {
            lemma_hit_is_closest(world.objects@, r, t_min, t_max);
            let k = choose|k: int|
                0 <= k < world.objects@.len() && (#[trigger] world.objects@[k]).spec_hit(
                    r,
                    t_min,
                    t_max,
                ) == Some(rec);
            world.objects@[k].lemma_hit_material(r, t_min, t_max);
        }
        if rec.material.scatter(&r, &rec, &mut attenuation, &mut scattered) {
            let beyond = ray_color(scattered, world, depth - 1);
            let color = attenuation * beyond;
            assert(shaded((true, attenuation, scattered), beyond, color));
            return color;
        }
        assert(shaded((false, attenuation, scattered), Vec3::zero(), Vec3::zero()));
        return Color::zero();
    }
    background(r)
}

/// The image-plane coordinate of a sample in the pixel at `index` of
/// `extent` pixels, moved within the pixel by `jitter`:
/// `(index + jitter) / (extent - 1)`.
pub open spec fn spec_pixel_coordinate(index: i32, jitter: Fixed, extent: i32) -> Fixed {
    Fixed::from_int(index).add_spec(jitter).div_spec(
        Fixed::from_int(extent).sub_spec(Fixed::one()),
    )
}

/// The camera ray of a sample in the pixel at column `i` and row `j` of an
/// image of `image_width` by `image_height` pixels, for the jitters `du` and
/// `dv` and the place `lens_point` on the lens.
pub open spec fn spec_sample_ray(
    camera: Camera,
    i: i32,
    j: i32,
    image_width: i32,
    image_height: i32,
    du: Fixed,
    dv: Fixed,
    lens_point: Vec3,
) -> Ray {
    camera.spec_get_ray_through(
        spec_pixel_coordinate(i, du, image_width),
        spec_pixel_coordinate(j, dv, image_height),
        lens_point,
    )
}

/// Whether `color` is an estimate that one sample of the pixel may give:
/// what `ray_color` may return for the camera ray of some jitters within
/// the pixel and some place on the lens.
pub open spec fn may_sample(
    camera: Camera,
    objects: Seq<Hittable>,
    i: i32,
    j: i32,
    image_width: i32,
    image_height: i32,
    depth: int,
    color: Color,
) -> bool {
    exists|du: Fixed, dv: Fixed, lens_point: Vec3|
        {
            &&& is_unit_draw(du)
            &&& is_unit_draw(dv)
            &&& in_unit_disk(lens_point)
            &&& may_color(
                #[trigger] spec_sample_ray(camera, i, j, image_width, image_height, du, dv, lens_point),
                objects,
                depth,
                color,
            )
        }
}

/// The image-plane coordinate of a sample in the pixel at `index` of
/// `extent` pixels, moved within the pixel by `jitter`:
/// `(index + jitter) / (extent - 1)`.
#[verifier::when_used_as_spec(spec_pixel_coordinate)]
pub fn pixel_coordinate(index: i32, jitter: Fixed, extent: i32) -> (s: Fixed)
    requires
        extent != 1,
    ensures
        s == spec_pixel_coordinate(index, jitter, extent),
{
    (Fixed::from_int(index) + jitter) / (Fixed::from_int(extent) - Fixed::one())
}

/// Adds up `samples_per_pixel` estimates of the light that reaches the pixel
/// at column `i` and row `j`, each along a camera ray through a random point
/// of the pixel.
pub fn sample_pixel(
    camera: &Camera,
    world: &HittableList,
    i: i32,
    j: i32,
    image_width: i32,
    image_height: i32,
    samples_per_pixel: i32,
    max_depth: i32,
) -> (pixel_color: Color)
    requires
        world.wf(),
        image_width != 1,
        image_height != 1,
    ensures
        exists|samples: Seq<Color>|
            {
                &&& samples.len() == if samples_per_pixel > 0 {
                    samples_per_pixel as int
                } else {
                    0
                }
                &&& forall|k: int|
                    0 <= k < samples.len() ==> may_sample(
                        *camera,
                        world.objects@,
                        i,
                        j,
                        image_width,
                        image_height,
                        max_depth as int,
                        #[trigger] samples[k],
                    )
                &&& pixel_color == #[trigger] spec_color_sum(samples)
            },
        max_depth <= 0 ==> pixel_color == Vec3::zero(),
{
    let mut pixel_color = Color::zero();
    let mut taken: i32 = 0;
    let mut samples: Ghost<Seq<Color>> = Ghost(Seq::empty());
    while taken < samples_per_pixel
        invariant
            world.wf(),
            image_width != 1,
            image_height != 1,
            0 <= taken,
            samples_per_pixel > 0 ==> taken <= samples_per_pixel,
            samples_per_pixel <= 0 ==> taken == 0,
            samples@.len() == taken,
            forall|k: int|
                0 <= k < samples@.len() ==> may_sample(
                    *camera,
                    world.objects@,
                    i,
                    j,
                    image_width,
                    image_height,
                    max_depth as int,
                    #[trigger] samples@[k],
                ),
            pixel_color == spec_color_sum(samples@),
            max_depth <= 0 ==> pixel_color == Vec3::zero(),
        decreases samples_per_pixel - taken,
    {
        let du = rand_double();
        let dv = rand_double();
        let u = pixel_coordinate(i, du, image_width);
        let v = pixel_coordinate(j, dv, image_height);
        let r = camera.get_ray(u, v);
        let color = ray_color(r, world, max_depth);
        proof {
            let lens_point = choose|lens_point: Vec3|
                in_unit_disk(lens_point) && r == #[trigger] camera.spec_get_ray_through(
                    u,
                    v,
                    lens_point,
                );
            assert(r == spec_sample_ray(
                *camera,
                i,
                j,
                image_width,
                image_height,
                du,
                dv,
                lens_point,
            ));
            let ghost before = samples@;
            samples@ = samples@.push(color);
            assert(samples@.drop_last() == before);
        }
        pixel_color = pixel_color + color;
        taken += 1;
    }
    pixel_color
}

} // verus!
