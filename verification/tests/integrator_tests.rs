use raychasing::camera::Camera;
use raychasing::fixed::Fixed;
use raychasing::hittable::{HitRecord, Hittable};
use raychasing::hittable_list::HittableList;
use raychasing::integrator::{background, pixel_coordinate, ray_color, sample_pixel, T_MIN_RAW};
use raychasing::material::{Dielectric, Lambertian, Material, Metal};
use raychasing::ray::Ray;
use raychasing::sphere::Sphere;
use raychasing::vec3::Vec3;

fn fx(x: f64) -> Fixed {
    Fixed { raw: (x * 4294967296.0).round() as i64 }
}

fn vec(x: f64, y: f64, z: f64) -> Vec3 {
    Vec3::new(fx(x), fx(y), fx(z))
}

fn close(a: Vec3, b: Vec3, tolerance: f64) -> bool {
    (a - b).length() < fx(tolerance)
}

fn single_grey_ball() -> HittableList {
    let mut world = HittableList::new();
    let grey = Material::Lambertian(Lambertian::new(&vec(0.5, 0.5, 0.5)));
    world.add(Hittable::Sphere(Sphere::new(vec(0.0, 0.0, -1.0), fx(0.5), grey)));
    world
}

fn straight_camera() -> Camera {
    Camera::new(Vec3::zero(), vec(0.0, 0.0, -1.0), vec(0.0, 1.0, 0.0), fx(1.0), fx(2.0), fx(0.0), fx(1.0))
}

#[test]
fn the_lower_bound_is_a_thousandth() {
    assert_eq!(T_MIN_RAW, (0.001f64 * 4294967296.0).floor() as i64);
}

#[test]
fn background_blends_white_into_sky_blue() {
    assert_eq!(background(Ray::new(Vec3::zero(), vec(0.0, 3.0, 0.0))), vec(0.5, 0.7, 1.0));
    assert_eq!(background(Ray::new(Vec3::zero(), vec(0.0, -3.0, 0.0))), vec(1.0, 1.0, 1.0));
    let level = background(Ray::new(vec(5.0, 5.0, 5.0), vec(2.0, 0.0, -1.0)));
    assert!(close(level, vec(0.75, 0.85, 1.0), 0.000000001));
}

#[test]
fn depth_zero_is_black() {
    let world = single_grey_ball();
    let empty = HittableList::new();
    let rays = [
        Ray::new(Vec3::zero(), vec(0.0, 0.0, -1.0)),
        Ray::new(Vec3::zero(), vec(0.0, 1.0, 0.0)),
        Ray::new(vec(3.0, -2.0, 9.0), vec(-0.3, 0.2, 5.0)),
        Ray::new(Vec3::zero(), Vec3::zero()),
    ];
    for r in rays {
        assert_eq!(ray_color(r, &world, 0), Vec3::zero());
        assert_eq!(ray_color(r, &empty, 0), Vec3::zero());
        assert_eq!(ray_color(r, &world, -3), Vec3::zero());
    }
}

#[test]
fn a_ray_without_direction_is_black() {
    let world = single_grey_ball();
    assert_eq!(ray_color(Ray::new(vec(0.0, 0.0, 3.0), Vec3::zero()), &world, 10), Vec3::zero());
}

#[test]
fn a_ray_that_misses_has_the_color_of_the_sky() {
    let world = single_grey_ball();
    let r = Ray::new(Vec3::zero(), vec(0.0, 1.0, -1.0));
    for depth in [1, 2, 50] {
        assert_eq!(ray_color(r, &world, depth), background(r));
    }
    assert_eq!(ray_color(r, &HittableList::new(), 1), background(r));
}

#[test]
fn single_sphere_scene_at_depth_one() {
    let world = single_grey_ball();
    let camera = straight_camera();
    // Rays through the silhouette of the ball report a hit. With one bounce
    // the scattered ray gathers nothing, so that the estimate is black.
    for (s, t) in [(0.5, 0.5), (0.55, 0.5), (0.5, 0.7), (0.45, 0.35)] {
        let r = camera.get_ray(fx(s), fx(t));
        let mut rec = HitRecord::zero();
        assert!(world.hit(r, fx(0.001), Fixed::infinity(), &mut rec));
        assert_eq!(ray_color(r, &world, 1), Vec3::zero());
    }
    // Rays outside it fall through to the sky: between sky blue and white in
    // red and green, and as blue as both.
    for (s, t) in [(0.0, 0.0), (1.0, 1.0), (0.1, 0.5), (0.5, 0.95), (0.8, 0.2)] {
        let r = camera.get_ray(fx(s), fx(t));
        let mut rec = HitRecord::zero();
        assert!(!world.hit(r, fx(0.001), Fixed::infinity(), &mut rec));
        let color = ray_color(r, &world, 1);
        assert_eq!(color, background(r));
        assert!(fx(0.5) < color.x && color.x < fx(1.0));
        assert!(fx(0.7) < color.y && color.y < fx(1.0));
        assert!((color.z - fx(1.0)).abs() < fx(0.000000001));
    }
}

#[test]
fn a_diffuse_ball_takes_half_of_the_sky_at_depth_two() {
    let world = single_grey_ball();
    let r = Ray::new(Vec3::zero(), vec(0.0, 0.0, -1.0));
    for _ in 0..200 {
        let color = ray_color(r, &world, 2);
        // The scattered ray leaves the ball and sees the sky, halved by the albedo.
        assert!(fx(0.25) <= color.x && color.x <= fx(0.5));
        assert!(fx(0.35) <= color.y && color.y <= fx(0.5));
        assert!((color.z - fx(0.5)).abs() < fx(0.000000001));
    }
}

#[test]
fn a_mirror_shows_the_sky_above() {
    let mut world = HittableList::new();
    let mirror = Material::Metal(Metal::new(&vec(0.8, 0.6, 0.4), Fixed::zero()));
    world.add(Hittable::Sphere(Sphere::new(vec(0.0, -100.0, 0.0), fx(100.0), mirror)));
    // Straight down onto the top of the ball, and straight back up.
    let r = Ray::new(vec(0.0, 5.0, 0.0), vec(0.0, -1.0, 0.0));
    assert_eq!(ray_color(r, &world, 2), vec(0.8, 0.6, 0.4) * vec(0.5, 0.7, 1.0));
    assert_eq!(ray_color(r, &world, 1), Vec3::zero());
}

#[test]
fn light_goes_through_a_glass_ball() {
    let mut world = HittableList::new();
    let glass = Material::Dielectric(Dielectric::new(fx(1.5)));
    world.add(Hittable::Sphere(Sphere::new(vec(0.0, 0.0, -2.0), fx(0.5), glass)));
    assert!(world.is_wf());
    let r = Ray::new(Vec3::zero(), vec(0.0, 0.0, -1.0));
    for _ in 0..100 {
        let color = ray_color(r, &world, 50);
        for channel in color.to_vec() {
            assert!(Fixed::zero() <= channel && channel <= Fixed::one());
        }
    }
}

#[test]
fn pixel_coordinate_spans_the_image() {
    assert_eq!(pixel_coordinate(0, Fixed::zero(), 101), Fixed::zero());
    assert_eq!(pixel_coordinate(100, Fixed::zero(), 101), Fixed::one());
    assert_eq!(pixel_coordinate(50, Fixed::zero(), 101), fx(0.5));
    assert_eq!(pixel_coordinate(3, fx(0.5), 8), fx(0.5));
    assert_eq!(pixel_coordinate(2, fx(0.25), 4), fx(0.75));
}

#[test]
fn sample_pixel_adds_up_the_samples() {
    let world = single_grey_ball();
    let camera = straight_camera();
    // Without bounces, or without samples, the sum is black.
    assert_eq!(sample_pixel(&camera, &world, 0, 0, 200, 100, 10, 0), Vec3::zero());
    assert_eq!(sample_pixel(&camera, &world, 0, 0, 200, 100, 0, 5), Vec3::zero());
    assert_eq!(sample_pixel(&camera, &world, 0, 0, 200, 100, -4, 5), Vec3::zero());
    // The middle of the image shows the ball, black after one bounce.
    assert_eq!(sample_pixel(&camera, &world, 100, 50, 200, 100, 1, 1), Vec3::zero());
    // A corner shows the sky, whose blue is one in every sample.
    let one_sample = sample_pixel(&camera, &world, 0, 0, 200, 100, 1, 1);
    assert!(fx(0.5) < one_sample.x && one_sample.x < fx(1.0));
    assert!(fx(0.7) < one_sample.y && one_sample.y < fx(1.0));
    let sum = sample_pixel(&camera, &world, 0, 0, 200, 100, 8, 1);
    assert!((sum.z - fx(8.0)).abs() < fx(0.00000001));
    assert!(fx(4.0) < sum.x && sum.x < fx(8.0));
}
