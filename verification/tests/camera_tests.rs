use raychasing::camera::Camera;
use raychasing::fixed::Fixed;
use raychasing::ray::Ray;
use raychasing::vec3::Vec3;

fn fx(x: f64) -> Fixed {
    Fixed { raw: (x * 4294967296.0).round() as i64 }
}

fn vec(x: f64, y: f64, z: f64) -> Vec3 {
    Vec3::new(fx(x), fx(y), fx(z))
}

fn close(a: Vec3, b: Vec3, tolerance: f64) -> bool {
    (a - b).length() < fx(tolerance)
}

#[test]
fn camera_looking_down_the_negative_z_axis() {
    let camera = Camera::new(
        Vec3::zero(),
        vec(0.0, 0.0, -1.0),
        vec(0.0, 1.0, 0.0),
        fx(1.0),
        fx(2.0),
        fx(0.0),
        fx(1.0),
    );
    assert_eq!(camera.origin, Vec3::zero());
    assert_eq!(camera.w, vec(0.0, 0.0, 1.0));
    assert_eq!(camera.u, vec(1.0, 0.0, 0.0));
    assert_eq!(camera.v, vec(0.0, 1.0, 0.0));
    assert_eq!(camera.horizontal, vec(4.0, 0.0, 0.0));
    assert_eq!(camera.vertical, vec(0.0, 2.0, 0.0));
    assert_eq!(camera.lower_left_corner, vec(-2.0, -1.0, -1.0));
    assert_eq!(camera.lens_radius, Fixed::zero());
}

#[test]
fn camera_without_aperture_gives_the_same_ray_every_time() {
    let camera = Camera::new(
        Vec3::zero(),
        vec(0.0, 0.0, -1.0),
        vec(0.0, 1.0, 0.0),
        fx(1.0),
        fx(2.0),
        fx(0.0),
        fx(1.0),
    );
    for _ in 0..50 {
        assert_eq!(camera.get_ray(fx(0.5), fx(0.5)), Ray::new(Vec3::zero(), vec(0.0, 0.0, -1.0)));
        assert_eq!(camera.get_ray(fx(0.0), fx(0.0)), Ray::new(Vec3::zero(), vec(-2.0, -1.0, -1.0)));
        assert_eq!(camera.get_ray(fx(1.0), fx(1.0)), Ray::new(Vec3::zero(), vec(2.0, 1.0, -1.0)));
    }
}

#[test]
fn camera_frame_is_orthonormal() {
    let camera = Camera::new(
        vec(11.0, 4.0, 3.0),
        Vec3::zero(),
        vec(0.0, 1.0, 0.0),
        fx(0.17632698),
        fx(1.5),
        fx(0.05),
        fx(12.083),
    );
    let tolerance = fx(0.00000001);
    for axis in [camera.u, camera.v, camera.w] {
        assert!((axis.length() - Fixed::one()).abs() < tolerance);
    }
    assert!(camera.u.dot(camera.v).abs() < tolerance);
    assert!(camera.v.dot(camera.w).abs() < tolerance);
    assert!(camera.w.dot(camera.u).abs() < tolerance);
    assert!(close(camera.w, vec(11.0, 4.0, 3.0).unit_vector(), 0.00000001));
    assert_eq!(camera.lens_radius, fx(0.05) / Fixed::from_int(2));
}

#[test]
fn rays_from_the_lens_meet_on_the_focal_plane() {
    let camera = Camera::new(
        Vec3::zero(),
        vec(0.0, 0.0, -1.0),
        vec(0.0, 1.0, 0.0),
        fx(1.0),
        fx(2.0),
        fx(2.0),
        fx(4.0),
    );
    assert_eq!(camera.lens_radius, fx(1.0));
    let through = camera.get_ray_through(fx(0.75), fx(0.25), vec(0.5, -0.25, 0.0));
    assert_eq!(through.origin, vec(0.5, -0.25, 0.0));
    // The point of the focal plane at (0.75, 0.25) is (4, -2, -4).
    assert_eq!(through.at(Fixed::one()), vec(4.0, -2.0, -4.0));
    let center = camera.get_ray_through(fx(0.75), fx(0.25), Vec3::zero());
    assert_eq!(center, Ray::new(Vec3::zero(), vec(4.0, -2.0, -4.0)));
    for _ in 0..100 {
        let r = camera.get_ray(fx(0.75), fx(0.25));
        assert_eq!(r.origin.z, Fixed::zero());
        assert!(r.origin.length_squared() < Fixed::one());
        assert_eq!(r.at(Fixed::one()), vec(4.0, -2.0, -4.0));
    }
}

#[test]
fn can_frame_refuses_a_degenerate_view() {
    assert!(Camera::can_frame(Vec3::zero(), vec(0.0, 0.0, -1.0), vec(0.0, 1.0, 0.0)));
    assert!(!Camera::can_frame(vec(1.0, 2.0, 3.0), vec(1.0, 2.0, 3.0), vec(0.0, 1.0, 0.0)));
    assert!(!Camera::can_frame(Vec3::zero(), vec(0.0, -5.0, 0.0), vec(0.0, 1.0, 0.0)));
    assert!(!Camera::can_frame(Vec3::zero(), vec(0.0, 0.0, -1.0), Vec3::zero()));
}
