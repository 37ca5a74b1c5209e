use raychasing::fixed::Fixed;
use raychasing::hittable::{HitRecord, Hittable};
use raychasing::hittable_list::HittableList;
use raychasing::material::{Lambertian, Material, Metal};
use raychasing::ray::Ray;
use raychasing::sphere::Sphere;
use raychasing::vec3::Vec3;

fn fx(x: f64) -> Fixed {
    Fixed { raw: (x * 4294967296.0).round() as i64 }
}

fn vec(x: f64, y: f64, z: f64) -> Vec3 {
    Vec3::new(fx(x), fx(y), fx(z))
}

fn close(a: Vec3, b: Vec3, tolerance: f64) -> bool {
    (a - b).length() < fx(tolerance)
}

fn grey() -> Material {
    Material::Lambertian(Lambertian::new(&vec(0.5, 0.5, 0.5)))
}

fn mirror() -> Material {
    Material::Metal(Metal::new(&vec(0.8, 0.8, 0.8), Fixed::zero()))
}

fn ball(x: f64, y: f64, z: f64, radius: f64, material: Material) -> Sphere {
    Sphere::new(vec(x, y, z), fx(radius), material)
}

#[test]
fn ray_at_walks_along_the_direction() {
    let r = Ray::new(vec(1.0, 2.0, 3.0), vec(0.5, -1.0, 2.0));
    assert_eq!(r.origin, vec(1.0, 2.0, 3.0));
    assert_eq!(r.direction, vec(0.5, -1.0, 2.0));
    assert_eq!(r.at(fx(0.0)), vec(1.0, 2.0, 3.0));
    assert_eq!(r.at(fx(2.0)), vec(2.0, 0.0, 7.0));
    assert_eq!(r.at(fx(-1.0)), vec(0.5, 3.0, 1.0));
    assert_eq!(Ray::x_unit(), Ray::new(Vec3::zero(), vec(1.0, 0.0, 0.0)));
}

#[test]
fn hit_record_zero_and_new() {
    let zero = HitRecord::zero();
    assert_eq!(zero.p, Vec3::zero());
    assert_eq!(zero.normal, Vec3::zero());
    assert_eq!(zero.t, Fixed::zero());
    assert!(!zero.front_face);
    assert_eq!(zero.material, Material::Lambertian(Lambertian::new(&Vec3::zero())));
    let rec = HitRecord::new(vec(1.0, 0.0, 0.0), vec(0.0, 1.0, 0.0), fx(2.0), true, mirror());
    assert_eq!(rec.p, vec(1.0, 0.0, 0.0));
    assert_eq!(rec.normal, vec(0.0, 1.0, 0.0));
    assert_eq!(rec.t, fx(2.0));
    assert!(rec.front_face);
    assert_eq!(rec.material, mirror());
}

#[test]
fn set_face_normal_turns_the_normal_against_the_ray() {
    let mut rec = HitRecord::zero();
    let down = Ray::new(vec(0.0, 5.0, 0.0), vec(0.0, -1.0, 0.0));
    rec.set_face_normal(&down, &vec(0.0, 1.0, 0.0));
    assert!(rec.front_face);
    assert_eq!(rec.normal, vec(0.0, 1.0, 0.0));
    rec.set_face_normal(&down, &vec(0.0, -1.0, 0.0));
    assert!(!rec.front_face);
    assert_eq!(rec.normal, vec(0.0, 1.0, 0.0));
    // A ray that grazes the surface counts as meeting the back face.
    rec.set_face_normal(&down, &vec(1.0, 0.0, 0.0));
    assert!(!rec.front_face);
    assert_eq!(rec.normal, vec(-1.0, 0.0, 0.0));
}

#[test]
fn sphere_hit_head_on() {
    let sphere = ball(0.0, 0.0, -1.0, 0.5, grey());
    let r = Ray::new(Vec3::zero(), vec(0.0, 0.0, -1.0));
    let mut rec = HitRecord::zero();
    assert!(sphere.hit(r, fx(0.001), Fixed::infinity(), &mut rec));
    assert_eq!(rec.t, fx(0.5));
    assert_eq!(rec.p, vec(0.0, 0.0, -0.5));
    assert_eq!(rec.normal, vec(0.0, 0.0, 1.0));
    assert!(rec.front_face);
    assert_eq!(rec.material, grey());
}

#[test]
fn head_on_normal_is_the_negated_direction() {
    let sphere = ball(3.0, -2.0, 5.0, 1.25, grey());
    let origin = vec(-1.0, 4.0, 0.5);
    let r = Ray::new(origin, sphere.center - origin);
    let mut rec = HitRecord::zero();
    assert!(sphere.hit(r, fx(0.001), Fixed::infinity(), &mut rec));
    assert!(rec.front_face);
    assert!(close(rec.normal, -r.direction.unit_vector(), 0.0000001));
}

#[test]
fn hit_point_lies_on_the_sphere() {
    let sphere = ball(0.5, -0.25, -3.0, 1.5, grey());
    let rays = [
        Ray::new(Vec3::zero(), vec(0.0, 0.0, -1.0)),
        Ray::new(Vec3::zero(), vec(0.3, 0.1, -2.0)),
        Ray::new(vec(0.5, -0.25, -3.0), vec(1.0, 1.0, 1.0)),
        Ray::new(vec(4.0, 0.0, -3.0), vec(-10.0, 0.2, 0.1)),
    ];
    for r in rays {
        let mut rec = HitRecord::zero();
        assert!(sphere.hit(r, fx(0.001), Fixed::infinity(), &mut rec));
        let distance = (r.at(rec.t) - sphere.center).length();
        assert!((distance - sphere.radius).abs() < fx(0.0000001));
        assert_eq!(rec.p, r.at(rec.t));
        assert!((rec.normal.length() - Fixed::one()).abs() < fx(0.0000001));
        assert_eq!(rec.front_face, r.direction.dot((rec.p - sphere.center) / sphere.radius) < Fixed::zero());
        assert!(r.direction.dot(rec.normal) <= Fixed::zero());
        if rec.front_face {
            assert!(r.direction.dot(rec.normal) < Fixed::zero());
        }
    }
}

#[test]
fn sphere_hit_from_inside_is_on_the_back_face() {
    let sphere = ball(0.0, 0.0, 0.0, 2.0, grey());
    let r = Ray::new(Vec3::zero(), vec(1.0, 0.0, 0.0));
    let mut rec = HitRecord::zero();
    assert!(sphere.hit(r, fx(0.001), Fixed::infinity(), &mut rec));
    assert_eq!(rec.t, fx(2.0));
    assert_eq!(rec.p, vec(2.0, 0.0, 0.0));
    assert!(!rec.front_face);
    assert_eq!(rec.normal, vec(-1.0, 0.0, 0.0));
}

#[test]
fn sphere_miss_leaves_the_record_alone() {
    let sphere = ball(0.0, 0.0, -1.0, 0.5, grey());
    let before = HitRecord::new(vec(9.0, 9.0, 9.0), vec(0.0, 1.0, 0.0), fx(7.0), true, mirror());
    // Beside the sphere.
    let mut rec = before;
    assert!(!sphere.hit(Ray::new(Vec3::zero(), vec(0.0, 1.0, -1.0)), fx(0.001), Fixed::infinity(), &mut rec));
    assert_eq!(rec, before);
    // Away from the sphere: both roots are negative.
    assert!(!sphere.hit(Ray::new(Vec3::zero(), vec(0.0, 0.0, 1.0)), fx(0.001), Fixed::infinity(), &mut rec));
    assert_eq!(rec, before);
    // Both roots beyond the upper bound.
    assert!(!sphere.hit(Ray::new(Vec3::zero(), vec(0.0, 0.0, -1.0)), fx(0.001), fx(0.4), &mut rec));
    assert_eq!(rec, before);
    // A ray without direction.
    assert!(!sphere.hit(Ray::new(Vec3::zero(), Vec3::zero()), fx(-10.0), Fixed::infinity(), &mut rec));
    assert_eq!(rec, before);
}

#[test]
fn sphere_hit_falls_back_to_the_far_root() {
    let sphere = ball(0.0, 0.0, -1.0, 0.5, grey());
    let r = Ray::new(Vec3::zero(), vec(0.0, 0.0, -1.0));
    let mut rec = HitRecord::zero();
    assert!(sphere.hit(r, fx(0.75), Fixed::infinity(), &mut rec));
    assert_eq!(rec.t, fx(1.5));
    assert!(!rec.front_face);
    assert_eq!(rec.normal, vec(0.0, 0.0, 1.0));
}

#[test]
fn sphere_hit_bounds_are_strict() {
    let sphere = ball(0.0, 0.0, -1.0, 0.5, grey());
    let r = Ray::new(Vec3::zero(), vec(0.0, 0.0, -1.0));
    let mut rec = HitRecord::zero();
    // The near root 0.5 is not above the lower bound 0.5: the far one counts.
    assert!(sphere.hit(r, fx(0.5), Fixed::infinity(), &mut rec));
    assert_eq!(rec.t, fx(1.5));
    // The far root 1.5 is not below the upper bound 1.5: nothing counts.
    assert!(!sphere.hit(r, fx(0.5), fx(1.5), &mut rec));
    // The near root counts when the bounds enclose it.
    assert!(sphere.hit(r, fx(0.499), fx(0.501), &mut rec));
    assert_eq!(rec.t, fx(0.5));
}

#[test]
fn sphere_without_positive_radius_is_never_hit() {
    let r = Ray::new(Vec3::zero(), vec(0.0, 0.0, -1.0));
    let mut rec = HitRecord::zero();
    assert!(!ball(0.0, 0.0, -1.0, 0.0, grey()).hit(r, fx(0.001), Fixed::infinity(), &mut rec));
    assert!(!ball(0.0, 0.0, -1.0, -0.5, grey()).hit(r, fx(0.001), Fixed::infinity(), &mut rec));
    assert_eq!(rec, HitRecord::zero());
}

#[test]
fn sphere_hit_does_not_depend_on_the_length_of_the_direction() {
    let sphere = ball(0.0, 0.0, -4.0, 1.0, grey());
    let mut short = HitRecord::zero();
    let mut long = HitRecord::zero();
    assert!(sphere.hit(Ray::new(Vec3::zero(), vec(0.0, 0.0, -1.0)), fx(0.001), Fixed::infinity(), &mut short));
    assert!(sphere.hit(Ray::new(Vec3::zero(), vec(0.0, 0.0, -4.0)), fx(0.001), Fixed::infinity(), &mut long));
    assert_eq!(short.t, fx(3.0));
    assert_eq!(long.t, fx(0.75));
    assert_eq!(short.p, long.p);
    assert_eq!(short.normal, long.normal);
}

#[test]
fn hittable_dispatches_to_the_sphere() {
    let sphere = ball(0.0, 0.0, -1.0, 0.5, grey());
    let r = Ray::new(Vec3::zero(), vec(0.0, 0.0, -1.0));
    let mut direct = HitRecord::zero();
    let mut through = HitRecord::zero();
    assert!(sphere.hit(r, fx(0.001), Fixed::infinity(), &mut direct));
    assert!(Hittable::Sphere(sphere).hit(r, fx(0.001), Fixed::infinity(), &mut through));
    assert_eq!(direct, through);
    assert!(Hittable::Sphere(sphere).is_wf());
}

#[test]
fn list_reports_the_closest_hit_in_any_order() {
    let near = Hittable::Sphere(ball(0.0, 0.0, -2.0, 0.5, grey()));
    let middle = Hittable::Sphere(ball(0.0, 0.0, -5.0, 1.0, mirror()));
    let far = Hittable::Sphere(ball(0.0, 0.0, -9.0, 2.0, grey()));
    let beside = Hittable::Sphere(ball(50.0, 0.0, -2.0, 0.5, mirror()));
    let orders = [
        [near, middle, far, beside],
        [far, middle, near, beside],
        [beside, far, near, middle],
        [middle, beside, far, near],
    ];
    let r = Ray::new(Vec3::zero(), vec(0.0, 0.0, -1.0));
    for order in orders {
        let mut world = HittableList::new();
        for object in order {
            world.add(object);
        }
        assert_eq!(world.objects.len(), 4);
        let mut rec = HitRecord::zero();
        assert!(world.hit(r, fx(0.001), Fixed::infinity(), &mut rec));
        assert_eq!(rec.t, fx(1.5));
        assert_eq!(rec.material, grey());
        // With the nearest ball cut off by the lower bound, the next one wins.
        assert!(world.hit(r, fx(3.0), Fixed::infinity(), &mut rec));
        assert_eq!(rec.t, fx(4.0));
        assert_eq!(rec.material, mirror());
    }
}

#[test]
fn list_miss_leaves_the_record_alone() {
    let mut world = HittableList::new();
    let before = HitRecord::new(vec(9.0, 9.0, 9.0), vec(0.0, 1.0, 0.0), fx(7.0), true, mirror());
    let mut rec = before;
    let r = Ray::new(Vec3::zero(), vec(0.0, 1.0, 0.0));
    assert!(!world.hit(r, fx(0.001), Fixed::infinity(), &mut rec));
    assert_eq!(rec, before);
    world.add(Hittable::Sphere(ball(0.0, 0.0, -2.0, 0.5, grey())));
    world.add(Hittable::Sphere(ball(0.0, 0.0, -5.0, 0.5, grey())));
    assert!(!world.hit(r, fx(0.001), Fixed::infinity(), &mut rec));
    assert_eq!(rec, before);
}

#[test]
fn list_add_and_clear() {
    let mut world = HittableList::new();
    assert!(world.objects.is_empty());
    let first = Hittable::Sphere(ball(0.0, 0.0, -2.0, 0.5, grey()));
    let second = Hittable::Sphere(ball(0.0, 0.0, -5.0, 0.5, mirror()));
    world.add(first);
    world.add(second);
    assert_eq!(world.objects, vec![first, second]);
    assert!(world.is_wf());
    world.clear();
    assert!(world.objects.is_empty());
    let mut rec = HitRecord::zero();
    assert!(!world.hit(Ray::new(Vec3::zero(), vec(0.0, 0.0, -1.0)), fx(0.001), Fixed::infinity(), &mut rec));
}
