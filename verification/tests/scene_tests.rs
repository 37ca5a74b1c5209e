use raychasing::fixed::Fixed;
use raychasing::hittable::Hittable;
use raychasing::material::{Dielectric, Lambertian, Material, Metal};
use raychasing::scene::{cell_sphere, random_scene};
use raychasing::sphere::Sphere;
use raychasing::vec3::Vec3;

fn fx(x: f64) -> Fixed {
    Fixed { raw: (x * 4294967296.0).round() as i64 }
}

fn vec(x: f64, y: f64, z: f64) -> Vec3 {
    Vec3::new(fx(x), fx(y), fx(z))
}

#[test]
fn cell_sphere_places_and_chooses() {
    let matte = vec(0.1, 0.2, 0.3);
    let shiny = vec(0.6, 0.7, 0.8);
    let fuzz = fx(0.25);
    let center = Vec3::new(
        Fixed::from_int(-2) + Fixed::from_ratio(9, 10) * fx(0.5),
        Fixed::from_ratio(2, 10),
        Fixed::from_int(1) + Fixed::from_ratio(9, 10) * fx(0.25),
    );
    let radius = Fixed::from_ratio(2, 10);
    let expect = |material: Material| Some(Hittable::Sphere(Sphere::new(center, radius, material)));
    assert_eq!(
        cell_sphere(-2, 1, fx(0.5), fx(0.25), fx(0.5), matte, shiny, fuzz),
        expect(Material::Lambertian(Lambertian::new(&matte)))
    );
    assert_eq!(
        cell_sphere(-2, 1, fx(0.5), fx(0.25), fx(0.9), matte, shiny, fuzz),
        expect(Material::Metal(Metal::new(&shiny, fuzz)))
    );
    assert_eq!(
        cell_sphere(-2, 1, fx(0.5), fx(0.25), fx(0.97), matte, shiny, fuzz),
        expect(Material::Dielectric(Dielectric::new(Fixed::from_ratio(3, 2))))
    );
    // The thresholds themselves belong to the material that follows.
    assert_eq!(
        cell_sphere(-2, 1, fx(0.5), fx(0.25), Fixed::from_ratio(8, 10), matte, shiny, fuzz),
        expect(Material::Metal(Metal::new(&shiny, fuzz)))
    );
    assert_eq!(
        cell_sphere(-2, 1, fx(0.5), fx(0.25), Fixed::from_ratio(95, 100), matte, shiny, fuzz),
        expect(Material::Dielectric(Dielectric::new(Fixed::from_ratio(3, 2))))
    );
}

#[test]
fn cell_sphere_keeps_clear_of_the_mirror_ball() {
    let matte = vec(0.1, 0.2, 0.3);
    assert_eq!(cell_sphere(4, 0, Fixed::zero(), Fixed::zero(), fx(0.5), matte, matte, fx(0.1)), None);
    assert_eq!(cell_sphere(3, 0, fx(0.5), fx(0.5), fx(0.5), matte, matte, fx(0.1)), None);
    assert!(cell_sphere(3, 0, Fixed::zero(), Fixed::zero(), fx(0.5), matte, matte, fx(0.1)).is_some());
}

#[test]
fn random_scene_has_its_fixed_parts() {
    for _ in 0..20 {
        let world = random_scene();
        let n = world.objects.len();
        assert!(4 <= n && n <= 20);
        assert!(world.is_wf());
        let grey = Material::Lambertian(Lambertian::new(&vec(0.5, 0.5, 0.5)));
        assert_eq!(
            world.objects[0],
            Hittable::Sphere(Sphere::new(vec(0.0, -1000.0, 0.0), fx(1000.0), grey))
        );
        let glass = Material::Dielectric(Dielectric::new(fx(1.5)));
        assert_eq!(world.objects[n - 3], Hittable::Sphere(Sphere::new(vec(0.0, 1.0, 0.0), fx(1.0), glass)));
        let brown = Material::Lambertian(Lambertian::new(&Vec3::new(
            Fixed::from_ratio(4, 10),
            Fixed::from_ratio(2, 10),
            Fixed::from_ratio(1, 10),
        )));
        assert_eq!(world.objects[n - 2], Hittable::Sphere(Sphere::new(vec(-4.0, 1.0, 0.0), fx(1.0), brown)));
        let mirror = Material::Metal(Metal::new(
            &Vec3::new(Fixed::from_ratio(7, 10), Fixed::from_ratio(6, 10), Fixed::from_ratio(5, 10)),
            Fixed::zero(),
        ));
        assert_eq!(world.objects[n - 1], Hittable::Sphere(Sphere::new(vec(4.0, 1.0, 0.0), fx(1.0), mirror)));
        for object in &world.objects[1..n - 3] {
            let Hittable::Sphere(ball) = object;
            assert_eq!(ball.radius, Fixed::from_ratio(2, 10));
            assert_eq!(ball.center.y, Fixed::from_ratio(2, 10));
            assert!(fx(-2.0) <= ball.center.x && ball.center.x < fx(1.9));
            assert!(fx(-2.0) <= ball.center.z && ball.center.z < fx(1.9));
        }
    }
}
