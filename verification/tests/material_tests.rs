use raychasing::fixed::{Fixed, SCALE};
use raychasing::hittable::HitRecord;
use raychasing::material::{fifth_power, reflectance, Dielectric, Lambertian, Material, Metal};
use raychasing::ray::Ray;
use raychasing::vec3::Vec3;

fn fx(x: f64) -> Fixed {
    Fixed { raw: (x * 4294967296.0).round() as i64 }
}

fn vec(x: f64, y: f64, z: f64) -> Vec3 {
    Vec3::new(fx(x), fx(y), fx(z))
}

fn close(a: Vec3, b: Vec3, tolerance: f64) -> bool {
    (a - b).length() < fx(tolerance)
}

fn floor_hit(material: Material, front_face: bool) -> HitRecord {
    HitRecord::new(vec(1.0, 0.0, 2.0), vec(0.0, 1.0, 0.0), fx(3.0), front_face, material)
}

#[test]
fn constructors_store_their_arguments() {
    let albedo = vec(0.1, 0.2, 0.3);
    assert_eq!(Lambertian::new(&albedo).albedo, albedo);
    let metal = Metal::new(&albedo, fx(0.25));
    assert_eq!(metal.albedo, albedo);
    assert_eq!(metal.fuzz, fx(0.25));
    assert_eq!(Dielectric::new(fx(1.5)).index_of_refraction, fx(1.5));
}

#[test]
fn well_formed_materials() {
    assert!(Dielectric::new(fx(1.5)).is_wf());
    assert!(Dielectric::new(Fixed { raw: 1 }).is_wf());
    assert!(!Dielectric::new(Fixed::zero()).is_wf());
    assert!(!Dielectric::new(fx(-1.5)).is_wf());
    assert!(Material::Dielectric(Dielectric::new(fx(1.5))).is_wf());
    assert!(!Material::Dielectric(Dielectric::new(Fixed::zero())).is_wf());
    assert!(Material::Lambertian(Lambertian::new(&vec(0.1, 0.2, 0.3))).is_wf());
    assert!(Material::Metal(Metal::new(&vec(0.1, 0.2, 0.3), fx(-4.0))).is_wf());
}

#[test]
fn lambertian_scatters_along_normal_plus_unit() {
    let matte = Lambertian::new(&vec(0.5, 0.25, 0.125));
    let rec = floor_hit(Material::Lambertian(matte), true);
    let mut attenuation = Vec3::zero();
    let mut scattered = Ray::x_unit();
    assert!(matte.scatter_with(&rec, vec(1.0, 0.0, 0.0), &mut attenuation, &mut scattered));
    assert_eq!(attenuation, vec(0.5, 0.25, 0.125));
    assert_eq!(scattered, Ray::new(vec(1.0, 0.0, 2.0), vec(1.0, 1.0, 0.0)));
}

#[test]
fn lambertian_falls_back_to_the_normal() {
    let matte = Lambertian::new(&vec(0.5, 0.5, 0.5));
    let rec = floor_hit(Material::Lambertian(matte), true);
    let mut attenuation = Vec3::zero();
    let mut scattered = Ray::x_unit();
    // The unit vector cancels the normal: the sum is zero.
    assert!(matte.scatter_with(&rec, vec(0.0, -1.0, 0.0), &mut attenuation, &mut scattered));
    assert_eq!(scattered.direction, vec(0.0, 1.0, 0.0));
    // The sum is not zero, but near it.
    let almost = Vec3::new(Fixed { raw: 42 }, Fixed { raw: -SCALE - 42 }, Fixed { raw: 0 });
    assert!(matte.scatter_with(&rec, almost, &mut attenuation, &mut scattered));
    assert_eq!(scattered.direction, vec(0.0, 1.0, 0.0));
    // The sum is small, but not near zero.
    let apart = Vec3::new(Fixed { raw: 43 }, Fixed { raw: -SCALE }, Fixed { raw: 0 });
    assert!(matte.scatter_with(&rec, apart, &mut attenuation, &mut scattered));
    assert_eq!(scattered.direction, Vec3::new(Fixed { raw: 43 }, Fixed::zero(), Fixed::zero()));
}

#[test]
fn lambertian_never_scatters_into_a_zero_direction() {
    let matte = Lambertian::new(&vec(0.5, 0.25, 0.125));
    let normals = [vec(0.0, 1.0, 0.0), vec(0.6, 0.0, -0.8), vec(-1.0, 0.0, 0.0)];
    for normal in normals {
        let rec = HitRecord::new(vec(1.0, 0.0, 2.0), normal, fx(3.0), true, Material::Lambertian(matte));
        let r_in = Ray::new(Vec3::zero(), vec(0.0, -1.0, 0.0));
        for _ in 0..300 {
            let mut attenuation = Vec3::zero();
            let mut scattered = Ray::x_unit();
            assert!(matte.scatter(&r_in, &rec, &mut attenuation, &mut scattered));
            assert_eq!(attenuation, vec(0.5, 0.25, 0.125));
            assert_eq!(scattered.origin, rec.p);
            assert!(!scattered.direction.is_zero());
            assert!(scattered.direction.length() > Fixed::zero());
        }
    }
}

#[test]
fn metal_without_fuzz_mirrors_exactly() {
    let metal = Metal::new(&vec(0.8, 0.6, 0.2), Fixed::zero());
    let rec = floor_hit(Material::Metal(metal), true);
    let r_in = Ray::new(vec(0.0, 1.0, 2.0), vec(3.0, -3.0, 0.0));
    let ideal = r_in.direction.unit_vector().reflect(rec.normal);
    assert!(close(ideal, vec(0.5f64.sqrt(), 0.5f64.sqrt(), 0.0), 0.000000001));
    for _ in 0..100 {
        let mut attenuation = Vec3::zero();
        let mut scattered = Ray::x_unit();
        assert!(metal.scatter(&r_in, &rec, &mut attenuation, &mut scattered));
        assert_eq!(attenuation, vec(0.8, 0.6, 0.2));
        assert_eq!(scattered, Ray::new(rec.p, ideal));
    }
    let mut attenuation = Vec3::zero();
    let mut scattered = Ray::x_unit();
    assert!(Material::Metal(metal).scatter(&r_in, &rec, &mut attenuation, &mut scattered));
    assert_eq!(attenuation, vec(0.8, 0.6, 0.2));
    assert_eq!(scattered, Ray::new(rec.p, ideal));
}

#[test]
fn metal_with_fuzz_adds_the_scaled_offset() {
    let metal = Metal::new(&vec(0.8, 0.6, 0.2), fx(0.5));
    let rec = floor_hit(Material::Metal(metal), true);
    let r_in = Ray::new(vec(0.0, 1.0, 2.0), vec(0.0, -2.0, 0.0));
    let mut attenuation = Vec3::zero();
    let mut scattered = Ray::x_unit();
    assert!(metal.scatter_with(&r_in, &rec, vec(0.5, -0.25, 0.5), &mut attenuation, &mut scattered));
    assert_eq!(attenuation, vec(0.8, 0.6, 0.2));
    assert_eq!(scattered, Ray::new(rec.p, vec(0.25, 0.875, 0.25)));
}

#[test]
fn metal_absorbs_what_would_enter_the_surface() {
    let metal = Metal::new(&vec(0.8, 0.6, 0.2), fx(2.0));
    let rec = floor_hit(Material::Metal(metal), true);
    let r_in = Ray::new(vec(0.0, 1.0, 2.0), vec(0.0, -1.0, 0.0));
    let mut attenuation = Vec3::zero();
    let mut scattered = Ray::x_unit();
    // The mirror direction is (0, 1, 0); the offset pushes it below the surface.
    assert!(!metal.scatter_with(&r_in, &rec, vec(0.0, -0.75, 0.0), &mut attenuation, &mut scattered));
    assert_eq!(attenuation, vec(0.8, 0.6, 0.2));
    assert_eq!(scattered, Ray::new(rec.p, vec(0.0, -0.5, 0.0)));
    // Along the surface is not away from it either.
    assert!(!metal.scatter_with(&r_in, &rec, vec(0.25, -0.5, 0.0), &mut attenuation, &mut scattered));
    assert_eq!(scattered.direction, vec(0.5, 0.0, 0.0));
}

#[test]
fn fifth_power_and_reflectance() {
    assert_eq!(fifth_power(fx(0.5)), fx(0.03125));
    assert_eq!(fifth_power(fx(-2.0)), fx(-32.0));
    assert_eq!(fifth_power(Fixed::one()), Fixed::one());
    // Glass at 60 degrees: r0 = 0.04, 0.04 + 0.96 / 32 = 0.07.
    assert_eq!(reflectance(fx(0.5), fx(1.5)), Fixed { raw: 300647709 });
    assert!((reflectance(fx(0.5), fx(1.5)) - fx(0.07)).abs() < fx(0.000000001));
    // Head on, only r0 is left; at grazing incidence everything is reflected.
    assert!((reflectance(Fixed::one(), fx(1.5)) - fx(0.04)).abs() < fx(0.000000001));
    assert!((reflectance(Fixed::zero(), fx(1.5)) - Fixed::one()).abs() < fx(0.000000001));
    assert_eq!(reflectance(Fixed::one(), Fixed::one()), Fixed::zero());
}

#[test]
fn dielectric_of_index_one_lets_light_straight_through() {
    let air = Dielectric::new(Fixed::one());
    let directions = [vec(0.0, -1.0, 0.0), vec(1.0, -1.0, 0.0), vec(0.3, -2.0, -0.7), vec(5.0, -0.5, 1.0)];
    for direction in directions {
        for front_face in [true, false] {
            let rec = floor_hit(Material::Dielectric(air), front_face);
            let r_in = Ray::new(vec(0.0, 1.0, 2.0), direction);
            let mut attenuation = Vec3::zero();
            let mut scattered = Ray::x_unit();
            // A draw that the reflectance cannot exceed: the ray is refracted.
            let draw = Fixed { raw: SCALE - 1 };
            assert!(air.scatter_with(&r_in, &rec, draw, &mut attenuation, &mut scattered));
            assert_eq!(attenuation, vec(1.0, 1.0, 1.0));
            assert_eq!(scattered.origin, rec.p);
            assert!(close(scattered.direction, direction.unit_vector(), 0.00002));
        }
    }
    // Head on the reflectance is zero, so that every draw refracts.
    let rec = floor_hit(Material::Dielectric(air), true);
    let r_in = Ray::new(vec(0.0, 1.0, 2.0), vec(0.0, -3.0, 0.0));
    for _ in 0..100 {
        let mut attenuation = Vec3::zero();
        let mut scattered = Ray::x_unit();
        assert!(air.scatter(&r_in, &rec, &mut attenuation, &mut scattered));
        assert_eq!(attenuation, vec(1.0, 1.0, 1.0));
        assert_eq!(scattered, Ray::new(rec.p, vec(0.0, -1.0, 0.0)));
    }
}

#[test]
fn dielectric_refracts_into_glass() {
    let glass = Dielectric::new(fx(1.5));
    let rec = floor_hit(Material::Dielectric(glass), true);
    let r_in = Ray::new(vec(0.0, 1.0, 2.0), vec(1.0, -1.0, 0.0));
    let mut attenuation = Vec3::zero();
    let mut scattered = Ray::x_unit();
    assert!(glass.scatter_with(&r_in, &rec, Fixed { raw: SCALE - 1 }, &mut attenuation, &mut scattered));
    let sin_out = 0.5f64.sqrt() / 1.5;
    assert!(close(scattered.direction, vec(sin_out, -(1.0 - sin_out * sin_out).sqrt(), 0.0), 0.000001));
    // A draw of zero is below the reflectance: the ray is reflected.
    assert!(glass.scatter_with(&r_in, &rec, Fixed::zero(), &mut attenuation, &mut scattered));
    assert_eq!(scattered.direction, r_in.direction.unit_vector().reflect(rec.normal));
    assert_eq!(attenuation, vec(1.0, 1.0, 1.0));
}

#[test]
fn dielectric_reflects_totally_from_inside_at_a_flat_angle() {
    let glass = Dielectric::new(fx(1.5));
    let rec = floor_hit(Material::Dielectric(glass), false);
    let r_in = Ray::new(vec(0.0, 1.0, 2.0), vec(1.0, -0.5, 0.0));
    let mirrored = r_in.direction.unit_vector().reflect(rec.normal);
    assert!(close(mirrored, vec(1.0, 0.5, 0.0).unit_vector(), 0.00000001));
    for raw in [0, 1, SCALE / 2, SCALE - 1] {
        let mut attenuation = Vec3::zero();
        let mut scattered = Ray::x_unit();
        assert!(glass.scatter_with(&r_in, &rec, Fixed { raw }, &mut attenuation, &mut scattered));
        assert_eq!(scattered, Ray::new(rec.p, mirrored));
    }
    for _ in 0..100 {
        let mut attenuation = Vec3::zero();
        let mut scattered = Ray::x_unit();
        assert!(Material::Dielectric(glass).scatter(&r_in, &rec, &mut attenuation, &mut scattered));
        assert_eq!(attenuation, vec(1.0, 1.0, 1.0));
        assert_eq!(scattered, Ray::new(rec.p, mirrored));
    }
}
