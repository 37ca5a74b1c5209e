use raychasing::fixed::{Fixed, SCALE};
use raychasing::hittable::HitRecord;
use raychasing::material::{Dielectric, Lambertian, Material};
use raychasing::ray::Ray;
use raychasing::sphere::Sphere;
use raychasing::vec3::{random_unit_vector, Vec3};

fn fx(x: f64) -> Fixed {
    Fixed { raw: (x * 4294967296.0).round() as i64 }
}

fn vec(x: f64, y: f64, z: f64) -> Vec3 {
    Vec3::new(fx(x), fx(y), fx(z))
}

/// The exact sum of the squares of the raw components.
fn raw_norm_squared(v: Vec3) -> i128 {
    let (x, y, z) = (v.x.raw as i128, v.y.raw as i128, v.z.raw as i128);
    x * x + y * y + z * z
}

fn max_magnitude(v: Vec3) -> i128 {
    (v.x.raw as i128).abs().max((v.y.raw as i128).abs()).max((v.z.raw as i128).abs())
}

fn one_squared() -> i128 {
    (SCALE as i128) * (SCALE as i128)
}

fn sample_vectors() -> Vec<Vec3> {
    vec![
        vec(1.0, -2.0, 3.0),
        vec(0.25, 0.0, 0.0),
        vec(-0.3, 0.1, 0.2),
        vec(1000.0, -999.5, 0.125),
        vec(-200000.0, 150000.0, 262143.0),
        vec(0.6, 0.8, 0.0),
        Vec3::new(Fixed { raw: 1 << 30 }, Fixed { raw: 0 }, Fixed { raw: 0 }),
        Vec3::new(Fixed { raw: 0x2000_0000_0000_0000 }, Fixed { raw: -7 }, Fixed { raw: 12345 }),
    ]
}

#[test]
fn unit_vectors_are_unit_up_to_rounding() {
    for v in sample_vectors() {
        let u = v.unit_vector();
        let gap = raw_norm_squared(u) - one_squared();
        assert!(gap.abs() <= 16 * SCALE as i128);
    }
    for _ in 0..500 {
        let gap = raw_norm_squared(random_unit_vector()) - one_squared();
        // A point near the center of the ball is shorter than a quarter.
        assert!(gap.abs() <= 1 << 60);
    }
}

#[test]
fn reflecting_twice_restores_up_to_rounding() {
    let normals = [
        vec(0.0, 1.0, 0.0),
        vec(1.0, 1.0, 1.0).unit_vector(),
        vec(-0.3, 0.9, 0.2).unit_vector(),
        vec(5.0, -0.01, 0.0).unit_vector(),
    ];
    for v in sample_vectors() {
        if max_magnitude(v) > 1 << 50 {
            continue;
        }
        for n in normals {
            assert!((raw_norm_squared(n) - one_squared()).abs() <= 16 * SCALE as i128);
            let back = v.reflect(n).reflect(n);
            let tolerance = max_magnitude(v) / (1 << 23) + 32;
            assert!((back.x.raw as i128 - v.x.raw as i128).abs() <= tolerance);
            assert!((back.y.raw as i128 - v.y.raw as i128).abs() <= tolerance);
            assert!((back.z.raw as i128 - v.z.raw as i128).abs() <= tolerance);
        }
    }
}

#[test]
fn hits_lie_on_the_sphere_up_to_rounding() {
    let grey = Material::Lambertian(Lambertian::new(&vec(0.5, 0.5, 0.5)));
    let spheres = [
        Sphere::new(vec(0.0, 0.0, -1.0), fx(0.5), grey),
        Sphere::new(vec(0.0, -1000.0, 0.0), fx(1000.0), grey),
        Sphere::new(vec(4.0, 1.0, 0.0), fx(1.0), grey),
        Sphere::new(vec(-3.5, 0.2, 2.25), fx(0.2), grey),
    ];
    let rays = [
        Ray::new(Vec3::zero(), vec(0.0, 0.0, -1.0)),
        Ray::new(vec(11.0, 4.0, 3.0), vec(-7.0, -3.0, -3.0)),
        Ray::new(vec(11.0, 4.0, 3.0), vec(-11.0, -4.5, -3.0)),
        Ray::new(vec(0.0, 3.0, 0.0), vec(0.1, -1.0, 0.05)),
        Ray::new(vec(-3.5, 5.0, 2.25), vec(0.0, -0.5, 0.0)),
        Ray::new(vec(4.0, 1.0, 0.0), vec(0.3, 0.4, -0.5)),
    ];
    let mut hits = 0;
    for sphere in spheres {
        for r in rays {
            let mut rec = HitRecord::zero();
            if !sphere.hit(r, fx(0.001), Fixed::infinity(), &mut rec) {
                continue;
            }
            hits += 1;
            let oc = r.origin - sphere.center;
            let a = r.direction.length_squared();
            let half_b = oc.dot(r.direction);
            let c = oc.length_squared() - sphere.radius * sphere.radius;
            let root = (half_b * half_b - a * c).sqrt().raw as i128;
            let q = r.at(rec.t) - sphere.center;
            let t = rec.t.raw as i128;
            let reach = (q.x.raw as i128).abs() + (q.y.raw as i128).abs() + (q.z.raw as i128).abs();
            let tolerance =
                10 * root + 6 * t.abs() + 3 * (t * t / SCALE as i128) + 2 * reach + 12 * SCALE as i128;
            let radius = sphere.radius.raw as i128;
            let miss = raw_norm_squared(q) - radius * radius;
            assert!(miss.abs() <= tolerance);
            assert!(radius * (q.length().raw as i128 - radius).abs() <= tolerance + radius);
            // The normal is a unit vector up to rounding.
            let gap = raw_norm_squared(rec.normal) - one_squared();
            assert!(
                radius * radius * gap.abs()
                    <= one_squared() * tolerance + 2 * SCALE as i128 * radius * reach + 3 * radius * radius
            );
        }
    }
    assert!(hits >= 8);
}

#[test]
fn head_on_normals_oppose_the_ray_up_to_rounding() {
    let grey = Material::Lambertian(Lambertian::new(&vec(0.5, 0.5, 0.5)));
    let spheres = [
        Sphere::new(vec(0.0, 0.0, -1.0), fx(0.5), grey),
        Sphere::new(vec(3.0, -2.0, 5.0), fx(1.25), grey),
        Sphere::new(vec(0.0, -1000.0, 0.0), fx(1000.0), grey),
        Sphere::new(vec(-0.5, 0.25, 0.75), fx(0.2), grey),
    ];
    let origins = [Vec3::zero(), vec(-1.0, 4.0, 0.5), vec(2.0, 3.0, -4.0), vec(0.1, -0.2, 0.3)];
    let scale = SCALE as f64;
    let mut hits = 0;
    for sphere in spheres {
        for origin in origins {
            let r = Ray::new(origin, sphere.center - origin);
            // The law is stated for directions of at least a half in length
            // and at most thirty-two in each component.
            if r.direction.length_squared() < fx(0.25) || max_magnitude(r.direction) > 32 << 32 {
                continue;
            }
            for t_min in [fx(0.001), fx(1.0)] {
                let mut rec = HitRecord::zero();
                if !sphere.hit(r, t_min, Fixed::infinity(), &mut rec) {
                    continue;
                }
                hits += 1;
                // The tolerance, evaluated in floating point.
                let oc = r.origin - sphere.center;
                let a = r.direction.length_squared();
                let half_b = oc.dot(r.direction);
                let c = oc.length_squared() - sphere.radius * sphere.radius;
                let root = (half_b * half_b - a * c).sqrt().raw as f64;
                let q = r.at(rec.t) - sphere.center;
                let t = rec.t.raw as f64;
                let reach = (q.x.raw as f64).abs() + (q.y.raw as f64).abs() + (q.z.raw as f64).abs();
                let hit_tolerance =
                    10.0 * root + 6.0 * t.abs() + 3.0 * (t * t / scale) + 2.0 * reach + 12.0 * scale;
                let kappa = (t - scale).abs();
                let len = r.direction.length().raw as f64;
                let dmax = max_magnitude(r.direction) as f64;
                let rad = sphere.radius.raw as f64;
                let slack = scale * scale * hit_tolerance
                    + 6.0 * kappa * scale * dmax
                    + 3.0 * scale * scale
                    + 2.0 * kappa * kappa * len;
                let tolerance =
                    (dmax * slack + rad * scale * len * (scale + 2.0 * rad)) / (rad * rad * scale * len) + 1.0;
                assert!(tolerance <= (1 << 24) as f64);
                let unit = r.direction.unit_vector();
                assert!(((rec.normal.x.raw + unit.x.raw) as f64).abs() <= tolerance);
                assert!(((rec.normal.y.raw + unit.y.raw) as f64).abs() <= tolerance);
                assert!(((rec.normal.z.raw + unit.z.raw) as f64).abs() <= tolerance);
                // In practice the normal is within a few hundred units in the last place.
                assert!((rec.normal + unit).length() < fx(0.000001));
            }
        }
    }
    assert!(hits >= 10);
}

#[test]
fn refraction_at_ratio_one_keeps_the_direction_up_to_rounding() {
    let normals = [vec(0.0, 1.0, 0.0), vec(1.0, 2.0, -0.5).unit_vector(), vec(-0.1, 0.2, 3.0).unit_vector()];
    let mut tried = 0;
    for v in sample_vectors() {
        if v.length() < fx(0.25) || max_magnitude(v) > 1 << 61 {
            continue;
        }
        for n in normals {
            let unit = v.unit_vector();
            // The normal is to point against the vector.
            let n = if unit.dot(n) > Fixed::zero() { -n } else { n };
            tried += 1;
            let out = v.refract(n, Fixed::one());
            let tolerance: i64 = (1 << 20) + 8;
            assert!((out.x.raw - unit.x.raw).abs() <= tolerance);
            assert!((out.y.raw - unit.y.raw).abs() <= tolerance);
            assert!((out.z.raw - unit.z.raw).abs() <= tolerance);
        }
    }
    assert!(tried >= 15);
    // The same through a dielectric of index one, for a draw that refracts.
    let air = Dielectric::new(Fixed::one());
    let rec = HitRecord::new(vec(1.0, 0.0, 2.0), vec(0.0, 1.0, 0.0), fx(3.0), true, Material::Dielectric(air));
    for direction in [vec(0.0, -1.0, 0.0), vec(3.0, -0.001, 1.0), vec(-0.2, -0.3, 0.1)] {
        let r_in = Ray::new(vec(0.0, 1.0, 2.0), direction);
        let mut attenuation = Vec3::zero();
        let mut scattered = Ray::x_unit();
        assert!(air.scatter_with(&r_in, &rec, Fixed { raw: SCALE - 1 }, &mut attenuation, &mut scattered));
        let unit = direction.unit_vector();
        let tolerance: i64 = (1 << 20) + 32;
        assert!((scattered.direction.x.raw - unit.x.raw).abs() <= tolerance);
        assert!((scattered.direction.y.raw - unit.y.raw).abs() <= tolerance);
        assert!((scattered.direction.z.raw - unit.z.raw).abs() <= tolerance);
    }
}

#[test]
fn refraction_there_and_back_restores_up_to_rounding() {
    let normals = [vec(0.0, 1.0, 0.0), vec(1.0, 2.0, -0.5).unit_vector(), vec(-0.1, 0.2, 3.0).unit_vector()];
    let ratios = [fx(1.5), fx(1.33), fx(2.4), fx(1.0), fx(0.75), fx(3.9)];
    let mut tried = 0;
    for v in sample_vectors() {
        if v.length() < fx(0.25) || max_magnitude(v) > 1 << 61 {
            continue;
        }
        for n in normals {
            let unit = v.unit_vector();
            let n = if unit.dot(n) > Fixed::zero() { -n } else { n };
            for index in ratios {
                let eta = Fixed::one() / index;
                let product = eta.raw as i128 * index.raw as i128;
                assert!((product - one_squared()).abs() <= 8 * SCALE as i128);
                for (first, second) in [(eta, index), (index, eta)] {
                    // Total reflection is left out.
                    let cos_theta = (-unit).dot(n).min(Fixed::one());
                    let perp = first * (unit + cos_theta * n);
                    if perp.length_squared() > Fixed::one() {
                        continue;
                    }
                    tried += 1;
                    let back = v.refract(n, first).refract(n, second);
                    let tolerance: i64 = (1 << 24) + (1 << 13);
                    assert!((back.x.raw - unit.x.raw).abs() <= tolerance);
                    assert!((back.y.raw - unit.y.raw).abs() <= tolerance);
                    assert!((back.z.raw - unit.z.raw).abs() <= tolerance);
                }
            }
        }
    }
    assert!(tried >= 100);
}
