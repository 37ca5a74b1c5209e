use raychasing::fixed::{Fixed, SCALE};
use raychasing::vec3::{
    first_in_unit_ball, random_in_hemisphere, random_in_unit_disk, random_in_unit_sphere,
    random_unit_vector, toward, Vec3, NEAR_ZERO_RAW, SAMPLING_ATTEMPTS,
};

fn fx(x: f64) -> Fixed {
    Fixed { raw: (x * 4294967296.0).round() as i64 }
}

fn vec(x: f64, y: f64, z: f64) -> Vec3 {
    Vec3::new(fx(x), fx(y), fx(z))
}

fn close(a: Vec3, b: Vec3, tolerance: f64) -> bool {
    (a - b).length() < fx(tolerance)
}

#[test]
fn refract() {
    let r_in = Vec3::new(fx(1.0), fx(-1.0), fx(0.0));
    let n = Vec3::new(fx(0.0), fx(1.0), fx(0.0));
    let etai_over_etat = fx(1.0 / 1.0);
    let refracted = r_in.refract(n, etai_over_etat);
    assert!((r_in.unit_vector() - refracted).length() < fx(0.0001));

    let etai_over_etat = fx(1.5);
    println!("{:?}", r_in.refract(n, etai_over_etat))
}

#[test]
fn refract_bends_by_snells_law() {
    // From air into glass at 45 degrees: sin(out) = sin(45) / 1.5.
    let r_in = vec(1.0, -1.0, 0.0);
    let n = vec(0.0, 1.0, 0.0);
    let out = r_in.refract(n, fx(1.0 / 1.5));
    let sin_out = (0.5f64).sqrt() / 1.5;
    let expected = vec(sin_out, -(1.0 - sin_out * sin_out).sqrt(), 0.0);
    assert!(close(out, expected, 0.000001));
}

#[test]
fn refract_round_trip_restores_the_direction() {
    let r_in = vec(1.0, -2.0, 0.5);
    let n = vec(0.0, 1.0, 0.0);
    let inside = r_in.refract(n, fx(1.0 / 1.5));
    let back = inside.refract(n, fx(1.5));
    assert!(close(back, r_in.unit_vector(), 0.00001));
}

#[test]
fn new_and_zero() {
    let v = Vec3::new(fx(1.0), fx(2.0), fx(3.0));
    assert_eq!(v.x, fx(1.0));
    assert_eq!(v.y, fx(2.0));
    assert_eq!(v.z, fx(3.0));
    assert_eq!(Vec3::zero(), vec(0.0, 0.0, 0.0));
    assert!(Vec3::zero().is_zero());
    assert!(!v.is_zero());
    assert!(!Vec3::new(Fixed::zero(), Fixed::zero(), Fixed { raw: 1 }).is_zero());
    assert_eq!(v.to_vec(), [fx(1.0), fx(2.0), fx(3.0)]);
}

#[test]
fn operators_work_componentwise() {
    let a = vec(1.0, 2.0, 3.0);
    let b = vec(0.5, -1.0, 4.0);
    assert_eq!(a + b, vec(1.5, 1.0, 7.0));
    assert_eq!(a - b, vec(0.5, 3.0, -1.0));
    assert_eq!(a * b, vec(0.5, -2.0, 12.0));
    assert_eq!(-a, vec(-1.0, -2.0, -3.0));
    assert_eq!(a * fx(2.0), vec(2.0, 4.0, 6.0));
    assert_eq!(fx(2.0) * a, vec(2.0, 4.0, 6.0));
    assert_eq!(a / fx(2.0), vec(0.5, 1.0, 1.5));
}

#[test]
fn scalars_add_to_each_component() {
    let a = vec(1.0, 2.0, 3.0);
    assert_eq!(a + fx(0.5), vec(1.5, 2.5, 3.5));
    assert_eq!(fx(-1.0) + a, vec(0.0, 1.0, 2.0));
}

#[test]
fn compound_assignments_change_in_place() {
    let mut v = vec(1.0, 2.0, 3.0);
    v += vec(0.5, -1.0, 4.0);
    assert_eq!(v, vec(1.5, 1.0, 7.0));
    v += fx(1.0);
    assert_eq!(v, vec(2.5, 2.0, 8.0));
    v -= fx(0.5);
    assert_eq!(v, vec(2.0, 1.5, 7.5));
    v *= fx(2.0);
    assert_eq!(v, vec(4.0, 3.0, 15.0));
    v /= fx(4.0);
    assert_eq!(v, vec(1.0, 0.75, 3.75));
}

#[test]
fn dot_and_cross() {
    let a = vec(1.0, 2.0, 3.0);
    let b = vec(4.0, -5.0, 6.0);
    assert_eq!(a.dot(b), fx(12.0));
    assert_eq!(a.cross(b), vec(27.0, 6.0, -13.0));
    assert_eq!(vec(1.0, 0.0, 0.0).cross(vec(0.0, 1.0, 0.0)), vec(0.0, 0.0, 1.0));
    assert_eq!(a.cross(a), Vec3::zero());
}

#[test]
fn length_and_its_square() {
    let v = vec(3.0, 4.0, 0.0);
    assert_eq!(v.length_squared(), fx(25.0));
    assert_eq!(v.length(), fx(5.0));
    assert_eq!(Vec3::zero().length(), Fixed::zero());
    // The length is found from the exact squares: it does not vanish for a
    // vector whose rounded squared length does.
    let tiny = Vec3::new(Fixed { raw: 3 }, Fixed { raw: 4 }, Fixed::zero());
    assert_eq!(tiny.length_squared(), Fixed::zero());
    assert_eq!(tiny.length(), Fixed { raw: 5 });
    let huge = Vec3::new(Fixed { raw: i64::MIN }, Fixed { raw: i64::MIN }, Fixed { raw: i64::MIN });
    assert_eq!(huge.length(), Fixed { raw: i64::MAX });
}

#[test]
fn unit_vector_has_length_one() {
    assert_eq!(
        vec(3.0, 4.0, 0.0).unit_vector(),
        Vec3::new(Fixed::from_ratio(3, 5), Fixed::from_ratio(4, 5), Fixed::zero())
    );
    assert_eq!(vec(0.0, -7.0, 0.0).unit_vector(), vec(0.0, -1.0, 0.0));
    let u = vec(1.0, -2.0, 3.0).unit_vector();
    let excess = (u.length() - Fixed::one()).abs();
    assert!(excess < fx(0.000000001));
    let tiny = Vec3::new(Fixed { raw: 1 }, Fixed::zero(), Fixed::zero());
    assert_eq!(tiny.unit_vector(), vec(1.0, 0.0, 0.0));
}

#[test]
fn near_zero_is_below_a_hundred_millionth() {
    assert_eq!(NEAR_ZERO_RAW, 43);
    assert!(Vec3::zero().near_zero());
    assert!(Vec3::new(Fixed { raw: 42 }, Fixed { raw: -42 }, Fixed { raw: 0 }).near_zero());
    assert!(!Vec3::new(Fixed { raw: 43 }, Fixed { raw: 0 }, Fixed { raw: 0 }).near_zero());
    assert!(!Vec3::new(Fixed { raw: 0 }, Fixed { raw: -43 }, Fixed { raw: 0 }).near_zero());
    assert!(!Vec3::new(Fixed { raw: 0 }, Fixed { raw: 0 }, Fixed { raw: i64::MIN }).near_zero());
    assert!(vec(0.000000009, 0.0, 0.0).near_zero());
    assert!(!vec(0.00000002, 0.0, 0.0).near_zero());
}

#[test]
fn reflect_mirrors_in_the_plane() {
    let v = vec(1.0, -2.0, 3.0);
    let n = vec(0.0, 1.0, 0.0);
    assert_eq!(v.reflect(n), vec(1.0, 2.0, 3.0));
    assert_eq!(vec(1.0, -1.0, 0.0).reflect(vec(0.0, 1.0, 0.0)), vec(1.0, 1.0, 0.0));
}

#[test]
fn reflect_twice_restores_the_vector() {
    let v = vec(1.0, -2.0, 3.0);
    assert_eq!(v.reflect(vec(0.0, 1.0, 0.0)).reflect(vec(0.0, 1.0, 0.0)), v);
    assert_eq!(v.reflect(vec(-1.0, 0.0, 0.0)).reflect(vec(-1.0, 0.0, 0.0)), v);
    let n = vec(1.0, 1.0, -0.5).unit_vector();
    assert!(close(v.reflect(n).reflect(n), v, 0.00000001));
}

#[test]
fn rand_and_random_stay_in_range() {
    for _ in 0..200 {
        let v = Vec3::rand();
        for c in v.to_vec() {
            assert!(0 <= c.raw && c.raw < SCALE);
        }
        let w = Vec3::random(fx(-1.0), fx(1.0));
        for c in w.to_vec() {
            assert!(fx(-1.0) <= c && c < fx(1.0));
        }
    }
}

#[test]
fn first_in_unit_ball_takes_the_first_point_inside() {
    let outside = vec(0.75, 0.75, 0.0);
    let corner = vec(-1.0, 1.0, 1.0);
    let on_the_sphere = vec(0.0, 1.0, 0.0);
    let inside = vec(0.5, -0.5, 0.25);
    let later = vec(0.1, 0.0, 0.0);
    assert_eq!(first_in_unit_ball(&vec![inside]), inside);
    assert_eq!(first_in_unit_ball(&vec![outside, inside, later]), inside);
    assert_eq!(first_in_unit_ball(&vec![corner, outside, on_the_sphere, later, inside]), later);
    assert_eq!(first_in_unit_ball(&vec![Vec3::zero(), inside]), Vec3::zero());
    // Where no point lies inside, the center stands in.
    assert_eq!(first_in_unit_ball(&vec![]), Vec3::zero());
    assert_eq!(first_in_unit_ball(&vec![outside, corner, on_the_sphere]), Vec3::zero());
    let rejected = vec![corner; SAMPLING_ATTEMPTS as usize];
    assert_eq!(SAMPLING_ATTEMPTS, 128);
    assert_eq!(first_in_unit_ball(&rejected), Vec3::zero());
}

#[test]
fn random_in_unit_sphere_is_inside_the_ball() {
    let mut seen_off_center = false;
    for _ in 0..200 {
        let p = random_in_unit_sphere();
        assert!(p.length_squared() < Fixed::one());
        for c in p.to_vec() {
            assert!(fx(-1.0) <= c && c < fx(1.0));
        }
        if !p.is_zero() {
            seen_off_center = true;
        }
    }
    assert!(seen_off_center);
}

#[test]
fn random_in_unit_disk_is_inside_the_disk() {
    let mut seen_off_center = false;
    for _ in 0..200 {
        let p = random_in_unit_disk();
        assert_eq!(p.z, Fixed::zero());
        assert!(p.length_squared() < Fixed::one());
        assert!(fx(-1.0) <= p.x && p.x < fx(1.0));
        assert!(fx(-1.0) <= p.y && p.y < fx(1.0));
        if !p.is_zero() {
            seen_off_center = true;
        }
    }
    assert!(seen_off_center);
}

#[test]
fn random_unit_vector_has_length_one() {
    for _ in 0..200 {
        let u = random_unit_vector();
        assert!(!u.is_zero());
        assert!((u.length() - Fixed::one()).abs() < fx(0.0000001));
    }
}

#[test]
fn toward_turns_a_point_to_the_side_of_the_normal() {
    let n = vec(0.0, 1.0, 0.0);
    assert_eq!(toward(vec(0.5, 0.25, 0.0), n), vec(0.5, 0.25, 0.0));
    assert_eq!(toward(vec(0.5, -0.25, 0.0), n), vec(-0.5, 0.25, 0.0));
    assert_eq!(toward(vec(0.5, 0.0, 0.0), n), vec(-0.5, 0.0, 0.0));
}

#[test]
fn random_in_hemisphere_is_on_the_side_of_the_normal() {
    let n = vec(0.0, 0.0, -1.0);
    for _ in 0..200 {
        let p = random_in_hemisphere(n);
        assert!(p.dot(n) >= Fixed::zero());
        assert!(p.length_squared() < Fixed::one());
    }
}
