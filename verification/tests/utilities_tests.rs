use raychasing::constants::{INFINITY_RAW, PI_RAW};
use raychasing::fixed::{Fixed, SCALE};
use raychasing::utilities::{
    clamp, degrees_to_radians, interpolate, rand_double, random_double, unit_draw_from_bits,
};

fn fx(x: f64) -> Fixed {
    Fixed { raw: (x * 4294967296.0).round() as i64 }
}

#[test]
fn constants_have_their_values() {
    assert_eq!(INFINITY_RAW, i64::MAX);
    assert_eq!(PI_RAW, (std::f64::consts::PI * 4294967296.0).floor() as i64);
}

#[test]
fn clamp_limits_to_the_interval() {
    assert_eq!(clamp(fx(-0.5), fx(0.0), fx(0.999)), fx(0.0));
    assert_eq!(clamp(fx(1.5), fx(0.0), fx(0.999)), fx(0.999));
    assert_eq!(clamp(fx(0.25), fx(0.0), fx(0.999)), fx(0.25));
    assert_eq!(clamp(fx(0.0), fx(0.0), fx(0.999)), fx(0.0));
    assert_eq!(clamp(fx(0.999), fx(0.0), fx(0.999)), fx(0.999));
}

#[test]
fn degrees_to_radians_of_a_half_turn_is_pi() {
    assert_eq!(degrees_to_radians(Fixed::from_int(180)), Fixed { raw: PI_RAW });
    assert_eq!(degrees_to_radians(Fixed::from_int(90)), Fixed { raw: PI_RAW / 2 });
    assert_eq!(degrees_to_radians(Fixed::from_int(0)), Fixed::zero());
    assert_eq!(degrees_to_radians(Fixed::from_int(-180)), Fixed { raw: -PI_RAW });
}

#[test]
fn unit_draw_from_bits_fills_the_fraction() {
    assert_eq!(unit_draw_from_bits(0), Fixed::zero());
    assert_eq!(unit_draw_from_bits(1 << 31), fx(0.5));
    assert_eq!(unit_draw_from_bits(u32::MAX).raw, SCALE - 1);
}

#[test]
fn interpolate_walks_the_segment() {
    assert_eq!(interpolate(fx(2.0), fx(6.0), fx(0.25)), fx(3.0));
    assert_eq!(interpolate(fx(2.0), fx(6.0), fx(0.0)), fx(2.0));
    assert_eq!(interpolate(fx(-1.0), fx(1.0), fx(0.5)), fx(0.0));
    assert_eq!(interpolate(fx(1.0), fx(-1.0), fx(0.75)), fx(-0.5));
}

#[test]
fn rand_double_stays_in_the_unit_interval() {
    let mut seen_different = false;
    let first = rand_double();
    for _ in 0..1000 {
        let r = rand_double();
        assert!(0 <= r.raw && r.raw < SCALE);
        if r != first {
            seen_different = true;
        }
    }
    assert!(seen_different);
}

#[test]
fn random_double_stays_on_the_segment() {
    for _ in 0..1000 {
        let r = random_double(fx(-1.0), fx(1.0));
        assert!(fx(-1.0) <= r && r < fx(1.0));
        let s = random_double(fx(0.5), fx(1.0));
        assert!(fx(0.5) <= s && s < fx(1.0));
        assert_eq!(random_double(fx(3.0), fx(3.0)), fx(3.0));
    }
}
