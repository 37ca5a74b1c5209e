use raychasing::color::{channel, push_decimal, rgb, write_color, Color, CHANNEL_MAX_RAW};
use raychasing::fixed::Fixed;
use raychasing::vec3::Vec3;

fn fx(x: f64) -> Fixed {
    Fixed { raw: (x * 4294967296.0).round() as i64 }
}

fn vec(x: f64, y: f64, z: f64) -> Vec3 {
    Vec3::new(fx(x), fx(y), fx(z))
}

#[test]
fn output_ppm_test() {
    let mut output: Vec<u8> = b"P3\n2 1\n255\n".to_vec();
    write_color(&mut output, vec(1.0, 0.0, 0.0), 1);
    write_color(&mut output, vec(0.5, 1.0, 0.125), 2);
    assert_eq!(output, b"P3\n2 1\n255\n255 0 0\n128 181 64\n".to_vec());
}

#[test]
fn the_largest_channel_value_is_just_below_one() {
    assert_eq!(CHANNEL_MAX_RAW, (0.999f64 * 4294967296.0).floor() as i64);
}

#[test]
fn channel_takes_the_root_of_the_mean() {
    assert_eq!(channel(fx(0.25), 1), 128);
    assert_eq!(channel(fx(0.5), 1), 181);
    assert_eq!(channel(fx(1.0), 4), 128);
    assert_eq!(channel(fx(50.0), 200), 128);
    assert_eq!(channel(Fixed::zero(), 3), 0);
    assert_eq!(channel(fx(0.0625), 1), 64);
}

#[test]
fn channel_is_limited_to_its_range() {
    assert_eq!(channel(fx(1.0), 1), 255);
    assert_eq!(channel(fx(2.0), 1), 255);
    assert_eq!(channel(Fixed { raw: i64::MAX }, 1), 255);
    assert_eq!(channel(fx(-0.5), 1), 0);
    assert_eq!(channel(Fixed { raw: i64::MIN }, 7), 0);
    assert_eq!(channel(fx(1.0), -2), 0);
}

#[test]
fn constant_red_gives_full_red() {
    let red: Color = vec(1.0, 0.0, 0.0);
    for samples in [1, 2, 3, 7, 10, 200, 1000] {
        let mut sum = Vec3::zero();
        for _ in 0..samples {
            sum = sum + red;
        }
        assert_eq!(rgb(sum, samples), (255, 0, 0));
    }
    for samples in [99999, 1 << 20, i32::MAX] {
        let sum = Vec3::new(Fixed::from_int(samples), Fixed::zero(), Fixed::zero());
        assert_eq!(rgb(sum, samples), (255, 0, 0));
    }
}

#[test]
fn rgb_converts_each_channel() {
    assert_eq!(rgb(vec(0.25, 0.5, 1.0), 1), (128, 181, 255));
    assert_eq!(rgb(vec(2.5, -1.0, 0.625), 10), (128, 0, 64));
}

#[test]
fn push_decimal_writes_the_digits() {
    let cases: [(u8, &[u8]); 8] = [
        (0, b"0"),
        (7, b"7"),
        (9, b"9"),
        (10, b"10"),
        (99, b"99"),
        (100, b"100"),
        (205, b"205"),
        (255, b"255"),
    ];
    for (value, digits) in cases {
        let mut output: Vec<u8> = vec![b'x'];
        push_decimal(&mut output, value);
        assert_eq!(&output[..1], b"x");
        assert_eq!(&output[1..], digits);
    }
    for value in 0..=255u8 {
        let mut output: Vec<u8> = Vec::new();
        push_decimal(&mut output, value);
        assert_eq!(output, format!("{}", value).into_bytes());
    }
}

#[test]
fn write_color_appends_one_line() {
    let mut output: Vec<u8> = Vec::new();
    write_color(&mut output, vec(1.0, 0.0, 0.0), 1);
    assert_eq!(output, b"255 0 0\n".to_vec());
    write_color(&mut output, vec(25.0, 50.0, 100.0), 100);
    assert_eq!(output, b"255 0 0\n128 181 255\n".to_vec());
}
