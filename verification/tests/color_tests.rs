use pathtracer::color::{channel, clamp, Pixel, CHANNEL_MAX};
use pathtracer::rank::{from_bits, to_bits};

fn rank(x: f64) -> i64 {
    from_bits(x.to_bits()).unwrap()
}

fn value(r: i64) -> f64 {
    f64::from_bits(to_bits(r).unwrap())
}

#[test]
fn clamp_keeps_what_lies_inside() {
    assert_eq!(clamp(5, 0, 10), 5);
    assert_eq!(clamp(0, 0, 10), 0);
    assert_eq!(clamp(10, 0, 10), 10);
}

#[test]
fn clamp_moves_what_lies_outside() {
    assert_eq!(clamp(-1, 0, 10), 0);
    assert_eq!(clamp(11, 0, 10), 10);
    assert_eq!(clamp(i64::MIN, 0, 10), 0);
    assert_eq!(clamp(i64::MAX, 0, 10), 10);
}

#[test]
fn clamp_tests_the_lower_end_first() {
    assert_eq!(clamp(5, 10, 0), 10);
    assert_eq!(clamp(20, 10, 0), 0);
}

#[test]
fn clamp_of_ranks_is_clamp_of_doubles() {
    let (min, max) = (rank(0.0), rank(0.999));
    assert_eq!(value(clamp(rank(0.25), min, max)), 0.25);
    assert_eq!(value(clamp(rank(-0.25), min, max)), 0.0);
    assert_eq!(value(clamp(rank(1.0), min, max)), 0.999);
    assert_eq!(value(clamp(rank(0.999), min, max)), 0.999);
    assert_eq!(value(clamp(rank(f64::INFINITY), min, max)), 0.999);
}

#[test]
fn channel_is_the_level_where_it_fits() {
    assert_eq!(channel(0), 0);
    assert_eq!(channel(128), 128);
    assert_eq!(channel(255), 255);
}

#[test]
fn channel_saturates() {
    assert_eq!(channel(256), CHANNEL_MAX);
    assert_eq!(channel(100_000), 255);
    assert_eq!(channel(i64::MAX), 255);
    assert_eq!(channel(-1), 0);
    assert_eq!(channel(i64::MIN), 0);
}

#[test]
fn pixel_from_levels() {
    assert_eq!(Pixel::from_levels(0, 181, 255), Pixel { r: 0, g: 181, b: 255 });
    assert_eq!(Pixel::from_levels(-5, 300, 12), Pixel { r: 0, g: 255, b: 12 });
}

#[test]
fn mean_of_samples_is_encoded_and_quantized() {
    // Four samples that sum to one: the mean is a quarter, its square root a
    // half, and a half of 256 is 128.
    let scale = 1.0 / 4.0;
    let encoded = (scale * 1.0f64).sqrt();
    let held = value(clamp(rank(encoded), rank(0.0), rank(0.999)));
    assert_eq!(channel((256.0 * held) as i64), 128);
    // A channel at full brightness stops short of 256.
    let encoded = (scale * 4.0f64).sqrt();
    let held = value(clamp(rank(encoded), rank(0.0), rank(0.999)));
    assert_eq!(channel((256.0 * held) as i64), 255);
}
