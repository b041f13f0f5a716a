use pathtracer::rank::{from_bits, to_bits, INFINITY, MAGNITUDE_MASK, SIGN_BIT};

fn rank(x: f64) -> i64 {
    from_bits(x.to_bits()).unwrap()
}

fn value(r: i64) -> f64 {
    f64::from_bits(to_bits(r).unwrap())
}

fn samples() -> Vec<f64> {
    vec![
        f64::NEG_INFINITY,
        f64::MIN,
        -1000.5,
        -1.0,
        -0.999,
        -1e-8,
        -f64::MIN_POSITIVE,
        -5e-324,
        0.0,
        5e-324,
        f64::MIN_POSITIVE,
        1e-8,
        0.00001,
        0.5,
        0.999,
        1.0,
        1.0000000000000002,
        4.0,
        6.0,
        1000.5,
        f64::MAX,
        f64::INFINITY,
    ]
}

#[test]
fn rank_of_one_is_its_pattern() {
    assert_eq!(from_bits(0x3ff0_0000_0000_0000), Some(0x3ff0_0000_0000_0000));
    assert_eq!(rank(1.0), 0x3ff0_0000_0000_0000);
}

#[test]
fn rank_of_minus_one_is_the_opposite() {
    assert_eq!(from_bits(0xbff0_0000_0000_0000), Some(-0x3ff0_0000_0000_0000));
    assert_eq!(rank(-1.0), -rank(1.0));
}

#[test]
fn both_zeros_have_rank_zero() {
    assert_eq!(from_bits(0), Some(0));
    assert_eq!(from_bits(SIGN_BIT), Some(0));
    assert_eq!(rank(0.0), 0);
    assert_eq!(rank(-0.0), 0);
}

#[test]
fn rank_zero_gives_positive_zero() {
    assert_eq!(to_bits(0), Some(0));
    assert!(value(0).is_sign_positive());
}

#[test]
fn infinities_have_the_outermost_ranks() {
    assert_eq!(rank(f64::INFINITY), INFINITY);
    assert_eq!(rank(f64::NEG_INFINITY), -INFINITY);
    assert_eq!(to_bits(INFINITY), Some(f64::INFINITY.to_bits()));
    assert_eq!(to_bits(-INFINITY), Some(f64::NEG_INFINITY.to_bits()));
}

#[test]
fn what_is_not_a_number_has_no_rank() {
    assert_eq!(from_bits(f64::NAN.to_bits()), None);
    assert_eq!(from_bits((-f64::NAN).to_bits()), None);
    assert_eq!(from_bits(0x7ff0_0000_0000_0001), None);
    assert_eq!(from_bits(0xfff0_0000_0000_0001), None);
    assert_eq!(from_bits(MAGNITUDE_MASK), None);
    assert_eq!(from_bits(u64::MAX), None);
}

#[test]
fn what_is_no_rank_has_no_pattern() {
    assert_eq!(to_bits(INFINITY + 1), None);
    assert_eq!(to_bits(-INFINITY - 1), None);
    assert_eq!(to_bits(i64::MAX), None);
    assert_eq!(to_bits(i64::MIN), None);
}

#[test]
fn negative_rank_sets_the_sign_bit() {
    assert_eq!(to_bits(-5), Some(0x8000_0000_0000_0005));
    assert_eq!(to_bits(5), Some(5));
}

#[test]
fn ranks_are_ordered_as_the_numbers() {
    let xs = samples();
    for a in xs.iter() {
        for b in xs.iter() {
            assert_eq!(a < b, rank(*a) < rank(*b), "{a} and {b}");
            assert_eq!(a == b, rank(*a) == rank(*b), "{a} and {b}");
        }
    }
}

#[test]
fn ranks_have_the_sign_of_the_numbers() {
    for x in samples() {
        assert_eq!(x > 0.0, rank(x) > 0, "{x}");
        assert_eq!(x < 0.0, rank(x) < 0, "{x}");
        assert_eq!(rank(-x), -rank(x), "{x}");
    }
}

#[test]
fn rank_and_back_is_the_number() {
    for x in samples() {
        assert_eq!(value(rank(x)), x);
        assert_eq!(value(rank(x)).to_bits(), x.to_bits());
    }
    assert_eq!(value(rank(-0.0)).to_bits(), 0.0f64.to_bits());
}
