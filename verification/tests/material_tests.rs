use pathtracer::material::{
    dielectric_side, dielectric_turn, lambertian_direction, metal_fuzz, metal_scatters, Diffuse,
    Side, Turn,
};
use pathtracer::rank::from_bits;

fn rank(x: f64) -> i64 {
    from_bits(x.to_bits()).unwrap()
}

#[test]
fn diffuse_direction_is_the_offset_normal() {
    let bound = rank(1e-8);
    assert_eq!(lambertian_direction(rank(0.3), rank(-0.2), rank(1.5), bound), Diffuse::Offset);
    assert_eq!(lambertian_direction(rank(1e-9), rank(-1e-9), rank(1e-7), bound), Diffuse::Offset);
}

#[test]
fn diffuse_direction_falls_back_to_the_normal() {
    let bound = rank(1e-8);
    assert_eq!(lambertian_direction(0, 0, 0, bound), Diffuse::Normal);
    assert_eq!(lambertian_direction(rank(1e-9), rank(-1e-9), rank(9e-9), bound), Diffuse::Normal);
}

#[test]
fn fuzz_is_held_between_zero_and_one() {
    let one = rank(1.0);
    assert_eq!(metal_fuzz(rank(0.3), one), rank(0.3));
    assert_eq!(metal_fuzz(rank(1.0), one), rank(1.0));
    assert_eq!(metal_fuzz(rank(7.5), one), rank(1.0));
    assert_eq!(metal_fuzz(rank(-0.5), one), rank(0.0));
    assert_eq!(metal_fuzz(rank(0.0), one), rank(0.0));
}

#[test]
fn metal_absorbs_what_points_into_the_surface() {
    assert!(metal_scatters(rank(0.7)));
    assert!(metal_scatters(rank(0.0)));
    assert!(!metal_scatters(rank(-1e-12)));
    assert!(!metal_scatters(rank(-0.7)));
}

#[test]
fn dielectric_side_follows_the_sign() {
    assert_eq!(dielectric_side(rank(-0.5)), Side::Front);
    assert_eq!(dielectric_side(rank(0.0)), Side::Front);
    assert_eq!(dielectric_side(rank(0.5)), Side::Back);
}

#[test]
fn total_internal_reflection_reflects() {
    let one = rank(1.0);
    assert_eq!(dielectric_turn(rank(1.2), one, rank(0.0), rank(0.9), true), Turn::Reflect);
    assert_eq!(dielectric_turn(rank(1.2), one, rank(0.0), rank(0.9), false), Turn::Reflect);
}

#[test]
fn draw_below_the_reflectance_reflects() {
    let one = rank(1.0);
    assert_eq!(dielectric_turn(rank(0.5), one, rank(0.3), rank(0.1), true), Turn::Reflect);
    assert_eq!(dielectric_turn(rank(0.5), one, rank(0.3), rank(0.3), true), Turn::Refract);
    assert_eq!(dielectric_turn(rank(0.5), one, rank(0.3), rank(0.8), true), Turn::Refract);
}

#[test]
fn bend_of_exactly_one_refracts() {
    let one = rank(1.0);
    assert_eq!(dielectric_turn(one, one, rank(0.0), rank(0.5), true), Turn::Refract);
}

#[test]
fn missing_refraction_reflects() {
    let one = rank(1.0);
    assert_eq!(dielectric_turn(rank(0.5), one, rank(0.0), rank(0.5), false), Turn::Reflect);
}

#[test]
fn index_one_refracts_whatever_the_draw() {
    // With a ratio of one the Schlick reflectance at normal incidence is
    // zero, and no draw falls below it.
    let one = rank(1.0);
    for draw in [0.0, 0.25, 0.999999] {
        assert_eq!(dielectric_turn(rank(0.0), one, rank(0.0), rank(draw), true), Turn::Refract);
    }
}
