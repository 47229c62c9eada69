use shnek::toroidal::{
    advance, isqrt, mod_dist, mod_distance, modulus, modulus_vec3, modulus_wide, negated,
    normalize, scaled, shortest_difference, signed_mod_dist, vec3, displaced, wrapped_sum,
    Vector3, SCALE, SPACE_SIZE,
};

/// A world length as fixed-point steps.
fn fx(value: f64) -> i64 {
    (value * SCALE as f64).round() as i64
}

/// Fixed-point steps as a world length.
fn units(steps: i64) -> f64 {
    steps as f64 / SCALE as f64
}

fn fx3(x: f64, y: f64, z: f64) -> Vector3 {
    vec3(fx(x), fx(y), fx(z))
}

fn almost_eq(a: Vector3, b: Vector3) -> bool {
    (units(a.x) - units(b.x)).abs() < 1e-3
        && (units(a.y) - units(b.y)).abs() < 1e-3
        && (units(a.z) - units(b.z)).abs() < 1e-3
}

#[test]
fn test_modulus() {
    assert!((units(modulus(fx(5.0), fx(10.0))) - 5.0).abs() < 1e-3);
    assert!((units(modulus(fx(-5.0), fx(10.0))) - 5.0).abs() < 1e-3);
    assert!((units(modulus(fx(15.0), fx(10.0))) - 5.0).abs() < 1e-3);
    assert!((units(modulus(fx(-15.0), fx(10.0))) - 5.0).abs() < 1e-3);
    assert!((units(modulus(fx(0.0), fx(10.0))) - 0.0).abs() < 1e-3);
    assert!((units(modulus(fx(10.0), fx(10.0))) - 0.0).abs() < 1e-3);
    assert!((units(modulus(fx(-10.0), fx(10.0))) - 0.0).abs() < 1e-3);
    assert!((units(modulus(fx(-156.0), fx(10.0))) - 4.0).abs() < 1e-3);

    assert_eq!(units(modulus(fx(-0.0), fx(10.))), 0.0)
}

#[test]
fn test_mod_vec3() {
    assert!(almost_eq(
        modulus_vec3(fx3(101.3, 102.4, 103.6), SPACE_SIZE),
        fx3(1.3, 2.4, 3.6)
    ));
    assert!(almost_eq(
        modulus_vec3(fx3(300.0, 500.44, 200.55), SPACE_SIZE),
        fx3(0.0, 0.44, 0.55)
    ));
    assert!(almost_eq(
        modulus_vec3(fx3(-3., -0.0, -2.), SPACE_SIZE),
        modulus_vec3(fx3(97., 100., 98.), SPACE_SIZE)
    ));
    assert!(almost_eq(
        modulus_vec3(fx3(-13., 3., 115.), SPACE_SIZE),
        fx3(87., 3., 15.)
    ));
}

#[test]
fn test_addition() {
    let result = modulus_vec3(fx3(5.0 + 10.0, 10.0 + 20.0, 15.0 + 30.0), fx(20.0));
    assert!(almost_eq(result, fx3(15.0, 10.0, 5.0)));

    let result2 = modulus_vec3(fx3(5.0 - 10.0, 10.0 - 20.0, 15.0 - 30.0), fx(20.0));
    assert!(almost_eq(result2, fx3(15.0, 10.0, 5.0)));
}

#[test]
fn test_mod_distance() {
    assert!(units(mod_distance(fx3(10., 20., 30.), fx3(110., 120., 130.))) < 1e-3);
    assert!(
        units(mod_distance(fx3(10.2, 33.22, 3.1), fx3(5.6, 20.0, 49.3))) - 48.273889 < 1e-3
    );
    assert!(
        units(mod_distance(fx3(3.5, 88.6, 0.), fx3(198.3, 101.2, -130.))) - 32.951479 < 1e-3
    );
    assert!(
        units(mod_distance(
            fx3(0.33333333, 0.44444444, 0.55555555),
            fx3(-0.33333333, -0.44444444, -0.55555555)
        )) - 1.571348
            < 1e-3
    );
    assert!(
        units(mod_distance(
            fx3(100000000., 100000000., 100000000.),
            fx3(-200., -200., -200.)
        )) < 1e-3
    );
}

#[test]
fn mod_distance_exact_values() {
    assert_eq!(mod_distance(fx3(10.2, 33.22, 3.1), fx3(5.6, 20.0, 49.3)), 48_273);
    assert_eq!(mod_distance(fx3(3.5, 88.6, 0.), fx3(198.3, 101.2, -130.)), 32_951);
    assert_eq!(mod_distance(fx3(5., 5., 5.), fx3(5., 5., 12.)), 7_000);
    assert_eq!(mod_distance(fx3(0., 0., 0.), fx3(3., 4., 0.)), 5_000);
    assert_eq!(mod_distance(fx3(1., 0., 0.), fx3(99., 0., 0.)), 2_000);
}

#[test]
fn modulus_stays_in_range_and_is_periodic() {
    for m in [1_i64, 7, 1_000, SPACE_SIZE] {
        for v in [-250_001_i64, -100_000, -1, 0, 1, 99_999, 100_000, 1_234_567] {
            let r = modulus(v, m);
            assert!(0 <= r && r < m);
            for k in [-3_i64, -1, 1, 5] {
                assert_eq!(modulus(v + k * m, m), r);
            }
        }
    }
    assert_eq!(modulus(i64::MIN, 10), 2);
    assert_eq!(modulus(i64::MAX, 10), 7);
    assert_eq!(modulus(-1, 10_000), 9_999);
}

#[test]
fn wrapping_a_position_by_one_side_changes_nothing() {
    let p = fx3(12.5, 99.999, 0.0);
    let canonical = modulus_vec3(p, SPACE_SIZE);
    assert_eq!(modulus_vec3(vec3(p.x + SPACE_SIZE, p.y, p.z), SPACE_SIZE), canonical);
    assert_eq!(modulus_vec3(vec3(p.x, p.y + SPACE_SIZE, p.z), SPACE_SIZE), canonical);
    assert_eq!(modulus_vec3(vec3(p.x, p.y, p.z + SPACE_SIZE), SPACE_SIZE), canonical);
    assert_eq!(canonical, vec3(12_500, 99_999, 0));
}

#[test]
fn distance_is_zero_to_itself_symmetric_and_bounded() {
    let points = [
        fx3(0., 0., 0.),
        fx3(50., 50., 50.),
        fx3(99.999, 0.001, 42.),
        fx3(-17., 250., 3.),
        fx3(10., 60., 110.),
    ];
    for a in points {
        assert_eq!(mod_distance(a, a), 0);
        for b in points {
            let d = mod_distance(a, b);
            assert_eq!(d, mod_distance(b, a));
            assert!(d >= 0);
            // side * sqrt(3) / 2
            assert!(4 * d * d <= 3 * SPACE_SIZE * SPACE_SIZE);
            assert_eq!(d, mod_distance(modulus_vec3(a, SPACE_SIZE), modulus_vec3(b, SPACE_SIZE)));
        }
    }
    assert_eq!(mod_distance(fx3(0., 0., 0.), fx3(50., 50., 50.)), 86_602);
}

#[test]
fn axis_distance_takes_the_shorter_way() {
    assert_eq!(mod_dist(1_000, 99_000, SPACE_SIZE), 2_000);
    assert_eq!(mod_dist(99_000, 1_000, SPACE_SIZE), 2_000);
    assert_eq!(mod_dist(0, 50_000, SPACE_SIZE), 50_000);
    assert_eq!(mod_dist(0, 50_001, SPACE_SIZE), 49_999);
    assert_eq!(mod_dist(i64::MIN, i64::MAX, 10), 5);
    assert_eq!(mod_dist(7, 7, 3), 0);
}

#[test]
fn integer_square_root_rounds_down() {
    assert_eq!(isqrt(0), 0);
    assert_eq!(isqrt(1), 1);
    assert_eq!(isqrt(3), 1);
    assert_eq!(isqrt(4), 2);
    assert_eq!(isqrt(15), 3);
    assert_eq!(isqrt(16), 4);
    assert_eq!(isqrt(2_330_368_400), 48_273);
    assert_eq!(isqrt(u128::MAX), u64::MAX);
    assert_eq!(isqrt((u64::MAX as u128) * (u64::MAX as u128) - 1), u64::MAX - 1);
}

#[test]
fn normalize_gives_one_world_unit() {
    assert_eq!(normalize(vec3(3_000, 4_000, 0)), vec3(600, 800, 0));
    assert_eq!(normalize(vec3(-3_000, -4_000, 0)), vec3(-600, -800, 0));
    assert_eq!(normalize(vec3(0, 0, 0)), vec3(0, 0, 0));
    assert_eq!(normalize(vec3(0, 0, 7)), vec3(0, 0, 1_000));
    assert_eq!(normalize(vec3(0, -123_456, 0)), vec3(0, -1_000, 0));
    assert_eq!(normalize(vec3(1, 1, 1)), vec3(1_000, 1_000, 1_000));
    assert_eq!(normalize(vec3(10, 10, 10)), vec3(588, 588, 588));
    let n = normalize(vec3(i64::MIN, i64::MAX, i64::MIN));
    assert!(n.x >= -SCALE && n.x <= SCALE && n.y >= -SCALE && n.y <= SCALE);
    assert_eq!(n, vec3(-577, 577, -577));
}

#[test]
fn scaling_and_wrapped_sums() {
    assert_eq!(scaled(vec3(600, 800, 0), 10_000), vec3(6_000, 8_000, 0));
    assert_eq!(scaled(vec3(-600, 333, 1), 10_000), vec3(-6_000, 3_330, 10));
    assert_eq!(scaled(vec3(-1, 1, 999), 1), vec3(0, 0, 0));
    assert_eq!(wrapped_sum(vec3(99_000, 0, 50_000), vec3(2_000, -1, 50_000)), vec3(1_000, 99_999, 0));
    // a displacement is not wrapped
    assert_eq!(displaced(vec3(1_000, 0, 0), vec3(-2_000, 0, 100_000)), vec3(-1_000, 0, 100_000));
    assert_eq!(displaced(vec3(0, 0, 0), vec3(-10_000, 0, 0)), vec3(-10_000, 0, 0));
    assert_eq!(displaced(vec3(i64::MAX - 5, i64::MIN + 5, 7), vec3(5, -5, 1)), vec3(i64::MAX, i64::MIN, 8));
    // beyond 64 bits the same place inside the cube is given
    assert_eq!(displaced(vec3(i64::MAX, 0, 0), vec3(1, 0, 250_000)), vec3(75_808, 0, 50_000));
    assert_eq!(wrapped_sum(vec3(i64::MAX, i64::MIN, 0), vec3(i64::MAX, i64::MIN, 0)), vec3(51_614, 48_384, 0));
}

#[test]
fn advancing_wraps_around_the_faces() {
    assert_eq!(advance(fx3(99., 0., 0.), fx3(1., 0., 0.), fx(2.)), fx3(1., 0., 0.));
    assert_eq!(advance(fx3(1., 0., 0.), fx3(-1., 0., 0.), fx(2.)), fx3(99., 0., 0.));
    assert_eq!(advance(fx3(0., 0., 0.), vec3(600, -800, 0), 1_500), vec3(900, 98_800, 0));
    assert_eq!(advance(fx3(0., 0., 0.), vec3(333, -333, 0), 10), vec3(3, 99_997, 0));
    assert_eq!(advance(fx3(5., 5., 5.), fx3(0., 0., 0.), fx(1000.)), fx3(5., 5., 5.));
}

#[test]
fn shortest_difference_crosses_the_faces() {
    assert_eq!(shortest_difference(vec3(90_000, 0, 0), vec3(0, 0, 0)), vec3(-10_000, 0, 0));
    assert_eq!(shortest_difference(vec3(0, 0, 0), vec3(90_000, 0, 0)), vec3(10_000, 0, 0));
    assert_eq!(shortest_difference(vec3(30_000, 5, 7), vec3(10_000, 5, 99_999)), vec3(20_000, 0, 8));
    assert_eq!(signed_mod_dist(50_000, 0, SPACE_SIZE), 50_000);
    assert_eq!(signed_mod_dist(50_001, 0, SPACE_SIZE), -49_999);
    assert_eq!(signed_mod_dist(0, 50_000, SPACE_SIZE), 50_000);
    assert_eq!(signed_mod_dist(i64::MAX, i64::MIN, 10), 5);
    for (a, b) in [(3_i64, 99_998_i64), (12_345, 67_890), (-5, 5), (250_000, -250_000)] {
        assert_eq!(signed_mod_dist(a, b, SPACE_SIZE).abs(), mod_dist(a, b, SPACE_SIZE));
    }
}

#[test]
fn wide_values_reduce_like_narrow_ones() {
    assert_eq!(modulus_wide(-1, 10_000), 9_999);
    assert_eq!(modulus_wide(i128::MAX, 10), 7);
    assert_eq!(modulus_wide(i128::MIN, 10), 2);
    assert_eq!(modulus_wide(123_456, SPACE_SIZE), modulus(123_456, SPACE_SIZE));
    assert_eq!(negated(vec3(1, -2, 0)), vec3(-1, 2, 0));
}
