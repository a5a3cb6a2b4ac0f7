use meadow::fixed::{floor_div, isqrt, lerp, smooth, NOISE_BOUND, SCALE};
use meadow::heightmap::{gradient, noise, Gradient, NoiseContext, NoiseError};

#[test]
fn floor_division_rounds_down() {
    assert_eq!(floor_div(7, 2), 3);
    assert_eq!(floor_div(-7, 2), -4);
    assert_eq!(floor_div(-4, 2), -2);
    assert_eq!(floor_div(0, 65536), 0);
    assert_eq!(floor_div(-1, 65536), -1);
}

#[test]
fn isqrt_exact_and_floored() {
    assert_eq!(isqrt(0), 0);
    assert_eq!(isqrt(1), 1);
    assert_eq!(isqrt(16), 4);
    assert_eq!(isqrt(17), 4);
    assert_eq!(isqrt(24), 4);
    assert_eq!(isqrt(25), 5);
    assert_eq!(isqrt(0x1_0000_0000), 65536);
}

#[test]
fn smoothstep_fixes_the_unit_interval_ends() {
    assert_eq!(smooth(0), 0);
    assert_eq!(smooth(SCALE), SCALE);
    assert_eq!(smooth(SCALE / 2), SCALE / 2);
}

#[test]
fn smoothstep_is_monotone_on_samples() {
    let mut prev = smooth(0);
    let mut t = 0;
    while t <= SCALE {
        let cur = smooth(t);
        assert!(prev <= cur);
        prev = cur;
        t += 1024;
    }
}

#[test]
fn smoothstep_eases_toward_the_ends() {
    // t^2 (3 - 2t) lies below the diagonal in the first half.
    let quarter = smooth(SCALE / 4);
    assert!(quarter < SCALE / 4);
    // 0.25^2 * (3 - 0.5) = 0.15625 exactly, representable in fixed point.
    assert_eq!(quarter, 10240);
}

#[test]
fn lerp_interpolates_linearly() {
    assert_eq!(lerp(0, SCALE, 0), 0);
    assert_eq!(lerp(0, SCALE, SCALE), SCALE);
    assert_eq!(lerp(0, SCALE, SCALE / 2), SCALE / 2);
    assert_eq!(lerp(-SCALE, SCALE, SCALE / 2), 0);
}

#[test]
fn noise_query_is_deterministic() {
    let field = NoiseContext::new(16);
    let points = [
        (3 * SCALE / 2, 7 * SCALE / 3),
        (0, 0),
        (15 * SCALE + 1234, 15 * SCALE + 9999),
        (SCALE / 7, 13 * SCALE / 11),
    ];
    for &(x, z) in points.iter() {
        let a = field.get(x, z).unwrap();
        let b = field.get(x, z).unwrap();
        assert_eq!(a, b);
        assert_eq!(field.get_height(x, z).unwrap(), a);
    }
}

#[test]
fn noise_is_zero_at_every_lattice_point() {
    let field = NoiseContext::new(8);
    for xi in 0..8i64 {
        for zi in 0..8i64 {
            assert_eq!(field.get(xi * SCALE, zi * SCALE).unwrap(), 0);
        }
    }
}

#[test]
fn noise_values_stay_bounded() {
    let field = NoiseContext::new(8);
    for xi in 0..7i64 {
        for zi in 0..7i64 {
            let v = field
                .get(xi * SCALE + SCALE / 3, zi * SCALE + SCALE / 5)
                .unwrap();
            assert!(-NOISE_BOUND <= v && v <= NOISE_BOUND);
        }
    }
}

#[test]
fn out_of_range_queries_are_rejected() {
    let field = NoiseContext::new(8);
    assert_eq!(field.get(-1, 0), Err(NoiseError::OutOfRange));
    assert_eq!(field.get(0, -1), Err(NoiseError::OutOfRange));
    // The cell anchored at floor(x) = 8 would need lattice column 9.
    assert_eq!(field.get(8 * SCALE, 0), Err(NoiseError::OutOfRange));
    assert_eq!(field.get(0, 8 * SCALE), Err(NoiseError::OutOfRange));
    // The last covered cell is anchored at 7.
    assert!(field.get(8 * SCALE - 1, 8 * SCALE - 1).is_ok());
}

#[test]
fn corner_dot_products_follow_the_offset() {
    let g = Gradient { x: 0, y: -SCALE };
    assert_eq!(gradient(SCALE, SCALE, g), -SCALE * SCALE);
    assert_eq!(gradient(0, 0, g), 0);
    assert_eq!(gradient(-SCALE, SCALE / 2, g), -SCALE * SCALE / 2);
}

#[test]
fn lattice_gradients_are_unit_length_up_to_rounding() {
    let field = NoiseContext::new(4);
    for xi in 0..3usize {
        for zi in 0..3usize {
            let (g00, g10, g01, g11) = field.get_gradients(xi, zi);
            for g in [g00, g10, g01, g11].iter() {
                let norm_sq = g.x * g.x + g.y * g.y;
                assert!(norm_sq <= SCALE * SCALE);
                assert!(norm_sq >= SCALE * SCALE - 4 * SCALE);
                assert!(g.x.abs() <= SCALE && g.y.abs() <= SCALE);
            }
        }
    }
}

#[test]
fn noise_constructor_sizes_the_grid() {
    let field = noise(128);
    assert_eq!(field.samples(), 128);
    let small = NoiseContext::new(1);
    assert_eq!(small.samples(), 1);
    assert!(small.get(SCALE / 2, SCALE / 2).is_ok());
    assert_eq!(small.get(SCALE, SCALE), Err(NoiseError::OutOfRange));
}
