use islands::continuity::CELL_SLOPE;
use islands::fixed::{Vec2, ONE};
use islands::grid::fits;
use islands::gradient::{gradient, GRADIENT_LIMIT, GRADIENT_SCALE, GRADIENT_TOLERANCE};
use islands::layer::{GradientNoiseLayer, LAYER_LIMIT};
use islands::perlin_noise::{PerlinNoise, SAMPLE_LIMIT, WEIGHT_LIMIT};
use islands::random::draw_angles;
use rand::rngs::StdRng;
use rand::SeedableRng;

fn at(x: i64, y: i64) -> Vec2 {
    Vec2 { x, y }
}

fn layer_of(width: usize, height: usize, angles: Vec<u16>) -> GradientNoiseLayer {
    let mut layer = GradientNoiseLayer::new(width, height).unwrap();
    layer.set_angles(&angles);
    layer
}

fn quarter_turns() -> GradientNoiseLayer {
    layer_of(2, 2, vec![0, 16384, 32768, 49152])
}

fn mixed_angles() -> GradientNoiseLayer {
    layer_of(3, 2, vec![100, 20000, 40000, 60000, 5000, 33333])
}

fn two_layer_field() -> PerlinNoise {
    let mut field = PerlinNoise::blank(vec![((2, 2), ONE), ((3, 2), 700_000)]).unwrap();
    field.set_angles(0, &vec![0, 16384, 32768, 49152]);
    field.set_angles(1, &vec![100, 20000, 40000, 60000, 5000, 33333]);
    field
}

fn smoothstep_real(t: f64) -> f64 {
    t * t * (3.0 - 2.0 * t)
}

fn lerp_real(a: f64, b: f64, t: f64) -> f64 {
    let t = smoothstep_real(t);
    a * (1.0 - t) + b * t
}

/// Gradient noise in floating point, on the gradients that the layer holds.
fn sample_real(layer: &GradientNoiseLayer, x: f64, y: f64) -> f64 {
    let width = layer.width();
    let height = layer.height();
    let left = ((width as f64 * x).floor() as usize) % width;
    let right = (left + 1) % width;
    let top = ((height as f64 * y).floor() as usize) % height;
    let bottom = (top + 1) % height;
    let vector = |row: usize, col: usize| {
        let (gx, gy) = layer.gradient_at(row, col);
        (gx as f64 / ONE as f64, gy as f64 / ONE as f64)
    };
    let xf = (width as f64 * x).fract();
    let yf = (height as f64 * y).fract();
    let dot = |g: (f64, f64), dx: f64, dy: f64| g.0 * dx + g.1 * dy;
    let top_left = dot(vector(top, left), xf, yf);
    let top_right = dot(vector(top, right), xf - 1.0, yf);
    let bottom_left = dot(vector(bottom, left), xf, yf - 1.0);
    let bottom_right = dot(vector(bottom, right), xf - 1.0, yf - 1.0);
    lerp_real(lerp_real(top_left, top_right, xf), lerp_real(bottom_left, bottom_right, xf), yf)
}

#[test]
fn a_layer_needs_cells() {
    assert!(GradientNoiseLayer::new(0, 3).is_none());
    assert!(GradientNoiseLayer::new(3, 0).is_none());
    assert!(GradientNoiseLayer::new(0, 0).is_none());
    assert!(GradientNoiseLayer::new(1, 1).is_some());
    assert!(GradientNoiseLayer::new(3, 5).is_some());
}

#[test]
fn a_layer_must_fit_in_memory() {
    assert!(GradientNoiseLayer::new(usize::MAX, 2).is_none());
    assert!(GradientNoiseLayer::new(usize::MAX, usize::MAX).is_none());
    assert!(GradientNoiseLayer::new(1 << (usize::BITS - 4), 1).is_none());
}

#[test]
fn fits_tells_what_can_be_allocated() {
    assert!(fits(0, 0));
    assert!(fits(2, 2));
    assert!(fits(1024, 1024));
    assert!(fits(0, isize::MAX as usize));
    assert!(!fits(0, isize::MAX as usize + 1));
    assert!(!fits(isize::MAX as usize + 1, 0));
    assert!(fits(isize::MAX as usize / 8, 1));
    assert!(!fits(isize::MAX as usize / 8 + 1, 1));
    assert!(!fits(usize::MAX, usize::MAX));
}

#[test]
fn a_new_layer_has_its_size_and_no_gradients() {
    let layer = GradientNoiseLayer::new(3, 5).unwrap();
    assert_eq!(layer.width(), 3);
    assert_eq!(layer.height(), 5);
    for row in 0..5 {
        for col in 0..3 {
            assert_eq!(layer.gradient_at(row, col), (0, 0));
        }
    }
}

#[test]
fn a_layer_without_gradients_is_zero_everywhere() {
    let layer = GradientNoiseLayer::new(3, 5).unwrap();
    for &(x, y) in &[(0, 0), (123_456, 654_321), (999_999, 999_999), (-5, 7 * ONE)] {
        assert_eq!(layer.sample(at(x, y)), 0);
    }
}

#[test]
fn set_angles_fills_row_by_row() {
    let layer = mixed_angles();
    assert_eq!(layer.gradient_at(0, 0), gradient(100));
    assert_eq!(layer.gradient_at(0, 1), gradient(20000));
    assert_eq!(layer.gradient_at(0, 2), gradient(40000));
    assert_eq!(layer.gradient_at(1, 0), gradient(60000));
    assert_eq!(layer.gradient_at(1, 1), gradient(5000));
    assert_eq!(layer.gradient_at(1, 2), gradient(33333));
    assert_eq!(layer.gradient_at(1, 2), (-1_412_140, -76_569));
    assert_eq!(layer.width(), 3);
    assert_eq!(layer.height(), 2);
}

#[test]
fn layer_values_on_quarter_turn_gradients() {
    let layer = quarter_turns();
    assert_eq!(layer.sample(at(0, 0)), 0);
    assert_eq!(layer.sample(at(250_000, 250_000)), 353_553);
    assert_eq!(layer.sample(at(500_000, 500_000)), 0);
    assert_eq!(layer.sample(at(750_000, 250_000)), 353_553);
    assert_eq!(layer.sample(at(123_456, 654_321)), -247_002);
}

#[test]
fn layer_values_on_mixed_gradients() {
    let layer = mixed_angles();
    assert_eq!(layer.sample(at(0, 0)), 0);
    assert_eq!(layer.sample(at(333_333, 500_000)), -1);
    assert_eq!(layer.sample(at(123_456, 654_321)), 19_231);
    assert_eq!(layer.sample(at(999_999, 999_999)), -8);
    assert_eq!(layer.sample(at(500_000, 250_000)), 390_579);
}

#[test]
fn layer_values_follow_gradient_noise_in_floating_point() {
    for layer in [quarter_turns(), mixed_angles()] {
        let mut x: i64 = 0;
        while x < ONE {
            let mut y: i64 = 0;
            while y < ONE {
                let expected = sample_real(&layer, x as f64 / ONE as f64, y as f64 / ONE as f64);
                let got = layer.sample(at(x, y)) as f64 / ONE as f64;
                assert!((got - expected).abs() <= 1.0e-5, "at ({}, {})", x, y);
                y += 31_337;
            }
            x += 27_183;
        }
    }
}

#[test]
fn the_value_is_zero_at_every_grid_node() {
    let layer = layer_of(4, 5, (0..20).map(|i| (i * 3271) as u16).collect());
    for row in 0..5 {
        for col in 0..4 {
            assert_eq!(layer.sample(at(col * ONE / 4, row * ONE / 5)), 0);
        }
    }
}

#[test]
fn layer_values_are_bounded() {
    let mut rng = StdRng::seed_from_u64(7);
    let mut layer = GradientNoiseLayer::new(5, 4).unwrap();
    layer.randomise(&mut rng);
    let mut x: i64 = 0;
    while x < ONE {
        let mut y: i64 = 0;
        while y < ONE {
            let value = layer.sample(at(x, y));
            assert!(-LAYER_LIMIT <= value && value <= LAYER_LIMIT);
            y += 13_337;
        }
        x += 17_183;
    }
    assert_eq!(LAYER_LIMIT, 2 * GRADIENT_LIMIT);
}

#[test]
fn the_layer_repeats_with_period_one() {
    let layer = mixed_angles();
    for &(x, y) in &[(0, 0), (123_456, 654_321), (999_999, 1), (500_000, 250_000)] {
        let here = layer.sample(at(x, y));
        assert_eq!(layer.sample(at(x + ONE, y)), here);
        assert_eq!(layer.sample(at(x, y + ONE)), here);
        assert_eq!(layer.sample(at(x - ONE, y - ONE)), here);
        assert_eq!(layer.sample(at(x + 5 * ONE, y - 3 * ONE)), here);
    }
    assert_eq!(quarter_turns().sample(at(-250_000, 1_250_000)), 353_553);
}

#[test]
fn there_is_no_seam_at_the_border() {
    let mut rng = StdRng::seed_from_u64(11);
    for size in [1usize, 2, 3, 7, 13] {
        let mut layer = GradientNoiseLayer::new(size, size).unwrap();
        layer.randomise(&mut rng);
        let allowed = CELL_SLOPE * size as i64;
        let mut p: i64 = 0;
        while p < ONE {
            let across = layer.sample(at(ONE - 1, p)) - layer.sample(at(0, p));
            let down = layer.sample(at(p, ONE - 1)) - layer.sample(at(p, 0));
            assert!(across.abs() <= allowed, "size {}, y = {}: {}", size, p, across);
            assert!(down.abs() <= allowed, "size {}, x = {}: {}", size, p, down);
            p += 9_973;
        }
    }
}

#[test]
fn the_border_is_as_smooth_as_the_inside() {
    let layer = quarter_turns();
    assert_eq!(layer.sample(at(999_999, 0)), -3);
    assert_eq!(layer.sample(at(0, 0)), 0);
    assert_eq!(layer.sample(at(1, 0)), 2);
}

#[test]
fn randomise_gives_unit_gradients() {
    let mut rng = StdRng::seed_from_u64(3);
    let mut layer = GradientNoiseLayer::new(6, 4).unwrap();
    layer.randomise(&mut rng);
    let low = (GRADIENT_SCALE - GRADIENT_TOLERANCE) * (GRADIENT_SCALE - GRADIENT_TOLERANCE);
    let high = (GRADIENT_SCALE + GRADIENT_TOLERANCE) * (GRADIENT_SCALE + GRADIENT_TOLERANCE);
    for row in 0..4 {
        for col in 0..6 {
            let (x, y) = layer.gradient_at(row, col);
            assert!(low <= x * x + y * y && x * x + y * y <= high);
        }
    }
    assert_eq!(layer.width(), 6);
    assert_eq!(layer.height(), 4);
}

#[test]
fn randomise_uses_one_angle_per_cell_in_order() {
    let mut first = StdRng::seed_from_u64(99);
    let mut second = StdRng::seed_from_u64(99);
    let mut layer = GradientNoiseLayer::new(3, 2).unwrap();
    layer.randomise(&mut first);
    let angles = draw_angles(&mut second, 6);
    assert_eq!(angles.len(), 6);
    for row in 0..2 {
        for col in 0..3 {
            assert_eq!(layer.gradient_at(row, col), gradient(angles[row * 3 + col]));
        }
    }
    assert_eq!(draw_angles(&mut first, 4), draw_angles(&mut second, 4));
}

#[test]
fn draw_angles_draws_what_was_asked() {
    let mut rng = StdRng::seed_from_u64(5);
    assert_eq!(draw_angles(&mut rng, 0).len(), 0);
    assert_eq!(draw_angles(&mut rng, 1).len(), 1);
    let many = draw_angles(&mut rng, 1000);
    assert_eq!(many.len(), 1000);
    assert!(many.iter().any(|&a| a != many[0]));
}

#[test]
fn layers_from_the_same_seed_sample_the_same() {
    let mut first_rng = StdRng::seed_from_u64(2024);
    let mut second_rng = StdRng::seed_from_u64(2024);
    let mut first = GradientNoiseLayer::new(7, 7).unwrap();
    let mut second = GradientNoiseLayer::new(7, 7).unwrap();
    first.randomise(&mut first_rng);
    second.randomise(&mut second_rng);
    let mut x: i64 = 0;
    while x < ONE {
        let mut y: i64 = 0;
        while y < ONE {
            assert_eq!(first.sample(at(x, y)), second.sample(at(x, y)));
            y += 41_337;
        }
        x += 37_183;
    }
}

#[test]
fn fields_from_the_same_seed_sample_the_same() {
    let layout = vec![((3, 3), ONE), ((5, 5), 700_000), ((7, 7), 500_000)];
    let first = PerlinNoise::new(layout.clone(), &mut StdRng::seed_from_u64(1)).unwrap();
    let second = PerlinNoise::new(layout.clone(), &mut StdRng::seed_from_u64(1)).unwrap();
    let other = PerlinNoise::new(layout, &mut StdRng::seed_from_u64(2)).unwrap();
    let mut differs = false;
    let mut x: i64 = 0;
    while x < ONE {
        let mut y: i64 = 0;
        while y < ONE {
            assert_eq!(first.sample(at(x, y)), second.sample(at(x, y)));
            differs = differs || first.sample(at(x, y)) != other.sample(at(x, y));
            y += 41_337;
        }
        x += 37_183;
    }
    assert!(differs);
}

#[test]
fn a_field_keeps_sizes_and_weights() {
    let layout = vec![((3, 4), ONE), ((5, 2), -700_000), ((1, 1), 0)];
    let field = PerlinNoise::new(layout, &mut StdRng::seed_from_u64(1)).unwrap();
    assert_eq!(field.layer_count(), 3);
    assert_eq!(field.layer(0).width(), 3);
    assert_eq!(field.layer(0).height(), 4);
    assert_eq!(field.layer(1).width(), 5);
    assert_eq!(field.layer(1).height(), 2);
    assert_eq!(field.layer(2).width(), 1);
    assert_eq!(field.weight(0), ONE);
    assert_eq!(field.weight(1), -700_000);
    assert_eq!(field.weight(2), 0);
}

#[test]
fn a_field_is_the_weighted_sum_of_its_layers() {
    let field = two_layer_field();
    assert_eq!(field.sample(at(0, 0)), 0);
    assert_eq!(field.sample(at(333_333, 500_000)), -244_435);
    assert_eq!(field.sample(at(123_456, 654_321)), -233_541);
    assert_eq!(field.sample(at(999_999, 999_999)), -9);
    assert_eq!(field.sample(at(500_000, 250_000)), 980_512);
}

#[test]
fn a_field_sums_what_its_layers_give() {
    let field = PerlinNoise::new(
        vec![((3, 3), ONE), ((5, 5), 700_000), ((7, 7), -500_000)],
        &mut StdRng::seed_from_u64(8),
    ).unwrap();
    for &(x, y) in &[(0, 0), (123_456, 654_321), (999_999, 1), (500_000, 250_000)] {
        let mut sum: i64 = 0;
        for i in 0..field.layer_count() {
            let value = field.sample_layer(field.layer(i), at(x, y));
            assert_eq!(value, field.layer(i).sample(at(x, y)));
            sum += value * field.weight(i);
        }
        assert_eq!(field.sample(at(x, y)), sum.div_euclid(ONE));
    }
}

#[test]
fn a_blank_field_is_zero_everywhere() {
    let field = PerlinNoise::blank(vec![((3, 3), ONE), ((5, 5), 700_000)]).unwrap();
    assert_eq!(field.layer_count(), 2);
    assert_eq!(field.weight(1), 700_000);
    assert_eq!(field.layer(1).gradient_at(4, 4), (0, 0));
    for &(x, y) in &[(0, 0), (123_456, 654_321), (999_999, 999_999)] {
        assert_eq!(field.sample(at(x, y)), 0);
    }
}

#[test]
fn a_field_without_layers_is_zero_everywhere() {
    let field = PerlinNoise::new(vec![], &mut StdRng::seed_from_u64(1)).unwrap();
    assert_eq!(field.layer_count(), 0);
    assert_eq!(field.sample(at(123_456, 654_321)), 0);
}

#[test]
fn a_field_refuses_layers_without_cells() {
    let mut rng = StdRng::seed_from_u64(1);
    assert!(PerlinNoise::new(vec![((3, 3), ONE), ((0, 5), ONE)], &mut rng).is_none());
    assert!(PerlinNoise::new(vec![((3, 0), ONE)], &mut rng).is_none());
    assert!(PerlinNoise::blank(vec![((0, 0), ONE)]).is_none());
    assert!(PerlinNoise::blank(vec![((usize::MAX, 2), ONE)]).is_none());
}

#[test]
fn a_field_refuses_too_much_weight() {
    let mut rng = StdRng::seed_from_u64(1);
    assert!(PerlinNoise::new(vec![((1, 1), WEIGHT_LIMIT)], &mut rng).is_some());
    assert!(PerlinNoise::new(vec![((1, 1), -WEIGHT_LIMIT)], &mut rng).is_some());
    assert!(PerlinNoise::new(vec![((1, 1), WEIGHT_LIMIT + 1)], &mut rng).is_none());
    assert!(PerlinNoise::new(vec![((1, 1), -WEIGHT_LIMIT - 1)], &mut rng).is_none());
    assert!(PerlinNoise::new(vec![((1, 1), i64::MIN)], &mut rng).is_none());
    assert!(PerlinNoise::new(vec![((1, 1), i64::MAX)], &mut rng).is_none());
    assert!(PerlinNoise::blank(vec![((1, 1), WEIGHT_LIMIT - 5), ((1, 1), -5)]).is_some());
    assert!(PerlinNoise::blank(vec![((1, 1), WEIGHT_LIMIT - 5), ((1, 1), -6)]).is_none());
    assert!(PerlinNoise::blank(vec![((1, 1), i64::MAX), ((1, 1), i64::MAX)]).is_none());
}

#[test]
fn the_heaviest_field_stays_within_the_sample_limit() {
    let mut field = PerlinNoise::blank(vec![((1, 1), WEIGHT_LIMIT)]).unwrap();
    field.set_angles(0, &vec![8192]);
    let mut x: i64 = 0;
    while x < ONE {
        let value = field.sample(at(x, x));
        assert!(-SAMPLE_LIMIT <= value && value <= SAMPLE_LIMIT);
        x += 10_007;
    }
    assert_eq!(SAMPLE_LIMIT, LAYER_LIMIT * (WEIGHT_LIMIT / ONE));
}

#[test]
fn randomise_rolls_every_layer_again() {
    let mut rng = StdRng::seed_from_u64(21);
    let mut field = PerlinNoise::new(vec![((3, 3), ONE), ((5, 5), 700_000)], &mut rng).unwrap();
    let before: Vec<(i64, i64)> = (0..2).map(|i| field.layer(i).gradient_at(1, 1)).collect();
    field.randomise(&mut rng);
    assert_eq!(field.layer_count(), 2);
    assert_eq!(field.weight(0), ONE);
    assert_eq!(field.weight(1), 700_000);
    assert_eq!(field.layer(1).width(), 5);
    for i in 0..2 {
        assert_ne!(field.layer(i).gradient_at(1, 1), before[i]);
    }
}

#[test]
fn set_angles_fills_one_layer_of_a_field() {
    let mut field = PerlinNoise::blank(vec![((2, 2), ONE), ((3, 2), 700_000)]).unwrap();
    field.set_angles(1, &vec![100, 20000, 40000, 60000, 5000, 33333]);
    assert_eq!(field.layer(0).gradient_at(0, 0), (0, 0));
    assert_eq!(field.layer(1).gradient_at(1, 0), gradient(60000));
    assert_eq!(field.weight(1), 700_000);
    assert_eq!(field.sample(at(500_000, 250_000)), (390_579i64 * 700_000).div_euclid(ONE));
}
