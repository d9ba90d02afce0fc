use islands::fixed::ONE;
use islands::perlin_noise::PerlinNoise;
use islands::falloff::{falloff_scale, FALLOFF_RADIUS_DIVISOR};
use islands::terrain::{generate, Terrain, TerrainError};
use rand::rngs::StdRng;
use rand::SeedableRng;

fn terrain_of(rows: &[&[i64]]) -> Terrain {
    let height = rows.len();
    let width = rows[0].len();
    let mut terrain = Terrain::new(width, height);
    for y in 0..height {
        for x in 0..width {
            terrain.set(x, y, rows[y][x]);
        }
    }
    terrain
}

fn rows_of(terrain: &Terrain) -> Vec<Vec<i64>> {
    (0..terrain.height())
        .map(|y| (0..terrain.width()).map(|x| terrain.get(x, y)).collect())
        .collect()
}

fn two_layer_field() -> PerlinNoise {
    let mut field = PerlinNoise::blank(vec![((2, 2), ONE), ((3, 2), 700_000)]).unwrap();
    field.set_angles(0, &vec![0, 16384, 32768, 49152]);
    field.set_angles(1, &vec![100, 20000, 40000, 60000, 5000, 33333]);
    field
}

fn hills(seed: u64) -> PerlinNoise {
    PerlinNoise::new(
        vec![((3, 3), ONE), ((5, 5), 700_000), ((7, 7), 500_000), ((11, 11), 300_000), ((13, 13), 200_000)],
        &mut StdRng::seed_from_u64(seed),
    ).unwrap()
}

#[test]
fn a_new_terrain_is_flat_at_zero() {
    let terrain = Terrain::new(3, 2);
    assert_eq!(terrain.width(), 3);
    assert_eq!(terrain.height(), 2);
    assert_eq!(rows_of(&terrain), vec![vec![0, 0, 0], vec![0, 0, 0]]);
}

#[test]
fn a_terrain_may_have_no_cells() {
    let terrain = Terrain::new(0, 4);
    assert_eq!(terrain.width(), 0);
    assert_eq!(terrain.height(), 4);
    let terrain = Terrain::new(4, 0);
    assert_eq!(terrain.width(), 4);
    assert_eq!(terrain.height(), 0);
}

#[test]
fn set_changes_one_cell() {
    let mut terrain = Terrain::new(3, 2);
    terrain.set(2, 1, 7);
    terrain.set(0, 0, -4);
    assert_eq!(terrain.get(2, 1), 7);
    assert_eq!(rows_of(&terrain), vec![vec![-4, 0, 0], vec![0, 0, 7]]);
    assert_eq!(terrain.width(), 3);
    assert_eq!(terrain.height(), 2);
}

#[test]
fn normalise_spans_the_unit_interval() {
    let mut terrain = terrain_of(&[&[5, 10], &[0, 20]]);
    assert_eq!(terrain.normalise(), Ok(()));
    assert_eq!(rows_of(&terrain), vec![vec![250_000, 500_000], vec![0, ONE]]);
}

#[test]
fn normalise_takes_negative_elevations() {
    let mut terrain = terrain_of(&[&[-3, 7, 2]]);
    assert_eq!(terrain.normalise(), Ok(()));
    assert_eq!(rows_of(&terrain), vec![vec![0, ONE, 500_000]]);
}

#[test]
fn normalise_rounds_down() {
    let mut terrain = terrain_of(&[&[0, 1, 2, 3]]);
    assert_eq!(terrain.normalise(), Ok(()));
    assert_eq!(rows_of(&terrain), vec![vec![0, 333_333, 666_666, ONE]]);
}

#[test]
fn normalise_takes_the_whole_range_of_elevations() {
    let mut terrain = terrain_of(&[&[i64::MIN, i64::MAX, 0, -1]]);
    assert_eq!(terrain.normalise(), Ok(()));
    assert_eq!(rows_of(&terrain), vec![vec![0, ONE, 500_000, 499_999]]);
}

#[test]
fn normalise_refuses_a_flat_terrain() {
    let mut terrain = terrain_of(&[&[4, 4], &[4, 4]]);
    assert_eq!(terrain.normalise(), Err(TerrainError::DegenerateField));
    assert_eq!(rows_of(&terrain), vec![vec![4, 4], vec![4, 4]]);
    let mut single = terrain_of(&[&[9]]);
    assert_eq!(single.normalise(), Err(TerrainError::DegenerateField));
    assert_eq!(single.get(0, 0), 9);
}

#[test]
fn normalise_refuses_a_terrain_without_cells() {
    assert_eq!(Terrain::new(0, 3).normalise(), Err(TerrainError::DegenerateField));
    assert_eq!(Terrain::new(3, 0).normalise(), Err(TerrainError::DegenerateField));
    assert_eq!(Terrain::new(0, 0).normalise(), Err(TerrainError::DegenerateField));
}

#[test]
fn the_falloff_radius_is_a_quarter_of_the_smaller_side() {
    assert_eq!(FALLOFF_RADIUS_DIVISOR, 4);
    // One radius from the centre the factor is exp(-1/2).
    assert_eq!(falloff_scale(4 + 1, 2, 8, 4), 606_530);
    assert_eq!(falloff_scale(4, 2 + 1, 8, 4), 606_530);
    assert_eq!(falloff_scale(8 + 2, 4, 16, 8), 606_530);
    assert_eq!(falloff_scale(50 + 10, 20, 100, 40), 606_530);
    assert_eq!(falloff_scale(20, 50 - 10, 40, 100), 606_530);
}

#[test]
fn falloff_factors_of_a_square_grid() {
    let table: Vec<Vec<i64>> = (0..4).map(|y| (0..4).map(|x| falloff_scale(x, y, 4, 4)).collect()).collect();
    assert_eq!(
        table,
        vec![
            vec![18_315, 82_085, 135_335, 82_085],
            vec![82_085, 367_879, 606_530, 367_879],
            vec![135_335, 606_530, 1_000_000, 606_530],
            vec![82_085, 367_879, 606_530, 367_879],
        ]
    );
}

#[test]
fn falloff_factors_follow_the_gaussian() {
    let (w, h) = (37usize, 23usize);
    let radius = h as f64 / 4.0;
    for y in 0..h {
        for x in 0..w {
            let dx = x as f64 - w as f64 * 0.5;
            let dy = y as f64 - h as f64 * 0.5;
            let distance = (dx * dx + dy * dy).sqrt();
            let expected = (-0.5 * (distance / radius).powi(2)).exp();
            let got = falloff_scale(x, y, w, h) as f64 / ONE as f64;
            assert!((got - expected).abs() <= 1.5e-6, "cell ({}, {})", x, y);
        }
    }
}

#[test]
fn falloff_vanishes_far_from_the_centre() {
    assert_eq!(falloff_scale(0, 0, 1000, 4), 0);
    assert_eq!(falloff_scale(999, 3, 1000, 4), 0);
    assert_eq!(falloff_scale(0, 0, 1 << 40, 1), 0);
}

#[test]
fn falloff_of_a_uniform_terrain() {
    let mut terrain = Terrain::new(6, 4);
    for y in 0..4 {
        for x in 0..6 {
            terrain.set(x, y, ONE);
        }
    }
    terrain.apply_falloff();
    assert_eq!(
        rows_of(&terrain),
        vec![
            vec![1_503, 18_315, 82_085, 135_335, 82_085, 18_315],
            vec![6_737, 82_085, 367_879, 606_530, 367_879, 82_085],
            vec![11_109, 135_335, 606_530, 1_000_000, 606_530, 135_335],
            vec![6_737, 82_085, 367_879, 606_530, 367_879, 82_085],
        ]
    );
}

#[test]
fn falloff_is_one_at_the_centre_and_never_grows_outwards() {
    let (w, h) = (16usize, 12usize);
    let mut terrain = Terrain::new(w, h);
    for y in 0..h {
        for x in 0..w {
            terrain.set(x, y, ONE);
        }
    }
    terrain.apply_falloff();
    assert_eq!(terrain.get(w / 2, h / 2), ONE);
    let ring = |x: usize, y: usize| {
        let dx = 2 * x as i64 - w as i64;
        let dy = 2 * y as i64 - h as i64;
        dx * dx + dy * dy
    };
    for y1 in 0..h {
        for x1 in 0..w {
            for y2 in 0..h {
                for x2 in 0..w {
                    if ring(x1, y1) <= ring(x2, y2) {
                        assert!(terrain.get(x1, y1) >= terrain.get(x2, y2));
                    }
                }
            }
        }
    }
}

#[test]
fn falloff_scales_negative_elevations_towards_zero() {
    let mut terrain = terrain_of(&[&[-ONE, -ONE, -ONE, -ONE], &[-ONE, -ONE, -ONE, -ONE]]);
    terrain.apply_falloff();
    // Centre (2, 1), radius 1/2: the distances squared are 4, 1, 0, 1 and 5, 2, 1, 2.
    let expected = |d2: f64| -((-0.5 * d2 / 0.25).exp() * ONE as f64);
    let rows = rows_of(&terrain);
    for (y, row) in rows.iter().enumerate() {
        for (x, &value) in row.iter().enumerate() {
            let dx = x as f64 - 2.0;
            let dy = y as f64 - 1.0;
            assert!((value as f64 - expected(dx * dx + dy * dy)).abs() <= 2.0);
            assert!(-ONE <= value && value <= 0);
        }
    }
    assert_eq!(rows[1][2], -ONE);
}

#[test]
fn generate_normalises_the_samples() {
    let terrain = generate(&two_layer_field(), 5, 4, false).unwrap();
    assert_eq!(terrain.width(), 5);
    assert_eq!(terrain.height(), 4);
    assert_eq!(
        rows_of(&terrain),
        vec![
            vec![477_405, 886_769, 551_970, 471_716, 0],
            vec![556_242, 783_212, 1_000_000, 906_968, 340_630],
            vec![477_405, 221_759, 552_744, 704_613, 434_190],
            vec![398_568, 325_315, 104_713, 269_361, 93_560],
        ]
    );
}

#[test]
fn generate_applies_the_falloff_after_normalising() {
    let terrain = generate(&two_layer_field(), 5, 4, true).unwrap();
    assert_eq!(
        rows_of(&terrain),
        vec![
            vec![2_838, 38_961, 65_922, 56_337, 0],
            vec![14_823, 154_223, 535_261, 485_464, 67_073],
            vec![20_975, 71_994, 487_794, 621_818, 140_960],
            vec![10_621, 64_058, 56_048, 144_178, 18_422],
        ]
    );
}

#[test]
fn generate_samples_the_field_at_the_cells() {
    let field = hills(17);
    let (w, h) = (9usize, 6usize);
    let mut raw = Terrain::new(w, h);
    for y in 0..h {
        for x in 0..w {
            let position = islands::fixed::Vec2 { x: x as i64 * ONE / w as i64, y: y as i64 * ONE / h as i64 };
            raw.set(x, y, field.sample(position));
        }
    }
    assert_eq!(raw.normalise(), Ok(()));
    let terrain = generate(&field, w, h, false).unwrap();
    assert_eq!(rows_of(&terrain), rows_of(&raw));
    raw.apply_falloff();
    let island = generate(&field, w, h, true).unwrap();
    assert_eq!(rows_of(&island), rows_of(&raw));
}

#[test]
fn generated_terrain_spans_the_unit_interval() {
    for seed in 0..8 {
        let terrain = generate(&hills(seed), 32, 24, false).unwrap();
        let rows = rows_of(&terrain);
        let least = rows.iter().flatten().min().unwrap();
        let greatest = rows.iter().flatten().max().unwrap();
        assert_eq!(*least, 0);
        assert_eq!(*greatest, ONE);
    }
}

#[test]
fn an_island_stays_within_the_unit_interval() {
    let terrain = generate(&hills(5), 32, 32, true).unwrap();
    let plain = generate(&hills(5), 32, 32, false).unwrap();
    for y in 0..32 {
        for x in 0..32 {
            assert!(0 <= terrain.get(x, y) && terrain.get(x, y) <= plain.get(x, y));
        }
    }
    assert_eq!(terrain.get(16, 16), plain.get(16, 16));
    // The corner lies sixteen cells from the centre each way, the radius is
    // eight: the factor there is exp(-4).
    assert!(terrain.get(0, 0) <= 18_315);
}

#[test]
fn the_same_seed_generates_the_same_terrain() {
    let first = generate(&hills(42), 20, 20, true).unwrap();
    let second = generate(&hills(42), 20, 20, true).unwrap();
    let other = generate(&hills(43), 20, 20, true).unwrap();
    assert_eq!(rows_of(&first), rows_of(&second));
    assert_ne!(rows_of(&first), rows_of(&other));
}

#[test]
fn a_field_without_weight_is_degenerate() {
    let field = PerlinNoise::new(
        vec![((3, 3), 0), ((5, 5), 0), ((7, 7), 0)],
        &mut StdRng::seed_from_u64(1),
    ).unwrap();
    assert_eq!(generate(&field, 16, 16, false).err(), Some(TerrainError::DegenerateField));
    assert_eq!(generate(&field, 16, 16, true).err(), Some(TerrainError::DegenerateField));
}

#[test]
fn a_field_without_gradients_is_degenerate() {
    let field = PerlinNoise::blank(vec![((3, 3), ONE), ((5, 5), 700_000)]).unwrap();
    assert_eq!(generate(&field, 16, 16, false).err(), Some(TerrainError::DegenerateField));
}

#[test]
fn a_field_without_layers_is_degenerate() {
    let field = PerlinNoise::blank(vec![]).unwrap();
    assert_eq!(generate(&field, 4, 4, true).err(), Some(TerrainError::DegenerateField));
}

#[test]
fn a_grid_of_one_cell_is_degenerate() {
    assert_eq!(generate(&hills(1), 1, 1, false).err(), Some(TerrainError::DegenerateField));
}

#[test]
fn a_grid_without_cells_is_degenerate() {
    assert_eq!(generate(&hills(1), 0, 8, false).err(), Some(TerrainError::DegenerateField));
    assert_eq!(generate(&hills(1), 8, 0, false).err(), Some(TerrainError::DegenerateField));
}
