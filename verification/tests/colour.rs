use islands::colour::{band, classify, palette, Band, Rgb, FOREST_TOP, GRASS_TOP, OCEAN_TOP, SAND_TOP};
use islands::fixed::ONE;

fn ocean() -> Rgb {
    Rgb { r: 98, g: 165, b: 168 }
}

fn sand() -> Rgb {
    Rgb { r: 213, g: 181, b: 157 }
}

fn grass() -> Rgb {
    Rgb { r: 152, g: 172, b: 92 }
}

fn forest() -> Rgb {
    Rgb { r: 101, g: 132, b: 66 }
}

fn mountain() -> Rgb {
    Rgb { r: 110, g: 117, b: 136 }
}

fn magenta() -> Rgb {
    Rgb { r: 255, g: 0, b: 255 }
}


#[test]
fn classify_gives_the_fixed_colours() {
    assert_eq!(classify(100_000), ocean());
    assert_eq!(classify(500_000), grass());
    assert_eq!(classify(1_500_000), magenta());
}

#[test]
fn classify_covers_every_band() {
    assert_eq!(classify(100_000), ocean());
    assert_eq!(classify(300_000), sand());
    assert_eq!(classify(500_000), grass());
    assert_eq!(classify(700_000), forest());
    assert_eq!(classify(900_000), mountain());
}

#[test]
fn a_boundary_belongs_to_the_band_below() {
    assert_eq!(classify(0), ocean());
    assert_eq!(classify(OCEAN_TOP), ocean());
    assert_eq!(classify(OCEAN_TOP + 1), sand());
    assert_eq!(classify(SAND_TOP), sand());
    assert_eq!(classify(SAND_TOP + 1), grass());
    assert_eq!(classify(GRASS_TOP), grass());
    assert_eq!(classify(GRASS_TOP + 1), forest());
    assert_eq!(classify(FOREST_TOP), forest());
    assert_eq!(classify(FOREST_TOP + 1), mountain());
    assert_eq!(classify(ONE), mountain());
}

#[test]
fn elevations_out_of_range_fall_back_to_magenta() {
    assert_eq!(classify(-1), magenta());
    assert_eq!(classify(ONE + 1), magenta());
    assert_eq!(classify(2 * ONE), magenta());
    assert_eq!(classify(3 * ONE), magenta());
    assert_eq!(classify(i64::MIN), magenta());
    assert_eq!(classify(i64::MAX), magenta());
}

#[test]
fn band_edges_are_fifths() {
    assert_eq!(OCEAN_TOP, ONE / 5);
    assert_eq!(SAND_TOP, 2 * ONE / 5);
    assert_eq!(GRASS_TOP, 3 * ONE / 5);
    assert_eq!(FOREST_TOP, 4 * ONE / 5);
}

#[test]
fn bands_of_elevations() {
    assert_eq!(band(0), Band::Ocean);
    assert_eq!(band(250_000), Band::Sand);
    assert_eq!(band(600_000), Band::Grass);
    assert_eq!(band(600_001), Band::Forest);
    assert_eq!(band(ONE), Band::Mountain);
    assert_eq!(band(-1), Band::OutOfRange);
    assert_eq!(band(ONE + 1), Band::OutOfRange);
}

#[test]
fn palette_of_bands() {
    assert_eq!(palette(Band::Ocean), ocean());
    assert_eq!(palette(Band::Sand), sand());
    assert_eq!(palette(Band::Grass), grass());
    assert_eq!(palette(Band::Forest), forest());
    assert_eq!(palette(Band::Mountain), mountain());
    assert_eq!(palette(Band::OutOfRange), magenta());
}
