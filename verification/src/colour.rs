//! The palette: elevation bands and their colours.

use vstd::prelude::*;
use crate::fixed::ONE;

verus! {

/// A colour of eight bits a channel.
#[derive(Clone, Copy, Debug, PartialEq, Eq, Structural)]
pub struct Rgb {
    pub r: u8,
    pub g: u8,
    pub b: u8,
}

/// The bands into which elevations fall. The first five partition the unit
/// interval, from the lowest up; the last takes every elevation outside it.
#[derive(Clone, Copy, Debug, PartialEq, Eq, Structural)]
pub enum Band {
    Ocean,
    Sand,
    Grass,
    Forest,
    Mountain,
    OutOfRange,
}

/// The highest elevation of the ocean band: `0.2`.
pub const OCEAN_TOP: i64 = 200_000;

/// The highest elevation of the sand band: `0.4`.
pub const SAND_TOP: i64 = 400_000;

/// The highest elevation of the grass band: `0.6`.
pub const GRASS_TOP: i64 = 600_000;

/// The highest elevation of the forest band: `0.8`.
pub const FOREST_TOP: i64 = 800_000;

/// The band of an elevation. Each boundary belongs to the band below it.
pub open spec fn band_spec(value: int) -> Band {
    if value < 0 || value > ONE {
        Band::OutOfRange
    } else if value <= OCEAN_TOP {
        Band::Ocean
    } else if value <= SAND_TOP {
        Band::Sand
    } else if value <= GRASS_TOP {
        Band::Grass
    } else if value <= FOREST_TOP {
        Band::Forest
    } else {
        Band::Mountain
    }
}

/// The palette: the colour of each band. An elevation out of range shows as
/// magenta, which no band of the terrain uses.
pub open spec fn palette_spec(band: Band) -> Rgb {
    match band {
        Band::Ocean => Rgb { r: 98, g: 165, b: 168 },
        Band::Sand => Rgb { r: 213, g: 181, b: 157 },
        Band::Grass => Rgb { r: 152, g: 172, b: 92 },
        Band::Forest => Rgb { r: 101, g: 132, b: 66 },
        Band::Mountain => Rgb { r: 110, g: 117, b: 136 },
        Band::OutOfRange => Rgb { r: 255, g: 0, b: 255 },
    }
}

/// The colour of an elevation: that of its band.
pub open spec fn classify_spec(value: int) -> Rgb {
    palette_spec(band_spec(value))
}

/// The band of an elevation.
pub fn band(value: i64) -> (b: Band)
    ensures
        b == band_spec(value as int),
{
    if value < 0 || value > ONE {
        Band::OutOfRange
    } else if value <= OCEAN_TOP {
        Band::Ocean
    } else if value <= SAND_TOP {
        Band::Sand
    } else if value <= GRASS_TOP {
        Band::Grass
    } else if value <= FOREST_TOP {
        Band::Forest
    } else {
        Band::Mountain
    }
}

/// The colour of a band.
pub fn palette(band: Band) -> (colour: Rgb)
    ensures
        colour == palette_spec(band),
{
    match band {
        Band::Ocean => Rgb { r: 98, g: 165, b: 168 },
        Band::Sand => Rgb { r: 213, g: 181, b: 157 },
        Band::Grass => Rgb { r: 152, g: 172, b: 92 },
        Band::Forest => Rgb { r: 101, g: 132, b: 66 },
        Band::Mountain => Rgb { r: 110, g: 117, b: 136 },
        Band::OutOfRange => Rgb { r: 255, g: 0, b: 255 },
    }
}

/// The colour of an elevation.
pub fn classify(value: i64) -> (colour: Rgb)
    ensures
        colour == classify_spec(value as int),
{
    palette(band(value))
}

} // verus!
