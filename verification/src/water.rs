//! The hydrological overlay on an Earth-like biome map: submerged tiles
//! become ocean or coastal shallows, wet lowlands become wetland, and cool
//! moist highlands become alpine meadow.

use vstd::prelude::*;
use crate::biome::{palette_of, Biome, BiomePalette};

verus! {

/// What the overlay reads of one tile, each flag the outcome of comparing
/// the tile's elevation, temperature and humidity with the overlay's
/// thresholds.
#[derive(Clone, Copy, Debug, PartialEq, Eq, Structural)]
pub struct TileWater {
    /// Below sea level.
    pub submerged: bool,
    /// At or below the deep-ocean depth.
    pub deep: bool,
    /// Low enough and humid enough for a wetland.
    pub wet_lowland: bool,
    /// High, cool and moderately humid enough for an alpine meadow.
    pub alpine: bool,
}

/// The biome a tile ends with: submerged tiles are ocean when deep and
/// coastal shallows otherwise; else wet lowlands are wetland; else alpine
/// tiles are alpine meadow; else the tile keeps its biome.
pub open spec fn overlaid_tile(b: Biome, t: TileWater) -> Biome {
    if t.submerged {
        if t.deep {
            Biome::Ocean
        } else {
            Biome::CoastalShallow
        }
    } else if t.wet_lowland {
        Biome::Wetland
    } else if t.alpine {
        Biome::AlpineMeadow
    } else {
        b
    }
}

/// The overlay applies only when enabled and only to Earth-like maps.
pub open spec fn overlay_applies(enabled: bool, palette: BiomePalette) -> bool {
    enabled && palette == BiomePalette::EarthLike
}

/// Paint water and highland biomes over a map, tile by tile. Nothing
/// changes when the overlay is disabled or the palette is not Earth-like.
pub fn apply_water_overlay(
    biomes: &mut Vec<Biome>,
    palette: BiomePalette,
    enabled: bool,
    tiles: &Vec<TileWater>,
)
    requires
        overlay_applies(enabled, palette) ==> old(biomes)@.len() == tiles@.len(),
    ensures
        final(biomes)@.len() == old(biomes)@.len(),
        !overlay_applies(enabled, palette) ==> final(biomes)@ == old(biomes)@,
        overlay_applies(enabled, palette) ==> forall|i: int|
            0 <= i < tiles@.len() ==> #[trigger] final(biomes)@[i] == overlaid_tile(
                old(biomes)@[i],
                tiles@[i],
            ),
{
    if !enabled || palette != BiomePalette::EarthLike {
        return;
    }
    let ghost before = biomes@;
    let n = biomes.len();
    let mut i: usize = 0;
    while i < n
        invariant
            n == biomes@.len(),
            n == tiles@.len(),
            n == before.len(),
            i <= n,
            forall|j: int| 0 <= j < i ==> #[trigger] biomes@[j] == overlaid_tile(before[j], tiles@[j]),
            forall|j: int| i <= j < n ==> #[trigger] biomes@[j] == before[j],
        decreases n - i,
    {
        let t = tiles[i];
        let b = biomes[i];
        let next = if t.submerged {
            if t.deep {
                Biome::Ocean
            } else {
                Biome::CoastalShallow
            }
        } else if t.wet_lowland {
            Biome::Wetland
        } else if t.alpine {
            Biome::AlpineMeadow
        } else {
            b
        };
        biomes.set(i, next);
        i = i + 1;
    }
}

/// The overlay keeps an Earth-like map inside the Earth-like palette, and
/// every submerged tile ends as ocean or coastal shallows.
pub proof fn law_overlay_stays_earth_like(b: Biome, t: TileWater)
    requires
        palette_of(b) == BiomePalette::EarthLike,
    ensures
        palette_of(overlaid_tile(b, t)) == BiomePalette::EarthLike,
        t.submerged ==> (overlaid_tile(b, t) == Biome::Ocean || overlaid_tile(b, t)
            == Biome::CoastalShallow),
{
}

/// The overlay's precedence: a submerged tile is ocean exactly when deep and
/// coastal shallows otherwise; a dry wet lowland is wetland; a dry alpine
/// tile that is not a wet lowland is alpine meadow; any other tile keeps its
/// biome.
pub proof fn law_overlay_precedence(b: Biome, t: TileWater)
    ensures
        t.submerged && t.deep ==> overlaid_tile(b, t) == Biome::Ocean,
        t.submerged && !t.deep ==> overlaid_tile(b, t) == Biome::CoastalShallow,
        !t.submerged && t.wet_lowland ==> overlaid_tile(b, t) == Biome::Wetland,
        !t.submerged && !t.wet_lowland && t.alpine ==> overlaid_tile(b, t) == Biome::AlpineMeadow,
        !t.submerged && !t.wet_lowland && !t.alpine ==> overlaid_tile(b, t) == b,
{
}

} // verus!
