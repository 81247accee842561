use ymir::biome::{Biome, BiomePalette};
use ymir::detail::{river_biome_for, water_body_biome_for, DetailBiomes};
use ymir::region::RegionSpec;

#[test]
fn lake_and_river_biomes_per_palette() {
    assert_eq!(water_body_biome_for(BiomePalette::EarthLike), Some(Biome::CoastalShallow));
    assert_eq!(water_body_biome_for(BiomePalette::TitanLike), Some(Biome::TitanMethaneSea));
    assert_eq!(water_body_biome_for(BiomePalette::MarsLike), None);
    assert_eq!(river_biome_for(BiomePalette::EarthLike), Some(Biome::Wetland));
    assert_eq!(river_biome_for(BiomePalette::TitanLike), None);
    assert_eq!(river_biome_for(BiomePalette::NoSurface), None);
}

#[test]
fn presmooth_keeps_palette_paints_water_and_pins_edges() {
    let classified = vec![
        Biome::Grassland,   // interior, plain
        Biome::VenusPlains, // interior, outside the palette -> parent biome
        Biome::Tundra,      // interior lake
        Biome::Savanna,     // interior river
        Biome::HotDesert,   // boundary -> parent biome
    ];
    let is_lake = vec![false, false, true, true, false];
    let is_river = vec![false, false, false, true, true];
    let boundary = vec![false, false, false, false, true];
    let parent_of_hex = vec![0, 1, 0, 0, 1];
    let parent_biomes = vec![Biome::TemperateForest, Biome::BorealForest];
    let out = DetailBiomes::presmooth(
        &classified,
        BiomePalette::EarthLike,
        &is_lake,
        &is_river,
        &boundary,
        &parent_of_hex,
        &parent_biomes,
    );
    assert_eq!(
        out,
        vec![
            Biome::Grassland,
            Biome::BorealForest,
            Biome::CoastalShallow,
            Biome::CoastalShallow,
            Biome::BorealForest,
        ]
    );
}

#[test]
fn boundary_agrees_with_parent_tile_after_smoothing() {
    let smoothed = vec![Biome::Grassland, Biome::Savanna, Biome::Tundra, Biome::Ocean];
    let is_lake = vec![true, false, false, true];
    let is_river = vec![false, true, false, false];
    let boundary = vec![false, false, true, true];
    let parent_of_hex = vec![0, 0, 1, 1];
    let parent_biomes = vec![Biome::Grassland, Biome::IceSheet];
    let d = DetailBiomes::from_smoothed(
        RegionSpec::new(4, 1),
        BiomePalette::EarthLike,
        &smoothed,
        &is_lake,
        &is_river,
        &boundary,
        &parent_of_hex,
        &parent_biomes,
    );
    assert_eq!(d.spec, RegionSpec::new(4, 1));
    assert_eq!(d.palette, BiomePalette::EarthLike);
    assert_eq!(
        d.per_hex,
        vec![Biome::CoastalShallow, Biome::Wetland, Biome::IceSheet, Biome::IceSheet]
    );
}

#[test]
fn palettes_without_water_biomes_leave_hexes_alone() {
    let smoothed = vec![Biome::MartianDustPlain, Biome::MartianBedrock];
    let d = DetailBiomes::from_smoothed(
        RegionSpec::new(0, 0),
        BiomePalette::MarsLike,
        &smoothed,
        &vec![true, false],
        &vec![false, true],
        &vec![false, false],
        &vec![0, 0],
        &vec![Biome::MartianPolarIce],
    );
    assert_eq!(d.per_hex, smoothed);
}
