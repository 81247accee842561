use ymir::biome::{Biome, BiomePalette};
use ymir::water::{apply_water_overlay, TileWater};

fn tile(submerged: bool, deep: bool, wet_lowland: bool, alpine: bool) -> TileWater {
    TileWater { submerged, deep, wet_lowland, alpine }
}

#[test]
fn overlay_paints_water_and_highlands_in_priority_order() {
    let mut biomes = vec![Biome::Grassland; 6];
    let tiles = vec![
        tile(true, true, true, true),
        tile(true, false, true, false),
        tile(false, false, true, true),
        tile(false, false, false, true),
        tile(false, false, false, false),
        tile(false, true, false, false),
    ];
    apply_water_overlay(&mut biomes, BiomePalette::EarthLike, true, &tiles);
    assert_eq!(
        biomes,
        vec![
            Biome::Ocean,
            Biome::CoastalShallow,
            Biome::Wetland,
            Biome::AlpineMeadow,
            Biome::Grassland,
            Biome::Grassland,
        ]
    );
}

#[test]
fn overlay_leaves_other_palettes_untouched() {
    let mut biomes = vec![Biome::MartianDustPlain, Biome::MartianBedrock];
    let tiles = vec![tile(true, true, false, false), tile(false, false, true, true)];
    apply_water_overlay(&mut biomes, BiomePalette::MarsLike, true, &tiles);
    assert_eq!(biomes, vec![Biome::MartianDustPlain, Biome::MartianBedrock]);
}

#[test]
fn disabled_overlay_changes_nothing() {
    let mut biomes = vec![Biome::Tundra, Biome::Savanna];
    let tiles = vec![tile(true, true, false, false), tile(false, false, true, false)];
    apply_water_overlay(&mut biomes, BiomePalette::EarthLike, false, &tiles);
    assert_eq!(biomes, vec![Biome::Tundra, Biome::Savanna]);
}

#[test]
fn inapplicable_overlay_needs_no_tile_readings() {
    let mut biomes = vec![Biome::Tundra, Biome::Savanna];
    apply_water_overlay(&mut biomes, BiomePalette::EarthLike, false, &Vec::new());
    assert_eq!(biomes, vec![Biome::Tundra, Biome::Savanna]);
    let mut mars = vec![Biome::MartianBedrock];
    apply_water_overlay(&mut mars, BiomePalette::MarsLike, true, &Vec::new());
    assert_eq!(mars, vec![Biome::MartianBedrock]);
}
