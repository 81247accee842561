use std::collections::HashSet;
use ymir::atmosphere::AtmosphereClass;
use ymir::biome::{palette_for, palette_from_atmosphere, Biome, BiomeMap, BiomePalette};

/// Every atmosphere class; kept in sync by hand so a new class lacking a
/// palette mapping is noticed.
const ALL_CLASSES: &[AtmosphereClass] = &[
    AtmosphereClass::NoAtmosphere,
    AtmosphereClass::ThinCO2,
    AtmosphereClass::ThickCO2,
    AtmosphereClass::ThickN2H2O,
    AtmosphereClass::NitrogenOxygen,
    AtmosphereClass::HydrogenHelium,
];

const ALL_PALETTES: &[BiomePalette] = &[
    BiomePalette::EarthLike,
    BiomePalette::VenusLike,
    BiomePalette::MarsLike,
    BiomePalette::TitanLike,
    BiomePalette::Airless,
    BiomePalette::NoSurface,
];

#[test]
fn every_palette_is_nonempty() {
    for p in ALL_PALETTES {
        assert!(!p.biomes().is_empty(), "palette {p:?} has no biomes listed");
    }
}

#[test]
fn palette_for_covers_all_atmosphere_classes() {
    for class in ALL_CLASSES {
        let _ = palette_for(*class);
    }

    assert_eq!(
        palette_for(AtmosphereClass::NitrogenOxygen),
        BiomePalette::EarthLike
    );
    assert_eq!(
        palette_for(AtmosphereClass::ThickCO2),
        BiomePalette::VenusLike
    );
    assert_eq!(
        palette_for(AtmosphereClass::ThinCO2),
        BiomePalette::MarsLike
    );
    assert_eq!(
        palette_for(AtmosphereClass::ThickN2H2O),
        BiomePalette::TitanLike
    );
    assert_eq!(
        palette_for(AtmosphereClass::NoAtmosphere),
        BiomePalette::Airless
    );
    assert_eq!(
        palette_for(AtmosphereClass::HydrogenHelium),
        BiomePalette::NoSurface
    );
}

#[test]
fn default_biome_is_in_palette() {
    for p in ALL_PALETTES {
        assert!(
            p.contains(p.default_biome()),
            "default_biome() of {p:?} not in biomes()"
        );
    }
}

#[test]
fn palette_biome_sets_are_disjoint() {
    let mut seen: HashSet<Biome> = HashSet::new();
    for p in ALL_PALETTES {
        for b in p.biomes() {
            assert!(
                seen.insert(b),
                "biome {b:?} appears in more than one palette"
            );
        }
    }
}

#[test]
fn no_surface_biome_only_in_no_surface_palette() {
    for p in ALL_PALETTES {
        let has = p.contains(Biome::NoSurface);
        if *p == BiomePalette::NoSurface {
            assert!(has, "NoSurface palette missing NoSurface biome");
        } else {
            assert!(!has, "NoSurface biome leaked into {p:?}");
        }
    }
}

#[test]
fn contains_matches_biomes_slice() {
    let earth = BiomePalette::EarthLike;
    assert!(earth.contains(Biome::Ocean));
    assert!(earth.contains(Biome::TropicalRainforest));
    assert!(!earth.contains(Biome::VenusPlains));
    assert!(!earth.contains(Biome::NoSurface));
}

#[test]
fn every_biome_belongs_to_exactly_one_palette() {
    let mut total = 0;
    for p in ALL_PALETTES {
        total += p.biomes().len();
    }
    assert_eq!(total, 31);
}

#[test]
fn smoother_palette_matches_palette_for() {
    for class in ALL_CLASSES {
        assert_eq!(palette_from_atmosphere(*class), palette_for(*class));
    }
}

#[test]
fn histogram_counts_each_biome_sorted_by_name() {
    let map = BiomeMap {
        per_tile: vec![
            Biome::Ocean,
            Biome::Tundra,
            Biome::Ocean,
            Biome::AlpineMeadow,
            Biome::Ocean,
            Biome::Grassland,
        ],
        palette: BiomePalette::EarthLike,
    };
    assert_eq!(map.len(), 6);
    assert!(!map.is_empty());
    assert_eq!(
        map.histogram(),
        vec![
            (Biome::AlpineMeadow, 1),
            (Biome::Grassland, 1),
            (Biome::Ocean, 3),
            (Biome::Tundra, 1),
        ]
    );
}

#[test]
fn histogram_sums_to_tile_count_and_is_sorted() {
    let tiles: Vec<Biome> = vec![
        Biome::Wetland,
        Biome::CoastalShallow,
        Biome::Wetland,
        Biome::ColdDesert,
        Biome::CoastalShallow,
        Biome::TitanMethaneSea,
        Biome::Wetland,
    ];
    let map = BiomeMap {
        per_tile: tiles,
        palette: BiomePalette::EarthLike,
    };
    let h = map.histogram();
    let total: usize = h.iter().map(|(_, c)| *c).sum();
    assert_eq!(total, map.len());
    let names: Vec<String> = h.iter().map(|(b, _)| format!("{b:?}")).collect();
    let mut sorted = names.clone();
    sorted.sort();
    assert_eq!(names, sorted);
}

#[test]
fn empty_map_has_empty_histogram() {
    let map = BiomeMap {
        per_tile: Vec::new(),
        palette: BiomePalette::NoSurface,
    };
    assert!(map.is_empty());
    assert!(map.histogram().is_empty());
}
