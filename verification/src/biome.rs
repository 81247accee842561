//! Biome types, the palettes that group them by atmospheric regime, and
//! per-tile biome maps.
//!
//! Palettes partition the biome enum: every biome belongs to exactly one
//! palette, and the palette of a world is chosen from its atmosphere class.

use vstd::prelude::*;
use crate::atmosphere::AtmosphereClass;

verus! {

/// Every biome type that can be classified, across all palettes.
#[derive(Clone, Copy, Debug, PartialEq, Eq, Structural, Hash)]
pub enum Biome {
    // Earth-like (oxygen-bearing, biological)
    TropicalRainforest,
    TemperateForest,
    BorealForest,
    Savanna,
    Grassland,
    HotDesert,
    ColdDesert,
    Tundra,
    IceSheet,
    Ocean,
    CoastalShallow,
    Wetland,
    AlpineMeadow,
    // Venus-like (thick CO2, no O2)
    VenusPlains,
    VenusHighlands,
    LavaPlain,
    SulfuricHighlands,
    ChemicalSediment,
    // Mars-like (thin CO2)
    MartianDustPlain,
    MartianBedrock,
    MartianPolarIce,
    ImpactRegolith,
    // Titan-like (thick N2 plus methane/H2O)
    TitanMethaneSea,
    TitanDunes,
    TitanIceHighland,
    TitanCryovolcanic,
    // Airless
    BareRegolith,
    ImpactCrater,
    ThermalFracture,
    SolarBleached,
    // No solid surface (gas giants, sub-Neptunes)
    NoSurface,
}

/// High-level grouping of biomes by atmospheric regime.
#[derive(Clone, Copy, Debug, PartialEq, Eq, Structural, Hash)]
pub enum BiomePalette {
    EarthLike,
    VenusLike,
    MarsLike,
    TitanLike,
    Airless,
    NoSurface,
}

/// The palette a biome belongs to.
pub open spec fn palette_of(b: Biome) -> BiomePalette {
    match b {
        Biome::TropicalRainforest | Biome::TemperateForest | Biome::BorealForest | Biome::Savanna
        | Biome::Grassland | Biome::HotDesert | Biome::ColdDesert | Biome::Tundra
        | Biome::IceSheet | Biome::Ocean | Biome::CoastalShallow | Biome::Wetland
        | Biome::AlpineMeadow => BiomePalette::EarthLike,
        Biome::VenusPlains | Biome::VenusHighlands | Biome::LavaPlain | Biome::SulfuricHighlands
        | Biome::ChemicalSediment => BiomePalette::VenusLike,
        Biome::MartianDustPlain | Biome::MartianBedrock | Biome::MartianPolarIce
        | Biome::ImpactRegolith => BiomePalette::MarsLike,
        Biome::TitanMethaneSea | Biome::TitanDunes | Biome::TitanIceHighland
        | Biome::TitanCryovolcanic => BiomePalette::TitanLike,
        Biome::BareRegolith | Biome::ImpactCrater | Biome::ThermalFracture
        | Biome::SolarBleached => BiomePalette::Airless,
        Biome::NoSurface => BiomePalette::NoSurface,
    }
}

/// The biomes of a palette, in their listed order.
pub open spec fn palette_biomes(p: BiomePalette) -> Seq<Biome> {
    match p {
        BiomePalette::EarthLike => seq![
            Biome::TropicalRainforest,
            Biome::TemperateForest,
            Biome::BorealForest,
            Biome::Savanna,
            Biome::Grassland,
            Biome::HotDesert,
            Biome::ColdDesert,
            Biome::Tundra,
            Biome::IceSheet,
            Biome::Ocean,
            Biome::CoastalShallow,
            Biome::Wetland,
            Biome::AlpineMeadow,
        ],
        BiomePalette::VenusLike => seq![
            Biome::VenusPlains,
            Biome::VenusHighlands,
            Biome::LavaPlain,
            Biome::SulfuricHighlands,
            Biome::ChemicalSediment,
        ],
        BiomePalette::MarsLike => seq![
            Biome::MartianDustPlain,
            Biome::MartianBedrock,
            Biome::MartianPolarIce,
            Biome::ImpactRegolith,
        ],
        BiomePalette::TitanLike => seq![
            Biome::TitanMethaneSea,
            Biome::TitanDunes,
            Biome::TitanIceHighland,
            Biome::TitanCryovolcanic,
        ],
        BiomePalette::Airless => seq![
            Biome::BareRegolith,
            Biome::ImpactCrater,
            Biome::ThermalFracture,
            Biome::SolarBleached,
        ],
        BiomePalette::NoSurface => seq![Biome::NoSurface],
    }
}

/// The fallback biome of a palette: its most typical member.
pub open spec fn palette_default(p: BiomePalette) -> Biome {
    match p {
        BiomePalette::EarthLike => Biome::Ocean,
        BiomePalette::VenusLike => Biome::VenusPlains,
        BiomePalette::MarsLike => Biome::MartianDustPlain,
        BiomePalette::TitanLike => Biome::TitanIceHighland,
        BiomePalette::Airless => Biome::BareRegolith,
        BiomePalette::NoSurface => Biome::NoSurface,
    }
}

/// The palette selected for an atmosphere class.
pub open spec fn palette_for_class(class: AtmosphereClass) -> BiomePalette {
    match class {
        AtmosphereClass::NitrogenOxygen => BiomePalette::EarthLike,
        AtmosphereClass::ThickCO2 => BiomePalette::VenusLike,
        AtmosphereClass::ThinCO2 => BiomePalette::MarsLike,
        AtmosphereClass::ThickN2H2O => BiomePalette::TitanLike,
        AtmosphereClass::NoAtmosphere => BiomePalette::Airless,
        AtmosphereClass::HydrogenHelium => BiomePalette::NoSurface,
    }
}

impl BiomePalette {
    /// The biomes valid in this palette, in a fixed order.
    pub fn biomes(&self) -> (r: Vec<Biome>)
        ensures
            r@ == palette_biomes(*self),
    {
        let r = match self {
            BiomePalette::EarthLike => vec![
                Biome::TropicalRainforest,
                Biome::TemperateForest,
                Biome::BorealForest,
                Biome::Savanna,
                Biome::Grassland,
                Biome::HotDesert,
                Biome::ColdDesert,
                Biome::Tundra,
                Biome::IceSheet,
                Biome::Ocean,
                Biome::CoastalShallow,
                Biome::Wetland,
                Biome::AlpineMeadow,
            ],
            BiomePalette::VenusLike => vec![
                Biome::VenusPlains,
                Biome::VenusHighlands,
                Biome::LavaPlain,
                Biome::SulfuricHighlands,
                Biome::ChemicalSediment,
            ],
            BiomePalette::MarsLike => vec![
                Biome::MartianDustPlain,
                Biome::MartianBedrock,
                Biome::MartianPolarIce,
                Biome::ImpactRegolith,
            ],
            BiomePalette::TitanLike => vec![
                Biome::TitanMethaneSea,
                Biome::TitanDunes,
                Biome::TitanIceHighland,
                Biome::TitanCryovolcanic,
            ],
            BiomePalette::Airless => vec![
                Biome::BareRegolith,
                Biome::ImpactCrater,
                Biome::ThermalFracture,
                Biome::SolarBleached,
            ],
            BiomePalette::NoSurface => vec![Biome::NoSurface],
        };
        assert(r@ =~= palette_biomes(*self));
        r
    }

    /// True iff `biome` is one of the biomes of this palette.
    pub fn contains(&self, biome: Biome) -> (r: bool)
        ensures
            r == palette_biomes(*self).contains(biome),
    {
        let list = self.biomes();
        let mut i: usize = 0;
        while i < list.len()
            invariant
                list@ == palette_biomes(*self),
                0 <= i <= list.len(),
                forall|j: int| 0 <= j < i ==> list@[j] != biome,
            decreases list.len() - i,
        {
            if list[i] == biome {
                return true;
            }
            i = i + 1;
        }
        false
    }

    /// The fallback biome of this palette, used when classification lacks
    /// data.
    pub fn default_biome(&self) -> (r: Biome)
        ensures
            r == palette_default(*self),
    {
        match self {
            BiomePalette::EarthLike => Biome::Ocean,
            BiomePalette::VenusLike => Biome::VenusPlains,
            BiomePalette::MarsLike => Biome::MartianDustPlain,
            BiomePalette::TitanLike => Biome::TitanIceHighland,
            BiomePalette::Airless => Biome::BareRegolith,
            BiomePalette::NoSurface => Biome::NoSurface,
        }
    }
}

/// Select the biome palette for an atmosphere class; total over the classes.
pub fn palette_for(class: AtmosphereClass) -> (r: BiomePalette)
    ensures
        r == palette_for_class(class),
{
    match class {
        AtmosphereClass::NitrogenOxygen => BiomePalette::EarthLike,
        AtmosphereClass::ThickCO2 => BiomePalette::VenusLike,
        AtmosphereClass::ThinCO2 => BiomePalette::MarsLike,
        AtmosphereClass::ThickN2H2O => BiomePalette::TitanLike,
        AtmosphereClass::NoAtmosphere => BiomePalette::Airless,
        AtmosphereClass::HydrogenHelium => BiomePalette::NoSurface,
    }
}

/// The palette the biome smoother uses for a world's atmosphere class;
/// the same lookup as [`palette_for`].
pub fn palette_from_atmosphere(class: AtmosphereClass) -> (r: BiomePalette)
    ensures
        r == palette_for_class(class),
{
    palette_for(class)
}

/// Palettes partition the biomes: a biome is listed by a palette exactly
/// when that palette is the biome's own.
pub proof fn law_palettes_partition_biomes(b: Biome, p: BiomePalette)
    ensures
        palette_biomes(p).contains(b) <==> palette_of(b) == p,
{
    let s = palette_biomes(p);
    if palette_of(b) == p {
        match b {
            Biome::TropicalRainforest => assert(s[0] == b),
            Biome::TemperateForest => assert(s[1] == b),
            Biome::BorealForest => assert(s[2] == b),
            Biome::Savanna => assert(s[3] == b),
            Biome::Grassland => assert(s[4] == b),
            Biome::HotDesert => assert(s[5] == b),
            Biome::ColdDesert => assert(s[6] == b),
            Biome::Tundra => assert(s[7] == b),
            Biome::IceSheet => assert(s[8] == b),
            Biome::Ocean => assert(s[9] == b),
            Biome::CoastalShallow => assert(s[10] == b),
            Biome::Wetland => assert(s[11] == b),
            Biome::AlpineMeadow => assert(s[12] == b),
            Biome::VenusPlains => assert(s[0] == b),
            Biome::VenusHighlands => assert(s[1] == b),
            Biome::LavaPlain => assert(s[2] == b),
            Biome::SulfuricHighlands => assert(s[3] == b),
            Biome::ChemicalSediment => assert(s[4] == b),
            Biome::MartianDustPlain => assert(s[0] == b),
            Biome::MartianBedrock => assert(s[1] == b),
            Biome::MartianPolarIce => assert(s[2] == b),
            Biome::ImpactRegolith => assert(s[3] == b),
            Biome::TitanMethaneSea => assert(s[0] == b),
            Biome::TitanDunes => assert(s[1] == b),
            Biome::TitanIceHighland => assert(s[2] == b),
            Biome::TitanCryovolcanic => assert(s[3] == b),
            Biome::BareRegolith => assert(s[0] == b),
            Biome::ImpactCrater => assert(s[1] == b),
            Biome::ThermalFracture => assert(s[2] == b),
            Biome::SolarBleached => assert(s[3] == b),
            Biome::NoSurface => assert(s[0] == b),
        }
    } else {
        assert forall|i: int| 0 <= i < s.len() implies s[i] != b by {
            assert(palette_of(s[i]) == p);
        }
    }
}

/// Every palette lists at least one biome, lists none twice, and its
/// fallback biome is one of its members.
pub proof fn law_palette_well_formed(p: BiomePalette)
    ensures
        palette_biomes(p).len() > 0,
        palette_biomes(p).no_duplicates(),
        palette_biomes(p).contains(palette_default(p)),
        palette_of(palette_default(p)) == p,
{
    let s = palette_biomes(p);
    law_palettes_partition_biomes(palette_default(p), p);
    assert forall|i: int, j: int| 0 <= i < s.len() && 0 <= j < s.len() && i != j implies s[i]
        != s[j] by {
        assert(name_rank(s[i]) != name_rank(s[j]));
    }
}

/// The only palette holding the no-surface placeholder is the no-surface
/// palette.
pub proof fn law_no_surface_only_in_its_palette(p: BiomePalette)
    ensures
        palette_biomes(p).contains(Biome::NoSurface) <==> p == BiomePalette::NoSurface,
{
    law_palettes_partition_biomes(Biome::NoSurface, p);
}

// ---------------------------------------------------------------------------
// Alphabetical order of the biome names, used for stable histogram output.
// ---------------------------------------------------------------------------

/// Number of biome variants.
pub const BIOME_COUNT: usize = 31;

/// Position of a biome's variant name in alphabetical order.
pub open spec fn name_rank(b: Biome) -> nat {
    match b {
        Biome::AlpineMeadow => 0,
        Biome::BareRegolith => 1,
        Biome::BorealForest => 2,
        Biome::ChemicalSediment => 3,
        Biome::CoastalShallow => 4,
        Biome::ColdDesert => 5,
        Biome::Grassland => 6,
        Biome::HotDesert => 7,
        Biome::IceSheet => 8,
        Biome::ImpactCrater => 9,
        Biome::ImpactRegolith => 10,
        Biome::LavaPlain => 11,
        Biome::MartianBedrock => 12,
        Biome::MartianDustPlain => 13,
        Biome::MartianPolarIce => 14,
        Biome::NoSurface => 15,
        Biome::Ocean => 16,
        Biome::Savanna => 17,
        Biome::SolarBleached => 18,
        Biome::SulfuricHighlands => 19,
        Biome::TemperateForest => 20,
        Biome::ThermalFracture => 21,
        Biome::TitanCryovolcanic => 22,
        Biome::TitanDunes => 23,
        Biome::TitanIceHighland => 24,
        Biome::TitanMethaneSea => 25,
        Biome::TropicalRainforest => 26,
        Biome::Tundra => 27,
        Biome::VenusHighlands => 28,
        Biome::VenusPlains => 29,
        Biome::Wetland => 30,
    }
}

/// The biome whose name has the given alphabetical position (0 through 30).
pub open spec fn biome_at_rank(k: nat) -> Biome {
    if k == 0 { Biome::AlpineMeadow }
    else if k == 1 { Biome::BareRegolith }
    else if k == 2 { Biome::BorealForest }
    else if k == 3 { Biome::ChemicalSediment }
    else if k == 4 { Biome::CoastalShallow }
    else if k == 5 { Biome::ColdDesert }
    else if k == 6 { Biome::Grassland }
    else if k == 7 { Biome::HotDesert }
    else if k == 8 { Biome::IceSheet }
    else if k == 9 { Biome::ImpactCrater }
    else if k == 10 { Biome::ImpactRegolith }
    else if k == 11 { Biome::LavaPlain }
    else if k == 12 { Biome::MartianBedrock }
    else if k == 13 { Biome::MartianDustPlain }
    else if k == 14 { Biome::MartianPolarIce }
    else if k == 15 { Biome::NoSurface }
    else if k == 16 { Biome::Ocean }
    else if k == 17 { Biome::Savanna }
    else if k == 18 { Biome::SolarBleached }
    else if k == 19 { Biome::SulfuricHighlands }
    else if k == 20 { Biome::TemperateForest }
    else if k == 21 { Biome::ThermalFracture }
    else if k == 22 { Biome::TitanCryovolcanic }
    else if k == 23 { Biome::TitanDunes }
    else if k == 24 { Biome::TitanIceHighland }
    else if k == 25 { Biome::TitanMethaneSea }
    else if k == 26 { Biome::TropicalRainforest }
    else if k == 27 { Biome::Tundra }
    else if k == 28 { Biome::VenusHighlands }
    else if k == 29 { Biome::VenusPlains }
    else { Biome::Wetland }
}

/// The name ranking is a bijection between the biomes and 0 through 30.
pub proof fn lemma_name_rank_bijective(b: Biome, k: nat)
    ensures
        name_rank(b) < BIOME_COUNT,
        biome_at_rank(name_rank(b)) == b,
        k < BIOME_COUNT ==> name_rank(biome_at_rank(k)) == k,
{
}

/// Alphabetical position of a biome's name.
pub fn biome_name_rank(b: Biome) -> (r: usize)
    ensures
        r == name_rank(b),
{
    match b {
        Biome::AlpineMeadow => 0,
        Biome::BareRegolith => 1,
        Biome::BorealForest => 2,
        Biome::ChemicalSediment => 3,
        Biome::CoastalShallow => 4,
        Biome::ColdDesert => 5,
        Biome::Grassland => 6,
        Biome::HotDesert => 7,
        Biome::IceSheet => 8,
        Biome::ImpactCrater => 9,
        Biome::ImpactRegolith => 10,
        Biome::LavaPlain => 11,
        Biome::MartianBedrock => 12,
        Biome::MartianDustPlain => 13,
        Biome::MartianPolarIce => 14,
        Biome::NoSurface => 15,
        Biome::Ocean => 16,
        Biome::Savanna => 17,
        Biome::SolarBleached => 18,
        Biome::SulfuricHighlands => 19,
        Biome::TemperateForest => 20,
        Biome::ThermalFracture => 21,
        Biome::TitanCryovolcanic => 22,
        Biome::TitanDunes => 23,
        Biome::TitanIceHighland => 24,
        Biome::TitanMethaneSea => 25,
        Biome::TropicalRainforest => 26,
        Biome::Tundra => 27,
        Biome::VenusHighlands => 28,
        Biome::VenusPlains => 29,
        Biome::Wetland => 30,
    }
}

/// The biome at an alphabetical position.
pub fn biome_with_name_rank(k: usize) -> (r: Biome)
    requires
        k < BIOME_COUNT,
    ensures
        r == biome_at_rank(k as nat),
{
    if k == 0 { Biome::AlpineMeadow }
    else if k == 1 { Biome::BareRegolith }
    else if k == 2 { Biome::BorealForest }
    else if k == 3 { Biome::ChemicalSediment }
    else if k == 4 { Biome::CoastalShallow }
    else if k == 5 { Biome::ColdDesert }
    else if k == 6 { Biome::Grassland }
    else if k == 7 { Biome::HotDesert }
    else if k == 8 { Biome::IceSheet }
    else if k == 9 { Biome::ImpactCrater }
    else if k == 10 { Biome::ImpactRegolith }
    else if k == 11 { Biome::LavaPlain }
    else if k == 12 { Biome::MartianBedrock }
    else if k == 13 { Biome::MartianDustPlain }
    else if k == 14 { Biome::MartianPolarIce }
    else if k == 15 { Biome::NoSurface }
    else if k == 16 { Biome::Ocean }
    else if k == 17 { Biome::Savanna }
    else if k == 18 { Biome::SolarBleached }
    else if k == 19 { Biome::SulfuricHighlands }
    else if k == 20 { Biome::TemperateForest }
    else if k == 21 { Biome::ThermalFracture }
    else if k == 22 { Biome::TitanCryovolcanic }
    else if k == 23 { Biome::TitanDunes }
    else if k == 24 { Biome::TitanIceHighland }
    else if k == 25 { Biome::TitanMethaneSea }
    else if k == 26 { Biome::TropicalRainforest }
    else if k == 27 { Biome::Tundra }
    else if k == 28 { Biome::VenusHighlands }
    else if k == 29 { Biome::VenusPlains }
    else { Biome::Wetland }
}

// ---------------------------------------------------------------------------
// Per-tile biome maps
// ---------------------------------------------------------------------------

/// Number of occurrences of `b` in `s`.
pub open spec fn biome_count(s: Seq<Biome>, b: Biome) -> nat
    decreases s.len(),
{
    if s.len() == 0 {
        0
    } else {
        biome_count(s.drop_last(), b) + if s.last() == b { 1nat } else { 0nat }
    }
}

/// Sum of the counts of a histogram.
pub open spec fn histogram_total(h: Seq<(Biome, usize)>) -> nat
    decreases h.len(),
{
    if h.len() == 0 {
        0
    } else {
        histogram_total(h.drop_last()) + h.last().1 as nat
    }
}

/// Sum of the occurrence counts in `s` of the biomes ranked below `n`.
pub open spec fn rank_sum(s: Seq<Biome>, n: nat) -> nat
    decreases n,
{
    if n == 0 {
        0
    } else {
        rank_sum(s, (n - 1) as nat) + biome_count(s, biome_at_rank((n - 1) as nat))
    }
}

proof fn lemma_rank_sum_step(s: Seq<Biome>, n: nat)
    requires
        s.len() > 0,
        n <= BIOME_COUNT,
    ensures
        rank_sum(s, n) == rank_sum(s.drop_last(), n) + if name_rank(s.last()) < n {
            1nat
        } else {
            0nat
        },
    decreases n,
{
    if n > 0 {
        lemma_rank_sum_step(s, (n - 1) as nat);
        lemma_name_rank_bijective(s.last(), (n - 1) as nat);
    }
}

/// Counting every biome by rank accounts for every element exactly once.
proof fn lemma_rank_sum_total(s: Seq<Biome>)
    ensures
        rank_sum(s, BIOME_COUNT as nat) == s.len(),
    decreases s.len(),
{
    if s.len() == 0 {
        assert forall|n: nat| n <= BIOME_COUNT implies rank_sum(s, n) == 0 by {
            lemma_rank_sum_zero(s, n);
        }
    } else {
        lemma_rank_sum_step(s, BIOME_COUNT as nat);
        lemma_rank_sum_total(s.drop_last());
        lemma_name_rank_bijective(s.last(), 0);
    }
}

proof fn lemma_rank_sum_zero(s: Seq<Biome>, n: nat)
    requires
        s.len() == 0,
    ensures
        rank_sum(s, n) == 0,
    decreases n,
{
    if n > 0 {
        lemma_rank_sum_zero(s, (n - 1) as nat);
    }
}

/// Per-tile biome classification of a whole world, with the palette that
/// drove it.
#[derive(Clone, Debug)]
pub struct BiomeMap {
    /// One biome per tile.
    pub per_tile: Vec<Biome>,
    /// The palette selected from the world's atmosphere.
    pub palette: BiomePalette,
}

impl BiomeMap {
    /// Total number of tiles classified.
    pub fn len(&self) -> (r: usize)
        ensures
            r == self.per_tile@.len(),
    {
        self.per_tile.len()
    }

    /// True if no tiles are classified.
    pub fn is_empty(&self) -> (r: bool)
        ensures
            r == (self.per_tile@.len() == 0),
    {
        self.per_tile.len() == 0
    }

    /// Count of each biome present, sorted by the biome's variant name.
    ///
    /// Each biome that occurs appears exactly once with its number of
    /// tiles; the counts add up to the number of tiles.
    pub fn histogram(&self) -> (r: Vec<(Biome, usize)>)
        ensures
            forall|i: int|
                0 <= i < r@.len() ==> r@[i].1 == biome_count(self.per_tile@, #[trigger] r@[i].0)
                    && r@[i].1 > 0,
            forall|i: int, j: int|
                0 <= i < j < r@.len() ==> name_rank(#[trigger] r@[i].0) < name_rank(
                    #[trigger] r@[j].0,
                ),
            forall|b: Biome|
                biome_count(self.per_tile@, b) > 0 ==> exists|i: int|
                    0 <= i < r@.len() && #[trigger] r@[i].0 == b,
            histogram_total(r@) == self.per_tile@.len(),
    {
        let tiles = &self.per_tile;
        let ghost s = tiles@;
        let mut counts: Vec<usize> = Vec::new();
        let mut k: usize = 0;
        while k < BIOME_COUNT
            invariant
                k <= BIOME_COUNT,
                counts@.len() == k,
                forall|j: int| 0 <= j < k ==> counts@[j] == 0,
            decreases BIOME_COUNT - k,
        {
            counts.push(0);
            k = k + 1;
        }
        assert(s.take(0) =~= Seq::<Biome>::empty());
        let mut i: usize = 0;
        while i < tiles.len()
            invariant
                s == tiles@,
                i <= tiles@.len(),
                counts@.len() == BIOME_COUNT,
                forall|j: int|
                    0 <= j < BIOME_COUNT ==> #[trigger] counts@[j] == biome_count(
                        s.take(i as int),
                        biome_at_rank(j as nat),
                    ) && counts@[j] <= i,
            decreases tiles@.len() - i,
        {
            let b = tiles[i];
            let rk = biome_name_rank(b);
            proof {
                lemma_name_rank_bijective(b, 0);
                assert(s.take(i + 1).drop_last() =~= s.take(i as int));
                assert(s.take(i + 1).last() == b);
            }
            let c = counts[rk];
            counts.set(rk, c + 1);
            proof {
                assert forall|j: int| 0 <= j < BIOME_COUNT implies #[trigger] counts@[j]
                    == biome_count(s.take(i + 1), biome_at_rank(j as nat)) && counts@[j] <= i
                    + 1 by {
                    lemma_name_rank_bijective(b, j as nat);
                }
            }
            i = i + 1;
        }
        assert(s.take(s.len() as int) =~= s);
        let mut out: Vec<(Biome, usize)> = Vec::new();
        let mut k: usize = 0;
        while k < BIOME_COUNT
            invariant
                s == tiles@,
                k <= BIOME_COUNT,
                counts@.len() == BIOME_COUNT,
                forall|j: int|
                    0 <= j < BIOME_COUNT ==> #[trigger] counts@[j] == biome_count(
                        s,
                        biome_at_rank(j as nat),
                    ),
                forall|x: int|
                    0 <= x < out@.len() ==> out@[x].1 == biome_count(s, #[trigger] out@[x].0)
                        && out@[x].1 > 0 && name_rank(out@[x].0) < k,
                forall|x: int, y: int|
                    0 <= x < y < out@.len() ==> name_rank(#[trigger] out@[x].0) < name_rank(
                        #[trigger] out@[y].0,
                    ),
                forall|b: Biome|
                    name_rank(b) < k && biome_count(s, b) > 0 ==> exists|x: int|
                        0 <= x < out@.len() && #[trigger] out@[x].0 == b,
                histogram_total(out@) == rank_sum(s, k as nat),
            decreases BIOME_COUNT - k,
        {
            let c = counts[k];
            let b = biome_with_name_rank(k);
            proof {
                lemma_name_rank_bijective(b, k as nat);
            }
            if c > 0 {
                let ghost old_out = out@;
                out.push((b, c));
                proof {
                    assert(out@.drop_last() =~= old_out);
                    assert forall|bb: Biome|
                        name_rank(bb) < k + 1 && biome_count(s, bb) > 0 implies exists|x: int|
                        0 <= x < out@.len() && #[trigger] out@[x].0 == bb by {
                        lemma_name_rank_bijective(bb, k as nat);
                        if name_rank(bb) == k {
                            assert(out@[old_out.len() as int].0 == bb);
                        } else {
                            let x = choose|x: int| 0 <= x < old_out.len() && #[trigger] old_out[x].0 == bb;
                            assert(out@[x].0 == bb);
                        }
                    }
                }
            } else {
                proof {
                    assert forall|bb: Biome|
                        name_rank(bb) < k + 1 && biome_count(s, bb) > 0 implies exists|x: int|
                        0 <= x < out@.len() && #[trigger] out@[x].0 == bb by {
                        lemma_name_rank_bijective(bb, k as nat);
                    }
                }
            }
            k = k + 1;
        }
        proof {
            lemma_rank_sum_total(s);
            assert forall|bb: Biome| biome_count(s, bb) > 0 implies exists|x: int|
                0 <= x < out@.len() && #[trigger] out@[x].0 == bb by {
                lemma_name_rank_bijective(bb, 0);
            }
        }
        out
    }
}

/// Which atmosphere each palette serves: Earth-like biomes for
/// nitrogen-oxygen air, Venus-like for thick CO2, Mars-like for thin CO2,
/// Titan-like for thick nitrogen with water, airless ground for no
/// atmosphere, and no surface for hydrogen-helium envelopes.
pub proof fn law_palette_by_atmosphere(c: AtmosphereClass)
    ensures
        (palette_for_class(c) == BiomePalette::EarthLike) <==> (c == AtmosphereClass::NitrogenOxygen),
        (palette_for_class(c) == BiomePalette::VenusLike) <==> (c == AtmosphereClass::ThickCO2),
        (palette_for_class(c) == BiomePalette::MarsLike) <==> (c == AtmosphereClass::ThinCO2),
        (palette_for_class(c) == BiomePalette::TitanLike) <==> (c == AtmosphereClass::ThickN2H2O),
        (palette_for_class(c) == BiomePalette::Airless) <==> (c == AtmosphereClass::NoAtmosphere),
        (palette_for_class(c) == BiomePalette::NoSurface) <==> (c == AtmosphereClass::HydrogenHelium),
{
}

/// Each palette's fallback biome: ocean on Earth-like worlds, plains on
/// Venus-like ones, dust plain on Mars-like ones, ice highland on
/// Titan-like ones, bare regolith on airless ones, and the no-surface
/// placeholder otherwise.
pub proof fn law_palette_fallbacks(p: BiomePalette)
    ensures
        (palette_default(p) == Biome::Ocean) <==> (p == BiomePalette::EarthLike),
        (palette_default(p) == Biome::VenusPlains) <==> (p == BiomePalette::VenusLike),
        (palette_default(p) == Biome::MartianDustPlain) <==> (p == BiomePalette::MarsLike),
        (palette_default(p) == Biome::TitanIceHighland) <==> (p == BiomePalette::TitanLike),
        (palette_default(p) == Biome::BareRegolith) <==> (p == BiomePalette::Airless),
        (palette_default(p) == Biome::NoSurface) <==> (p == BiomePalette::NoSurface),
{
}

} // verus!
