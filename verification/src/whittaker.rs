//! Whittaker-style biome classification. The classifier compares a tile's
//! temperature and relative humidity with fixed thresholds that depend on
//! the palette; a [`ClimateReading`] records the outcome of those
//! comparisons, and the table below turns it into a biome.

use vstd::prelude::*;
use crate::biome::{palette_of, Biome, BiomePalette};

verus! {

/// Earth-like temperature band, in °C: below -15, below 0, below 10, below
/// 20, below 30, or warmer (tested in that order).
#[derive(Clone, Copy, Debug, PartialEq, Eq, Structural)]
pub enum EarthBand {
    Frigid,
    Freezing,
    Cold,
    Mild,
    Warm,
    Hot,
}

/// The humidity comparisons of the Earth-like table: below the dry
/// threshold (0.2), at least the dry threshold, at least the mid threshold
/// (0.5), at least the wet threshold (0.75).
#[derive(Clone, Copy, Debug, PartialEq, Eq, Structural)]
pub struct HumidityTests {
    pub below_dry: bool,
    pub at_least_dry: bool,
    pub at_least_mid: bool,
    pub at_least_wet: bool,
}

/// Venus-like temperature band, in °C: above 450, above 400, above 350, or
/// cooler.
#[derive(Clone, Copy, Debug, PartialEq, Eq, Structural)]
pub enum VenusBand {
    Molten,
    Scorched,
    Sulfurous,
    Plain,
}

/// Mars-like reading: colder than -125 °C; else bone dry (humidity at most
/// 0); else dusty.
#[derive(Clone, Copy, Debug, PartialEq, Eq, Structural)]
pub enum MarsBand {
    Polar,
    BoneDry,
    Dusty,
}

/// Titan-like temperature band, in °C: below -180, below -179, or warmer.
#[derive(Clone, Copy, Debug, PartialEq, Eq, Structural)]
pub enum TitanBand {
    Frozen,
    Dune,
    Liquid,
}

/// Airless temperature band, in °C: above 200, below -150, or between.
#[derive(Clone, Copy, Debug, PartialEq, Eq, Structural)]
pub enum AirlessBand {
    Sunlit,
    Shadowed,
    Temperate,
}

/// The comparisons the classifier makes for one tile, by palette.
#[derive(Clone, Copy, Debug, PartialEq, Eq, Structural)]
pub enum ClimateReading {
    Earth(EarthBand, HumidityTests),
    Venus(VenusBand),
    Mars(MarsBand),
    Titan(TitanBand),
    Airless(AirlessBand),
    NoSurface,
}

/// The palette a reading was taken for.
pub open spec fn reading_palette(r: ClimateReading) -> BiomePalette {
    match r {
        ClimateReading::Earth(..) => BiomePalette::EarthLike,
        ClimateReading::Venus(_) => BiomePalette::VenusLike,
        ClimateReading::Mars(_) => BiomePalette::MarsLike,
        ClimateReading::Titan(_) => BiomePalette::TitanLike,
        ClimateReading::Airless(_) => BiomePalette::Airless,
        ClimateReading::NoSurface => BiomePalette::NoSurface,
    }
}

/// The Earth-like Whittaker table.
pub open spec fn earth_table(band: EarthBand, h: HumidityTests) -> Biome {
    match band {
        EarthBand::Frigid => if h.below_dry {
            Biome::IceSheet
        } else {
            Biome::Tundra
        },
        EarthBand::Freezing => if h.at_least_mid {
            Biome::BorealForest
        } else {
            Biome::Tundra
        },
        EarthBand::Cold => if h.at_least_mid {
            Biome::BorealForest
        } else if h.at_least_dry {
            Biome::Grassland
        } else {
            Biome::ColdDesert
        },
        EarthBand::Mild => if h.at_least_mid {
            Biome::TemperateForest
        } else if h.at_least_dry {
            Biome::Grassland
        } else {
            Biome::ColdDesert
        },
        EarthBand::Warm => if h.at_least_wet {
            Biome::TropicalRainforest
        } else if h.at_least_dry {
            Biome::Savanna
        } else {
            Biome::HotDesert
        },
        EarthBand::Hot => if h.at_least_wet {
            Biome::TropicalRainforest
        } else if h.at_least_mid {
            Biome::Savanna
        } else {
            Biome::HotDesert
        },
    }
}

/// The biome a reading classifies as.
pub open spec fn whittaker(r: ClimateReading) -> Biome {
    match r {
        ClimateReading::Earth(band, h) => earth_table(band, h),
        ClimateReading::Venus(band) => match band {
            VenusBand::Molten => Biome::LavaPlain,
            VenusBand::Scorched => Biome::VenusHighlands,
            VenusBand::Sulfurous => Biome::SulfuricHighlands,
            VenusBand::Plain => Biome::VenusPlains,
        },
        ClimateReading::Mars(band) => match band {
            MarsBand::Polar => Biome::MartianPolarIce,
            MarsBand::BoneDry => Biome::MartianBedrock,
            MarsBand::Dusty => Biome::MartianDustPlain,
        },
        ClimateReading::Titan(band) => match band {
            TitanBand::Frozen => Biome::TitanIceHighland,
            TitanBand::Dune => Biome::TitanDunes,
            TitanBand::Liquid => Biome::TitanMethaneSea,
        },
        ClimateReading::Airless(band) => match band {
            AirlessBand::Sunlit => Biome::SolarBleached,
            AirlessBand::Shadowed => Biome::ThermalFracture,
            AirlessBand::Temperate => Biome::BareRegolith,
        },
        ClimateReading::NoSurface => Biome::NoSurface,
    }
}

/// Biomes that need elevation, coastline or impact context and are placed
/// by later passes, never by the classifier.
pub open spec fn context_biome(b: Biome) -> bool {
    ||| b == Biome::Ocean
    ||| b == Biome::CoastalShallow
    ||| b == Biome::Wetland
    ||| b == Biome::AlpineMeadow
    ||| b == Biome::ImpactRegolith
    ||| b == Biome::ImpactCrater
    ||| b == Biome::ChemicalSediment
    ||| b == Biome::TitanCryovolcanic
}

/// Classify a tile from the outcome of its threshold comparisons.
pub fn classify_reading(reading: ClimateReading) -> (b: Biome)
    ensures
        b == whittaker(reading),
{
    match reading {
        ClimateReading::Earth(band, h) => match band {
            EarthBand::Frigid => if h.below_dry {
                Biome::IceSheet
            } else {
                Biome::Tundra
            },
            EarthBand::Freezing => if h.at_least_mid {
                Biome::BorealForest
            } else {
                Biome::Tundra
            },
            EarthBand::Cold => if h.at_least_mid {
                Biome::BorealForest
            } else if h.at_least_dry {
                Biome::Grassland
            } else {
                Biome::ColdDesert
            },
            EarthBand::Mild => if h.at_least_mid {
                Biome::TemperateForest
            } else if h.at_least_dry {
                Biome::Grassland
            } else {
                Biome::ColdDesert
            },
            EarthBand::Warm => if h.at_least_wet {
                Biome::TropicalRainforest
            } else if h.at_least_dry {
                Biome::Savanna
            } else {
                Biome::HotDesert
            },
            EarthBand::Hot => if h.at_least_wet {
                Biome::TropicalRainforest
            } else if h.at_least_mid {
                Biome::Savanna
            } else {
                Biome::HotDesert
            },
        },
        ClimateReading::Venus(band) => match band {
            VenusBand::Molten => Biome::LavaPlain,
            VenusBand::Scorched => Biome::VenusHighlands,
            VenusBand::Sulfurous => Biome::SulfuricHighlands,
            VenusBand::Plain => Biome::VenusPlains,
        },
        ClimateReading::Mars(band) => match band {
            MarsBand::Polar => Biome::MartianPolarIce,
            MarsBand::BoneDry => Biome::MartianBedrock,
            MarsBand::Dusty => Biome::MartianDustPlain,
        },
        ClimateReading::Titan(band) => match band {
            TitanBand::Frozen => Biome::TitanIceHighland,
            TitanBand::Dune => Biome::TitanDunes,
            TitanBand::Liquid => Biome::TitanMethaneSea,
        },
        ClimateReading::Airless(band) => match band {
            AirlessBand::Sunlit => Biome::SolarBleached,
            AirlessBand::Shadowed => Biome::ThermalFracture,
            AirlessBand::Temperate => Biome::BareRegolith,
        },
        ClimateReading::NoSurface => Biome::NoSurface,
    }
}

/// Every classified biome belongs to the palette the reading was taken
/// for, and the classifier never places a biome that needs elevation,
/// coastline or impact context.
pub proof fn law_classification_stays_in_palette(r: ClimateReading)
    ensures
        palette_of(whittaker(r)) == reading_palette(r),
        !context_biome(whittaker(r)),
{
}

/// The humidity comparisons agree with one humidity value: below the dry
/// threshold exactly when not at least it, and the thresholds are ordered
/// dry <= mid <= wet.
pub open spec fn humidity_consistent(h: HumidityTests) -> bool {
    &&& h.below_dry == !h.at_least_dry
    &&& h.at_least_mid ==> h.at_least_dry
    &&& h.at_least_wet ==> h.at_least_mid
}

/// A reading whose humidity comparisons (if any) come from one value.
pub open spec fn reading_consistent(r: ClimateReading) -> bool {
    r matches ClimateReading::Earth(_, h) ==> humidity_consistent(h)
}

/// Where each Earth-like biome arises on the Whittaker grid: ice sheet only
/// in the frigid band below the dry threshold; tundra in the frigid band
/// otherwise and below mid humidity in the freezing band; boreal forest at
/// mid humidity from freezing to cold; grassland from 0 to 20 °C between the
/// dry and mid thresholds; cold desert from 0 to 20 °C below the dry
/// threshold; temperate forest at mid humidity from 10 to 20 °C; rainforest
/// at wet humidity above 20 °C; savanna from 20 to 30 °C between dry and wet
/// and above 30 °C between mid and wet; hot desert above 20 °C below the dry
/// threshold (below mid above 30 °C).
pub proof fn law_earth_biome_regions(band: EarthBand, h: HumidityTests)
    requires
        humidity_consistent(h),
    ensures
        ({
            let b = whittaker(ClimateReading::Earth(band, h));
            &&& (b == Biome::IceSheet) <==> (band == EarthBand::Frigid && !h.at_least_dry)
            &&& (b == Biome::Tundra) <==> ((band == EarthBand::Frigid && h.at_least_dry) || (band
                == EarthBand::Freezing && !h.at_least_mid))
            &&& (b == Biome::BorealForest) <==> ((band == EarthBand::Freezing || band
                == EarthBand::Cold) && h.at_least_mid)
            &&& (b == Biome::Grassland) <==> ((band == EarthBand::Cold || band == EarthBand::Mild)
                && h.at_least_dry && !h.at_least_mid)
            &&& (b == Biome::ColdDesert) <==> ((band == EarthBand::Cold || band == EarthBand::Mild)
                && !h.at_least_dry)
            &&& (b == Biome::TemperateForest) <==> (band == EarthBand::Mild && h.at_least_mid)
            &&& (b == Biome::TropicalRainforest) <==> ((band == EarthBand::Warm || band
                == EarthBand::Hot) && h.at_least_wet)
            &&& (b == Biome::Savanna) <==> ((band == EarthBand::Warm && h.at_least_dry
                && !h.at_least_wet) || (band == EarthBand::Hot && h.at_least_mid
                && !h.at_least_wet))
            &&& (b == Biome::HotDesert) <==> ((band == EarthBand::Warm && !h.at_least_dry) || (band
                == EarthBand::Hot && !h.at_least_mid))
        }),
{
}

/// Deserts and ice sheets need a dry reading and forests a humid one: a cold
/// desert or ice sheet needs humidity below the dry threshold, a hot desert
/// humidity below mid, and every forest at least mid humidity.
pub proof fn law_deserts_dry_forests_humid(r: ClimateReading)
    requires
        reading_consistent(r),
    ensures
        (whittaker(r) == Biome::ColdDesert || whittaker(r) == Biome::IceSheet) ==> (r matches
            ClimateReading::Earth(_, h) && !h.at_least_dry),
        whittaker(r) == Biome::HotDesert ==> (r matches ClimateReading::Earth(_, h)
            && !h.at_least_mid),
        (whittaker(r) == Biome::BorealForest || whittaker(r) == Biome::TemperateForest
            || whittaker(r) == Biome::TropicalRainforest) ==> (r matches ClimateReading::Earth(_, h)
            && h.at_least_mid),
{
}

/// Each other palette's bands map to their own biome: Venus-like molten,
/// scorched, sulfurous and plain to lava plain, highlands, sulfuric
/// highlands and plains; Mars-like polar, bone-dry and dusty to polar ice,
/// bedrock and dust plain; Titan-like frozen, dune and liquid to ice
/// highland, dunes and methane sea; airless sunlit, shadowed and temperate
/// to solar-bleached, thermal fracture and bare regolith.
pub proof fn law_other_palettes_by_band(r: ClimateReading)
    ensures
        (whittaker(r) == Biome::LavaPlain) <==> (r == ClimateReading::Venus(VenusBand::Molten)),
        (whittaker(r) == Biome::VenusHighlands) <==> (r == ClimateReading::Venus(VenusBand::Scorched)),
        (whittaker(r) == Biome::SulfuricHighlands) <==> (r == ClimateReading::Venus(
            VenusBand::Sulfurous,
        )),
        (whittaker(r) == Biome::VenusPlains) <==> (r == ClimateReading::Venus(VenusBand::Plain)),
        (whittaker(r) == Biome::MartianPolarIce) <==> (r == ClimateReading::Mars(MarsBand::Polar)),
        (whittaker(r) == Biome::MartianBedrock) <==> (r == ClimateReading::Mars(MarsBand::BoneDry)),
        (whittaker(r) == Biome::MartianDustPlain) <==> (r == ClimateReading::Mars(MarsBand::Dusty)),
        (whittaker(r) == Biome::TitanIceHighland) <==> (r == ClimateReading::Titan(TitanBand::Frozen)),
        (whittaker(r) == Biome::TitanDunes) <==> (r == ClimateReading::Titan(TitanBand::Dune)),
        (whittaker(r) == Biome::TitanMethaneSea) <==> (r == ClimateReading::Titan(TitanBand::Liquid)),
        (whittaker(r) == Biome::SolarBleached) <==> (r == ClimateReading::Airless(AirlessBand::Sunlit)),
        (whittaker(r) == Biome::ThermalFracture) <==> (r == ClimateReading::Airless(
            AirlessBand::Shadowed,
        )),
        (whittaker(r) == Biome::BareRegolith) <==> (r == ClimateReading::Airless(
            AirlessBand::Temperate,
        )),
        (whittaker(r) == Biome::NoSurface) <==> (r == ClimateReading::NoSurface),
{
}

} // verus!
