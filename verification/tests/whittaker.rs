use ymir::biome::{Biome, BiomePalette};
use ymir::whittaker::{
    classify_reading, AirlessBand, ClimateReading, EarthBand, HumidityTests, MarsBand, TitanBand,
    VenusBand,
};

/// Humidity comparisons for a humidity value, as the classifier makes them.
fn humidity(h: f64) -> HumidityTests {
    HumidityTests { below_dry: h < 0.2, at_least_dry: h >= 0.2, at_least_mid: h >= 0.5, at_least_wet: h >= 0.75 }
}

#[test]
fn earth_table_reads_temperature_then_humidity() {
    let c = |band, h| classify_reading(ClimateReading::Earth(band, humidity(h)));
    assert_eq!(c(EarthBand::Warm, 0.9), Biome::TropicalRainforest);
    assert_eq!(c(EarthBand::Frigid, 0.1), Biome::IceSheet);
    assert_eq!(c(EarthBand::Frigid, 0.3), Biome::Tundra);
    assert_eq!(c(EarthBand::Freezing, 0.6), Biome::BorealForest);
    assert_eq!(c(EarthBand::Freezing, 0.4), Biome::Tundra);
    assert_eq!(c(EarthBand::Cold, 0.3), Biome::Grassland);
    assert_eq!(c(EarthBand::Cold, 0.1), Biome::ColdDesert);
    assert_eq!(c(EarthBand::Mild, 0.8), Biome::TemperateForest);
    assert_eq!(c(EarthBand::Mild, 0.15), Biome::ColdDesert);
    assert_eq!(c(EarthBand::Warm, 0.3), Biome::Savanna);
    assert_eq!(c(EarthBand::Hot, 0.3), Biome::HotDesert);
    assert_eq!(c(EarthBand::Hot, 0.6), Biome::Savanna);
    assert_eq!(c(EarthBand::Hot, 0.1), Biome::HotDesert);
}

#[test]
fn abiotic_palettes_follow_their_bands() {
    assert_eq!(classify_reading(ClimateReading::Venus(VenusBand::Molten)), Biome::LavaPlain);
    assert_eq!(classify_reading(ClimateReading::Venus(VenusBand::Plain)), Biome::VenusPlains);
    assert_eq!(classify_reading(ClimateReading::Mars(MarsBand::Polar)), Biome::MartianPolarIce);
    assert_eq!(classify_reading(ClimateReading::Mars(MarsBand::Dusty)), Biome::MartianDustPlain);
    assert_eq!(classify_reading(ClimateReading::Titan(TitanBand::Frozen)), Biome::TitanIceHighland);
    assert_eq!(classify_reading(ClimateReading::Titan(TitanBand::Liquid)), Biome::TitanMethaneSea);
    assert_eq!(classify_reading(ClimateReading::Airless(AirlessBand::Sunlit)), Biome::SolarBleached);
    assert_eq!(classify_reading(ClimateReading::Airless(AirlessBand::Shadowed)), Biome::ThermalFracture);
    assert_eq!(classify_reading(ClimateReading::Airless(AirlessBand::Temperate)), Biome::BareRegolith);
    assert_eq!(classify_reading(ClimateReading::NoSurface), Biome::NoSurface);
}

#[test]
fn classified_biomes_stay_in_their_palette() {
    let bands = [EarthBand::Frigid, EarthBand::Freezing, EarthBand::Cold, EarthBand::Mild, EarthBand::Warm, EarthBand::Hot];
    for band in bands {
        for h in [0.0, 0.15, 0.3, 0.5, 0.7, 0.8, 1.0] {
            let b = classify_reading(ClimateReading::Earth(band, humidity(h)));
            assert!(BiomePalette::EarthLike.contains(b));
            assert!(!matches!(b, Biome::Ocean | Biome::CoastalShallow | Biome::Wetland | Biome::AlpineMeadow));
        }
    }
}
