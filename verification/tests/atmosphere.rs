use ymir::atmosphere::{partition_gases, AtmosphereClass, Gas};
use ymir::composition::{composition_archetype, Archetype, SizeBand};

#[test]
fn gas_list_is_canonical() {
    let all = Gas::all();
    assert_eq!(all.len(), 10);
    assert_eq!(all[0], Gas::H2);
    assert_eq!(all[6], Gas::CO);
    assert_eq!(all[9], Gas::CO2);
}

#[test]
fn retained_and_lost_are_disjoint_and_cover_all_gases() {
    let mut flags = [false; 10];
    flags[5] = true; // N2
    flags[7] = true; // O2
    flags[8] = true; // Ar
    flags[9] = true; // CO2
    let (kept, lost) = partition_gases(&flags);
    assert_eq!(kept, vec![Gas::N2, Gas::O2, Gas::Ar, Gas::CO2]);
    assert_eq!(lost, vec![Gas::H2, Gas::He, Gas::CH4, Gas::NH3, Gas::H2O, Gas::CO]);
    for g in Gas::all() {
        assert!(kept.contains(&g) != lost.contains(&g));
    }
}

#[test]
fn earth_like_body_gets_biosphere_air() {
    let retained = [Gas::N2, Gas::O2, Gas::CO2, Gas::H2O, Gas::Ar];
    let r = composition_archetype(&retained, SizeBand::Rocky, true, true, true);
    assert_eq!(r, (Archetype::Biosphere, AtmosphereClass::NitrogenOxygen));
}

#[test]
fn biology_off_earth_gets_dense_carbon_dioxide() {
    let retained = [Gas::N2, Gas::O2, Gas::CO2, Gas::H2O, Gas::Ar];
    let r = composition_archetype(&retained, SizeBand::Rocky, false, true, true);
    assert_eq!(r, (Archetype::DenseCarbonDioxide, AtmosphereClass::ThickCO2));
}

#[test]
fn light_body_with_carbon_dioxide_is_thin() {
    let retained = [Gas::CO2, Gas::N2, Gas::Ar];
    let r = composition_archetype(&retained, SizeBand::Rocky, false, false, false);
    assert_eq!(r, (Archetype::ThinCarbonDioxide, AtmosphereClass::ThinCO2));
}

#[test]
fn hydrogen_envelopes_by_size() {
    let all = Gas::all();
    assert_eq!(
        composition_archetype(&all, SizeBand::Giant, false, false, true),
        (Archetype::GasGiant, AtmosphereClass::HydrogenHelium)
    );
    assert_eq!(
        composition_archetype(&all, SizeBand::SubNeptune, false, false, true),
        (Archetype::MiniNeptune, AtmosphereClass::HydrogenHelium)
    );
    assert_eq!(
        composition_archetype(&all, SizeBand::Rocky, false, false, true),
        (Archetype::DenseCarbonDioxide, AtmosphereClass::ThickCO2)
    );
}

#[test]
fn nothing_kept_or_tiny_is_airless() {
    assert_eq!(
        composition_archetype(&[], SizeBand::Rocky, true, true, true),
        (Archetype::Airless, AtmosphereClass::NoAtmosphere)
    );
    assert_eq!(
        composition_archetype(&[Gas::CO2, Gas::N2], SizeBand::Tiny, false, false, false),
        (Archetype::Airless, AtmosphereClass::NoAtmosphere)
    );
}

#[test]
fn nitrogen_without_carbon_dioxide_is_nitrogen_water() {
    let r = composition_archetype(&[Gas::N2, Gas::Ar], SizeBand::Rocky, false, false, false);
    assert_eq!(r, (Archetype::NitrogenWater, AtmosphereClass::ThickN2H2O));
}

#[test]
fn residual_mixes_classed_by_equal_fractions() {
    let rocky = |gases: &[Gas]| composition_archetype(gases, SizeBand::Rocky, false, false, false);
    assert_eq!(rocky(&[Gas::He, Gas::Ar]), (Archetype::Residual, AtmosphereClass::ThinCO2));
    assert_eq!(rocky(&[Gas::H2, Gas::He, Gas::Ar]), (Archetype::Residual, AtmosphereClass::HydrogenHelium));
    assert_eq!(rocky(&[Gas::H2, Gas::H2, Gas::Ar]), (Archetype::Residual, AtmosphereClass::ThinCO2));
    assert_eq!(rocky(&[Gas::H2]), (Archetype::Residual, AtmosphereClass::HydrogenHelium));
    assert_eq!(rocky(&[Gas::CO]), (Archetype::Residual, AtmosphereClass::ThinCO2));
    let r = composition_archetype(&[Gas::H2], SizeBand::Tiny, false, false, false);
    assert_eq!(r, (Archetype::Airless, AtmosphereClass::NoAtmosphere));
}
