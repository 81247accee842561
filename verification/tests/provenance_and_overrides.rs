use ymir::overrides::{check_required_keys, OverrideError, OverrideFile, StageOverrides};
use ymir::provenance::{summary_line, summary_order, SourceKind, StageCounts};

#[test]
fn stage_counts_tally_and_merge() {
    let mut a = StageCounts::default();
    a.tally(SourceKind::Observed);
    a.tally(SourceKind::Derived);
    assert_eq!(a.observed, 1);
    assert_eq!(a.derived, 1);
    assert_eq!(a.assumed, 0);
    assert_eq!(a.total(), 2);

    let mut b = StageCounts::default();
    b.tally(SourceKind::Assumed);

    a.merge(&b);
    assert_eq!(a.total(), 3);
}

#[test]
fn merge_adds_kind_by_kind_in_either_order() {
    let a = StageCounts { observed: 3, derived: 1, assumed: 2 };
    let b = StageCounts { observed: 4, derived: 0, assumed: 5 };
    let mut ab = a;
    ab.merge(&b);
    let mut ba = b;
    ba.merge(&a);
    assert_eq!(ab, ba);
    assert_eq!(ab, StageCounts { observed: 7, derived: 1, assumed: 7 });
    assert_eq!(ab.total(), a.total() + b.total());
}

fn file(version: &str, target_star: &str, overrides: StageOverrides) -> OverrideFile {
    OverrideFile {
        version: version.to_string(),
        target_star: target_star.to_string(),
        target_planet: None,
        overrides,
    }
}

#[test]
fn overridden_stages_returns_correct_names() {
    let mut overrides = StageOverrides::default();
    overrides.orbital_body = Some(serde_json::from_str("{\"mass_earth\": 1.07}").unwrap());
    overrides.atmosphere = Some(serde_json::from_str("{\"surface_pressure_atm\": 1.2}").unwrap());
    let f = file("1.0", "Proxima Centauri", overrides);
    assert!(f.validate().is_ok());
    let stages = f.overridden_stages();
    assert_eq!(stages, vec!["orbital_body", "atmosphere"]);
}

#[test]
fn every_stage_override_is_named_in_pipeline_order() {
    let mut overrides = StageOverrides::default();
    overrides.biome = Some(serde_json::Value::Null);
    overrides.skeleton = Some(serde_json::Value::Null);
    overrides.climate = Some(serde_json::Value::Null);
    let f = file("1.0", "TRAPPIST-1", overrides);
    assert_eq!(f.overridden_stages(), vec!["skeleton", "climate", "biome"]);
}

#[test]
fn no_overrides_section_uses_defaults() {
    let f = file("1.0", "TRAPPIST-1", StageOverrides::default());
    assert!(f.validate().is_ok());
    assert!(f.overridden_stages().is_empty());
}

#[test]
fn missing_version_field() {
    let err = check_required_keys(false, true).unwrap_err();
    assert!(
        matches!(err, OverrideError::MissingField(ref f) if f == "version"),
        "expected MissingField(\"version\")"
    );
}

#[test]
fn missing_target_star_field() {
    let err = check_required_keys(true, false).unwrap_err();
    assert!(
        matches!(err, OverrideError::MissingField(ref f) if f == "target_star"),
        "expected MissingField(\"target_star\")"
    );
}

#[test]
fn empty_json_object() {
    let err = check_required_keys(false, false).unwrap_err();
    assert!(matches!(err, OverrideError::MissingField(_)), "expected MissingField");
    assert!(check_required_keys(true, true).is_ok());
}

#[test]
fn invalid_version() {
    let err = file("2.0", "Proxima Centauri", StageOverrides::default())
        .validate()
        .unwrap_err();
    assert!(
        matches!(err, OverrideError::InvalidVersion(ref v) if v == "2.0"),
        "expected InvalidVersion(\"2.0\")"
    );
}

#[test]
fn empty_target_star_rejected() {
    let err = file("1.0", "", StageOverrides::default()).validate().unwrap_err();
    assert!(
        matches!(err, OverrideError::MissingField(ref f) if f == "target_star"),
        "expected MissingField(\"target_star\")"
    );
}

#[test]
fn version_is_checked_before_target_star() {
    let err = file("1.0.0", "", StageOverrides::default()).validate().unwrap_err();
    assert!(matches!(err, OverrideError::InvalidVersion(ref v) if v == "1.0.0"));
}

#[test]
fn error_display_messages() {
    let err = OverrideError::InvalidVersion("3.0".to_string());
    assert_eq!(err.to_string(), "unsupported override file version: 3.0");

    let err = OverrideError::MissingField("version".to_string());
    assert_eq!(err.to_string(), "missing required field: version");
}

#[test]
fn wrapped_error_messages_carry_their_prefix() {
    let parse = serde_json::from_str::<serde_json::Value>("{").unwrap_err();
    let msg = OverrideError::Parse(parse).to_string();
    assert!(msg.starts_with("JSON parse error: "));
    let io = std::io::Error::new(std::io::ErrorKind::NotFound, "gone");
    let msg = OverrideError::Io(io).to_string();
    assert_eq!(msg, "I/O error: gone");
}

fn strings(names: &[&str]) -> Vec<String> {
    names.iter().map(|s| s.to_string()).collect()
}

#[test]
fn summary_lists_pipeline_stages_first_in_run_order() {
    let names = strings(&["atmosphere", "biome", "custom", "extra", "stellar"]);
    let order = summary_order(&names);
    let listed: Vec<&str> = order.iter().map(|&i| names[i].as_str()).collect();
    assert_eq!(listed, vec!["stellar", "atmosphere", "biome", "custom", "extra"]);
    assert!(summary_order(&Vec::new()).is_empty());
    let others = strings(&["alpha", "beta"]);
    assert_eq!(summary_order(&others), vec![0, 1]);
}

#[test]
fn summary_line_formats_counts() {
    let counts = StageCounts { observed: 3, derived: 12, assumed: 0 };
    assert_eq!(summary_line("climate", &counts), "  climate: 3 Observed / 12 Derived / 0 Assumed");
}
