use ymir::gaia::missing_column;
use ymir::exoplanet::{comment_header_len, gaia_catalog_id, parse_gaia_id, DiscoveryMethod};
use ymir::names::{parse_alias_table, resolve_target, StarTarget};
use ymir::spectral::{SpectralClass, SpectralType};

/// The alias table in the shape of the committed `common_names.tsv`: a
/// comment header, canonical names, aliases sharing an id, and a few
/// malformed lines that must be skipped.
const COMMON_NAMES_TSV: &str = "# name\tgaia_dr3_source_id\n\
Proxima Centauri\t5853498713190525696\n\
Proxima Cen\t5853498713190525696\n\
Tau Ceti\t2452378776434477184\n\
Epsilon Eridani\t5164707970261890560\n\
\n\
Broken line without tab\n\
Bad Id\tnot-a-number\n";

#[test]
fn alias_table_parses_committed_tsv() {
    let (forward, reverse) = parse_alias_table(COMMON_NAMES_TSV);
    assert!(forward.contains_key("proxima centauri"));
    assert!(forward.contains_key("tau ceti"));
    // Reverse map records a canonical display form.
    assert!(reverse.contains_key(&5853498713190525696));
}

#[test]
fn alias_table_reverse_keeps_first_name_and_skips_bad_lines() {
    let (forward, reverse) = parse_alias_table(COMMON_NAMES_TSV);
    assert_eq!(forward.get("proxima cen"), Some(&5853498713190525696));
    assert_eq!(
        reverse.get(&5853498713190525696).map(|s| s.as_str()),
        Some("Proxima Centauri")
    );
    assert!(!forward.contains_key("bad id"));
    assert!(!forward.contains_key("broken line without tab"));
    assert_eq!(forward.len(), 4);
    assert_eq!(reverse.len(), 3);
}

#[test]
fn resolve_target_handles_sun_digits_and_aliases() {
    let (forward, _) = parse_alias_table(COMMON_NAMES_TSV);
    assert_eq!(resolve_target("  Sol ", &forward), Some(StarTarget::Sun));
    assert_eq!(resolve_target("SUN", &forward), Some(StarTarget::Sun));
    assert_eq!(
        resolve_target("5853498713190525696", &forward),
        Some(StarTarget::GaiaId(5853498713190525696))
    );
    assert_eq!(
        resolve_target("epsilon eridani", &forward),
        Some(StarTarget::GaiaId(5164707970261890560))
    );
    assert_eq!(resolve_target("Vega", &forward), None);
    assert_eq!(resolve_target("   ", &forward), None);
}

#[test]
fn discovery_method_parse() {
    let cases = [
        ("Transit", DiscoveryMethod::Transit),
        ("Radial Velocity", DiscoveryMethod::RadialVelocity),
        ("Imaging", DiscoveryMethod::Imaging),
        ("Microlensing", DiscoveryMethod::Microlensing),
        ("Astrometry", DiscoveryMethod::Astrometry),
        (
            "Transit Timing Variations",
            DiscoveryMethod::TransitTimingVariations,
        ),
    ];
    for (raw, expected) in cases {
        let parsed = DiscoveryMethod::parse(raw);
        assert_eq!(parsed, expected, "parse({raw}) did not match");
        // Round-trip back through the canonical string.
        let canonical = parsed.as_archive_str();
        let reparsed = DiscoveryMethod::parse(canonical);
        assert_eq!(reparsed, expected, "round-trip via {canonical} failed");
    }
    // Case-insensitive parsing.
    assert_eq!(DiscoveryMethod::parse("transit"), DiscoveryMethod::Transit);
    assert_eq!(
        DiscoveryMethod::parse("  RADIAL VELOCITY  "),
        DiscoveryMethod::RadialVelocity
    );
    // Unknown method lands in Other with the trimmed text.
    match DiscoveryMethod::parse("  Pulsar Timing  ") {
        DiscoveryMethod::Other(s) => assert_eq!(s, "Pulsar Timing"),
        other => panic!("expected Other, got {other:?}"),
    }
}

#[test]
fn other_method_round_trips_its_text() {
    let m = DiscoveryMethod::parse("Pulsar Timing");
    assert_eq!(m.as_archive_str(), "Pulsar Timing");
    assert_eq!(DiscoveryMethod::parse(m.as_archive_str()), m);
}

#[test]
fn gaia_id_takes_last_token() {
    assert_eq!(
        parse_gaia_id("Gaia DR3 5284517766615492352"),
        Some(5284517766615492352)
    );
    assert_eq!(parse_gaia_id("  2552925644460225152  "), Some(2552925644460225152));
    assert_eq!(parse_gaia_id(""), None);
    assert_eq!(parse_gaia_id("   "), None);
    assert_eq!(parse_gaia_id("Gaia DR3 abc"), None);
    assert_eq!(parse_gaia_id("Gaia DR3 99999999999999999999"), None);
}

#[test]
fn spectral_type_display() {
    let st = SpectralType {
        class: SpectralClass::G,
        subtype: 2,
        luminosity_class: "V".to_string(),
    };
    assert_eq!(st.to_string(), "G2V");

    let st2 = SpectralType {
        class: SpectralClass::M,
        subtype: 3,
        luminosity_class: "V".to_string(),
    };
    assert_eq!(st2.to_string(), "M3V");

    let st3 = SpectralType {
        class: SpectralClass::K,
        subtype: 5,
        luminosity_class: "III".to_string(),
    };
    assert_eq!(st3.to_string(), "K5III");
}

#[test]
fn spectral_class_letters() {
    assert_eq!(SpectralClass::O.to_string(), "O");
    assert_eq!(SpectralClass::M.letter(), 'M');
    let st = SpectralType {
        class: SpectralClass::A,
        subtype: 10,
        luminosity_class: String::new(),
    };
    assert_eq!(st.to_string(), "A10");
}

#[test]
fn gaia_schema_check_reports_first_missing_column() {
    let all: Vec<String> = [
        "source_id",
        "ra",
        "dec",
        "parallax",
        "parallax_error",
        "teff_gspphot",
        "lum_flame",
        "mh_gspphot",
    ]
    .iter()
    .map(|s| s.to_string())
    .collect();
    assert_eq!(missing_column(&all), None);
    let partial: Vec<String> = ["ra", "source_id", "dec", "lum_flame"]
        .iter()
        .map(|s| s.to_string())
        .collect();
    assert_eq!(missing_column(&partial), Some("parallax"));
    assert_eq!(missing_column(&Vec::new()), Some("source_id"));
}

#[test]
fn catalog_id_formats_and_parses_back() {
    assert_eq!(gaia_catalog_id(5853498713160606720), "Gaia DR3 5853498713160606720");
    assert_eq!(gaia_catalog_id(0), "Gaia DR3 0");
    assert_eq!(parse_gaia_id(&gaia_catalog_id(42)), Some(42));
    assert_eq!(parse_gaia_id(&gaia_catalog_id(u64::MAX)), Some(u64::MAX));
}

#[test]
fn comment_lines_above_the_header_are_measured() {
    let text = "# This is a NASA Archive comment line\n# Query: select * from pscomppars\npl_name,hostname\nTOI-700 d,TOI-700\n";
    let skip = comment_header_len(text.as_bytes());
    assert_eq!(&text[skip..], "pl_name,hostname\nTOI-700 d,TOI-700\n");
    assert_eq!(comment_header_len(b"pl_name\n# not a header comment\n"), 0);
    assert_eq!(comment_header_len(b"# only a comment"), 16);
    assert_eq!(comment_header_len(b""), 0);
    assert_eq!(comment_header_len(b"#a\n#b\n"), 6);
}
