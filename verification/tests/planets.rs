use ymir::archive::archive_rows;
use ymir::planets::record_range;
use ymir::planets::{lookup_key, planet_label, planet_letter, PlanetHost, PlanetIndex};

fn host(name: &str, gaia: Option<u64>) -> PlanetHost {
    PlanetHost {
        host_name: name.to_string(),
        gaia_id: gaia,
    }
}

#[test]
fn planet_letter_prefers_the_letter_column() {
    assert_eq!(planet_letter(" d ", "TOI-700 d", "TOI-700"), "d");
}

#[test]
fn planet_letter_falls_back_to_the_planet_name() {
    assert_eq!(planet_letter("", "HD 10180 b", "HD 10180"), "b");
    assert_eq!(planet_letter("   ", "  Kepler-22 b  ", " Kepler-22 "), "b");
}

#[test]
fn planet_letter_is_empty_when_nothing_fits() {
    assert_eq!(planet_letter("", "Kepler-22 b", "TOI-700"), "");
    assert_eq!(planet_letter("", "", "TOI-700"), "");
    assert_eq!(planet_letter("", "TOI-700 d", ""), "");
}

#[test]
fn lookup_key_trims_and_lowercases() {
    assert_eq!(lookup_key("  TRAPPIST-1 "), "trappist-1");
    assert_eq!(lookup_key("Tau Ceti"), "tau ceti");
}

#[test]
fn lookup_by_name_returns_all_planets() {
    let rows = vec![
        host("TRAPPIST-1", Some(2635476908753563008)),
        host("TRAPPIST-1", Some(2635476908753563008)),
        host("TOI-700", Some(5284517766615850752)),
        host("TRAPPIST-1", Some(2635476908753563008)),
    ];
    let index = PlanetIndex::build(&rows);
    assert_eq!(index.host_positions("TRAPPIST-1"), vec![0, 1, 3]);
    assert_eq!(index.host_positions("toi-700"), vec![2]);
    assert!(index.host_positions("Vega").is_empty());
}

#[test]
fn case_insensitive_host_lookup() {
    let csv = "pl_name,hostname,pl_letter,discoverymethod,pl_orbper,pl_orbsmax,pl_bmasse,pl_rade,disc_year,gaia_id\n\
               HD 10180 b,HD 10180,b,Radial Velocity,1.18,0.02,1.4,,2010,\n";
    let rows = match archive_rows(csv.as_bytes()) {
        Ok(rows) => rows,
        Err(_) => panic!("parse"),
    };
    let hosts: Vec<PlanetHost> = rows
        .iter()
        .map(|r| host(&r.host_name, r.gaia_id))
        .collect();
    let index = PlanetIndex::build(&hosts);
    assert_eq!(index.host_positions("HD 10180").len(), 1);
    assert_eq!(index.host_positions("hd 10180").len(), 1);
    assert_eq!(index.host_positions("  HD 10180  ").len(), 1);
    assert_eq!(index.host_positions("hd 99999").len(), 0);
}

#[test]
fn host_lookup_ignores_case_and_spaces() {
    let rows = vec![host("Kepler-22", None)];
    let index = PlanetIndex::build(&rows);
    assert_eq!(index.host_positions("  kEpLeR-22 "), vec![0]);
    assert!(index.gaia_positions(1).is_empty());
}

#[test]
fn lookup_by_gaia_id_when_present() {
    let rows = vec![
        host("A", Some(7)),
        host("B", None),
        host("C", Some(7)),
        host("D", Some(9)),
    ];
    let index = PlanetIndex::build(&rows);
    assert_eq!(index.gaia_positions(7), vec![0, 2]);
    assert_eq!(index.gaia_positions(9), vec![3]);
    assert!(index.gaia_positions(8).is_empty());
}

#[test]
fn hosts_sharing_a_gaia_id_become_aliases() {
    let rows = vec![
        host("GJ 551", Some(5853498713190525696)),
        host("Proxima Cen", Some(5853498713190525696)),
        host("gj 551", Some(5853498713190525696)),
        host("Barnard's Star", Some(4472832130942575872)),
    ];
    let index = PlanetIndex::build(&rows);
    assert_eq!(index.host_positions("GJ 551"), vec![0, 2, 1]);
    assert_eq!(index.host_positions("proxima cen"), vec![1, 0, 2]);
    assert_eq!(index.host_positions("Barnard's Star"), vec![3]);
}

#[test]
fn contiguous_positions_give_the_whole_run() {
    assert_eq!(record_range(&vec![4, 5, 6]), Some((4, 7)));
    assert_eq!(record_range(&vec![9]), Some((9, 10)));
    assert_eq!(record_range(&vec![]), None);
    // A shuffled (aliased) run is handed out position by position instead.
    assert_eq!(record_range(&vec![0, 2, 1]), None);
    assert_eq!(record_range(&vec![3, 5]), None);
}

#[test]
fn restored_catalog_index_has_no_alias_merging() {
    let rows = vec![
        host("GJ 551", Some(5853498713190525696)),
        host("Proxima Cen", Some(5853498713190525696)),
    ];
    let plain = PlanetIndex::unmerged(&rows);
    assert_eq!(plain.host_positions("gj 551"), vec![0]);
    assert_eq!(plain.host_positions("Proxima Cen"), vec![1]);
    assert_eq!(plain.gaia_positions(5853498713190525696), vec![0, 1]);
}

#[test]
fn planet_labels_join_host_and_letter() {
    assert_eq!(planet_label("TRAPPIST-1", "e"), "TRAPPIST-1 e");
    assert_eq!(planet_label("HD 10180", ""), "HD 10180");
    assert_eq!(planet_label("", "b"), " b");
}
