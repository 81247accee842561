use ymir::archive::{archive_rows, ArchiveError, ArchiveRow};
use ymir::exoplanet::DiscoveryMethod;

const HEADER: &str =
    "pl_name,hostname,pl_letter,discoverymethod,pl_orbper,pl_orbsmax,pl_bmasse,pl_rade,disc_year,gaia_id\n";

fn rows_of(csv: &str) -> Vec<ArchiveRow> {
    match archive_rows(csv.as_bytes()) {
        Ok(rows) => rows,
        Err(_) => panic!("parse"),
    }
}

#[test]
fn comment_header_is_skipped() {
    let csv = format!(
        "# This is a NASA Archive comment line\n\
         # Query: select * from pscomppars\n\
         {HEADER}\
         TOI-700 d,TOI-700,d,Transit,37.4,0.163,1.72,1.07,2020,Gaia DR3 5284517766615492352\n"
    );
    let rows = rows_of(&csv);
    assert_eq!(rows.len(), 1);
    let rec = &rows[0];
    assert_eq!(rec.host_name, "TOI-700");
    assert_eq!(rec.planet_letter, "d");
    assert_eq!(rec.gaia_id, Some(5284517766615492352));
}

#[test]
fn missing_columns_handled_without_panic() {
    let csv = format!(
        "{HEADER}\
         Foo b,Foo,b,Transit,,,,,,\n\
         Bar c,Bar,c,Radial Velocity,null,null,null,null,null,null\n"
    );
    let rows = rows_of(&csv);
    assert_eq!(rows.len(), 2);
    let foo = &rows[0];
    assert_eq!(foo.host_name, "Foo");
    assert!(foo.orbital_period_days.is_none());
    assert!(foo.semi_major_axis_au.is_none());
    assert!(foo.planet_mass_earth.is_none());
    assert!(foo.planet_radius_earth.is_none());
    assert!(foo.discovery_year.is_none());
    assert!(foo.gaia_id.is_none());
    let bar = &rows[1];
    assert_eq!(bar.host_name, "Bar");
    assert!(bar.orbital_period_days.is_none());
    assert!(bar.gaia_id.is_none());
}

#[test]
fn numeric_cells_stay_trimmed_text() {
    let csv = format!(
        "{HEADER}\
         TOI-700 d, TOI-700 ,,transit, 37.4 ,0.163,NULL,1.07,2020.0,\n"
    );
    let rows = rows_of(&csv);
    assert_eq!(rows.len(), 1);
    let rec = &rows[0];
    assert_eq!(rec.host_name, "TOI-700");
    assert_eq!(rec.planet_letter, "d");
    assert_eq!(rec.discovery_method, DiscoveryMethod::Transit);
    assert_eq!(rec.orbital_period_days.as_deref(), Some("37.4"));
    assert_eq!(rec.semi_major_axis_au.as_deref(), Some("0.163"));
    assert_eq!(rec.planet_mass_earth, None);
    assert_eq!(rec.planet_radius_earth.as_deref(), Some("1.07"));
    assert_eq!(rec.discovery_year.as_deref(), Some("2020.0"));
    assert_eq!(rec.gaia_id, None);
}

#[test]
fn rows_without_a_host_are_dropped() {
    let csv = format!(
        "{HEADER}\
         Orphan b,   ,b,Imaging,,,,,,\n\
         Kepler-22 b,Kepler-22,b,Pulsar Timing,289.9,,,,2011,\n"
    );
    let rows = rows_of(&csv);
    assert_eq!(rows.len(), 1);
    assert_eq!(rows[0].host_name, "Kepler-22");
    assert_eq!(
        rows[0].discovery_method,
        DiscoveryMethod::Other("Pulsar Timing".to_string())
    );
}

#[test]
fn columns_are_found_by_header_name() {
    let csv = "gaia_id,extra,hostname,pl_name\n\
               Gaia DR3 42,ignored,HD 10180,HD 10180 c\n";
    let rows = rows_of(csv);
    assert_eq!(rows.len(), 1);
    assert_eq!(rows[0].host_name, "HD 10180");
    assert_eq!(rows[0].planet_letter, "c");
    assert_eq!(rows[0].gaia_id, Some(42));
    assert!(rows[0].orbital_period_days.is_none());
    assert_eq!(rows[0].discovery_method, DiscoveryMethod::Other(String::new()));
}

#[test]
fn empty_input_and_header_only_give_no_rows() {
    assert!(rows_of("").is_empty());
    assert!(rows_of("# only a comment\n").is_empty());
    assert!(rows_of(HEADER).is_empty());
}

#[test]
fn short_row_without_a_text_cell_is_malformed() {
    let csv = format!("{HEADER}Foo b,Foo,b,Transit,1,2,3,4,2000,Gaia DR3 1\nBar c\n");
    assert!(matches!(
        archive_rows(csv.as_bytes()),
        Err(ArchiveError::MalformedRow(1))
    ));
}

#[test]
fn short_row_missing_only_numeric_cells_is_read() {
    let csv = "hostname,pl_orbper,pl_rade\nFoo\n";
    let rows = rows_of(csv);
    assert_eq!(rows.len(), 1);
    assert_eq!(rows[0].host_name, "Foo");
    assert!(rows[0].orbital_period_days.is_none());
    assert!(rows[0].planet_radius_earth.is_none());
}

#[test]
fn repeated_column_makes_every_row_malformed() {
    let csv = "hostname,pl_name,hostname\nFoo,Foo b,Foo\n";
    assert!(matches!(
        archive_rows(csv.as_bytes()),
        Err(ArchiveError::MalformedRow(0))
    ));
}

#[test]
fn reader_error_reports_the_row_it_stopped_at() {
    let mut bytes = HEADER.as_bytes().to_vec();
    bytes.extend_from_slice(b"Foo b,Foo,b,Transit,,,,,,\n");
    bytes.extend_from_slice(b"Bar \xff c,Bar,c,Transit,,,,,,\n");
    match archive_rows(&bytes) {
        Err(ArchiveError::Records { row, message }) => {
            assert_eq!(row, 1);
            assert!(!message.is_empty());
        }
        _ => panic!("expected a reader error"),
    }
}
