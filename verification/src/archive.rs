//! Rows of a NASA Exoplanet Archive CSV export: the comment block above the
//! header is skipped, the CSV is split into records by the `csv` crate, the
//! columns are found by header name, rows without a host are dropped, and
//! each kept row gets its host, planet letter, discovery method and Gaia
//! source ID. Numeric cells stay text; turning them into numbers is the
//! caller's floating-point work.

use vstd::prelude::*;
use crate::exoplanet::{
    comment_header, comment_header_len, gaia_id_spec, parse_gaia_id, parsed_method, DiscoveryMethod,
};
use crate::planets::{planet_letter, planet_letter_of};
use crate::text::{
    ascii_lowercase, chars_of, lemma_trim_ends, lemma_trim_fixed, lowercase_string, slice_equals,
    substring, trim, trim_bounds,
};

verus! {

// ---------------------------------------------------------------------------
// Records from the csv crate
// ---------------------------------------------------------------------------

/// What the `csv` crate reads out of `bytes` (no header handling, flexible
/// record lengths, every field trimmed): the fields of the records it read,
/// in order, and the message of the error that stopped it, if one did.
pub uninterp spec fn csv_records_of(bytes: Seq<u8>) -> (Seq<Seq<Seq<char>>>, Option<Seq<char>>);

/// The characters of each string.
pub open spec fn strings_view(v: Seq<String>) -> Seq<Seq<char>> {
    v.map_values(|s: String| s@)
}

/// The characters of each field of each record.
pub open spec fn records_view(v: Seq<Vec<String>>) -> Seq<Seq<Seq<char>>> {
    v.map_values(|r: Vec<String>| strings_view(r@))
}

/// Calls `csv::ReaderBuilder` with `has_headers(false)`, `flexible(true)`
/// and `trim(csv::Trim::All)` over `bytes` and collects the records as
/// strings until the reader is exhausted or fails. The trusted claim is
/// that the outcome depends on the bytes alone; the records and the error's
/// `Display` text are named by [`csv_records_of`].
#[verifier::external_body]
fn csv_records(bytes: &[u8]) -> (r: (Vec<Vec<String>>, Option<String>))
    ensures
        csv_records_of(bytes@) == (records_view(r.0@), opt_view(r.1)),
{
    let mut reader = csv::ReaderBuilder::new().has_headers(false).flexible(true).trim(
        csv::Trim::All,
    ).from_reader(bytes);
    let mut rows: Vec<Vec<String>> = Vec::new();
    for record in reader.records() {
        match record {
            Ok(fields) => rows.push(fields.iter().map(String::from).collect()),
            Err(e) => return (rows, Some(e.to_string())),
        }
    }
    (rows, None)
}

// ---------------------------------------------------------------------------
// The comment block
// ---------------------------------------------------------------------------

/// Where the comment block above the CSV header ends.
pub open spec fn comment_skip(b: Seq<u8>) -> int {
    choose|r: int| comment_header(b, r)
}

proof fn lemma_comment_header_unique(b: Seq<u8>, r: int)
    requires
        comment_header(b, r),
    ensures
        comment_skip(b) == r,
{
    let q = comment_skip(b);
    assert(comment_header(b, q));
    if q < r {
        assert(line_start_or_end(b, q));
        assert(b[q] == 35u8);
    } else if r < q {
        assert(line_start_or_end(b, r));
        assert(b[r] == 35u8);
    }
}

spec fn line_start_or_end(b: Seq<u8>, r: int) -> bool {
    crate::exoplanet::line_start(b, r) || r == b.len()
}

fn bytes_from(b: &[u8], start: usize) -> (r: Vec<u8>)
    requires
        start <= b@.len(),
    ensures
        r@ == b@.subrange(start as int, b@.len() as int),
{
    let mut r: Vec<u8> = Vec::new();
    let mut i = start;
    while i < b.len()
        invariant
            start <= i <= b@.len(),
            r@ == b@.subrange(start as int, i as int),
        decreases b@.len() - i,
    {
        r.push(b[i]);
        assert(b@.subrange(start as int, i + 1) =~= b@.subrange(start as int, i as int).push(b@[i as int]));
        i = i + 1;
    }
    r
}

// ---------------------------------------------------------------------------
// Columns and cells
// ---------------------------------------------------------------------------

/// The first of the first `k` header fields named `name`.
pub open spec fn column_upto(header: Seq<Seq<char>>, name: Seq<char>, k: nat) -> Option<int>
    decreases k,
{
    if k == 0 {
        None
    } else {
        match column_upto(header, name, (k - 1) as nat) {
            Some(c) => Some(c),
            None => if header[k - 1] == name {
                Some(k - 1)
            } else {
                None
            },
        }
    }
}

/// The first header field named `name`, if any.
pub open spec fn column_of(header: Seq<Seq<char>>, name: Seq<char>) -> Option<int> {
    column_upto(header, name, header.len())
}

/// The columns the catalog reads.
pub open spec fn archive_columns() -> Seq<Seq<char>> {
    seq![
        "pl_name"@,
        "hostname"@,
        "pl_letter"@,
        "discoverymethod"@,
        "pl_orbper"@,
        "pl_orbsmax"@,
        "pl_bmasse"@,
        "pl_rade"@,
        "disc_year"@,
        "gaia_id"@,
    ]
}

/// The numeric columns, read as optional numbers.
pub open spec fn numeric_column(name: Seq<char>) -> bool {
    name == "pl_orbper"@ || name == "pl_orbsmax"@ || name == "pl_bmasse"@ || name == "pl_rade"@
        || name == "disc_year"@
}

/// The header field at `p` repeats a column the catalog reads.
pub open spec fn repeated_column(header: Seq<Seq<char>>, p: int) -> bool {
    archive_columns().contains(header[p]) && exists|q: int| 0 <= q < p && header[q] == header[p]
}

/// A data row cannot be read: a column the catalog reads is named twice,
/// or the row stops before a header field that is not a numeric column.
pub open spec fn row_fails(header: Seq<Seq<char>>, row: Seq<Seq<char>>) -> bool {
    exists|p: int|
        0 <= p < header.len() && (repeated_column(header, p) || (p >= row.len()
            && !numeric_column(#[trigger] header[p])))
}

/// The first of the first `k` data rows that cannot be read.
pub open spec fn first_failure(header: Seq<Seq<char>>, data: Seq<Seq<Seq<char>>>, k: nat) -> Option<int>
    decreases k,
{
    if k == 0 {
        None
    } else {
        match first_failure(header, data, (k - 1) as nat) {
            Some(i) => Some(i),
            None => if row_fails(header, data[k - 1]) {
                Some(k - 1)
            } else {
                None
            },
        }
    }
}

/// A row has the cell at column `col`.
pub open spec fn has_cell(row: Seq<Seq<char>>, col: Option<int>) -> bool {
    col matches Some(c) && 0 <= c < row.len()
}

/// A text cell: the cell's text, or empty when the column or the cell is
/// missing.
pub open spec fn text_cell(row: Seq<Seq<char>>, col: Option<int>) -> Seq<char> {
    if has_cell(row, col) {
        row[col->0]
    } else {
        Seq::empty()
    }
}

/// A numeric cell as text: its trimmed text, or nothing when the column or
/// the cell is missing, or the text is empty or `null` in any case.
pub open spec fn numeric_cell(row: Seq<Seq<char>>, col: Option<int>) -> Option<Seq<char>> {
    let t = trim(text_cell(row, col));
    if !has_cell(row, col) || t.len() == 0 || ascii_lowercase(t) == "null"@ {
        None
    } else {
        Some(t)
    }
}

/// A row is kept when its host name is not blank.
pub open spec fn row_kept(header: Seq<Seq<char>>, row: Seq<Seq<char>>) -> bool {
    trim(text_cell(row, column_of(header, "hostname"@))).len() > 0
}

/// The kept rows among the first `k` data rows, in order.
pub open spec fn kept_rows(header: Seq<Seq<char>>, data: Seq<Seq<Seq<char>>>, k: nat) -> Seq<Seq<Seq<char>>>
    decreases k,
{
    if k == 0 {
        Seq::empty()
    } else {
        let rest = kept_rows(header, data, (k - 1) as nat);
        if row_kept(header, data[k - 1]) {
            rest.push(data[k - 1])
        } else {
            rest
        }
    }
}

// ---------------------------------------------------------------------------
// Rows
// ---------------------------------------------------------------------------

/// One kept Archive row, with its numeric cells still as text.
pub struct ArchiveRow {
    pub host_name: String,
    pub planet_letter: String,
    pub discovery_method: DiscoveryMethod,
    pub orbital_period_days: Option<String>,
    pub semi_major_axis_au: Option<String>,
    pub planet_mass_earth: Option<String>,
    pub planet_radius_earth: Option<String>,
    pub discovery_year: Option<String>,
    pub gaia_id: Option<u64>,
}

/// The characters of an optional string.
pub open spec fn opt_view(o: Option<String>) -> Option<Seq<char>> {
    match o {
        Some(s) => Some(s@),
        None => None,
    }
}

/// A discovery method is what `DiscoveryMethod::parse` gives for `raw`.
pub open spec fn method_of(m: DiscoveryMethod, raw: Seq<char>) -> bool {
    match parsed_method(raw) {
        Some(x) => m == x,
        None => m matches DiscoveryMethod::Other(s) && s@ == trim(raw),
    }
}

/// An output row is the reading of `row` under `header`.
pub open spec fn row_read(out: ArchiveRow, header: Seq<Seq<char>>, row: Seq<Seq<char>>) -> bool {
    let col = |name: Seq<char>| column_of(header, name);
    &&& out.host_name@ == trim(text_cell(row, col("hostname"@)))
    &&& out.planet_letter@ == planet_letter_of(
        text_cell(row, col("pl_letter"@)),
        text_cell(row, col("pl_name"@)),
        text_cell(row, col("hostname"@)),
    )
    &&& method_of(out.discovery_method, text_cell(row, col("discoverymethod"@)))
    &&& opt_view(out.orbital_period_days) == numeric_cell(row, col("pl_orbper"@))
    &&& opt_view(out.semi_major_axis_au) == numeric_cell(row, col("pl_orbsmax"@))
    &&& opt_view(out.planet_mass_earth) == numeric_cell(row, col("pl_bmasse"@))
    &&& opt_view(out.planet_radius_earth) == numeric_cell(row, col("pl_rade"@))
    &&& opt_view(out.discovery_year) == numeric_cell(row, col("disc_year"@))
    &&& out.gaia_id == gaia_id_spec(text_cell(row, col("gaia_id"@)))
}

/// Why an export could not be read.
pub enum ArchiveError {
    /// The CSV reader stopped with an error; `row` is the zero-based data
    /// row (header excluded) it was reading.
    Records { row: usize, message: String },
    /// The data row at this zero-based index cannot be read (see
    /// [`row_fails`]).
    MalformedRow(usize),
}

fn same_text(s: &String, lit: &str) -> (r: bool)
    ensures
        r == (s@ == lit@),
{
    let v = chars_of(s.as_str());
    assert(v@.subrange(0, v@.len() as int) =~= v@);
    slice_equals(&v, 0, v.len(), lit)
}

fn find_column(header: &Vec<String>, name: &str) -> (r: Option<usize>)
    ensures
        col_view(r) == column_of(strings_view(header@), name@),
{
    let ghost h = strings_view(header@);
    let mut k: usize = 0;
    while k < header.len()
        invariant
            h == strings_view(header@),
            k <= header@.len(),
            column_upto(h, name@, k as nat) is None,
        decreases header@.len() - k,
    {
        assert(h[k as int] == header@[k as int]@);
        if same_text(&header[k], name) {
            proof {
                lemma_column_found(h, name@, k as nat, h.len());
            }
            return Some(k);
        }
        k = k + 1;
    }
    None
}

proof fn lemma_column_found(h: Seq<Seq<char>>, name: Seq<char>, k: nat, m: nat)
    requires
        k < m <= h.len(),
        column_upto(h, name, k) is None,
        h[k as int] == name,
    ensures
        column_upto(h, name, m) == Some(k as int),
    decreases m,
{
    if m > k + 1 {
        lemma_column_found(h, name, k, (m - 1) as nat);
    }
}

fn same_strings(a: &String, b: &String) -> (r: bool)
    ensures
        r == (a@ == b@),
{
    same_text(a, b.as_str())
}

fn is_archive_column(name: &String) -> (r: bool)
    ensures
        r == archive_columns().contains(name@),
{
    let names = column_names();
    let mut c: usize = 0;
    while c < 10
        invariant
            c <= 10,
            names@.map_values(|s: &str| s@) == archive_columns(),
            forall|q: int| 0 <= q < c ==> archive_columns()[q] != name@,
        decreases 10 - c,
    {
        assert(names@.map_values(|s: &str| s@)[c as int] == names@[c as int]@);
        if same_text(name, names[c]) {
            assert(archive_columns()[c as int] == name@);
            return true;
        }
        c = c + 1;
    }
    false
}

fn is_numeric_column(name: &String) -> (r: bool)
    ensures
        r == numeric_column(name@),
{
    same_text(name, "pl_orbper") || same_text(name, "pl_orbsmax") || same_text(name, "pl_bmasse")
        || same_text(name, "pl_rade") || same_text(name, "disc_year")
}

/// For each header field: whether it repeats a column the catalog reads,
/// and whether it is a numeric column.
fn header_flags(header: &Vec<String>) -> (r: (Vec<bool>, Vec<bool>))
    ensures
        r.0@.len() == header@.len(),
        r.1@.len() == header@.len(),
        forall|p: int| 0 <= p < header@.len() ==> #[trigger] r.0@[p] == repeated_column(strings_view(header@), p),
        forall|p: int| 0 <= p < header@.len() ==> #[trigger] r.1@[p] == numeric_column(strings_view(header@)[p]),
{
    let ghost h = strings_view(header@);
    let mut repeated: Vec<bool> = Vec::new();
    let mut numeric: Vec<bool> = Vec::new();
    let mut p: usize = 0;
    while p < header.len()
        invariant
            h == strings_view(header@),
            p <= header@.len(),
            repeated@.len() == p,
            numeric@.len() == p,
            forall|x: int| 0 <= x < p ==> #[trigger] repeated@[x] == repeated_column(h, x),
            forall|x: int| 0 <= x < p ==> #[trigger] numeric@[x] == numeric_column(h[x]),
        decreases header@.len() - p,
    {
        assert(h[p as int] == header@[p as int]@);
        let mut seen = false;
        let mut q: usize = 0;
        while q < p
            invariant
                h == strings_view(header@),
                p < header@.len(),
                q <= p,
                seen == exists|y: int| 0 <= y < q && h[y] == h[p as int],
            decreases p - q,
        {
            assert(h[q as int] == header@[q as int]@);
            if same_strings(&header[q], &header[p]) {
                seen = true;
            }
            q = q + 1;
        }
        repeated.push(seen && is_archive_column(&header[p]));
        numeric.push(is_numeric_column(&header[p]));
        p = p + 1;
    }
    (repeated, numeric)
}

fn row_cannot_be_read(repeated: &Vec<bool>, numeric: &Vec<bool>, row_len: usize) -> (r: bool)
    requires
        repeated@.len() == numeric@.len(),
    ensures
        r == exists|p: int|
            0 <= p < repeated@.len() && (repeated@[p] || (p >= row_len && !numeric@[p])),
{
    let mut p: usize = 0;
    while p < repeated.len()
        invariant
            repeated@.len() == numeric@.len(),
            p <= repeated@.len(),
            forall|x: int| 0 <= x < p ==> !(repeated@[x] || (x >= row_len && !numeric@[x])),
        decreases repeated@.len() - p,
    {
        if repeated[p] || (p >= row_len && !numeric[p]) {
            return true;
        }
        p = p + 1;
    }
    false
}

fn text_at(row: &Vec<String>, col: Option<usize>) -> (r: String)
    ensures
        r@ == text_cell(strings_view(row@), col_view(col)),
{
    match col {
        Some(c) => if c < row.len() {
            row[c].clone()
        } else {
            String::new()
        },
        None => String::new(),
    }
}

/// A column index as a spec integer.
pub open spec fn col_view(col: Option<usize>) -> Option<int> {
    match col {
        Some(c) => Some(c as int),
        None => None,
    }
}

fn trimmed(s: &String) -> (r: String)
    ensures
        r@ == trim(s@),
{
    let v = chars_of(s.as_str());
    let (a, b) = trim_bounds(&v, 0, v.len());
    assert(v@.subrange(0, v@.len() as int) =~= v@);
    substring(&v, a, b)
}

fn numeric_at(row: &Vec<String>, col: Option<usize>) -> (r: Option<String>)
    ensures
        opt_view(r) == numeric_cell(strings_view(row@), col_view(col)),
{
    let present = match col {
        Some(c) => c < row.len(),
        None => false,
    };
    if !present {
        return None;
    }
    let t = trimmed(&text_at(row, col));
    let v = chars_of(t.as_str());
    if v.len() == 0 {
        return None;
    }
    let lower = lowercase_string(&v, 0, v.len());
    assert(v@.subrange(0, v@.len() as int) =~= v@);
    let lv = chars_of(lower.as_str());
    assert(lv@.subrange(0, lv@.len() as int) =~= lv@);
    if slice_equals(&lv, 0, lv.len(), "null") {
        return None;
    }
    Some(t)
}

/// The columns the catalog reads, in [`archive_columns`] order.
fn column_names() -> (r: [&'static str; 10])
    ensures
        r@.map_values(|s: &str| s@) == archive_columns(),
{
    let r = [
        "pl_name",
        "hostname",
        "pl_letter",
        "discoverymethod",
        "pl_orbper",
        "pl_orbsmax",
        "pl_bmasse",
        "pl_rade",
        "disc_year",
        "gaia_id",
    ];
    assert(r@.map_values(|s: &str| s@) =~= archive_columns());
    r
}

proof fn lemma_failure_stays(header: Seq<Seq<char>>, data: Seq<Seq<Seq<char>>>, k: nat, m: nat, i: int)
    requires
        k <= m,
        first_failure(header, data, k) == Some(i),
    ensures
        first_failure(header, data, m) == Some(i),
    decreases m,
{
    if k < m {
        lemma_failure_stays(header, data, k, (m - 1) as nat, i);
    }
}

/// The result of reading an export's records (see [`archive_rows`]).
pub open spec fn rows_read(recs: Seq<Seq<Seq<char>>>, err: Option<Seq<char>>, r: Result<Vec<ArchiveRow>, ArchiveError>) -> bool {
    if recs.len() == 0 {
        match err {
            Some(m) => r matches Err(ArchiveError::Records { row, message }) && row == 0 && message@ == m,
            None => r matches Ok(rows) && rows@.len() == 0,
        }
    } else {
        let header = recs[0];
        let data = recs.drop_first();
        match first_failure(header, data, data.len()) {
            Some(i) => r matches Err(ArchiveError::MalformedRow(row)) && row == i,
            None => match err {
                Some(m) => r matches Err(ArchiveError::Records { row, message }) && row == data.len()
                    && message@ == m,
                None => r matches Ok(rows) && {
                    let kept = kept_rows(header, data, data.len());
                    &&& rows@.len() == kept.len()
                    &&& forall|i: int|
                        0 <= i < rows@.len() ==> row_read(#[trigger] rows@[i], header, kept[i])
                },
            },
        }
    }
}

/// The rows of an Archive CSV export (see the module documentation): the
/// comment block is skipped, the first record is the header, and the data
/// rows are read in order. It fails at the first data row that cannot be
/// read, else with the reader's error if it stopped early.
pub fn archive_rows(bytes: &[u8]) -> (r: Result<Vec<ArchiveRow>, ArchiveError>)
    ensures
        ({
            let (recs, err) = csv_records_of(bytes@.subrange(comment_skip(bytes@), bytes@.len() as int));
            rows_read(recs, err, r)
        }),
{
    let skip = comment_header_len(bytes);
    proof {
        lemma_comment_header_unique(bytes@, skip as int);
    }
    let body = bytes_from(bytes, skip);
    let (recs, err) = csv_records(body.as_slice());
    let ghost rv = records_view(recs@);
    let ghost ev = opt_view(err);
    assert(csv_records_of(bytes@.subrange(comment_skip(bytes@), bytes@.len() as int)) == (rv, ev));
    if recs.len() == 0 {
        return match err {
            Some(message) => Err(ArchiveError::Records { row: 0, message }),
            None => Ok(Vec::new()),
        };
    }
    let header = &recs[0];
    let ghost h = strings_view(header@);
    assert(rv[0] == h);
    let ghost data = rv.drop_first();
    let (repeated, numeric) = header_flags(header);
    let names = column_names();
    let mut cols: Vec<Option<usize>> = Vec::new();
    let mut c: usize = 0;
    while c < 10
        invariant
            c <= 10,
            h == strings_view(header@),
            names@.map_values(|s: &str| s@) == archive_columns(),
            cols@.len() == c,
            forall|q: int| 0 <= q < c ==> col_view(#[trigger] cols@[q]) == column_of(h, archive_columns()[q]),
        decreases 10 - c,
    {
        assert(names@.map_values(|s: &str| s@)[c as int] == names@[c as int]@);
        let col = find_column(header, names[c]);
        cols.push(col);
        c = c + 1;
    }
    let mut rows: Vec<ArchiveRow> = Vec::new();
    let mut k: usize = 1;
    while k < recs.len()
        invariant
            rv == records_view(recs@),
            ev == opt_view(err),
            csv_records_of(bytes@.subrange(comment_skip(bytes@), bytes@.len() as int)) == (rv, ev),
            h == rv[0],
            h == strings_view(recs@[0]@),
            data == rv.drop_first(),
            1 <= k <= recs@.len(),
            cols@.len() == 10,
            forall|q: int| 0 <= q < 10 ==> col_view(#[trigger] cols@[q]) == column_of(h, archive_columns()[q]),
            repeated@.len() == h.len(),
            numeric@.len() == h.len(),
            forall|p: int| 0 <= p < h.len() ==> #[trigger] repeated@[p] == repeated_column(h, p),
            forall|p: int| 0 <= p < h.len() ==> #[trigger] numeric@[p] == numeric_column(h[p]),
            first_failure(h, data, (k - 1) as nat) is None,
            rows@.len() == kept_rows(h, data, (k - 1) as nat).len(),
            forall|i: int|
                0 <= i < rows@.len() ==> row_read(#[trigger] rows@[i], h, kept_rows(h, data, (k - 1) as nat)[i]),
        decreases recs@.len() - k,
    {
        let row = &recs[k];
        let ghost rs = strings_view(row@);
        assert(data[k - 1] == rs);
        let fails = row_cannot_be_read(&repeated, &numeric, row.len());
        proof {
            if fails {
                let p = choose|p: int|
                    0 <= p < repeated@.len() && (repeated@[p] || (p >= row@.len() && !numeric@[p]));
                assert(0 <= p < h.len() && (repeated_column(h, p) || (p >= rs.len() && !numeric_column(h[p]))));
                assert(row_fails(h, rs));
            } else {
                assert forall|p: int| 0 <= p < h.len() implies !(repeated_column(h, p) || (p >= rs.len()
                    && !numeric_column(#[trigger] h[p]))) by {
                    assert(repeated@[p] == repeated_column(h, p));
                    assert(numeric@[p] == numeric_column(h[p]));
                }
                assert(!row_fails(h, rs));
            }
        }
        if fails {
            proof {
                lemma_failure_stays(h, data, k as nat, data.len(), k - 1);
            }
            return Err(ArchiveError::MalformedRow(k - 1));
        }
        let hostname = text_at(row, cols[1]);
        let host = trimmed(&hostname);
        if host.unicode_len() > 0 {
            let pl_name = text_at(row, cols[0]);
            let pl_letter = text_at(row, cols[2]);
            let method = text_at(row, cols[3]);
            let gaia = text_at(row, cols[9]);
            let out = ArchiveRow {
                host_name: host,
                planet_letter: planet_letter(pl_letter.as_str(), pl_name.as_str(), hostname.as_str()),
                discovery_method: DiscoveryMethod::parse(method.as_str()),
                orbital_period_days: numeric_at(row, cols[4]),
                semi_major_axis_au: numeric_at(row, cols[5]),
                planet_mass_earth: numeric_at(row, cols[6]),
                planet_radius_earth: numeric_at(row, cols[7]),
                discovery_year: numeric_at(row, cols[8]),
                gaia_id: parse_gaia_id(gaia.as_str()),
            };
            proof {
                assert(col_view(cols@[0]) == column_of(h, "pl_name"@));
                assert(col_view(cols@[1]) == column_of(h, "hostname"@));
                assert(col_view(cols@[2]) == column_of(h, "pl_letter"@));
                assert(col_view(cols@[3]) == column_of(h, "discoverymethod"@));
                assert(col_view(cols@[4]) == column_of(h, "pl_orbper"@));
                assert(col_view(cols@[5]) == column_of(h, "pl_orbsmax"@));
                assert(col_view(cols@[6]) == column_of(h, "pl_bmasse"@));
                assert(col_view(cols@[7]) == column_of(h, "pl_rade"@));
                assert(col_view(cols@[8]) == column_of(h, "disc_year"@));
                assert(col_view(cols@[9]) == column_of(h, "gaia_id"@));
                assert(row_read(out, h, rs));
            }
            let ghost before = rows@;
            rows.push(out);
            proof {
                assert(row_kept(h, data[k - 1]));
                assert forall|i: int|
                    0 <= i < rows@.len() implies row_read(#[trigger] rows@[i], h, kept_rows(h, data, k as nat)[i]) by {
                    if i < before.len() {
                        assert(rows@[i] == before[i]);
                    }
                }
            }
        } else {
            assert(!row_kept(h, data[k - 1]));
        }
        k = k + 1;
    }
    assert(recs@.len() - 1 == data.len());
    match err {
        Some(message) => Err(ArchiveError::Records { row: k - 1, message }),
        None => Ok(rows),
    }
}

proof fn lemma_kept_rows(header: Seq<Seq<char>>, data: Seq<Seq<Seq<char>>>, k: nat)
    ensures
        kept_rows(header, data, k).len() <= k,
        forall|i: int|
            0 <= i < kept_rows(header, data, k).len() ==> row_kept(
                header,
                #[trigger] kept_rows(header, data, k)[i],
            ),
    decreases k,
{
    if k > 0 {
        lemma_kept_rows(header, data, (k - 1) as nat);
    }
}

proof fn lemma_trim_idempotent(s: Seq<char>)
    ensures
        trim(trim(s)) == trim(s),
{
    lemma_trim_ends(s);
    lemma_trim_fixed(trim(s));
}

/// What a successful read gives: no more rows than the export has data
/// rows, every row with a non-blank, trimmed host name, and every present
/// numeric cell non-empty, trimmed and not `null` in any case.
pub proof fn law_read_rows_are_hosted(
    recs: Seq<Seq<Seq<char>>>,
    err: Option<Seq<char>>,
    rows: Vec<ArchiveRow>,
)
    requires
        rows_read(recs, err, Ok(rows)),
    ensures
        recs.len() == 0 ==> rows@.len() == 0,
        recs.len() > 0 ==> rows@.len() <= recs.len() - 1,
        err is None || recs.len() == 0,
        forall|i: int|
            0 <= i < rows@.len() ==> (#[trigger] rows@[i]).host_name@.len() > 0 && trim(
                rows@[i].host_name@,
            ) == rows@[i].host_name@,
        forall|i: int|
            0 <= i < rows@.len() ==> ((#[trigger] rows@[i]).orbital_period_days matches Some(t) ==> (
            t@.len() > 0 && trim(t@) == t@ && ascii_lowercase(t@) != "null"@)),
        forall|i: int|
            0 <= i < rows@.len() ==> ((#[trigger] rows@[i]).discovery_year matches Some(t) ==> (
            t@.len() > 0 && trim(t@) == t@ && ascii_lowercase(t@) != "null"@)),
{
    if recs.len() > 0 {
        let header = recs[0];
        let data = recs.drop_first();
        lemma_kept_rows(header, data, data.len());
        let kept = kept_rows(header, data, data.len());
        assert forall|i: int| 0 <= i < rows@.len() implies (#[trigger] rows@[i]).host_name@.len() > 0
            && trim(rows@[i].host_name@) == rows@[i].host_name@ by {
            assert(row_read(rows@[i], header, kept[i]));
            assert(row_kept(header, kept[i]));
            lemma_trim_idempotent(text_cell(kept[i], column_of(header, "hostname"@)));
        }
        assert forall|i: int| 0 <= i < rows@.len() implies ((#[trigger] rows@[i]).orbital_period_days
            matches Some(t) ==> (t@.len() > 0 && trim(t@) == t@ && ascii_lowercase(t@) != "null"@)) by {
            assert(row_read(rows@[i], header, kept[i]));
            lemma_trim_idempotent(text_cell(kept[i], column_of(header, "pl_orbper"@)));
        }
        assert forall|i: int| 0 <= i < rows@.len() implies ((#[trigger] rows@[i]).discovery_year
            matches Some(t) ==> (t@.len() > 0 && trim(t@) == t@ && ascii_lowercase(t@) != "null"@)) by {
            assert(row_read(rows@[i], header, kept[i]));
            lemma_trim_idempotent(text_cell(kept[i], column_of(header, "disc_year"@)));
        }
    }
}

} // verus!
