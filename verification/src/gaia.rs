//! Schema requirements of the Gaia DR3 Parquet extract.

use vstd::prelude::*;

verus! {

/// The columns a Gaia extract must have, in the order they are checked.
pub open spec fn required_columns() -> Seq<Seq<char>> {
    seq![
        "source_id"@,
        "ra"@,
        "dec"@,
        "parallax"@,
        "parallax_error"@,
        "teff_gspphot"@,
        "lum_flame"@,
    ]
}

/// One of the field names is `name`.
pub open spec fn has_column(fields: Seq<String>, name: Seq<char>) -> bool {
    exists|j: int| 0 <= j < fields.len() && (#[trigger] fields[j])@ == name
}

fn has_field(fields: &Vec<String>, name: &str) -> (r: bool)
    ensures
        r == has_column(fields@, name@),
{
    let n = name.unicode_len();
    let mut j: usize = 0;
    while j < fields.len()
        invariant
            n == name@.len(),
            j <= fields@.len(),
            forall|k: int| 0 <= k < j ==> (#[trigger] fields@[k])@ != name@,
        decreases fields@.len() - j,
    {
        let f = fields[j].as_str();
        let m = f.unicode_len();
        let mut same = m == n;
        let mut i: usize = 0;
        while same && i < n
            invariant
                n == name@.len(),
                m == f@.len(),
                same ==> m == n,
                i <= n,
                same ==> forall|q: int| 0 <= q < i ==> f@[q] == name@[q],
                !same ==> f@ != name@,
            decreases n - i,
        {
            if f.get_char(i) != name.get_char(i) {
                same = false;
            }
            i = i + 1;
        }
        if same {
            assert(f@ =~= name@);
            return true;
        }
        j = j + 1;
    }
    false
}

/// The first required column missing from an extract's field names, if
/// any.
pub fn missing_column(fields: &Vec<String>) -> (r: Option<&'static str>)
    ensures
        match r {
            None => forall|c: int|
                0 <= c < required_columns().len() ==> has_column(
                    fields@,
                    #[trigger] required_columns()[c],
                ),
            Some(name) => exists|c: int|
                0 <= c < required_columns().len() && #[trigger] required_columns()[c] == name@
                    && !has_column(fields@, name@) && forall|e: int|
                    0 <= e < c ==> has_column(fields@, #[trigger] required_columns()[e]),
        },
{
    let names: [&'static str; 7] = [
        "source_id",
        "ra",
        "dec",
        "parallax",
        "parallax_error",
        "teff_gspphot",
        "lum_flame",
    ];
    assert(names@.map_values(|s: &str| s@) =~= required_columns());
    let mut c: usize = 0;
    while c < 7
        invariant
            c <= 7,
            names@.map_values(|s: &str| s@) == required_columns(),
            forall|e: int| 0 <= e < c ==> has_column(fields@, #[trigger] required_columns()[e]),
        decreases 7 - c,
    {
        let name = names[c];
        assert(name@ == required_columns()[c as int]) by {
            assert(names@.map_values(|s: &str| s@)[c as int] == names@[c as int]@);
        }
        if !has_field(fields, name) {
            return Some(name);
        }
        c = c + 1;
    }
    None
}

} // verus!
