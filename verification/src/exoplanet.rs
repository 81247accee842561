//! Vocabulary of the NASA Exoplanet Archive: discovery methods and the Gaia
//! source-ID column.

use vstd::prelude::*;
use crate::text::{trim_end, trim_start, ascii_lowercase, chars_of, decimal, is_digit, is_white_space, law_decimal_round_trip, lemma_decimal_digits, lowercase_string, parse_u64, parse_u64_spec, push_decimal, slice_equals, string_of, substring, trailing_token, trailing_token_start, trim, trim_bounds};

verus! {

/// How an exoplanet was detected. Mirrors the Archive's `discoverymethod`
/// column values.
#[derive(Clone, Debug, PartialEq, Eq)]
pub enum DiscoveryMethod {
    /// Periodic brightness dip as the planet crosses its host star.
    Transit,
    /// Reflex motion of the host star in radial velocity.
    RadialVelocity,
    /// Direct imaging (photons from the planet itself).
    Imaging,
    /// Gravitational microlensing signature.
    Microlensing,
    /// Astrometric wobble of the host star.
    Astrometry,
    /// Transit timing variation.
    TransitTimingVariations,
    /// Any other or less-common method; the trimmed raw text is preserved.
    Other(String),
}

/// The named method whose lower-case Archive spellings include `lower`, if
/// any.
pub open spec fn named_method(lower: Seq<char>) -> Option<DiscoveryMethod> {
    if lower == "transit"@ {
        Some(DiscoveryMethod::Transit)
    } else if lower == "radial velocity"@ {
        Some(DiscoveryMethod::RadialVelocity)
    } else if lower == "imaging"@ || lower == "direct imaging"@ {
        Some(DiscoveryMethod::Imaging)
    } else if lower == "microlensing"@ {
        Some(DiscoveryMethod::Microlensing)
    } else if lower == "astrometry"@ {
        Some(DiscoveryMethod::Astrometry)
    } else if lower == "transit timing variations"@ || lower == "ttv"@ {
        Some(DiscoveryMethod::TransitTimingVariations)
    } else {
        None
    }
}

/// The canonical Archive spelling of a method (the raw text for `Other`).
pub open spec fn archive_name(m: DiscoveryMethod) -> Seq<char> {
    match m {
        DiscoveryMethod::Transit => "Transit"@,
        DiscoveryMethod::RadialVelocity => "Radial Velocity"@,
        DiscoveryMethod::Imaging => "Imaging"@,
        DiscoveryMethod::Microlensing => "Microlensing"@,
        DiscoveryMethod::Astrometry => "Astrometry"@,
        DiscoveryMethod::TransitTimingVariations => "Transit Timing Variations"@,
        DiscoveryMethod::Other(s) => s@,
    }
}

/// What `DiscoveryMethod::parse` returns for raw text `raw`, given as the
/// named method (if the trimmed, lower-cased text names one) or `None` for
/// the `Other` case.
pub open spec fn parsed_method(raw: Seq<char>) -> Option<DiscoveryMethod> {
    named_method(ascii_lowercase(trim(raw)))
}

impl DiscoveryMethod {
    /// Parse a raw `discoverymethod` string from the Archive. Matching is
    /// case-insensitive and tolerates surrounding whitespace. Unrecognized
    /// values land in [`DiscoveryMethod::Other`] with the trimmed text.
    pub fn parse(raw: &str) -> (r: DiscoveryMethod)
        ensures
            match parsed_method(raw@) {
                Some(m) => r == m,
                None => r matches DiscoveryMethod::Other(s) && s@ == trim(raw@),
            },
    {
        let v = chars_of(raw);
        let n = v.len();
        let (a, b) = trim_bounds(&v, 0, n);
        assert(v@.subrange(0, n as int) =~= v@);
        let lower_s = lowercase_string(&v, a, b);
        let lower = chars_of(lower_s.as_str());
        let m = lower.len();
        assert(lower@.subrange(0, m as int) =~= lower@);
        assert(lower@ == ascii_lowercase(trim(raw@)));
        if slice_equals(&lower, 0, m, "transit") {
            DiscoveryMethod::Transit
        } else if slice_equals(&lower, 0, m, "radial velocity") {
            DiscoveryMethod::RadialVelocity
        } else if slice_equals(&lower, 0, m, "imaging") || slice_equals(&lower, 0, m, "direct imaging") {
            DiscoveryMethod::Imaging
        } else if slice_equals(&lower, 0, m, "microlensing") {
            DiscoveryMethod::Microlensing
        } else if slice_equals(&lower, 0, m, "astrometry") {
            DiscoveryMethod::Astrometry
        } else if slice_equals(&lower, 0, m, "transit timing variations") || slice_equals(
            &lower,
            0,
            m,
            "ttv",
        ) {
            DiscoveryMethod::TransitTimingVariations
        } else {
            DiscoveryMethod::Other(substring(&v, a, b))
        }
    }

    /// Canonical string form, matching the Archive vocabulary.
    pub fn as_archive_str(&self) -> (r: &str)
        ensures
            r@ == archive_name(*self),
    {
        match self {
            DiscoveryMethod::Transit => "Transit",
            DiscoveryMethod::RadialVelocity => "Radial Velocity",
            DiscoveryMethod::Imaging => "Imaging",
            DiscoveryMethod::Microlensing => "Microlensing",
            DiscoveryMethod::Astrometry => "Astrometry",
            DiscoveryMethod::TransitTimingVariations => "Transit Timing Variations",
            DiscoveryMethod::Other(s) => s.as_str(),
        }
    }
}

/// What `parse_gaia_id` returns for the Archive's `gaia_id` text: the last
/// whitespace-separated token of the trimmed text, parsed as a `u64`.
pub open spec fn gaia_id_spec(raw: Seq<char>) -> Option<u64> {
    let t = trim(raw);
    if t.len() == 0 {
        None
    } else {
        parse_u64_spec(trailing_token(t))
    }
}

/// Extract the numeric `source_id` from an Archive `gaia_id` string like
/// "Gaia DR3 2552925644460225152". Returns `None` for empty or unparseable
/// values.
pub fn parse_gaia_id(raw: &str) -> (r: Option<u64>)
    ensures
        r == gaia_id_spec(raw@),
{
    let v = chars_of(raw);
    let n = v.len();
    let (a, b) = trim_bounds(&v, 0, n);
    assert(v@.subrange(0, n as int) =~= v@);
    if a == b {
        return None;
    }
    let start = trailing_token_start(&v, a, b);
    parse_u64(&v, start, b)
}

} // verus!

verus! {

/// Parsing the canonical spelling of a named method gives back that method.
pub proof fn law_archive_name_round_trip(m: DiscoveryMethod)
    requires
        !(m is Other),
    ensures
        parsed_method(archive_name(m)) == Some(m),
{
    reveal_strlit("Transit");
    reveal_strlit("Radial Velocity");
    reveal_strlit("Imaging");
    reveal_strlit("Microlensing");
    reveal_strlit("Astrometry");
    reveal_strlit("Transit Timing Variations");
    reveal_strlit("transit");
    reveal_strlit("radial velocity");
    reveal_strlit("imaging");
    reveal_strlit("direct imaging");
    reveal_strlit("microlensing");
    reveal_strlit("astrometry");
    reveal_strlit("transit timing variations");
    reveal_strlit("ttv");
    let name = archive_name(m);
    assert(trim_start(name) == name);
    assert(trim_end(name) == name);
    match m {
        DiscoveryMethod::Transit => {
            assert(ascii_lowercase(name) =~= "transit"@);
            assert(parsed_method(archive_name(m)) == Some(m));
        },
        DiscoveryMethod::RadialVelocity => {
            assert(ascii_lowercase(name) =~= "radial velocity"@);
            assert(parsed_method(archive_name(m)) == Some(m));
        },
        DiscoveryMethod::Imaging => {
            assert(ascii_lowercase(name) =~= "imaging"@);
            assert("imaging"@[0] != "transit"@[0]);
            assert(parsed_method(archive_name(m)) == Some(m));
        },
        DiscoveryMethod::Microlensing => {
            assert(ascii_lowercase(name) =~= "microlensing"@);
            assert(parsed_method(archive_name(m)) == Some(m));
        },
        DiscoveryMethod::Astrometry => {
            assert(ascii_lowercase(name) =~= "astrometry"@);
            assert(parsed_method(archive_name(m)) == Some(m));
        },
        DiscoveryMethod::TransitTimingVariations => {
            assert(ascii_lowercase(name) =~= "transit timing variations"@);
            assert(ascii_lowercase(name) != "transit"@);
            assert(parsed_method(archive_name(m)) == Some(m));
        },
        DiscoveryMethod::Other(_) => {},
    }
}

/// Each named method comes only from its listed spellings, compared after
/// trimming and ASCII lower-casing: transit from "transit", radial velocity
/// from "radial velocity", imaging from "imaging" or "direct imaging",
/// microlensing from "microlensing", astrometry from "astrometry", and
/// transit timing variations from "transit timing variations" or "ttv";
/// every other text is left to `Other`.
pub proof fn law_methods_have_listed_spellings(raw: Seq<char>)
    ensures
        ({
            let l = ascii_lowercase(trim(raw));
            &&& (parsed_method(raw) == Some(DiscoveryMethod::Transit)) <==> l == "transit"@
            &&& (parsed_method(raw) == Some(DiscoveryMethod::RadialVelocity)) <==> l
                == "radial velocity"@
            &&& (parsed_method(raw) == Some(DiscoveryMethod::Imaging)) <==> (l == "imaging"@ || l
                == "direct imaging"@)
            &&& (parsed_method(raw) == Some(DiscoveryMethod::Microlensing)) <==> l
                == "microlensing"@
            &&& (parsed_method(raw) == Some(DiscoveryMethod::Astrometry)) <==> l == "astrometry"@
            &&& (parsed_method(raw) == Some(DiscoveryMethod::TransitTimingVariations)) <==> (l
                == "transit timing variations"@ || l == "ttv"@)
            &&& (parsed_method(raw) is None) <==> !(l == "transit"@ || l == "radial velocity"@ || l
                == "imaging"@ || l == "direct imaging"@ || l == "microlensing"@ || l
                == "astrometry"@ || l == "transit timing variations"@ || l == "ttv"@)
            &&& !(parsed_method(raw) matches Some(DiscoveryMethod::Other(_)))
        }),
{
    reveal_strlit("transit");
    reveal_strlit("radial velocity");
    reveal_strlit("imaging");
    reveal_strlit("direct imaging");
    reveal_strlit("microlensing");
    reveal_strlit("astrometry");
    reveal_strlit("transit timing variations");
    reveal_strlit("ttv");
    let l = ascii_lowercase(trim(raw));
    let names = seq![
        "transit"@,
        "radial velocity"@,
        "imaging"@,
        "direct imaging"@,
        "microlensing"@,
        "astrometry"@,
        "transit timing variations"@,
        "ttv"@,
    ];
    assert("imaging"@[0] != "transit"@[0]);
    assert forall|i: int, j: int| 0 <= i < j < 8 implies names[i] != names[j] by {
        if names[i].len() == names[j].len() {
            assert(names[i][0] != names[j][0]);
        }
    }
    assert(names[0] != names[2]);
}

/// An `Other` method whose text is already trimmed and names no known
/// method parses back to `Other` with the same text.
pub proof fn law_other_round_trip(s: String)
    requires
        trim(s@) == s@,
        named_method(ascii_lowercase(s@)) is None,
    ensures
        parsed_method(archive_name(DiscoveryMethod::Other(s))) is None,
        trim(archive_name(DiscoveryMethod::Other(s))) == s@,
{
}

} // verus!

verus! {

/// The catalog identifier of a Gaia DR3 source: `Gaia DR3 ` and the source
/// ID in decimal.
pub open spec fn gaia_catalog_id_of(gaia_id: u64) -> Seq<char> {
    "Gaia DR3 "@ + decimal(gaia_id as nat)
}

/// Format a Gaia DR3 source ID as its catalog identifier, e.g.
/// "Gaia DR3 5853498713160606720".
pub fn gaia_catalog_id(gaia_id: u64) -> (r: String)
    ensures
        r@ == gaia_catalog_id_of(gaia_id),
{
    let mut s = string_of(&chars_of("Gaia DR3 "));
    push_decimal(&mut s, gaia_id);
    s
}

proof fn lemma_token_after(q: Seq<char>, d: Seq<char>)
    requires
        forall|i: int| 0 <= i < d.len() ==> !is_white_space(#[trigger] d[i]),
    ensures
        trailing_token(q + d) == trailing_token(q) + d,
    decreases d.len(),
{
    if d.len() == 0 {
        assert(q + d =~= q);
        assert(trailing_token(q) + d =~= trailing_token(q));
    } else {
        let p = d.drop_last();
        lemma_token_after(q, p);
        assert((q + d).drop_last() =~= q + p);
        assert((q + d).last() == d.last());
        assert(!is_white_space(d[d.len() - 1]));
        assert((trailing_token(q) + p).push(d.last()) =~= trailing_token(q) + d);
    }
}

/// Reading the source ID back out of a catalog identifier gives the ID.
pub proof fn law_catalog_id_round_trip(gaia_id: u64)
    ensures
        gaia_id_spec(gaia_catalog_id_of(gaia_id)) == Some(gaia_id),
{
    reveal_strlit("Gaia DR3 ");
    let p = "Gaia DR3 "@;
    let d = decimal(gaia_id as nat);
    let s = p + d;
    lemma_decimal_digits(gaia_id as nat);
    law_decimal_round_trip(gaia_id);
    assert(s[0] == 'G');
    assert(trim_start(s) == s);
    assert(s.last() == d[d.len() - 1]);
    assert(is_digit(d[d.len() - 1]));
    assert(trim_end(s) == s);
    assert(trim(s) == s);
    assert forall|i: int| 0 <= i < d.len() implies !is_white_space(#[trigger] d[i]) by {
        assert(is_digit(d[i]));
    }
    lemma_token_after(p, d);
    assert(p.last() == ' ');
    assert(trailing_token(p) =~= Seq::<char>::empty());
    assert(trailing_token(s) =~= d);
}

} // verus!


verus! {

/// A line of `b` starts at `i`: the start of the text or just after a
/// newline.
pub open spec fn line_start(b: Seq<u8>, i: int) -> bool {
    i == 0 || (0 < i <= b.len() && b[i - 1] == 10u8)
}

/// Length of the leading block of `#` comment lines: the first line that
/// does not start with `#` begins right after it (or it reaches the end).
pub open spec fn comment_header(b: Seq<u8>, r: int) -> bool {
    &&& 0 <= r <= b.len()
    &&& (line_start(b, r) || r == b.len())
    &&& forall|i: int| 0 <= i < r && #[trigger] line_start(b, i) ==> b[i] == 35u8
    &&& r < b.len() ==> b[r] != 35u8
}

/// Number of leading bytes taken up by `#` comment lines (each with its
/// newline), which the Archive writes above the CSV header.
pub fn comment_header_len(b: &[u8]) -> (r: usize)
    ensures
        comment_header(b@, r as int),
{
    let n = b.len();
    let mut i: usize = 0;
    while i < n && b[i] == 35u8
        invariant
            n == b@.len(),
            i <= n,
            line_start(b@, i as int) || i == n,
            forall|k: int| 0 <= k < i && #[trigger] line_start(b@, k) ==> b@[k] == 35u8,
        decreases n - i,
    {
        let start = i;
        i = i + 1;
        while i < n && b[i - 1] != 10u8
            invariant
                n == b@.len(),
                start < i <= n,
                b@[start as int] == 35u8,
                line_start(b@, start as int),
                forall|k: int| start <= k < i - 1 ==> #[trigger] b@[k] != 10u8,
                forall|k: int| 0 <= k < start && #[trigger] line_start(b@, k) ==> b@[k] == 35u8,
            decreases n - i,
        {
            i = i + 1;
        }
        assert forall|k: int| 0 <= k < i && #[trigger] line_start(b@, k) implies b@[k] == 35u8 by {
            if k > start {
                let p = k - 1;
                assert(b@[p] != 10u8);
            }
        }
    }
    i
}

} // verus!
