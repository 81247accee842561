//! Override files: replacement data for pipeline stages, and the checks an
//! override file must pass before it is applied.

use vstd::prelude::*;

verus! {

/// A JSON value of `serde_json`.
#[verifier::external_type_specification]
#[verifier::external_body]
pub struct ExJsonValue(serde_json::Value);

/// A parse error of `serde_json`.
#[verifier::external_type_specification]
#[verifier::external_body]
pub struct ExJsonError(serde_json::Error);

/// An I/O error of the standard library.
#[verifier::external_type_specification]
#[verifier::external_body]
pub struct ExIoError(std::io::Error);

/// Calls `Display` of `std::io::Error` (via `to_string`). The message comes
/// from the error and the operating system; nothing is claimed of it.
#[verifier::external_body]
fn io_error_message(err: &std::io::Error) -> String {
    err.to_string()
}

/// Calls `Display` of `serde_json::Error` (via `to_string`). Nothing is
/// claimed of the message's text.
#[verifier::external_body]
fn json_error_message(err: &serde_json::Error) -> String {
    err.to_string()
}

/// Per-stage override data, kept as raw JSON; a present value replaces the
/// whole computed output of that stage.
pub struct StageOverrides {
    pub orbital_body: Option<serde_json::Value>,
    pub atmosphere: Option<serde_json::Value>,
    pub skeleton: Option<serde_json::Value>,
    pub climate: Option<serde_json::Value>,
    pub biome: Option<serde_json::Value>,
}

impl StageOverrides {
    /// No stage overridden.
    pub fn default() -> (r: Self)
        ensures
            r.orbital_body is None,
            r.atmosphere is None,
            r.skeleton is None,
            r.climate is None,
            r.biome is None,
    {
        StageOverrides {
            orbital_body: None,
            atmosphere: None,
            skeleton: None,
            climate: None,
            biome: None,
        }
    }
}

/// A parsed override file for a star and, optionally, one of its planets.
pub struct OverrideFile {
    pub version: String,
    pub target_star: String,
    pub target_planet: Option<String>,
    pub overrides: StageOverrides,
}

/// Errors that can occur when loading or validating an override file.
pub enum OverrideError {
    /// I/O error reading the file from disk.
    Io(std::io::Error),
    /// JSON parse error.
    Parse(serde_json::Error),
    /// The version field holds an unsupported value.
    InvalidVersion(String),
    /// A required field is missing or empty.
    MissingField(String),
}

/// The names of the overridden stages, in pipeline order.
pub open spec fn overridden_names(o: StageOverrides) -> Seq<Seq<char>> {
    (if o.orbital_body is Some { seq!["orbital_body"@] } else { Seq::empty() })
        + (if o.atmosphere is Some { seq!["atmosphere"@] } else { Seq::empty() })
        + (if o.skeleton is Some { seq!["skeleton"@] } else { Seq::empty() })
        + (if o.climate is Some { seq!["climate"@] } else { Seq::empty() })
        + (if o.biome is Some { seq!["biome"@] } else { Seq::empty() })
}

/// The one override-file version this library reads.
pub open spec fn supported_version() -> Seq<char> {
    "1.0"@
}

/// The error, if any, that the checks of a parsed override file report:
/// first an unsupported version, then an empty target star.
pub open spec fn validation_error(version: Seq<char>, target_star: Seq<char>) -> Option<(bool, Seq<char>)> {
    if version != supported_version() {
        Some((true, version))
    } else if target_star.len() == 0 {
        Some((false, "target_star"@))
    } else {
        None
    }
}

/// The message of an error whose text this library composes itself.
pub open spec fn error_message(e: OverrideError) -> Option<Seq<char>> {
    match e {
        OverrideError::InvalidVersion(v) => Some("unsupported override file version: "@ + v@),
        OverrideError::MissingField(f) => Some("missing required field: "@ + f@),
        _ => None,
    }
}

fn string_from(s: &str) -> (r: String)
    ensures
        r@ == s@,
{
    s.to_owned()
}

impl OverrideError {
    /// Human-readable description of the error.
    pub fn to_string(&self) -> (r: String)
        ensures
            error_message(*self) matches Some(m) ==> r@ == m,
            *self matches OverrideError::Io(_) ==> r@.len() >= "I/O error: "@.len() && r@.subrange(
                0,
                "I/O error: "@.len() as int,
            ) == "I/O error: "@,
            *self matches OverrideError::Parse(_) ==> r@.len() >= "JSON parse error: "@.len()
                && r@.subrange(0, "JSON parse error: "@.len() as int) == "JSON parse error: "@,
    {
        let (prefix, detail) = match self {
            OverrideError::Io(err) => ("I/O error: ", io_error_message(err)),
            OverrideError::Parse(err) => ("JSON parse error: ", json_error_message(err)),
            OverrideError::InvalidVersion(v) => ("unsupported override file version: ", v.clone()),
            OverrideError::MissingField(f) => ("missing required field: ", f.clone()),
        };
        let mut r = string_from(prefix);
        r.append(detail.as_str());
        assert(r@.subrange(0, prefix@.len() as int) =~= prefix@);
        r
    }
}

/// The error for a file whose raw JSON object lacks a required key: the
/// version is checked before the target star.
pub fn check_required_keys(has_version: bool, has_target_star: bool) -> (r: Result<(), OverrideError>)
    ensures
        has_version && has_target_star <==> r is Ok,
        !has_version ==> (r matches Err(OverrideError::MissingField(f)) && f@ == "version"@),
        has_version && !has_target_star ==> (r matches Err(OverrideError::MissingField(f)) && f@
            == "target_star"@),
{
    if !has_version {
        return Err(OverrideError::MissingField(string_from("version")));
    }
    if !has_target_star {
        return Err(OverrideError::MissingField(string_from("target_star")));
    }
    Ok(())
}

impl OverrideFile {
    /// Check the parsed contents: the version must be "1.0" and the target
    /// star non-empty.
    pub fn validate(&self) -> (r: Result<(), OverrideError>)
        ensures
            match validation_error(self.version@, self.target_star@) {
                None => r is Ok,
                Some((true, v)) => r matches Err(OverrideError::InvalidVersion(s)) && s@ == v,
                Some((false, f)) => r matches Err(OverrideError::MissingField(s)) && s@ == f,
            },
    {
        proof {
            reveal_strlit("1.0");
        }
        let v = crate::text::chars_of(self.version.as_str());
        if !crate::text::slice_equals(v.as_slice(), 0, v.len(), "1.0") {
            assert(v@.subrange(0, v@.len() as int) =~= v@);
            return Err(OverrideError::InvalidVersion(self.version.clone()));
        }
        assert(v@.subrange(0, v@.len() as int) =~= v@);
        if self.target_star.as_str().is_empty() {
            return Err(OverrideError::MissingField(string_from("target_star")));
        }
        Ok(())
    }

    /// The names of the stages that carry an override, in pipeline order.
    pub fn overridden_stages(&self) -> (r: Vec<&'static str>)
        ensures
            r@.map_values(|s: &str| s@) == overridden_names(self.overrides),
    {
        let mut stages: Vec<&'static str> = Vec::new();
        if self.overrides.orbital_body.is_some() {
            stages.push("orbital_body");
        }
        if self.overrides.atmosphere.is_some() {
            stages.push("atmosphere");
        }
        if self.overrides.skeleton.is_some() {
            stages.push("skeleton");
        }
        if self.overrides.climate.is_some() {
            stages.push("climate");
        }
        if self.overrides.biome.is_some() {
            stages.push("biome");
        }
        assert(stages@.map_values(|s: &str| s@) =~= overridden_names(self.overrides));
        stages
    }
}

/// An override file passes its checks exactly when its version is "1.0"
/// and its target star is not empty; any other version is reported as
/// unsupported (with its text) before the target star is looked at.
pub proof fn law_validation_accepts_version_one(version: Seq<char>, target_star: Seq<char>)
    ensures
        validation_error(version, target_star) is None <==> (version == "1.0"@ && target_star.len()
            > 0),
        version != "1.0"@ ==> validation_error(version, target_star) == Some((true, version)),
        version == "1.0"@ && target_star.len() == 0 ==> validation_error(version, target_star)
            == Some((false, "target_star"@)),
{
}

proof fn lemma_concat_contains(a: Seq<Seq<char>>, b: Seq<Seq<char>>, x: Seq<char>)
    ensures
        (a + b).contains(x) <==> a.contains(x) || b.contains(x),
{
    if (a + b).contains(x) {
        let i = choose|i: int| 0 <= i < (a + b).len() && (a + b)[i] == x;
        if i < a.len() {
            assert(a[i] == x);
        } else {
            assert(b[i - a.len()] == x);
        }
    }
    if a.contains(x) {
        let i = choose|i: int| 0 <= i < a.len() && a[i] == x;
        assert((a + b)[i] == x);
    }
    if b.contains(x) {
        let i = choose|i: int| 0 <= i < b.len() && b[i] == x;
        assert((a + b)[i + a.len()] == x);
    }
}

/// The piece a stage contributes to [`overridden_names`].
spec fn piece(present: bool, name: Seq<char>) -> Seq<Seq<char>> {
    if present {
        seq![name]
    } else {
        Seq::empty()
    }
}

proof fn lemma_piece_contains(present: bool, name: Seq<char>, x: Seq<char>)
    ensures
        piece(present, name).contains(x) <==> (present && x == name),
{
    if present && x == name {
        assert(piece(present, name)[0] == x);
    }
}

/// A stage is listed as overridden exactly when the file carries an
/// override for it.
pub proof fn law_overridden_stages_listed(o: StageOverrides, x: Seq<char>)
    ensures
        overridden_names(o).contains(x) <==> ((x == "orbital_body"@ && o.orbital_body is Some) || (x
            == "atmosphere"@ && o.atmosphere is Some) || (x == "skeleton"@ && o.skeleton is Some) || (x
            == "climate"@ && o.climate is Some) || (x == "biome"@ && o.biome is Some)),
{
    let a = piece(o.orbital_body is Some, "orbital_body"@);
    let b = piece(o.atmosphere is Some, "atmosphere"@);
    let c = piece(o.skeleton is Some, "skeleton"@);
    let d = piece(o.climate is Some, "climate"@);
    let e = piece(o.biome is Some, "biome"@);
    assert(overridden_names(o) == a + b + c + d + e);
    lemma_concat_contains(a + b + c + d, e, x);
    lemma_concat_contains(a + b + c, d, x);
    lemma_concat_contains(a + b, c, x);
    lemma_concat_contains(a, b, x);
    lemma_piece_contains(o.orbital_body is Some, "orbital_body"@, x);
    lemma_piece_contains(o.atmosphere is Some, "atmosphere"@, x);
    lemma_piece_contains(o.skeleton is Some, "skeleton"@, x);
    lemma_piece_contains(o.climate is Some, "climate"@, x);
    lemma_piece_contains(o.biome is Some, "biome"@, x);
}

} // verus!
