//! Vocabulary of the built-in exoplanet fixtures.

use vstd::prelude::*;

verus! {

/// How a fixture exoplanet was detected.
#[derive(Clone, Debug, PartialEq)]
pub enum DiscoveryMethod {
    RadialVelocity,
    Transit,
    DirectImaging,
    Microlensing,
    Timing,
    Other(String),
}

} // verus!
