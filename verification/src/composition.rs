//! Which atmosphere a body gets: the recipe chosen from the gases it
//! retains and a few coarse traits of the body, and the class that recipe
//! yields.

use vstd::prelude::*;
use crate::atmosphere::{all_gases, law_all_gases_lists_each_once, AtmosphereClass, Gas};

verus! {

/// Size band of a body by its radius in Earth radii: below 0.3, below 2,
/// below 4, and 4 or more.
#[derive(Clone, Copy, Debug, PartialEq, Eq, Structural)]
pub enum SizeBand {
    Tiny,
    Rocky,
    SubNeptune,
    Giant,
}

/// The composition recipe chosen for a body.
#[derive(Clone, Copy, Debug, PartialEq, Eq, Structural)]
pub enum Archetype {
    /// No atmosphere at all.
    Airless,
    /// Solar-like H2/He envelope of a giant planet.
    GasGiant,
    /// H2/He envelope with volatiles, of a sub-Neptune.
    MiniNeptune,
    /// Earth-like N2/O2 air kept up by a biosphere.
    Biosphere,
    /// Venus-like dense CO2 blanket.
    DenseCarbonDioxide,
    /// Mars-like thin CO2.
    ThinCarbonDioxide,
    /// Titan-like N2 with water vapour.
    NitrogenWater,
    /// Equal parts of every retained gas.
    Residual,
}

/// 1 when the gas is among the retained ones, else 0.
pub open spec fn held(retained: Seq<Gas>, g: Gas) -> int {
    if retained.contains(g) {
        1
    } else {
        0
    }
}

/// How many of the first `n` gases of [`all_gases`] are retained.
pub open spec fn distinct_count(retained: Seq<Gas>, n: nat) -> int
    decreases n,
{
    if n == 0 {
        0
    } else {
        distinct_count(retained, (n - 1) as nat) + held(retained, all_gases()[n - 1])
    }
}

/// The recipe for a body: nothing when no gas is retained or the body is
/// tiny; a giant's or sub-Neptune's envelope when hydrogen is kept; Earth
/// air when biology is on, the body is in the habitable zone and keeps O2
/// and N2; CO2 (dense on a heavy body, thin otherwise) when CO2 is kept;
/// N2 with water when N2 is kept; otherwise equal parts of what is kept.
pub open spec fn archetype_of(
    retained: Seq<Gas>,
    size: SizeBand,
    biology: bool,
    in_hz: bool,
    heavy: bool,
) -> Archetype {
    if retained.len() == 0 || size == SizeBand::Tiny {
        Archetype::Airless
    } else if size == SizeBand::Giant && retained.contains(Gas::H2) {
        Archetype::GasGiant
    } else if size == SizeBand::SubNeptune && retained.contains(Gas::H2) {
        Archetype::MiniNeptune
    } else if biology && in_hz && retained.contains(Gas::O2) && retained.contains(Gas::N2) {
        Archetype::Biosphere
    } else if retained.contains(Gas::CO2) {
        if heavy {
            Archetype::DenseCarbonDioxide
        } else {
            Archetype::ThinCarbonDioxide
        }
    } else if retained.contains(Gas::N2) {
        Archetype::NitrogenWater
    } else {
        Archetype::Residual
    }
}

/// The class of an equal mix of the `k` distinct retained gases, each at
/// fraction 1/k: H2 and He together above one half, then CO2 above one
/// half, then N2 above one half, then O2 and N2 each above a tenth; an
/// empty mix has no atmosphere and anything else counts as thin CO2.
pub open spec fn residual_class_of(retained: Seq<Gas>) -> AtmosphereClass {
    let k = distinct_count(retained, 10);
    if 2 * (held(retained, Gas::H2) + held(retained, Gas::He)) > k {
        AtmosphereClass::HydrogenHelium
    } else if 2 * held(retained, Gas::CO2) > k {
        AtmosphereClass::ThinCO2
    } else if 2 * held(retained, Gas::N2) > k {
        AtmosphereClass::ThickN2H2O
    } else if 10 * held(retained, Gas::O2) > k && 10 * held(retained, Gas::N2) > k {
        AtmosphereClass::NitrogenOxygen
    } else if k == 0 {
        AtmosphereClass::NoAtmosphere
    } else {
        AtmosphereClass::ThinCO2
    }
}

/// The class a recipe yields.
pub open spec fn archetype_class(a: Archetype, retained: Seq<Gas>) -> AtmosphereClass {
    match a {
        Archetype::Airless => AtmosphereClass::NoAtmosphere,
        Archetype::GasGiant => AtmosphereClass::HydrogenHelium,
        Archetype::MiniNeptune => AtmosphereClass::HydrogenHelium,
        Archetype::Biosphere => AtmosphereClass::NitrogenOxygen,
        Archetype::DenseCarbonDioxide => AtmosphereClass::ThickCO2,
        Archetype::ThinCarbonDioxide => AtmosphereClass::ThinCO2,
        Archetype::NitrogenWater => AtmosphereClass::ThickN2H2O,
        Archetype::Residual => residual_class_of(retained),
    }
}

fn retains(retained: &[Gas], g: Gas) -> (r: bool)
    ensures
        r == retained@.contains(g),
{
    let mut i: usize = 0;
    while i < retained.len()
        invariant
            i <= retained@.len(),
            forall|j: int| 0 <= j < i ==> retained@[j] != g,
        decreases retained@.len() - i,
    {
        if retained[i] == g {
            assert(retained@[i as int] == g);
            return true;
        }
        i = i + 1;
    }
    false
}

fn count_distinct(retained: &[Gas]) -> (k: usize)
    ensures
        k == distinct_count(retained@, 10),
{
    let gases = Gas::all();
    let mut k: usize = 0;
    let mut i: usize = 0;
    while i < 10
        invariant
            i <= 10,
            gases@ == all_gases(),
            k == distinct_count(retained@, i as nat),
            k <= i,
        decreases 10 - i,
    {
        if retains(retained, gases[i]) {
            k = k + 1;
        }
        i = i + 1;
    }
    k
}

fn held_count(retained: &[Gas], g: Gas) -> (r: usize)
    ensures
        r == held(retained@, g),
{
    if retains(retained, g) {
        1
    } else {
        0
    }
}

fn residual_class(retained: &[Gas]) -> (r: AtmosphereClass)
    ensures
        r == residual_class_of(retained@),
{
    let k = count_distinct(retained);
    let h2 = held_count(retained, Gas::H2);
    let he = held_count(retained, Gas::He);
    let co2 = held_count(retained, Gas::CO2);
    let n2 = held_count(retained, Gas::N2);
    let o2 = held_count(retained, Gas::O2);
    if 2 * (h2 + he) > k {
        AtmosphereClass::HydrogenHelium
    } else if 2 * co2 > k {
        AtmosphereClass::ThinCO2
    } else if 2 * n2 > k {
        AtmosphereClass::ThickN2H2O
    } else if 10 * o2 > k && 10 * n2 > k {
        AtmosphereClass::NitrogenOxygen
    } else if k == 0 {
        AtmosphereClass::NoAtmosphere
    } else {
        AtmosphereClass::ThinCO2
    }
}

/// Choose a body's atmosphere recipe from the gases it retains, its size
/// band, whether biology is enabled, whether it lies in the habitable zone
/// and whether it is heavier than half an Earth mass; return the recipe and
/// the class it yields.
pub fn composition_archetype(
    retained: &[Gas],
    size: SizeBand,
    biology: bool,
    in_hz: bool,
    heavy: bool,
) -> (r: (Archetype, AtmosphereClass))
    ensures
        r.0 == archetype_of(retained@, size, biology, in_hz, heavy),
        r.1 == archetype_class(r.0, retained@),
{
    let a = if retained.len() == 0 || size == SizeBand::Tiny {
        Archetype::Airless
    } else if size == SizeBand::Giant && retains(retained, Gas::H2) {
        Archetype::GasGiant
    } else if size == SizeBand::SubNeptune && retains(retained, Gas::H2) {
        Archetype::MiniNeptune
    } else if biology && in_hz && retains(retained, Gas::O2) && retains(retained, Gas::N2) {
        Archetype::Biosphere
    } else if retains(retained, Gas::CO2) {
        if heavy {
            Archetype::DenseCarbonDioxide
        } else {
            Archetype::ThinCarbonDioxide
        }
    } else if retains(retained, Gas::N2) {
        Archetype::NitrogenWater
    } else {
        Archetype::Residual
    };
    let class = match a {
        Archetype::Airless => AtmosphereClass::NoAtmosphere,
        Archetype::GasGiant => AtmosphereClass::HydrogenHelium,
        Archetype::MiniNeptune => AtmosphereClass::HydrogenHelium,
        Archetype::Biosphere => AtmosphereClass::NitrogenOxygen,
        Archetype::DenseCarbonDioxide => AtmosphereClass::ThickCO2,
        Archetype::ThinCarbonDioxide => AtmosphereClass::ThinCO2,
        Archetype::NitrogenWater => AtmosphereClass::ThickN2H2O,
        Archetype::Residual => residual_class(retained),
    };
    (a, class)
}

proof fn lemma_distinct_count_nonneg(retained: Seq<Gas>, n: nat)
    ensures
        distinct_count(retained, n) >= 0,
    decreases n,
{
    if n > 0 {
        lemma_distinct_count_nonneg(retained, (n - 1) as nat);
    }
}

proof fn lemma_distinct_count_bounds(retained: Seq<Gas>, n: nat, i: int)
    requires
        n <= 10,
        0 <= i < n,
    ensures
        distinct_count(retained, n) >= held(retained, all_gases()[i]),
    decreases n,
{
    lemma_distinct_count_nonneg(retained, (n - 1) as nat);
    if i < n - 1 {
        lemma_distinct_count_bounds(retained, (n - 1) as nat, i);
    }
}

/// A body has no atmosphere exactly when it retains no gas or is tiny.
pub proof fn law_airless_exactly_when_nothing_kept(
    retained: Seq<Gas>,
    size: SizeBand,
    biology: bool,
    in_hz: bool,
    heavy: bool,
)
    ensures
        (archetype_class(archetype_of(retained, size, biology, in_hz, heavy), retained)
            == AtmosphereClass::NoAtmosphere) <==> (retained.len() == 0 || size == SizeBand::Tiny),
{
    if retained.len() > 0 {
        let g = retained[0];
        law_all_gases_lists_each_once(g);
        let i = choose|i: int| 0 <= i < all_gases().len() && all_gases()[i] == g;
        assert(retained.contains(g));
        lemma_distinct_count_bounds(retained, 10, i);
    }
}

/// With biology off, no body ends up with nitrogen-oxygen air.
pub proof fn law_no_oxygen_air_without_biology(
    retained: Seq<Gas>,
    size: SizeBand,
    in_hz: bool,
    heavy: bool,
)
    ensures
        archetype_class(archetype_of(retained, size, false, in_hz, heavy), retained)
            != AtmosphereClass::NitrogenOxygen,
{
}

/// Which recipe a body gets, in terms of its traits: a giant or
/// sub-Neptune keeping hydrogen gets its envelope; otherwise a non-tiny
/// body gets Earth air exactly when biology is on, it lies in the habitable
/// zone and it keeps O2 and N2; failing that, CO2 (dense exactly when the
/// body is heavy) whenever CO2 is kept; failing that, N2 with water whenever
/// N2 is kept. Only Earth air yields the nitrogen-oxygen class, and only the
/// dense recipe the thick CO2 class.
pub proof fn law_recipe_by_body_traits(
    retained: Seq<Gas>,
    size: SizeBand,
    biology: bool,
    in_hz: bool,
    heavy: bool,
)
    ensures
        ({
            let a = archetype_of(retained, size, biology, in_hz, heavy);
            let c = archetype_class(a, retained);
            let h2 = retained.contains(Gas::H2);
            let envelope = (size == SizeBand::Giant || size == SizeBand::SubNeptune) && h2;
            let earth_air = biology && in_hz && retained.contains(Gas::O2) && retained.contains(
                Gas::N2,
            );
            let bare = size != SizeBand::Tiny && !envelope;
            &&& (a == Archetype::GasGiant) <==> (size == SizeBand::Giant && h2)
            &&& (a == Archetype::MiniNeptune) <==> (size == SizeBand::SubNeptune && h2)
            &&& (a == Archetype::Biosphere) <==> (bare && earth_air)
            &&& (a == Archetype::DenseCarbonDioxide) <==> (bare && !earth_air && retained.contains(
                Gas::CO2,
            ) && heavy)
            &&& (a == Archetype::ThinCarbonDioxide) <==> (bare && !earth_air && retained.contains(
                Gas::CO2,
            ) && !heavy)
            &&& (a == Archetype::NitrogenWater) <==> (bare && !earth_air && !retained.contains(
                Gas::CO2,
            ) && retained.contains(Gas::N2))
            &&& (c == AtmosphereClass::NitrogenOxygen) <==> (a == Archetype::Biosphere)
            &&& (c == AtmosphereClass::ThickCO2) <==> (a == Archetype::DenseCarbonDioxide)
        }),
{
}

/// Outside the habitable zone, or with biology off, no body gets Earth air
/// or the nitrogen-oxygen class.
pub proof fn law_earth_air_needs_life_in_habitable_zone(
    retained: Seq<Gas>,
    size: SizeBand,
    biology: bool,
    in_hz: bool,
    heavy: bool,
)
    requires
        !biology || !in_hz,
    ensures
        archetype_of(retained, size, biology, in_hz, heavy) != Archetype::Biosphere,
        archetype_class(archetype_of(retained, size, biology, in_hz, heavy), retained)
            != AtmosphereClass::NitrogenOxygen,
{
    law_recipe_by_body_traits(retained, size, biology, in_hz, heavy);
}

/// Whether a body is heavy decides only between dense and thin CO2: two
/// bodies that differ only in weight get the same recipe unless the light
/// one gets thin CO2, and then the heavy one gets dense CO2.
pub proof fn law_weight_only_thickens_carbon_dioxide(
    retained: Seq<Gas>,
    size: SizeBand,
    biology: bool,
    in_hz: bool,
)
    ensures
        archetype_of(retained, size, biology, in_hz, false) == Archetype::ThinCarbonDioxide
            <==> archetype_of(retained, size, biology, in_hz, true)
            == Archetype::DenseCarbonDioxide,
        archetype_of(retained, size, biology, in_hz, false) != Archetype::ThinCarbonDioxide
            ==> archetype_of(retained, size, biology, in_hz, true) == archetype_of(
            retained,
            size,
            biology,
            in_hz,
            false,
        ),
{
    law_recipe_by_body_traits(retained, size, biology, in_hz, false);
    law_recipe_by_body_traits(retained, size, biology, in_hz, true);
}

} // verus!
