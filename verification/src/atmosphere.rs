//! Atmosphere classes and the gas species of the retention model.

use vstd::prelude::*;

verus! {

/// Broad atmosphere archetype of a body.
#[derive(Clone, Copy, Debug, PartialEq, Eq, Structural, Hash)]
pub enum AtmosphereClass {
    /// Body retains no appreciable atmosphere.
    NoAtmosphere,
    /// Thin CO2-dominated atmosphere, Mars-like (< 0.1 bar).
    ThinCO2,
    /// Thick CO2-dominated atmosphere, Venus-like (> 1 bar).
    ThickCO2,
    /// Thick N2/H2O atmosphere, Titan-like.
    ThickN2H2O,
    /// Earth-like N2/O2 mix; requires molecular oxygen.
    NitrogenOxygen,
    /// H2/He-dominated gas giant or mini-Neptune envelope.
    HydrogenHelium,
}

/// Atmospheric molecular species considered by the retention model.
#[derive(Clone, Copy, Debug, PartialEq, Eq, Structural, Hash, PartialOrd, Ord)]
pub enum Gas {
    /// Molecular hydrogen (H2).
    H2,
    /// Helium (He).
    He,
    /// Methane (CH4).
    CH4,
    /// Ammonia (NH3).
    NH3,
    /// Water (H2O).
    H2O,
    /// Molecular nitrogen (N2).
    N2,
    /// Carbon monoxide (CO).
    CO,
    /// Molecular oxygen (O2).
    O2,
    /// Argon (Ar).
    Ar,
    /// Carbon dioxide (CO2).
    CO2,
}

/// Every gas species in canonical order (increasing molar mass except for
/// CO, which follows N2).
pub open spec fn all_gases() -> Seq<Gas> {
    seq![Gas::H2, Gas::He, Gas::CH4, Gas::NH3, Gas::H2O, Gas::N2, Gas::CO, Gas::O2, Gas::Ar, Gas::CO2]
}

impl Gas {
    /// Every supported gas species, in a fixed canonical order.
    pub fn all() -> (r: [Gas; 10])
        ensures
            r@ == all_gases(),
    {
        let r = [Gas::H2, Gas::He, Gas::CH4, Gas::NH3, Gas::H2O, Gas::N2, Gas::CO, Gas::O2, Gas::Ar, Gas::CO2];
        assert(r@ =~= all_gases());
        r
    }
}

/// Each species appears exactly once in [`all_gases`].
pub proof fn law_all_gases_lists_each_once(g: Gas)
    ensures
        all_gases().contains(g),
        forall|i: int, j: int|
            0 <= i < j < all_gases().len() ==> #[trigger] all_gases()[i] != #[trigger] all_gases()[j],
{
    match g {
        Gas::H2 => assert(all_gases()[0] == g),
        Gas::He => assert(all_gases()[1] == g),
        Gas::CH4 => assert(all_gases()[2] == g),
        Gas::NH3 => assert(all_gases()[3] == g),
        Gas::H2O => assert(all_gases()[4] == g),
        Gas::N2 => assert(all_gases()[5] == g),
        Gas::CO => assert(all_gases()[6] == g),
        Gas::O2 => assert(all_gases()[7] == g),
        Gas::Ar => assert(all_gases()[8] == g),
        Gas::CO2 => assert(all_gases()[9] == g),
    }
}


/// The gases among the first `k` of [`all_gases`] whose flag equals `want`,
/// in canonical order.
pub open spec fn gases_where(flags: Seq<bool>, want: bool, k: nat) -> Seq<Gas>
    decreases k,
{
    if k == 0 {
        Seq::empty()
    } else {
        let rest = gases_where(flags, want, (k - 1) as nat);
        if flags[k - 1] == want {
            rest.push(all_gases()[k - 1])
        } else {
            rest
        }
    }
}

/// Split the gases into those flagged as retained and those lost, each in
/// canonical order; `retained[i]` is the verdict for the `i`-th gas of
/// [`Gas::all`].
pub fn partition_gases(retained: &[bool; 10]) -> (r: (Vec<Gas>, Vec<Gas>))
    ensures
        r.0@ == gases_where(retained@, true, 10),
        r.1@ == gases_where(retained@, false, 10),
{
    let gases = Gas::all();
    let mut kept: Vec<Gas> = Vec::new();
    let mut lost: Vec<Gas> = Vec::new();
    let mut i: usize = 0;
    while i < 10
        invariant
            i <= 10,
            gases@ == all_gases(),
            retained@.len() == 10,
            kept@ == gases_where(retained@, true, i as nat),
            lost@ == gases_where(retained@, false, i as nat),
        decreases 10 - i,
    {
        if retained[i] {
            kept.push(gases[i]);
        } else {
            lost.push(gases[i]);
        }
        i = i + 1;
    }
    (kept, lost)
}

proof fn lemma_gases_where(flags: Seq<bool>, k: nat, g: Gas)
    requires
        k <= 10,
        flags.len() == 10,
    ensures
        gases_where(flags, true, k).contains(g) <==> exists|i: int|
            0 <= i < k && all_gases()[i] == g && flags[i],
        gases_where(flags, false, k).contains(g) <==> exists|i: int|
            0 <= i < k && all_gases()[i] == g && !flags[i],
    decreases k,
{
    if k > 0 {
        lemma_gases_where(flags, (k - 1) as nat, g);
        let t = gases_where(flags, true, (k - 1) as nat);
        let f = gases_where(flags, false, (k - 1) as nat);
        if gases_where(flags, true, k).contains(g) && !t.contains(g) {
            assert(all_gases()[k - 1] == g);
        }
        if t.contains(g) {
            let j = choose|j: int| 0 <= j < t.len() && t[j] == g;
            assert(gases_where(flags, true, k)[j] == g);
        }
        if gases_where(flags, false, k).contains(g) && !f.contains(g) {
            assert(all_gases()[k - 1] == g);
        }
        if f.contains(g) {
            let j = choose|j: int| 0 <= j < f.len() && f[j] == g;
            assert(gases_where(flags, false, k)[j] == g);
        }
        if exists|i: int| 0 <= i < k && all_gases()[i] == g && flags[i] {
            let i = choose|i: int| 0 <= i < k && all_gases()[i] == g && flags[i];
            if i == k - 1 {
                assert(gases_where(flags, true, k).last() == g);
            }
        }
        if exists|i: int| 0 <= i < k && all_gases()[i] == g && !flags[i] {
            let i = choose|i: int| 0 <= i < k && all_gases()[i] == g && !flags[i];
            if i == k - 1 {
                assert(gases_where(flags, false, k).last() == g);
            }
        }
    }
}

/// Retained and lost gases are disjoint and together cover every gas.
pub proof fn law_retention_partitions_gases(flags: Seq<bool>, g: Gas)
    requires
        flags.len() == 10,
    ensures
        gases_where(flags, true, 10).contains(g) != gases_where(flags, false, 10).contains(g),
{
    lemma_gases_where(flags, 10, g);
    law_all_gases_lists_each_once(g);
    let i = choose|i: int| 0 <= i < 10 && all_gases()[i] == g;
    assert forall|j: int| 0 <= j < 10 && all_gases()[j] == g implies j == i by {
        if j != i {
            if i < j {
                assert(all_gases()[i] != all_gases()[j]);
            } else {
                assert(all_gases()[j] != all_gases()[i]);
            }
        }
    }
    if flags[i] {
        assert(all_gases()[i] == g && flags[i]);
        assert(!exists|j: int| 0 <= j < 10 && all_gases()[j] == g && !flags[j]);
    } else {
        assert(all_gases()[i] == g && !flags[i]);
        assert(!exists|j: int| 0 <= j < 10 && all_gases()[j] == g && flags[j]);
    }
}

/// A gas is listed as retained exactly when its flag is set, and as lost
/// exactly when it is not.
pub proof fn law_retained_exactly_when_flagged(flags: Seq<bool>, i: int)
    requires
        flags.len() == 10,
        0 <= i < 10,
    ensures
        gases_where(flags, true, 10).contains(all_gases()[i]) <==> flags[i],
        gases_where(flags, false, 10).contains(all_gases()[i]) <==> !flags[i],
{
    let g = all_gases()[i];
    lemma_gases_where(flags, 10, g);
    assert forall|j: int| 0 <= j < 10 && all_gases()[j] == g implies j == i by {
        if j != i {
            if i < j {
                assert(all_gases()[i] != all_gases()[j]);
            } else {
                assert(all_gases()[j] != all_gases()[i]);
            }
        }
    }
}

} // verus!
