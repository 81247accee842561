use rand::{RngCore, SeedableRng};
use rand_pcg::Pcg64;
use ymir::prng::{splitmix64, stable_derive_seed};
use ymir::region::{detail_rng, RegionSpec};

#[test]
fn splitmix64_is_stable() {
    // Lock the output for known inputs so future refactors are caught.
    assert_eq!(splitmix64(0), 0xE220_A839_7B1D_CDAF);
    assert_eq!(splitmix64(1), 0x910A_2DEC_8902_5CC1);
    assert_eq!(splitmix64(42), 0xBDD7_3226_2FEB_6E95);
}

#[test]
fn stable_derive_seed_is_deterministic() {
    assert_eq!(stable_derive_seed(42, 7), stable_derive_seed(42, 7));
    assert_ne!(stable_derive_seed(42, 7), stable_derive_seed(42, 8));
    assert_ne!(stable_derive_seed(42, 7), stable_derive_seed(43, 7));
    // Zero inputs must still produce non-zero, well-mixed output.
    assert_ne!(stable_derive_seed(0, 0), 0);
    assert_ne!(stable_derive_seed(0, 0), stable_derive_seed(0, 1));
}

#[test]
fn stable_derive_seed_literal_locks_algorithm() {
    assert_eq!(stable_derive_seed(42, 0), 0x4028_00AF_28D7_8446);
    assert_eq!(stable_derive_seed(42, 1), 0xD315_7293_454D_A88D);
    assert_eq!(stable_derive_seed(0xDEAD_BEEF, 1234), 0x4156_C7AE_CAC1_74AE);
}

#[test]
fn splitmix64_is_injective_on_a_sample() {
    let mut seen = std::collections::HashSet::new();
    for x in 0u64..2000 {
        assert!(seen.insert(splitmix64(x)));
    }
}

fn first_n(rng: &mut Pcg64, n: usize) -> Vec<u64> {
    (0..n).map(|_| rng.next_u64()).collect()
}

#[test]
fn same_inputs_same_sequence() {
    let mut a = detail_rng(42, 7);
    let mut b = detail_rng(42, 7);
    assert_eq!(first_n(&mut a, 32), first_n(&mut b, 32));
}

#[test]
fn different_seed_diverges_at_first_sample() {
    let mut a = detail_rng(42, 7);
    let mut b = detail_rng(43, 7);
    assert_ne!(a.next_u64(), b.next_u64());
}

#[test]
fn different_tile_index_diverges_at_first_sample() {
    let mut a = detail_rng(42, 7);
    let mut b = detail_rng(42, 8);
    assert_ne!(a.next_u64(), b.next_u64());
}

#[test]
fn zero_inputs_are_still_well_mixed() {
    let mut a = detail_rng(0, 0);
    let mut b = detail_rng(0, 1);
    assert_ne!(a.next_u64(), b.next_u64());
    // And the first sample must not itself be zero.
    let mut c = detail_rng(0, 0);
    assert_ne!(c.next_u64(), 0);
}

#[test]
fn cross_run_determinism_literal_bytes() {
    // Lock the exact first three u64s for a known (seed, tile_index).
    let mut rng = detail_rng(42, 7);
    let got: [u64; 3] = [rng.next_u64(), rng.next_u64(), rng.next_u64()];
    let expected: [u64; 3] = [
        0x0368_10D7_0E8A_0C0D,
        0x89F6_7C09_775F_3D85,
        0x5480_DE26_6BC6_3313,
    ];
    assert_eq!(got, expected);
}

#[test]
fn detail_stream_is_the_pcg_stream_of_the_derived_seed() {
    let mut a = detail_rng(42, 7);
    let mut b = Pcg64::seed_from_u64(stable_derive_seed(42, 7));
    assert_eq!(first_n(&mut a, 8), first_n(&mut b, 8));
}

#[test]
fn region_spec_constructor_and_equality() {
    let a = RegionSpec::new(1, 2);
    let b = RegionSpec {
        tile_index: 1,
        radius_tiles: 2,
    };
    assert_eq!(a, b);
}
