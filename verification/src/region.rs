//! Regions of the skeleton grid and the deterministic random stream of a
//! region's detail pass.

use vstd::prelude::*;
use rand::SeedableRng;
use rand_pcg::Pcg64;
use crate::prng::{stable_derive_seed, stable_derive_seed_spec, law_derived_seeds_distinct};

verus! {

/// The PCG64 generator of `rand_pcg` (`Lcg128Xsl64`).
#[verifier::external_type_specification]
#[verifier::external_body]
pub struct ExLcg128Xsl64(rand_pcg::Lcg128Xsl64);

/// The generator that `Pcg64::seed_from_u64` builds from a seed.
pub uninterp spec fn pcg64_seeded(seed: u64) -> Pcg64;

/// Calls `rand_core::SeedableRng::seed_from_u64` for `Pcg64`. The trusted
/// claim is that the generator's initial state depends on the seed alone
/// (the default `seed_from_u64` expands the seed with a fixed PCG32 stream
/// and then calls `from_seed`), so equal seeds give equal generators.
#[verifier::external_body]
fn pcg64_seed_from_u64(seed: u64) -> (r: Pcg64)
    ensures
        r == pcg64_seeded(seed),
{
    Pcg64::seed_from_u64(seed)
}

/// A region of the skeleton grid: a seed tile plus every tile within
/// `radius_tiles` neighbour hops of it.
#[derive(Clone, Debug, PartialEq, Eq, Structural, Hash)]
pub struct RegionSpec {
    /// Index of the seed tile on the geodesic skeleton grid.
    pub tile_index: u32,
    /// Radius of the neighbourhood, in tile-neighbour hops.
    pub radius_tiles: u32,
}

impl RegionSpec {
    /// A region from its seed tile and radius.
    pub fn new(tile_index: u32, radius_tiles: u32) -> (r: Self)
        ensures
            r.tile_index == tile_index,
            r.radius_tiles == radius_tiles,
    {
        RegionSpec { tile_index, radius_tiles }
    }
}

/// The seed of a region's detail stream: the stable mix of the world seed
/// and the seed tile's index.
pub open spec fn detail_seed(world_seed: u64, tile_index: u32) -> u64 {
    stable_derive_seed_spec(world_seed, tile_index as u64)
}

/// A deterministic PCG64 stream for a region's detail pass, keyed on the
/// world seed and the region's seed tile (not its radius).
pub fn detail_rng(world_seed: u64, tile_index: u32) -> (r: Pcg64)
    ensures
        r == pcg64_seeded(detail_seed(world_seed, tile_index)),
{
    let seed = stable_derive_seed(world_seed, tile_index as u64);
    pcg64_seed_from_u64(seed)
}

/// Within one world, regions seeded at different tiles get different
/// detail seeds; one tile in two different worlds does too.
pub proof fn law_detail_seeds_distinct(w1: u64, t1: u32, w2: u64, t2: u32)
    requires
        (w1 == w2 && t1 != t2) || (w1 != w2 && t1 == t2),
    ensures
        detail_seed(w1, t1) != detail_seed(w2, t2),
{
    law_derived_seeds_distinct(w1, t1 as u64, w2, t2 as u64);
}

} // verus!
