//! Per-hex biome refinement at detail scale: keeping classified biomes in
//! the world's palette, painting lakes and rivers, and pinning the region's
//! edge to the parent skeleton tiles' biomes.
//!
//! The climate-driven classification and the neighbourhood smoothing
//! between the two passes here are floating-point work done by the caller;
//! the passes below decide every hex's final biome from their results.

use vstd::prelude::*;
use crate::biome::{Biome, BiomePalette, palette_biomes, law_palettes_partition_biomes};
use crate::region::RegionSpec;

verus! {

/// The palette's inland-water biome used to paint lakes, if it has one.
pub open spec fn water_body_biome(p: BiomePalette) -> Option<Biome> {
    match p {
        BiomePalette::EarthLike => Some(Biome::CoastalShallow),
        BiomePalette::TitanLike => Some(Biome::TitanMethaneSea),
        _ => None,
    }
}

/// The palette's river-channel biome, if it has one.
pub open spec fn river_biome(p: BiomePalette) -> Option<Biome> {
    match p {
        BiomePalette::EarthLike => Some(Biome::Wetland),
        _ => None,
    }
}

/// The lake biome of a palette: shallows on Earth-like worlds, methane seas
/// on Titan-like ones, none elsewhere.
pub fn water_body_biome_for(palette: BiomePalette) -> (r: Option<Biome>)
    ensures
        r == water_body_biome(palette),
{
    match palette {
        BiomePalette::EarthLike => Some(Biome::CoastalShallow),
        BiomePalette::TitanLike => Some(Biome::TitanMethaneSea),
        _ => None,
    }
}

/// The river biome of a palette: wetland corridors on Earth-like worlds,
/// none elsewhere.
pub fn river_biome_for(palette: BiomePalette) -> (r: Option<Biome>)
    ensures
        r == river_biome(palette),
{
    match palette {
        BiomePalette::EarthLike => Some(Biome::Wetland),
        _ => None,
    }
}

/// A hex's biome after the lake and river overlay: lakes take the palette's
/// water biome, other river hexes its river biome, where the palette has
/// one; everything else keeps `b`.
pub open spec fn overlaid(b: Biome, p: BiomePalette, lake: bool, river: bool) -> Biome {
    if lake {
        match water_body_biome(p) {
            Some(w) => w,
            None => b,
        }
    } else if river {
        match river_biome(p) {
            Some(w) => w,
            None => b,
        }
    } else {
        b
    }
}

/// A classified biome kept only when it belongs to the palette; otherwise
/// the parent tile's biome stands in.
pub open spec fn in_palette_or(b: Biome, p: BiomePalette, fallback: Biome) -> Biome {
    if palette_biomes(p).contains(b) {
        b
    } else {
        fallback
    }
}

/// A hex's biome going into smoothing: edge hexes pinned to their parent
/// tile's biome, interior hexes classified (kept in the palette) and then
/// overlaid with lakes and rivers.
pub open spec fn presmooth_biome(
    raw: Biome,
    p: BiomePalette,
    lake: bool,
    river: bool,
    boundary: bool,
    parent_biome: Biome,
) -> Biome {
    if boundary {
        parent_biome
    } else {
        overlaid(in_palette_or(raw, p, parent_biome), p, lake, river)
    }
}

/// A hex's final biome after smoothing: edge hexes restored to their parent
/// tile's biome, interior lakes and rivers repainted over the smoothed
/// biome.
pub open spec fn final_biome(
    smoothed: Biome,
    p: BiomePalette,
    lake: bool,
    river: bool,
    boundary: bool,
    parent_biome: Biome,
) -> Biome {
    if boundary {
        parent_biome
    } else {
        overlaid(smoothed, p, lake, river)
    }
}

/// Per-hex biome classification of a region.
#[derive(Clone, Debug)]
pub struct DetailBiomes {
    /// The region this biome map covers.
    pub spec: RegionSpec,
    /// Palette of the parent world.
    pub palette: BiomePalette,
    /// One biome per hex, in hex-grid cell order.
    pub per_hex: Vec<Biome>,
}

/// The per-hex inputs of the two refinement passes agree in length and
/// every hex's parent tile has a biome.
pub open spec fn hex_inputs_valid(
    n: int,
    is_lake: Seq<bool>,
    is_river: Seq<bool>,
    boundary: Seq<bool>,
    parent_of_hex: Seq<u32>,
    parent_biomes: Seq<Biome>,
) -> bool {
    &&& is_lake.len() == n
    &&& is_river.len() == n
    &&& boundary.len() == n
    &&& parent_of_hex.len() == n
    &&& forall|i: int| 0 <= i < n ==> (#[trigger] parent_of_hex[i] as int) < parent_biomes.len()
}

impl DetailBiomes {
    /// The biomes handed to the smoother: each classified biome kept in the
    /// palette (else the parent tile's), lakes and rivers painted, and edge
    /// hexes pinned to their parent tile's biome.
    pub fn presmooth(
        classified: &Vec<Biome>,
        palette: BiomePalette,
        is_lake: &Vec<bool>,
        is_river: &Vec<bool>,
        boundary: &Vec<bool>,
        parent_of_hex: &Vec<u32>,
        parent_biomes: &Vec<Biome>,
    ) -> (r: Vec<Biome>)
        requires
            hex_inputs_valid(
                classified@.len() as int,
                is_lake@,
                is_river@,
                boundary@,
                parent_of_hex@,
                parent_biomes@,
            ),
        ensures
            r@.len() == classified@.len(),
            forall|i: int|
                0 <= i < r@.len() ==> #[trigger] r@[i] == presmooth_biome(
                    classified@[i],
                    palette,
                    is_lake@[i],
                    is_river@[i],
                    boundary@[i],
                    parent_biomes@[parent_of_hex@[i] as int],
                ),
    {
        let lake_biome = water_body_biome_for(palette);
        let river = river_biome_for(palette);
        let mut out: Vec<Biome> = Vec::new();
        let mut i: usize = 0;
        while i < classified.len()
            invariant
                hex_inputs_valid(
                    classified@.len() as int,
                    is_lake@,
                    is_river@,
                    boundary@,
                    parent_of_hex@,
                    parent_biomes@,
                ),
                lake_biome == water_body_biome(palette),
                river == river_biome(palette),
                i <= classified@.len(),
                out@.len() == i,
                forall|j: int|
                    0 <= j < i ==> #[trigger] out@[j] == presmooth_biome(
                        classified@[j],
                        palette,
                        is_lake@[j],
                        is_river@[j],
                        boundary@[j],
                        parent_biomes@[parent_of_hex@[j] as int],
                    ),
            decreases classified@.len() - i,
        {
            let parent_biome = parent_biomes[parent_of_hex[i] as usize];
            let b = if boundary[i] {
                parent_biome
            } else {
                let kept = if palette.contains(classified[i]) {
                    classified[i]
                } else {
                    parent_biome
                };
                if is_lake[i] {
                    match lake_biome {
                        Some(w) => w,
                        None => kept,
                    }
                } else if is_river[i] {
                    match river {
                        Some(w) => w,
                        None => kept,
                    }
                } else {
                    kept
                }
            };
            out.push(b);
            i = i + 1;
        }
        out
    }

    /// The region's biome map from the smoother's output: edge hexes
    /// restored to their parent tile's biome and interior lakes and rivers
    /// repainted.
    pub fn from_smoothed(
        spec: RegionSpec,
        palette: BiomePalette,
        smoothed: &Vec<Biome>,
        is_lake: &Vec<bool>,
        is_river: &Vec<bool>,
        boundary: &Vec<bool>,
        parent_of_hex: &Vec<u32>,
        parent_biomes: &Vec<Biome>,
    ) -> (r: DetailBiomes)
        requires
            hex_inputs_valid(
                smoothed@.len() as int,
                is_lake@,
                is_river@,
                boundary@,
                parent_of_hex@,
                parent_biomes@,
            ),
        ensures
            r.spec == spec,
            r.palette == palette,
            r.per_hex@.len() == smoothed@.len(),
            forall|i: int|
                0 <= i < r.per_hex@.len() ==> #[trigger] r.per_hex@[i] == final_biome(
                    smoothed@[i],
                    palette,
                    is_lake@[i],
                    is_river@[i],
                    boundary@[i],
                    parent_biomes@[parent_of_hex@[i] as int],
                ),
    {
        let lake_biome = water_body_biome_for(palette);
        let river = river_biome_for(palette);
        let mut out: Vec<Biome> = Vec::new();
        let mut i: usize = 0;
        while i < smoothed.len()
            invariant
                hex_inputs_valid(
                    smoothed@.len() as int,
                    is_lake@,
                    is_river@,
                    boundary@,
                    parent_of_hex@,
                    parent_biomes@,
                ),
                lake_biome == water_body_biome(palette),
                river == river_biome(palette),
                i <= smoothed@.len(),
                out@.len() == i,
                forall|j: int|
                    0 <= j < i ==> #[trigger] out@[j] == final_biome(
                        smoothed@[j],
                        palette,
                        is_lake@[j],
                        is_river@[j],
                        boundary@[j],
                        parent_biomes@[parent_of_hex@[j] as int],
                    ),
            decreases smoothed@.len() - i,
        {
            let b = if boundary[i] {
                parent_biomes[parent_of_hex[i] as usize]
            } else if is_lake[i] {
                match lake_biome {
                    Some(w) => w,
                    None => smoothed[i],
                }
            } else if is_river[i] {
                match river {
                    Some(w) => w,
                    None => smoothed[i],
                }
            } else {
                smoothed[i]
            };
            out.push(b);
            i = i + 1;
        }
        DetailBiomes { spec, palette, per_hex: out }
    }
}

/// The lake and river biomes of a palette belong to that palette.
pub proof fn law_water_biomes_in_palette(p: BiomePalette)
    ensures
        water_body_biome(p) matches Some(w) ==> palette_biomes(p).contains(w),
        river_biome(p) matches Some(w) ==> palette_biomes(p).contains(w),
{
    if let Some(w) = water_body_biome(p) {
        law_palettes_partition_biomes(w, p);
    }
    if let Some(w) = river_biome(p) {
        law_palettes_partition_biomes(w, p);
    }
}

/// Every refined biome belongs to the world's palette when the parent
/// tiles' biomes do: before smoothing always, and after smoothing when the
/// smoother kept its input in the palette.
pub proof fn law_refined_biomes_stay_in_palette(
    b: Biome,
    p: BiomePalette,
    lake: bool,
    river: bool,
    boundary: bool,
    parent_biome: Biome,
)
    requires
        palette_biomes(p).contains(parent_biome),
    ensures
        palette_biomes(p).contains(presmooth_biome(b, p, lake, river, boundary, parent_biome)),
        palette_biomes(p).contains(b) ==> palette_biomes(p).contains(
            final_biome(b, p, lake, river, boundary, parent_biome),
        ),
{
    law_water_biomes_in_palette(p);
}

/// Region edges agree with the parent skeleton: an edge hex ends with its
/// parent tile's biome; an interior lake (or river) hex ends with the
/// palette's lake (or river) biome whenever the palette has one.
pub proof fn law_edges_pinned_and_water_painted(
    b: Biome,
    p: BiomePalette,
    lake: bool,
    river: bool,
    boundary: bool,
    parent_biome: Biome,
)
    ensures
        boundary ==> final_biome(b, p, lake, river, boundary, parent_biome) == parent_biome,
        !boundary && lake && water_body_biome(p) is Some ==> final_biome(
            b,
            p,
            lake,
            river,
            boundary,
            parent_biome,
        ) == water_body_biome(p)->0,
        !boundary && !lake && river && river_biome(p) is Some ==> final_biome(
            b,
            p,
            lake,
            river,
            boundary,
            parent_biome,
        ) == river_biome(p)->0,
{
}

/// Only Earth-like and Titan-like worlds paint lakes, with coastal shallows
/// and methane seas respectively, and only Earth-like worlds paint rivers,
/// as wetland.
pub proof fn law_water_painting_palettes(p: BiomePalette)
    ensures
        (water_body_biome(p) == Some(Biome::CoastalShallow)) <==> (p == BiomePalette::EarthLike),
        (water_body_biome(p) == Some(Biome::TitanMethaneSea)) <==> (p == BiomePalette::TitanLike),
        (water_body_biome(p) is None) <==> (p != BiomePalette::EarthLike && p
            != BiomePalette::TitanLike),
        (river_biome(p) == Some(Biome::Wetland)) <==> (p == BiomePalette::EarthLike),
        (river_biome(p) is None) <==> (p != BiomePalette::EarthLike),
{
}

} // verus!
