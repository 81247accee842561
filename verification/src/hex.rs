//! Integer topology of the regional hex grid: the flood fill that picks a
//! region's parent tiles, the per-tile axial lattices, their intra-tile
//! adjacency, boundary detection and seam links between tiles.
//!
//! The geometric placement of hex centres (gnomonic projection, seam
//! matching by great-circle distance) is floating-point work done by the
//! caller; everything here is exact.

use vstd::prelude::*;
use vstd::set_lib::{lemma_int_range, lemma_len_subset, set_int_range};
use crate::region::RegionSpec;

verus! {

// ---------------------------------------------------------------------------
// Region flood fill
// ---------------------------------------------------------------------------

/// Every neighbour index listed in `adj` is a valid tile index.
pub open spec fn adjacency_valid(adj: Seq<Vec<usize>>) -> bool {
    forall|u: int, k: int|
        0 <= u < adj.len() && 0 <= k < adj[u]@.len() ==> (#[trigger] adj[u]@[k]) < adj.len()
}

/// Tile `b` is listed among the neighbours of tile `a`.
pub open spec fn hop(adj: Seq<Vec<usize>>, a: usize, b: usize) -> bool {
    (a as int) < adj.len() && adj[a as int]@.contains(b)
}

/// `w` is a walk over the adjacency lists: each tile is a neighbour of the
/// one before it.
pub open spec fn is_walk(adj: Seq<Vec<usize>>, w: Seq<usize>) -> bool {
    forall|i: int, j: int|
        0 <= i && j == i + 1 && j < w.len() ==> hop(adj, #[trigger] w[i], #[trigger] w[j])
}

/// Tile `t` lies within `k` neighbour hops of `seed`: some walk from `seed`
/// to `t` takes at most `k` steps.
pub open spec fn within_hops(adj: Seq<Vec<usize>>, seed: usize, t: usize, k: nat) -> bool {
    exists|w: Seq<usize>|
        #[trigger] is_walk(adj, w) && 1 <= w.len() <= k + 1 && w[0] == seed && w.last() == t
}

/// Being within `k1` hops implies being within any larger number of hops.
pub proof fn lemma_within_hops_monotone(adj: Seq<Vec<usize>>, seed: usize, t: usize, k1: nat, k2: nat)
    requires
        k1 <= k2,
        within_hops(adj, seed, t, k1),
    ensures
        within_hops(adj, seed, t, k2),
{
    let w = choose|w: Seq<usize>|
        #[trigger] is_walk(adj, w) && 1 <= w.len() <= k1 + 1 && w[0] == seed && w.last() == t;
    assert(is_walk(adj, w) && 1 <= w.len() <= k2 + 1 && w[0] == seed && w.last() == t);
}

/// A walk extended by one neighbour is still a walk.
proof fn lemma_walk_push(adj: Seq<Vec<usize>>, w: Seq<usize>, x: usize)
    requires
        is_walk(adj, w),
        w.len() >= 1,
        hop(adj, w.last(), x),
    ensures
        is_walk(adj, w.push(x)),
{
    let w2 = w.push(x);
    assert forall|i: int, j: int| 0 <= i && j == i + 1 && j < w2.len() implies hop(
        adj,
        #[trigger] w2[i],
        #[trigger] w2[j],
    ) by {
        if j < w.len() {
            assert(w2[i] == w[i] && w2[j] == w[j]);
            assert(hop(adj, w[i], w[j]));
        }
    }
}

proof fn lemma_distinct_below_len(s: Seq<u32>, n: nat)
    requires
        s.no_duplicates(),
        forall|i: int| 0 <= i < s.len() ==> s[i] < n,
    ensures
        s.len() <= n,
{
    let t = s.map_values(|x: u32| x as int);
    assert(t.no_duplicates()) by {
        assert forall|i: int, j: int| 0 <= i < t.len() && 0 <= j < t.len() && i != j implies t[i]
            != t[j] by {
            assert(s[i] != s[j]);
        }
    }
    t.unique_seq_to_set();
    lemma_int_range(0, n as int);
    assert(t.to_set().subset_of(set_int_range(0, n as int))) by {
        assert forall|x: int| t.to_set().contains(x) implies set_int_range(0, n as int).contains(
            x,
        ) by {
            let i = choose|i: int| 0 <= i < t.len() && t[i] == x;
            assert(s[i] < n);
        }
    }
    lemma_len_subset(t.to_set(), set_int_range(0, n as int));
}

/// The neighbours of the tile at position `i` of a visit order have all been
/// visited, each at a depth at most one more than that tile's.
pub open spec fn expanded(adj: Seq<Vec<usize>>, order: Seq<u32>, depth: Seq<u32>, i: int) -> bool {
    forall|k: int|
        0 <= k < adj[order[i] as int]@.len() ==> exists|j: int|
            0 <= j < order.len() && order[j] == #[trigger] adj[order[i] as int]@[k] as u32
                && depth[j] <= depth[i] + 1
}

proof fn lemma_expanded_push(
    adj: Seq<Vec<usize>>,
    order: Seq<u32>,
    depth: Seq<u32>,
    i: int,
    x: u32,
    dx: u32,
)
    requires
        0 <= i < order.len(),
        order.len() == depth.len(),
        expanded(adj, order, depth, i),
    ensures
        expanded(adj, order.push(x), depth.push(dx), i),
{
    let o2 = order.push(x);
    let d2 = depth.push(dx);
    assert forall|k: int| 0 <= k < adj[o2[i] as int]@.len() implies exists|j: int|
        0 <= j < o2.len() && o2[j] == #[trigger] adj[o2[i] as int]@[k] as u32 && d2[j] <= d2[i]
            + 1 by {
        assert(o2[i] == order[i]);
        assert(adj[order[i] as int]@[k] == adj[o2[i] as int]@[k]);
        let j = choose|j: int|
            0 <= j < order.len() && order[j] == #[trigger] adj[order[i] as int]@[k] as u32
                && depth[j] <= depth[i] + 1;
        assert(o2[j] == order[j] && d2[j] == depth[j]);
    }
}

/// The end of every walk from the seed of at most `radius` steps has been
/// visited, at a depth no greater than the walk's length, once every
/// visited tile below the radius has been expanded.
proof fn lemma_flood_fill_complete(
    adj: Seq<Vec<usize>>,
    seed: usize,
    radius: nat,
    order: Seq<u32>,
    depth: Seq<u32>,
    w: Seq<usize>,
)
    requires
        order.len() == depth.len(),
        order.len() >= 1,
        order[0] == seed as u32,
        depth[0] == 0,
        seed < adj.len(),
        adj.len() <= 0x1_0000_0000,
        forall|i: int| 0 <= i < order.len() ==> order[i] < adj.len(),
        forall|i: int|
            0 <= i < order.len() && depth[i] < radius ==> expanded(adj, order, depth, i),
        is_walk(adj, w),
        1 <= w.len() <= radius + 1,
        w[0] == seed,
    ensures
        exists|j: int| 0 <= j < order.len() && order[j] == w.last() as u32 && depth[j] < w.len(),
    decreases w.len(),
{
    if w.len() == 1 {
        assert(order[0] == w.last() as u32);
    } else {
        let v = w.drop_last();
        assert(is_walk(adj, v)) by {
            assert forall|i: int, j: int| 0 <= i && j == i + 1 && j < v.len() implies hop(
                adj,
                #[trigger] v[i],
                #[trigger] v[j],
            ) by {
                assert(v[i] == w[i] && v[j] == w[j]);
                assert(hop(adj, w[i], w[j]));
            }
        }
        lemma_flood_fill_complete(adj, seed, radius, order, depth, v);
        let u = v.last();
        let t = w.last();
        assert(hop(adj, w[w.len() - 2], w[w.len() - 1]));
        assert(u == w[w.len() - 2]);
        let ju = choose|j: int| 0 <= j < order.len() && order[j] == u as u32 && depth[j] < v.len();
        assert(order[ju] as int == u as int);
        assert(expanded(adj, order, depth, ju));
        let p = choose|p: int| 0 <= p < adj[u as int]@.len() && adj[u as int]@[p] == t;
        assert(adj[order[ju] as int]@[p] == t);
        let j = choose|j: int|
            0 <= j < order.len() && order[j] == #[trigger] adj[order[ju] as int]@[p] as u32
                && depth[j] <= depth[ju] + 1;
        assert(order[j] == t as u32 && depth[j] < w.len());
    }
}

/// The visit order and depths after the first `j` neighbours of tile `idx`
/// (visited at depth `d`) are scanned: each neighbour not yet visited is
/// appended, at depth `d + 1`, in neighbour-list order.
pub open spec fn scan_neighbors(
    adj: Seq<Vec<usize>>,
    order: Seq<u32>,
    depth: Seq<u32>,
    idx: int,
    d: u32,
    j: nat,
) -> (Seq<u32>, Seq<u32>)
    decreases j,
{
    if j == 0 {
        (order, depth)
    } else {
        let (o, dp) = scan_neighbors(adj, order, depth, idx, d, (j - 1) as nat);
        let nb = adj[idx]@[j - 1] as u32;
        if o.contains(nb) {
            (o, dp)
        } else {
            (o.push(nb), dp.push((d + 1) as u32))
        }
    }
}

/// One breadth-first step: the tile at queue position `head` has its
/// neighbours scanned, unless it already lies at the radius.
pub open spec fn expand_head(
    adj: Seq<Vec<usize>>,
    radius: u32,
    order: Seq<u32>,
    depth: Seq<u32>,
    head: int,
) -> (Seq<u32>, Seq<u32>) {
    if depth[head] == radius {
        (order, depth)
    } else {
        scan_neighbors(adj, order, depth, order[head] as int, depth[head], adj[order[head] as int]@.len())
    }
}

/// The visit order once the queue has been worked off from position `head`
/// (taking at most `fuel` steps).
pub open spec fn bfs_from(
    adj: Seq<Vec<usize>>,
    radius: u32,
    order: Seq<u32>,
    depth: Seq<u32>,
    head: nat,
    fuel: nat,
) -> Seq<u32>
    decreases fuel,
{
    if head >= order.len() || fuel == 0 {
        order
    } else {
        let (o, dp) = expand_head(adj, radius, order, depth, head as int);
        bfs_from(adj, radius, o, dp, head + 1, (fuel - 1) as nat)
    }
}

/// The breadth-first visit order of a region: start from the seed at depth
/// 0, take tiles off the queue in the order they were visited, and append
/// each not-yet-visited neighbour of a tile below the radius in its
/// neighbour-list order.
pub open spec fn region_tiles(adj: Seq<Vec<usize>>, seed: u32, radius: u32) -> Seq<u32> {
    bfs_from(adj, radius, seq![seed], seq![0u32], 0, adj.len())
}

/// The tiles of a region, in breadth-first visit order from the seed tile
/// over the skeleton's neighbour lists `adj`: the seed first, each tile
/// once, and exactly the tiles within `spec.radius_tiles` hops.
pub fn collect_parent_tiles(adj: &Vec<Vec<usize>>, spec: &RegionSpec) -> (order: Vec<u32>)
    requires
        (spec.tile_index as int) < adj@.len(),
        adjacency_valid(adj@),
        adj@.len() <= 0x1_0000_0000,
    ensures
        order@ == region_tiles(adj@, spec.tile_index, spec.radius_tiles),
        order@.len() >= 1,
        order@[0] == spec.tile_index,
        order@.no_duplicates(),
        forall|i: int|
            0 <= i < order@.len() ==> within_hops(
                adj@,
                spec.tile_index as usize,
                #[trigger] order@[i] as usize,
                spec.radius_tiles as nat,
            ),
        forall|t: usize|
            #[trigger] within_hops(adj@, spec.tile_index as usize, t, spec.radius_tiles as nat)
                ==> order@.contains(t as u32),
        forall|i: int, j: int, h: nat|
            0 <= i < j < order@.len() && h <= spec.radius_tiles && #[trigger] within_hops(
                adj@,
                spec.tile_index as usize,
                order@[j] as usize,
                h,
            ) ==> #[trigger] within_hops(adj@, spec.tile_index as usize, order@[i] as usize, h),
{
    let n = adj.len();
    let seed = spec.tile_index as usize;
    let radius = spec.radius_tiles;
    let ghost g = adj@;
    let mut seen: Vec<bool> = Vec::new();
    let mut k: usize = 0;
    while k < n
        invariant
            k <= n,
            seen@.len() == k,
            forall|j: int| 0 <= j < k ==> !seen@[j],
        decreases n - k,
    {
        seen.push(false);
        k = k + 1;
    }
    let mut order: Vec<u32> = Vec::new();
    let mut depth: Vec<u32> = Vec::new();
    order.push(spec.tile_index);
    depth.push(0);
    seen.set(seed, true);
    let mut head: usize = 0;
    assert(order@ =~= seq![spec.tile_index]);
    assert(depth@ =~= seq![0u32]);
    assert(within_hops(g, seed, order@[0] as usize, 0)) by {
        let w = seq![seed];
        assert(is_walk(g, w));
        assert(order@[0] as usize == seed);
    }
    while head < order.len()
        invariant
            g == adj@,
            n == g.len(),
            adjacency_valid(g),
            n <= 0x1_0000_0000,
            seed == spec.tile_index as usize,
            seed < n,
            radius == spec.radius_tiles,
            seen@.len() == n,
            order@.len() == depth@.len(),
            1 <= order@.len() <= n,
            order@[0] == seed as u32,
            depth@[0] == 0,
            head <= order@.len(),
            forall|i: int| 0 <= i < order@.len() ==> order@[i] < n,
            forall|t: int| 0 <= t < n ==> (seen@[t] <==> order@.contains(t as u32)),
            order@.no_duplicates(),
            forall|i: int| 0 <= i < depth@.len() ==> depth@[i] <= radius,
            forall|i: int|
                0 <= i < order@.len() ==> within_hops(
                    g,
                    seed,
                    #[trigger] order@[i] as usize,
                    depth@[i] as nat,
                ),
            forall|i: int, j: int| 0 <= i < j < depth@.len() ==> depth@[i] <= depth@[j],
            head < order@.len() ==> forall|i: int|
                0 <= i < depth@.len() ==> depth@[i] <= depth@[head as int] + 1,
            forall|i: int|
                0 <= i < head && depth@[i] < radius ==> expanded(g, order@, depth@, i),
            region_tiles(g, spec.tile_index, radius) == bfs_from(
                g,
                radius,
                order@,
                depth@,
                head as nat,
                (n - head) as nat,
            ),
        decreases n - head,
    {
        let idx = order[head] as usize;
        let d = depth[head];
        let ghost order0 = order@;
        let ghost depth0 = depth@;
        if d != radius {
            let nbs = &adj[idx];
            let mut j: usize = 0;
            while j < nbs.len()
                invariant
                    g == adj@,
                    n == g.len(),
                    adjacency_valid(g),
                    n <= 0x1_0000_0000,
                    seed < n,
                    nbs@ == g[idx as int]@,
                    idx < n,
                    head < order@.len(),
                    idx as u32 == order@[head as int],
                    d == depth@[head as int],
                    d < radius,
                    radius == spec.radius_tiles,
                    j <= nbs@.len(),
                    seen@.len() == n,
                    order@.len() == depth@.len(),
                    1 <= order@.len() <= n,
                    order@[0] == seed as u32,
                    depth@[0] == 0,
                    forall|i: int| 0 <= i < order@.len() ==> order@[i] < n,
                    forall|t: int| 0 <= t < n ==> (seen@[t] <==> order@.contains(t as u32)),
                    order@.no_duplicates(),
                    forall|i: int| 0 <= i < depth@.len() ==> depth@[i] <= radius,
                    forall|i: int|
                        0 <= i < order@.len() ==> within_hops(
                            g,
                            seed,
                            #[trigger] order@[i] as usize,
                            depth@[i] as nat,
                        ),
                    forall|i: int, jj: int| 0 <= i < jj < depth@.len() ==> depth@[i] <= depth@[jj],
                    forall|i: int| 0 <= i < depth@.len() ==> depth@[i] <= d + 1,
                    forall|i: int|
                        0 <= i < head && depth@[i] < radius ==> expanded(g, order@, depth@, i),
                    forall|kk: int|
                        0 <= kk < j ==> exists|p: int|
                            0 <= p < order@.len() && order@[p] == #[trigger] nbs@[kk] as u32
                                && depth@[p] <= d + 1,
                    (order@, depth@) == scan_neighbors(g, order0, depth0, idx as int, d, j as nat),
                decreases nbs@.len() - j,
            {
                let nb = nbs[j];
                assert(nb < n) by {
                    assert(g[idx as int]@[j as int] < g.len());
                }
                if !seen[nb] {
                    let ghost old_order = order@;
                    let ghost old_depth = depth@;
                    seen.set(nb, true);
                    order.push(nb as u32);
                    depth.push(d + 1);
                    proof {
                        assert(!old_order.contains(nb as u32));
                        assert forall|i: int, jj: int|
                            0 <= i < order@.len() && 0 <= jj < order@.len() && i != jj implies
                            order@[i] != order@[jj] by {
                            if i < old_order.len() && jj < old_order.len() {
                                assert(old_order[i] != old_order[jj]);
                            } else if i < old_order.len() {
                                assert(old_order.contains(old_order[i]));
                            } else {
                                assert(old_order.contains(old_order[jj]));
                            }
                        }
                        lemma_distinct_below_len(order@, n as nat);
                        assert forall|t: int| 0 <= t < n implies (seen@[t] <==> order@.contains(
                            t as u32,
                        )) by {
                            if t == nb {
                                assert(order@[order@.len() - 1] == t as u32);
                            } else {
                                if order@.contains(t as u32) {
                                    let p = choose|p: int|
                                        0 <= p < order@.len() && order@[p] == t as u32;
                                    assert(p < old_order.len());
                                    assert(old_order[p] == t as u32);
                                }
                                if old_order.contains(t as u32) {
                                    let p = choose|p: int|
                                        0 <= p < old_order.len() && old_order[p] == t as u32;
                                    assert(order@[p] == t as u32);
                                }
                            }
                        }
                        assert(g[idx as int]@.contains(nb)) by {
                            assert(g[idx as int]@[j as int] == nb);
                        }
                        assert(within_hops(g, seed, nb, (d + 1) as nat)) by {
                            assert(within_hops(g, seed, order@[head as int] as usize, d as nat));
                            assert(order@[head as int] as usize == idx);
                            let w = choose|w: Seq<usize>|
                                #[trigger] is_walk(g, w) && 1 <= w.len() <= d + 1 && w[0] == seed
                                    && w.last() == idx;
                            lemma_walk_push(g, w, nb);
                            assert(w.push(nb).last() == nb);
                            assert(is_walk(g, w.push(nb)) && 1 <= w.push(nb).len() <= d + 2
                                && w.push(nb)[0] == seed);
                        }
                        assert forall|i: int|
                            0 <= i < order@.len() implies within_hops(
                            g,
                            seed,
                            #[trigger] order@[i] as usize,
                            depth@[i] as nat,
                        ) by {
                            if i < old_order.len() {
                                assert(old_order[i] == order@[i] && old_depth[i] == depth@[i]);
                            }
                        }
                        assert forall|i: int|
                            0 <= i < head && depth@[i] < radius implies expanded(
                            g,
                            order@,
                            depth@,
                            i,
                        ) by {
                            assert(old_depth[i] == depth@[i]);
                            lemma_expanded_push(g, old_order, old_depth, i, nb as u32, (d + 1) as u32);
                        }
                        assert forall|kk: int| 0 <= kk < j + 1 implies exists|p: int|
                            0 <= p < order@.len() && order@[p] == #[trigger] nbs@[kk] as u32
                                && depth@[p] <= d + 1 by {
                            if kk < j {
                                let p = choose|p: int|
                                    0 <= p < old_order.len() && old_order[p]
                                        == #[trigger] nbs@[kk] as u32 && old_depth[p] <= d + 1;
                                assert(order@[p] == old_order[p] && depth@[p] == old_depth[p]);
                            } else {
                                assert(order@[old_order.len() as int] == nbs@[kk] as u32);
                            }
                        }
                    }
                } else {
                    proof {
                        assert(order@.contains(nb as u32));
                        let p = choose|p: int| 0 <= p < order@.len() && order@[p] == nb as u32;
                        assert(order@[p] == nbs@[j as int] as u32);
                    }
                }
                j = j + 1;
            }
            proof {
                assert(expanded(g, order@, depth@, head as int)) by {
                    assert(order@[head as int] as int == idx as int);
                }
            }
        }
        proof {
            if head + 1 < order@.len() {
                assert(depth@[head as int] <= depth@[head + 1]);
            }
            assert((order@, depth@) == expand_head(g, radius, order0, depth0, head as int));
        }
        head = head + 1;
    }
    proof {
        assert forall|i: int|
            0 <= i < order@.len() implies within_hops(
            g,
            seed,
            #[trigger] order@[i] as usize,
            radius as nat,
        ) by {
            lemma_within_hops_monotone(g, seed, order@[i] as usize, depth@[i] as nat, radius as nat);
        }
        assert forall|t: usize| #[trigger] within_hops(g, seed, t, radius as nat) implies order@.contains(
            t as u32,
        ) by {
            let w = choose|w: Seq<usize>|
                #[trigger] is_walk(g, w) && 1 <= w.len() <= radius + 1 && w[0] == seed
                    && w.last() == t;
            lemma_flood_fill_complete(g, seed, radius as nat, order@, depth@, w);
        }
        assert forall|i: int, j: int, h: nat|
            0 <= i < j < order@.len() && h <= radius && #[trigger] within_hops(
                g,
                seed,
                order@[j] as usize,
                h,
            ) implies #[trigger] within_hops(g, seed, order@[i] as usize, h) by {
            let t = order@[j] as usize;
            let w = choose|w: Seq<usize>|
                #[trigger] is_walk(g, w) && 1 <= w.len() <= h + 1 && w[0] == seed && w.last() == t;
            lemma_flood_fill_complete(g, seed, radius as nat, order@, depth@, w);
            let jj = choose|jj: int|
                0 <= jj < order@.len() && order@[jj] == w.last() as u32 && depth@[jj] < w.len();
            assert(order@[jj] == order@[j]);
            assert(jj == j);
            lemma_within_hops_monotone(g, seed, order@[i] as usize, depth@[i] as nat, h);
        }
    }
    order
}

// ---------------------------------------------------------------------------
// Per-tile axial lattices
// ---------------------------------------------------------------------------

/// Configuration for hex-grid generation.
#[derive(Clone, Copy, Debug, PartialEq, Eq, Structural)]
pub struct HexGridConfig {
    /// Number of hexes along each axis of a parent tile's lattice.
    pub subdivision: u32,
}

impl HexGridConfig {
    /// The default subdivision: 32 hexes per lattice axis.
    pub fn default() -> (r: Self)
        ensures
            r.subdivision == 32,
    {
        HexGridConfig { subdivision: 32 }
    }
}

/// The exact part of a hex cell: its index in the region, its parent tile
/// and its axial coordinates in the parent tile's lattice.
#[derive(Clone, Copy, Debug, PartialEq, Eq, Structural)]
pub struct HexCoord {
    /// Index of this hex within the region's cell list.
    pub region_hex_index: u32,
    /// Index of the parent skeleton tile.
    pub parent_tile: u32,
    /// Axial-q coordinate in the parent tile's lattice.
    pub q: i32,
    /// Axial-r coordinate in the parent tile's lattice.
    pub r: i32,
}

/// Position in the region's cell list of hex `(q, r)` of the `k`-th parent
/// tile, for lattices of side `n`: tiles in order, rows within a tile,
/// columns within a row.
pub open spec fn lattice_index(k: int, r: int, q: int, n: int) -> int {
    k * n * n + r * n + q
}

proof fn lemma_lattice_index_bounds(k: int, r: int, q: int, n: int)
    requires
        0 <= k,
        0 <= r < n,
        0 <= q < n,
    ensures
        k * n * n + r * n <= lattice_index(k, r, q, n) < k * n * n + (r + 1) * n,
        (r + 1) * n <= n * n,
        k * n * n + n * n == (k + 1) * n * n,
        0 <= lattice_index(k, r, q, n),
{
    assert((r + 1) * n <= n * n) by (nonlinear_arith)
        requires
            r + 1 <= n,
            0 <= n,
    ;
    assert(k * n * n + n * n == (k + 1) * n * n) by (nonlinear_arith);
    assert(k * n * n + r * n >= 0) by (nonlinear_arith)
        requires
            0 <= k,
            0 <= r,
            0 <= n,
    ;
    assert((r + 1) * n == r * n + n) by (nonlinear_arith);
}

proof fn lemma_lattice_index_order(k1: int, k2: int, n: int)
    requires
        0 <= k1 < k2,
        0 <= n,
    ensures
        (k1 + 1) * n * n <= k2 * n * n,
{
    assert((k1 + 1) * n * n <= k2 * n * n) by (nonlinear_arith)
        requires
            k1 + 1 <= k2,
            0 <= n,
    ;
}

/// The lattice coordinate stored at position `(k, r, q)` of a region whose
/// parent tiles are `parents`.
pub open spec fn lattice_coord(parents: Seq<u32>, k: int, r: int, q: int, n: int) -> HexCoord {
    HexCoord {
        region_hex_index: lattice_index(k, r, q, n) as u32,
        parent_tile: parents[k],
        q: q as i32,
        r: r as i32,
    }
}

/// Axial q-offset of neighbour direction `d` (E, NE, NW, W, SW, SE).
pub open spec fn axial_dq(d: int) -> int {
    if d == 0 { 1 } else if d == 1 { 1 } else if d == 2 { 0 } else if d == 3 { -1 } else if d == 4 { -1 } else { 0 }
}

/// Axial r-offset of neighbour direction `d` (E, NE, NW, W, SW, SE).
pub open spec fn axial_dr(d: int) -> int {
    if d == 0 { 0 } else if d == 1 { -1 } else if d == 2 { -1 } else if d == 3 { 0 } else if d == 4 { 1 } else { 1 }
}

/// The neighbour in direction `d` of hex `(q, r)` of the `k`-th tile's
/// lattice, if it lies inside that lattice.
pub open spec fn lattice_slot(k: int, r: int, q: int, n: int, d: int) -> Option<u32> {
    let nq = q + axial_dq(d);
    let nr = r + axial_dr(d);
    if 0 <= nq < n && 0 <= nr < n {
        Some(lattice_index(k, nr, nq, n) as u32)
    } else {
        None
    }
}

/// The exact topology of a region's hex grid before seams are stitched.
pub struct HexLattice {
    /// Every hex of the region, tile by tile.
    pub cells: Vec<HexCoord>,
    /// Six neighbour slots per hex (E, NE, NW, W, SW, SE), `None` where the
    /// tile's lattice ends.
    pub neighbors: Vec<[Option<u32>; 6]>,
}

/// Offset of a direction's neighbour, inside a lattice of side `n`.
fn lattice_step(r: u32, q: u32, n: u32, d: usize) -> (res: Option<(u32, u32)>)
    requires
        r < n,
        q < n,
        d < 6,
        n <= 0x1_0000,
    ensures
        match res {
            Some((nr, nq)) => 0 <= q + axial_dq(d as int) < n && 0 <= r + axial_dr(d as int) < n
                && nq == q + axial_dq(d as int) && nr == r + axial_dr(d as int),
            None => !(0 <= q + axial_dq(d as int) < n && 0 <= r + axial_dr(d as int) < n),
        },
{
    let (nq, nr): (i64, i64) = if d == 0 {
        (q as i64 + 1, r as i64)
    } else if d == 1 {
        (q as i64 + 1, r as i64 - 1)
    } else if d == 2 {
        (q as i64, r as i64 - 1)
    } else if d == 3 {
        (q as i64 - 1, r as i64)
    } else if d == 4 {
        (q as i64 - 1, r as i64 + 1)
    } else {
        (q as i64, r as i64 + 1)
    };
    if 0 <= nq && nq < n as i64 && 0 <= nr && nr < n as i64 {
        Some((nr as u32, nq as u32))
    } else {
        None
    }
}

/// The neighbour slot in direction `d` of hex `(q, r)` of the tile whose
/// lattice starts at cell `base`.
fn lattice_neighbor(base: usize, r: u32, q: u32, n: u32, d: usize, Ghost(k): Ghost<int>) -> (res:
    Option<u32>)
    requires
        r < n,
        q < n,
        d < 6,
        n <= 0x1_0000,
        0 <= k,
        base == k * n * n,
        (k + 1) * n * n <= 0x1_0000_0000,
    ensures
        res == lattice_slot(k, r as int, q as int, n as int, d as int),
{
    match lattice_step(r, q, n, d) {
        Some((nr, nq)) => {
            proof {
                lemma_lattice_index_bounds(k, nr as int, nq as int, n as int);
            }
            Some((base + (nr as usize) * (n as usize) + nq as usize) as u32)
        },
        None => None,
    }
}

impl HexLattice {
    /// Lay out an `n` x `n` axial lattice for every parent tile, in tile
    /// order and row-major order within a tile, and link each hex to its
    /// in-lattice neighbours.
    pub fn build(parent_tiles: &Vec<u32>, n: u32) -> (res: HexLattice)
        requires
            n > 0,
            parent_tiles@.len() * n * n <= 0x1_0000_0000,
        ensures
            res.cells@.len() == parent_tiles@.len() * n * n,
            res.neighbors@.len() == res.cells@.len(),
            forall|k: int, r: int, q: int|
                0 <= k < parent_tiles@.len() && 0 <= r < n && 0 <= q < n ==> res.cells@[
                    #[trigger] lattice_index(k, r, q, n as int)
                ] == lattice_coord(parent_tiles@, k, r, q, n as int),
            forall|k: int, r: int, q: int, d: int|
                0 <= k < parent_tiles@.len() && 0 <= r < n && 0 <= q < n && 0 <= d < 6
                    ==> #[trigger] res.neighbors@[lattice_index(k, r, q, n as int)]@[d]
                    == lattice_slot(k, r, q, n as int, d),
    {
        let ghost ni = n as int;
        let ghost ps = parent_tiles@;
        proof {
            if ps.len() > 0 {
                assert(ps.len() * ni * ni >= ni * ni) by (nonlinear_arith)
                    requires
                        ps.len() >= 1,
                        ni >= 0,
                ;
                assert(ni <= 0x1_0000) by (nonlinear_arith)
                    requires
                        ni * ni <= 0x1_0000_0000,
                        ni >= 1,
                ;
            }
        }
        let mut cells: Vec<HexCoord> = Vec::new();
        let mut neighbors: Vec<[Option<u32>; 6]> = Vec::new();
        let mut k: usize = 0;
        while k < parent_tiles.len()
            invariant
                ps == parent_tiles@,
                ni == n as int,
                n > 0,
                ps.len() * ni * ni <= 0x1_0000_0000,
                ps.len() > 0 ==> ni <= 0x1_0000,
                k <= ps.len(),
                cells@.len() == k * ni * ni,
                neighbors@.len() == cells@.len(),
                forall|k2: int, r2: int, q2: int|
                    0 <= k2 < k && 0 <= r2 < n && 0 <= q2 < n ==> cells@[
                        #[trigger] lattice_index(k2, r2, q2, ni)
                    ] == lattice_coord(ps, k2, r2, q2, ni),
                forall|k2: int, r2: int, q2: int, d: int|
                    0 <= k2 < k && 0 <= r2 < n && 0 <= q2 < n && 0 <= d < 6
                        ==> #[trigger] neighbors@[lattice_index(k2, r2, q2, ni)]@[d]
                        == lattice_slot(k2, r2, q2, ni, d),
            decreases ps.len() - k,
        {
            proof {
                assert(ps.len() * ni * ni >= (k + 1) * ni * ni) by (nonlinear_arith)
                    requires
                        ps.len() >= k + 1,
                        ni >= 0,
                ;
                assert(ni * ni <= ps.len() * ni * ni) by (nonlinear_arith)
                    requires
                        ps.len() >= 1,
                        ni >= 0,
                ;
                assert(ni <= 0x1_0000) by (nonlinear_arith)
                    requires
                        ni * ni <= 0x1_0000_0000,
                        ni >= 1,
                ;
                assert(k * ni * ni + ni * ni == (k + 1) * ni * ni) by (nonlinear_arith);
            }
            let parent = parent_tiles[k];
            let mut r: u32 = 0;
            while r < n
                invariant
                    ps == parent_tiles@,
                    ni == n as int,
                    n > 0,
                    ni <= 0x1_0000,
                    k < ps.len(),
                    parent == ps[k as int],
                    (k + 1) * ni * ni <= 0x1_0000_0000,
                    k * ni * ni + ni * ni == (k + 1) * ni * ni,
                    r <= n,
                    cells@.len() == k * ni * ni + r * ni,
                    neighbors@.len() == cells@.len(),
                    forall|k2: int, r2: int, q2: int|
                        0 <= k2 < k && 0 <= r2 < n && 0 <= q2 < n ==> cells@[
                            #[trigger] lattice_index(k2, r2, q2, ni)
                        ] == lattice_coord(ps, k2, r2, q2, ni),
                    forall|k2: int, r2: int, q2: int, d: int|
                        0 <= k2 < k && 0 <= r2 < n && 0 <= q2 < n && 0 <= d < 6
                            ==> #[trigger] neighbors@[lattice_index(k2, r2, q2, ni)]@[d]
                            == lattice_slot(k2, r2, q2, ni, d),
                    forall|r2: int, q2: int|
                        0 <= r2 < r && 0 <= q2 < n ==> cells@[
                            #[trigger] lattice_index(k as int, r2, q2, ni)
                        ] == lattice_coord(ps, k as int, r2, q2, ni),
                    forall|r2: int, q2: int, d: int|
                        0 <= r2 < r && 0 <= q2 < n && 0 <= d < 6
                            ==> #[trigger] neighbors@[lattice_index(k as int, r2, q2, ni)]@[d]
                            == lattice_slot(k as int, r2, q2, ni, d),
                decreases n - r,
            {
                let mut q: u32 = 0;
                while q < n
                    invariant
                        ps == parent_tiles@,
                        ni == n as int,
                        n > 0,
                        ni <= 0x1_0000,
                        k < ps.len(),
                        parent == ps[k as int],
                        (k + 1) * ni * ni <= 0x1_0000_0000,
                        k * ni * ni + ni * ni == (k + 1) * ni * ni,
                        r < n,
                        q <= n,
                        cells@.len() == k * ni * ni + r * ni + q,
                        neighbors@.len() == cells@.len(),
                        forall|k2: int, r2: int, q2: int|
                            0 <= k2 < k && 0 <= r2 < n && 0 <= q2 < n ==> cells@[
                                #[trigger] lattice_index(k2, r2, q2, ni)
                            ] == lattice_coord(ps, k2, r2, q2, ni),
                        forall|k2: int, r2: int, q2: int, d: int|
                            0 <= k2 < k && 0 <= r2 < n && 0 <= q2 < n && 0 <= d < 6
                                ==> #[trigger] neighbors@[lattice_index(k2, r2, q2, ni)]@[d]
                                == lattice_slot(k2, r2, q2, ni, d),
                        forall|r2: int, q2: int|
                            0 <= r2 < r && 0 <= q2 < n ==> cells@[
                                #[trigger] lattice_index(k as int, r2, q2, ni)
                            ] == lattice_coord(ps, k as int, r2, q2, ni),
                        forall|r2: int, q2: int, d: int|
                            0 <= r2 < r && 0 <= q2 < n && 0 <= d < 6
                                ==> #[trigger] neighbors@[lattice_index(k as int, r2, q2, ni)]@[d]
                                == lattice_slot(k as int, r2, q2, ni, d),
                        forall|q2: int|
                            0 <= q2 < q ==> cells@[#[trigger] lattice_index(k as int, r as int, q2, ni)]
                                == lattice_coord(ps, k as int, r as int, q2, ni),
                        forall|q2: int, d: int|
                            0 <= q2 < q && 0 <= d < 6 ==> #[trigger] neighbors@[lattice_index(
                                k as int,
                                r as int,
                                q2,
                                ni,
                            )]@[d] == lattice_slot(k as int, r as int, q2, ni, d),
                    decreases n - q,
                {
                    proof {
                        lemma_lattice_index_bounds(k as int, r as int, q as int, ni);
                    }
                    let idx = cells.len();
                    let base: usize = idx - (q as usize) - (r as usize) * (n as usize);
                    let slots: [Option<u32>; 6] = [
                        lattice_neighbor(base, r, q, n, 0, Ghost(k as int)),
                        lattice_neighbor(base, r, q, n, 1, Ghost(k as int)),
                        lattice_neighbor(base, r, q, n, 2, Ghost(k as int)),
                        lattice_neighbor(base, r, q, n, 3, Ghost(k as int)),
                        lattice_neighbor(base, r, q, n, 4, Ghost(k as int)),
                        lattice_neighbor(base, r, q, n, 5, Ghost(k as int)),
                    ];
                    let ghost old_cells = cells@;
                    let ghost old_neighbors = neighbors@;
                    cells.push(
                        HexCoord {
                            region_hex_index: idx as u32,
                            parent_tile: parent,
                            q: q as i32,
                            r: r as i32,
                        },
                    );
                    neighbors.push(slots);
                    proof {
                        assert forall|j: int| 0 <= j < old_cells.len() implies cells@[j]
                            == old_cells[j] && neighbors@[j] == old_neighbors[j] by {}
                        assert forall|k2: int, r2: int, q2: int|
                            0 <= k2 < k && 0 <= r2 < n && 0 <= q2 < n implies cells@[
                            #[trigger] lattice_index(k2, r2, q2, ni)
                        ] == old_cells[lattice_index(k2, r2, q2, ni)] && neighbors@[lattice_index(
                            k2,
                            r2,
                            q2,
                            ni,
                        )] == old_neighbors[lattice_index(k2, r2, q2, ni)] by {
                            lemma_lattice_index_bounds(k2, r2, q2, ni);
                            lemma_lattice_index_order(k2, k as int, ni);
                        }
                        assert forall|r2: int, q2: int|
                            0 <= r2 < r && 0 <= q2 < n implies cells@[
                            #[trigger] lattice_index(k as int, r2, q2, ni)
                        ] == old_cells[lattice_index(k as int, r2, q2, ni)] && neighbors@[
                            lattice_index(k as int, r2, q2, ni)
                        ] == old_neighbors[lattice_index(k as int, r2, q2, ni)] by {
                            lemma_lattice_index_bounds(k as int, r2, q2, ni);
                            assert((r2 + 1) * ni <= r * ni) by (nonlinear_arith)
                                requires
                                    r2 + 1 <= r,
                                    0 <= ni,
                            ;
                        }
                        assert(lattice_index(k as int, r as int, q as int, ni) == old_cells.len());
                    }
                    q = q + 1;
                }
                proof {
                    assert((r + 1) * ni == r * ni + ni) by (nonlinear_arith);
                }
                r = r + 1;
            }
            k = k + 1;
        }
        HexLattice { cells, neighbors }
    }
}

/// The direction opposite to `d`.
pub open spec fn opposite(d: int) -> int {
    (d + 3) % 6
}

/// Intra-tile adjacency is symmetric: when a hex lists a neighbour in
/// direction `d`, that neighbour lists the hex in the opposite direction,
/// and both lie in the same tile's lattice.
pub proof fn law_lattice_neighbors_symmetric(k: int, r: int, q: int, n: int, d: int)
    requires
        0 <= k,
        0 <= r < n,
        0 <= q < n,
        0 <= d < 6,
        lattice_slot(k, r, q, n, d) is Some,
    ensures
        ({
            let nq = q + axial_dq(d);
            let nr = r + axial_dr(d);
            &&& 0 <= nq < n
            &&& 0 <= nr < n
            &&& lattice_slot(k, r, q, n, d) == Some(lattice_index(k, nr, nq, n) as u32)
            &&& lattice_slot(k, nr, nq, n, opposite(d)) == Some(lattice_index(k, r, q, n) as u32)
        }),
{
}

// ---------------------------------------------------------------------------
// Boundary cells and seam links
// ---------------------------------------------------------------------------

/// The neighbour slots of every hex, as sequences.
pub open spec fn slot_view(nb: Seq<[Option<u32>; 6]>) -> Seq<Seq<Option<u32>>> {
    nb.map_values(|slots: [Option<u32>; 6]| slots@)
}

/// A hex with at least one empty neighbour slot lies on the region's edge.
pub fn boundary_mask(neighbors: &Vec<[Option<u32>; 6]>) -> (r: Vec<bool>)
    ensures
        r@.len() == neighbors@.len(),
        forall|i: int| 0 <= i < r@.len() ==> r@[i] == neighbors@[i]@.contains(None),
{
    let mut r: Vec<bool> = Vec::new();
    let mut i: usize = 0;
    while i < neighbors.len()
        invariant
            i <= neighbors@.len(),
            r@.len() == i,
            forall|j: int| 0 <= j < i ==> r@[j] == neighbors@[j]@.contains(None),
        decreases neighbors@.len() - i,
    {
        let slots = neighbors[i];
        let mut open = false;
        let mut d: usize = 0;
        while d < 6
            invariant
                d <= 6,
                slots@.len() == 6,
                open == (exists|e: int| 0 <= e < d && slots@[e] is None),
            decreases 6 - d,
        {
            if slots[d].is_none() {
                open = true;
            }
            d = d + 1;
        }
        proof {
            if open {
                let e = choose|e: int| 0 <= e < 6 && slots@[e] is None;
                assert(slots@[e] == None::<u32>);
            } else {
                assert forall|e: int| 0 <= e < 6 implies slots@[e] != None::<u32> by {
                    assert(!(slots@[e] is None));
                }
            }
        }
        r.push(open);
        i = i + 1;
    }
    r
}

/// Position of the first empty slot, or the length when every slot is
/// taken.
pub open spec fn first_free(s: Seq<Option<u32>>) -> int
    decreases s.len(),
{
    if s.len() == 0 {
        0
    } else if s[0] is None {
        0
    } else {
        1 + first_free(s.drop_first())
    }
}

proof fn lemma_first_free(s: Seq<Option<u32>>)
    ensures
        0 <= first_free(s) <= s.len(),
        first_free(s) < s.len() ==> s[first_free(s)] is None,
        forall|j: int| 0 <= j < first_free(s) ==> s[j] is Some,
        first_free(s) == s.len() <==> !s.contains(None),
    decreases s.len(),
{
    if s.len() > 0 && !(s[0] is None) {
        lemma_first_free(s.drop_first());
        assert forall|j: int| 0 <= j < first_free(s) implies s[j] is Some by {
            if j > 0 {
                assert(s[j] == s.drop_first()[j - 1]);
            }
        }
        if s.contains(None) {
            let j = choose|j: int| 0 <= j < s.len() && s[j] == None::<u32>;
            assert(s.drop_first()[j - 1] == None::<u32>);
        }
        if s.drop_first().contains(None) {
            let j = choose|j: int| 0 <= j < s.drop_first().len() && s.drop_first()[j] == None::<u32>;
            assert(s[j + 1] == None::<u32>);
        }
    } else if s.len() > 0 {
        assert(s[0] == None::<u32>);
    }
}

/// `s` with `Some(x)` written into its first empty slot, if it has one.
pub open spec fn fill_first_free(s: Seq<Option<u32>>, x: u32) -> Seq<Option<u32>> {
    if first_free(s) < s.len() {
        s.update(first_free(s), Some(x))
    } else {
        s
    }
}

/// The slots after installing a reciprocal seam link between `a` and `b`:
/// nothing changes when `a` already lists `b`, or when either side has
/// neither the link nor an empty slot for it; otherwise `a` takes `b` in its
/// first empty slot, and `b` then takes `a` in its first empty slot unless
/// it already lists it.
pub open spec fn with_seam_link(nb: Seq<Seq<Option<u32>>>, a: int, b: int) -> Seq<Seq<Option<u32>>> {
    let sa = nb[a];
    let sb = nb[b];
    if sa.contains(Some(b as u32)) || !sa.contains(None) || !(sb.contains(Some(a as u32))
        || sb.contains(None)) {
        nb
    } else {
        let mid = nb.update(a, fill_first_free(sa, b as u32));
        let sb2 = mid[b];
        if sb2.contains(Some(a as u32)) {
            mid
        } else {
            mid.update(b, fill_first_free(sb2, a as u32))
        }
    }
}

fn slots_contain(slots: &[Option<u32>; 6], x: Option<u32>) -> (r: bool)
    ensures
        r == slots@.contains(x),
{
    let mut d: usize = 0;
    while d < 6
        invariant
            d <= 6,
            slots@.len() == 6,
            forall|e: int| 0 <= e < d ==> slots@[e] != x,
        decreases 6 - d,
    {
        if slots[d] == x {
            return true;
        }
        d = d + 1;
    }
    false
}

/// `slots` with its first empty slot set to `Some(x)`, and whether there
/// was one.
fn fill_slot(slots: [Option<u32>; 6], x: u32) -> (res: ([Option<u32>; 6], bool))
    ensures
        res.0@ == fill_first_free(slots@, x),
        res.1 == slots@.contains(None),
{
    proof {
        lemma_first_free(slots@);
    }
    let mut d: usize = 0;
    while d < 6
        invariant
            d <= 6,
            slots@.len() == 6,
            0 <= first_free(slots@) <= 6,
            first_free(slots@) < 6 ==> slots@[first_free(slots@)] is None,
            forall|j: int| 0 <= j < first_free(slots@) ==> slots@[j] is Some,
            first_free(slots@) == 6 <==> !slots@.contains(None),
            d <= first_free(slots@),
        decreases 6 - d,
    {
        if slots[d].is_none() {
            let v = Some(x);
            let r: [Option<u32>; 6] = [
                if d == 0 { v } else { slots[0] },
                if d == 1 { v } else { slots[1] },
                if d == 2 { v } else { slots[2] },
                if d == 3 { v } else { slots[3] },
                if d == 4 { v } else { slots[4] },
                if d == 5 { v } else { slots[5] },
            ];
            assert(r@ =~= slots@.update(d as int, v));
            return (r, true);
        }
        d = d + 1;
    }
    (slots, false)
}

/// Install a reciprocal seam link between hexes `a` and `b`, each side in
/// its first empty slot. Nothing changes when `a` already lists `b`, or when
/// either hex has neither the link nor an empty slot for it (a link is
/// never installed one way only).
pub fn install_seam_link(neighbors: &mut Vec<[Option<u32>; 6]>, a: u32, b: u32)
    requires
        (a as int) < old(neighbors)@.len(),
        (b as int) < old(neighbors)@.len(),
    ensures
        final(neighbors)@.len() == old(neighbors)@.len(),
        slot_view(final(neighbors)@) == with_seam_link(slot_view(old(neighbors)@), a as int, b as int),
{
    let ghost nb0 = slot_view(neighbors@);
    let sa = neighbors[a as usize];
    if slots_contain(&sa, Some(b)) {
        return;
    }
    let sb0 = neighbors[b as usize];
    if !(slots_contain(&sb0, Some(a)) || slots_contain(&sb0, None)) {
        return;
    }
    let (sa2, filled) = fill_slot(sa, b);
    if !filled {
        return;
    }
    neighbors.set(a as usize, sa2);
    let ghost nb1 = slot_view(neighbors@);
    assert(nb1 =~= nb0.update(a as int, fill_first_free(nb0[a as int], b)));
    let sb = neighbors[b as usize];
    if slots_contain(&sb, Some(a)) {
        return;
    }
    let (sb2, _) = fill_slot(sb, a);
    neighbors.set(b as usize, sb2);
    assert(slot_view(neighbors@) =~= nb1.update(b as int, fill_first_free(nb1[b as int], a)));
}

/// Every listed neighbour is a valid hex that lists the hex back.
pub open spec fn links_symmetric(nb: Seq<Seq<Option<u32>>>) -> bool {
    forall|i: int, s: int|
        0 <= i < nb.len() && 0 <= s < nb[i].len() && #[trigger] nb[i][s] is Some ==> {
            let j = nb[i][s]->0 as int;
            &&& j < nb.len()
            &&& nb[j].contains(Some(i as u32))
        }
}

proof fn lemma_fill_first_free(s: Seq<Option<u32>>, x: u32)
    ensures
        fill_first_free(s, x).len() == s.len(),
        s.contains(None) ==> fill_first_free(s, x).contains(Some(x)),
        forall|v: Option<u32>| v is Some && #[trigger] s.contains(v) ==> fill_first_free(s, x).contains(v),
        forall|j: int|
            0 <= j < s.len() && #[trigger] fill_first_free(s, x)[j] is Some ==> fill_first_free(
                s,
                x,
            )[j] == Some(x) || fill_first_free(s, x)[j] == s[j],
{
    lemma_first_free(s);
    let f = fill_first_free(s, x);
    if s.contains(None) {
        assert(f[first_free(s)] == Some(x));
    }
    assert forall|v: Option<u32>| v is Some && #[trigger] s.contains(v) implies f.contains(v) by {
        let j = choose|j: int| 0 <= j < s.len() && s[j] == v;
        if first_free(s) < s.len() {
            assert(j != first_free(s));
        }
        assert(f[j] == v);
    }
}

/// Installing a seam link keeps the neighbour relation symmetric, and the
/// two hexes end up linked whenever `a` already listed `b` or both had an
/// empty slot.
pub proof fn law_seam_link_keeps_symmetry(nb: Seq<Seq<Option<u32>>>, a: int, b: int)
    requires
        links_symmetric(nb),
        0 <= a < nb.len(),
        0 <= b < nb.len(),
        nb.len() <= 0x1_0000_0000,
    ensures
        links_symmetric(with_seam_link(nb, a, b)),
        (nb[a].contains(Some(b as u32)) || (nb[a].contains(None) && nb[b].contains(None))) ==> (
        with_seam_link(nb, a, b)[a].contains(Some(b as u32)) && with_seam_link(nb, a, b)[b].contains(
            Some(a as u32),
        )),
{
    let sa = nb[a];
    if sa.contains(Some(b as u32)) {
        let s = choose|s: int| 0 <= s < sa.len() && sa[s] == Some(b as u32);
        assert(nb[a][s] is Some);
        assert((b as u32) as int == b);
    } else if !sa.contains(None) || !(nb[b].contains(Some(a as u32)) || nb[b].contains(None)) {
    } else {
        lemma_fill_first_free(sa, b as u32);
        let mid = nb.update(a, fill_first_free(sa, b as u32));
        let sb = mid[b];
        lemma_fill_first_free(sb, a as u32);
        if a == b {
            assert(sb.contains(Some(a as u32)));
        } else {
            assert(!sb.contains(Some(a as u32))) by {
                if sb.contains(Some(a as u32)) {
                    let s = choose|s: int| 0 <= s < sb.len() && sb[s] == Some(a as u32);
                    assert(nb[b][s] is Some);
                    assert((a as u32) as int == a);
                }
            }
        }
        let fin = with_seam_link(nb, a, b);
        assert forall|i: int, s: int|
            0 <= i < fin.len() && 0 <= s < fin[i].len() && #[trigger] fin[i][s] is Some implies {
            let j = fin[i][s]->0 as int;
            &&& j < fin.len()
            &&& fin[j].contains(Some(i as u32))
        } by {
            let j = fin[i][s]->0 as int;
            if (i == a || i == b) && fin[i][s] != nb[i][s] {
                // A freshly written link points at the other end.
                if i == a && fin[i][s] == Some(b as u32) {
                    assert((b as u32) as int == b);
                } else {
                    assert((a as u32) as int == a);
                }
            } else {
                assert(nb[i][s] is Some);
                assert(nb[j].contains(Some(i as u32)));
                assert(fin[j].contains(Some(i as u32)));
            }
        }
    }
}

/// One more than the largest q-coordinate among the hexes of `tile` in
/// `cells` (one when the tile has none).
pub open spec fn lattice_side(cells: Seq<HexCoord>, tile: u32) -> int
    decreases cells.len(),
{
    if cells.len() == 0 {
        1
    } else {
        let m = lattice_side(cells.drop_last(), tile);
        let c = cells.last();
        if c.parent_tile == tile && c.q + 1 > m {
            c.q + 1
        } else {
            m
        }
    }
}

proof fn lemma_lattice_side(cells: Seq<HexCoord>, tile: u32)
    requires
        forall|i: int| 0 <= i < cells.len() ==> 0 <= (#[trigger] cells[i]).q,
    ensures
        lattice_side(cells, tile) >= 1,
        forall|i: int|
            0 <= i < cells.len() && (#[trigger] cells[i]).parent_tile == tile ==> cells[i].q
                < lattice_side(cells, tile),
        lattice_side(cells, tile) == 1 || exists|i: int|
            0 <= i < cells.len() && (#[trigger] cells[i]).parent_tile == tile && cells[i].q + 1
                == lattice_side(cells, tile),
    decreases cells.len(),
{
    if cells.len() > 0 {
        let init = cells.drop_last();
        lemma_lattice_side(init, tile);
        assert forall|i: int|
            0 <= i < cells.len() && (#[trigger] cells[i]).parent_tile == tile implies cells[i].q
            < lattice_side(cells, tile) by {
            if i < init.len() {
                assert(init[i] == cells[i]);
            }
        }
        if lattice_side(cells, tile) != 1 && lattice_side(cells, tile) == lattice_side(init, tile) {
            let i = choose|i: int|
                0 <= i < init.len() && (#[trigger] init[i]).parent_tile == tile && init[i].q + 1
                    == lattice_side(init, tile);
            assert(cells[i] == init[i]);
        }
        if lattice_side(cells, tile) != lattice_side(init, tile) {
            assert(cells[cells.len() - 1] == cells.last());
        }
    }
}

/// Side length of the lattice of `parent_tile`, read back from the cells:
/// one more than the largest q-coordinate among its hexes.
pub fn parent_lattice_size(cells: &Vec<HexCoord>, parent_tile: u32) -> (r: u32)
    requires
        forall|i: int| 0 <= i < cells@.len() ==> 0 <= (#[trigger] cells@[i]).q < i32::MAX,
    ensures
        r == lattice_side(cells@, parent_tile),
        r >= 1,
        forall|i: int|
            0 <= i < cells@.len() && (#[trigger] cells@[i]).parent_tile == parent_tile ==> cells@[i].q
                < r,
        r == 1 || exists|i: int|
            0 <= i < cells@.len() && (#[trigger] cells@[i]).parent_tile == parent_tile
                && cells@[i].q + 1 == r,
{
    let ghost cs = cells@;
    let mut max_q: i32 = 0;
    let mut i: usize = 0;
    assert(cs.take(0) =~= Seq::<HexCoord>::empty());
    while i < cells.len()
        invariant
            cs == cells@,
            i <= cs.len(),
            forall|j: int| 0 <= j < cs.len() ==> 0 <= (#[trigger] cs[j]).q < i32::MAX,
            0 <= max_q < i32::MAX,
            max_q + 1 == lattice_side(cs.take(i as int), parent_tile),
        decreases cs.len() - i,
    {
        let c = cells[i];
        assert(cs.take(i + 1).drop_last() =~= cs.take(i as int));
        assert(cs.take(i + 1).last() == c);
        if c.parent_tile == parent_tile && c.q > max_q {
            max_q = c.q;
        }
        i = i + 1;
    }
    assert(cs.take(cs.len() as int) =~= cs);
    proof {
        lemma_lattice_side(cs, parent_tile);
    }
    (max_q + 1) as u32
}

/// A hex touches one of the four edges of its tile's lattice of side `side`.
pub open spec fn on_lattice_edge(c: HexCoord, side: int) -> bool {
    c.q == 0 || c.r == 0 || c.q + 1 == side || c.r + 1 == side
}

/// Selects the edge hexes of `tile`, by region index.
pub open spec fn edge_hex_of(tile: u32, side: int) -> spec_fn(HexCoord) -> Option<u32> {
    |c: HexCoord|
        if c.parent_tile == tile && on_lattice_edge(c, side) {
            Some(c.region_hex_index)
        } else {
            None
        }
}

/// The hexes of `tile` that touch an edge of its lattice, in cell order;
/// these are the candidates for seam links to adjacent tiles.
pub fn edge_hexes(cells: &Vec<HexCoord>, tile: u32) -> (r: Vec<u32>)
    requires
        forall|i: int|
            0 <= i < cells@.len() ==> 0 <= (#[trigger] cells@[i]).q < i32::MAX && 0 <= cells@[i].r
                < i32::MAX,
    ensures
        r@ == cells@.filter_map(edge_hex_of(tile, lattice_side(cells@, tile))),
{
    let ghost cs = cells@;
    let side = parent_lattice_size(cells, tile);
    let ghost f = edge_hex_of(tile, side as int);
    let mut out: Vec<u32> = Vec::new();
    let mut i: usize = 0;
    assert(cs.take(0) =~= Seq::<HexCoord>::empty());
    while i < cells.len()
        invariant
            cs == cells@,
            i <= cs.len(),
            forall|j: int|
                0 <= j < cs.len() ==> 0 <= (#[trigger] cs[j]).q < i32::MAX && 0 <= cs[j].r
                    < i32::MAX,
            side as int == lattice_side(cs, tile),
            side >= 1,
            f == edge_hex_of(tile, side as int),
            out@ == cs.take(i as int).filter_map(f),
        decreases cs.len() - i,
    {
        let c = cells[i];
        proof {
            cs.lemma_filter_map_take_succ(f, i as int);
        }
        let on_edge = c.q == 0 || c.r == 0 || (c.q as u32) + 1 == side || (c.r as u32) + 1
            == side;
        if c.parent_tile == tile && on_edge {
            out.push(c.region_hex_index);
        }
        proof {
            assert(out@ =~= cs.take(i + 1).filter_map(f));
        }
        i = i + 1;
    }
    assert(cs.take(cs.len() as int) =~= cs);
    out
}

/// Tests whether `x` is one of `items`.
fn contains_tile(items: &Vec<u32>, x: u32) -> (r: bool)
    ensures
        r == items@.contains(x),
{
    let mut i: usize = 0;
    while i < items.len()
        invariant
            i <= items@.len(),
            forall|j: int| 0 <= j < i ==> items@[j] != x,
        decreases items@.len() - i,
    {
        if items[i] == x {
            return true;
        }
        i = i + 1;
    }
    false
}

/// Selects, among the neighbours of tile `a`, the region tiles with a
/// larger index, as seam pairs `(a, b)`.
pub open spec fn seam_partner(parents: Seq<u32>, a: u32) -> spec_fn(usize) -> Option<(u32, u32)> {
    |nb: usize|
        if parents.contains(nb as u32) && nb as u32 > a {
            Some((a, nb as u32))
        } else {
            None
        }
}

/// Seam pairs of the first `k` region tiles: for each tile `a` in order,
/// each neighbour `b` in the region with `a < b`, in neighbour-list order.
pub open spec fn seam_pairs_upto(adj: Seq<Vec<usize>>, parents: Seq<u32>, k: int) -> Seq<(u32, u32)>
    decreases k,
{
    if k <= 0 {
        Seq::empty()
    } else {
        let a = parents[k - 1];
        seam_pairs_upto(adj, parents, k - 1) + adj[a as int]@.filter_map(seam_partner(parents, a))
    }
}

/// The pairs of adjacent region tiles whose shared seam must be stitched,
/// each unordered pair once with the smaller index first.
pub fn seam_tile_pairs(adj: &Vec<Vec<usize>>, parent_tiles: &Vec<u32>) -> (r: Vec<(u32, u32)>)
    requires
        adjacency_valid(adj@),
        adj@.len() <= 0x1_0000_0000,
        forall|i: int| 0 <= i < parent_tiles@.len() ==> (parent_tiles@[i] as int) < adj@.len(),
    ensures
        r@ == seam_pairs_upto(adj@, parent_tiles@, parent_tiles@.len() as int),
{
    let ghost g = adj@;
    let ghost ps = parent_tiles@;
    let mut out: Vec<(u32, u32)> = Vec::new();
    let mut k: usize = 0;
    while k < parent_tiles.len()
        invariant
            g == adj@,
            ps == parent_tiles@,
            adjacency_valid(g),
            g.len() <= 0x1_0000_0000,
            forall|i: int| 0 <= i < ps.len() ==> (ps[i] as int) < g.len(),
            k <= ps.len(),
            out@ == seam_pairs_upto(g, ps, k as int),
        decreases ps.len() - k,
    {
        let a = parent_tiles[k];
        let nbs = &adj[a as usize];
        let ghost f = seam_partner(ps, a);
        let ghost before = out@;
        let mut j: usize = 0;
        assert(nbs@.take(0) =~= Seq::<usize>::empty());
        while j < nbs.len()
            invariant
                g == adj@,
                ps == parent_tiles@,
                adjacency_valid(g),
                g.len() <= 0x1_0000_0000,
                (a as int) < g.len(),
                nbs@ == g[a as int]@,
                f == seam_partner(ps, a),
                j <= nbs@.len(),
                out@ == before + nbs@.take(j as int).filter_map(f),
            decreases nbs@.len() - j,
        {
            let nb = nbs[j];
            assert(nb < g.len()) by {
                assert(g[a as int]@[j as int] < g.len());
            }
            proof {
                nbs@.lemma_filter_map_take_succ(f, j as int);
            }
            let b = nb as u32;
            if contains_tile(parent_tiles, b) && b > a {
                out.push((a, b));
            }
            proof {
                assert(out@ =~= before + nbs@.take(j + 1).filter_map(f));
            }
            j = j + 1;
        }
        assert(nbs@.take(nbs@.len() as int) =~= nbs@);
        assert(out@ == seam_pairs_upto(g, ps, k + 1));
        k = k + 1;
    }
    out
}


proof fn lemma_filter_map_keeps<A, B>(s: Seq<A>, f: spec_fn(A) -> Option<B>, t: A, b: B)
    requires
        s.contains(t),
        f(t) == Some(b),
    ensures
        s.filter_map(f).contains(b),
    decreases s.len(),
{
    let rest = s.drop_last();
    if s.last() == t {
        assert(s.filter_map(f) == rest.filter_map(f) + seq![b]);
        assert(s.filter_map(f)[rest.filter_map(f).len() as int] == b);
    } else {
        let j = choose|j: int| 0 <= j < s.len() && s[j] == t;
        assert(rest[j] == t);
        lemma_filter_map_keeps(rest, f, t, b);
        let r = rest.filter_map(f);
        let i = choose|i: int| 0 <= i < r.len() && r[i] == b;
        assert(s.filter_map(f)[i] == b);
    }
}

/// The seam pairs are exactly the adjacent pairs of region tiles, smaller
/// index first: every listed pair is one, and every such pair reached from
/// a region tile's neighbour list is listed.
pub proof fn law_seam_pairs_are_region_neighbours(
    adj: Seq<Vec<usize>>,
    parents: Seq<u32>,
    x: (u32, u32),
    i: int,
    nb: usize,
)
    requires
        adjacency_valid(adj),
        adj.len() <= 0x1_0000_0000,
        forall|j: int| 0 <= j < parents.len() ==> (parents[j] as int) < adj.len(),
    ensures
        seam_pairs_upto(adj, parents, parents.len() as int).contains(x) ==> {
            &&& x.0 < x.1
            &&& parents.contains(x.0)
            &&& parents.contains(x.1)
            &&& hop(adj, x.0 as usize, x.1 as usize)
        },
        0 <= i < parents.len() && adj[parents[i] as int]@.contains(nb) && parents.contains(nb as u32)
            && nb as u32 > parents[i] ==> seam_pairs_upto(adj, parents, parents.len() as int).contains(
            (parents[i], nb as u32),
        ),
{
    lemma_seam_pairs_sound(adj, parents, parents.len() as int, x);
    if 0 <= i < parents.len() && adj[parents[i] as int]@.contains(nb) && parents.contains(nb as u32)
        && nb as u32 > parents[i] {
        lemma_seam_pairs_complete(adj, parents, parents.len() as int, i, nb);
    }
}

proof fn lemma_seam_pairs_sound(adj: Seq<Vec<usize>>, parents: Seq<u32>, k: int, x: (u32, u32))
    requires
        adjacency_valid(adj),
        adj.len() <= 0x1_0000_0000,
        forall|j: int| 0 <= j < parents.len() ==> (parents[j] as int) < adj.len(),
        k <= parents.len(),
    ensures
        seam_pairs_upto(adj, parents, k).contains(x) ==> {
            &&& x.0 < x.1
            &&& parents.contains(x.0)
            &&& parents.contains(x.1)
            &&& hop(adj, x.0 as usize, x.1 as usize)
        },
    decreases k,
{
    if k > 0 && seam_pairs_upto(adj, parents, k).contains(x) {
        let a = parents[k - 1];
        let f = seam_partner(parents, a);
        let left = seam_pairs_upto(adj, parents, k - 1);
        let right = adj[a as int]@.filter_map(f);
        let j = choose|j: int| 0 <= j < left.len() + right.len() && (left + right)[j] == x;
        if j < left.len() {
            assert(left[j] == x);
            lemma_seam_pairs_sound(adj, parents, k - 1, x);
        } else {
            assert(right[j - left.len()] == x);
            assert(right.contains(x));
            adj[a as int]@.lemma_filter_map_contains(f, x);
            let t = choose|t: usize| #[trigger] adj[a as int]@.contains(t) && f(t) == Some(x);
            let p = choose|p: int| 0 <= p < adj[a as int]@.len() && adj[a as int]@[p] == t;
            assert(t < adj.len()) by {
                assert(adj[a as int]@[p] < adj.len());
            }
            assert((t as u32) as usize == t);
            assert(parents.contains(a)) by {
                assert(parents[k - 1] == a);
            }
        }
    }
}

proof fn lemma_seam_pairs_complete(adj: Seq<Vec<usize>>, parents: Seq<u32>, k: int, i: int, nb: usize)
    requires
        0 <= i < k <= parents.len(),
        adj[parents[i] as int]@.contains(nb),
        parents.contains(nb as u32),
        nb as u32 > parents[i],
    ensures
        seam_pairs_upto(adj, parents, k).contains((parents[i], nb as u32)),
    decreases k,
{
    let left = seam_pairs_upto(adj, parents, k - 1);
    let a = parents[k - 1];
    let right = adj[a as int]@.filter_map(seam_partner(parents, a));
    let x = (parents[i], nb as u32);
    if i < k - 1 {
        lemma_seam_pairs_complete(adj, parents, k - 1, i, nb);
        let j = choose|j: int| 0 <= j < left.len() && left[j] == x;
        assert((left + right)[j] == x);
    } else {
        lemma_filter_map_keeps(adj[a as int]@, seam_partner(parents, a), nb, x);
        let j = choose|j: int| 0 <= j < right.len() && right[j] == x;
        assert((left + right)[left.len() + j] == x);
    }
}

} // verus!
