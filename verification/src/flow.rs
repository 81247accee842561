//! Steepest-descent drainage routing on a regional hex grid.
//!
//! Heights enter as ranks: equal heights share a rank and a lower height
//! has a lower rank, so comparing ranks is comparing heights.

use vstd::prelude::*;

verus! {

/// Every neighbour slot of every hex names a hex of the grid.
pub open spec fn slots_in_range(neighbors: Seq<[Option<u32>; 6]>, n: int) -> bool {
    forall|i: int, s: int|
        0 <= i < neighbors.len() && 0 <= s < 6 ==> match #[trigger] neighbors[i]@[s] {
            Some(j) => j < n,
            None => true,
        }
}

/// The drainage target after looking at the first `s` neighbour slots of a
/// hex of rank `here`: the lowest-ranked neighbour strictly below it so
/// far, ties going to the smaller index.
pub open spec fn descent_after(ranks: Seq<u64>, slots: Seq<Option<u32>>, here: u64, s: nat) -> Option<u32>
    decreases s,
{
    if s == 0 {
        None
    } else {
        let best = descent_after(ranks, slots, here, (s - 1) as nat);
        match slots[s - 1] {
            None => best,
            Some(j) => {
                let nv = ranks[j as int];
                let better = match best {
                    None => true,
                    Some(b) => nv < ranks[b as int] || (nv == ranks[b as int] && j < b),
                };
                if nv < here && better {
                    Some(j)
                } else {
                    best
                }
            },
        }
    }
}

/// Where hex `i` drains: nowhere for a boundary hex (its water leaves the
/// region); otherwise its steepest-descent neighbour, if any neighbour is
/// strictly lower.
pub open spec fn drains_to(
    ranks: Seq<u64>,
    neighbors: Seq<[Option<u32>; 6]>,
    boundary: Seq<bool>,
    i: int,
) -> Option<u32> {
    if boundary[i] {
        None
    } else {
        descent_after(ranks, neighbors[i]@, ranks[i], 6)
    }
}

/// The drainage target of every hex (see [`drains_to`]), given the hexes'
/// height ranks, their neighbour slots and which of them lie on the region
/// boundary.
pub fn compute_downstream(
    ranks: &Vec<u64>,
    neighbors: &Vec<[Option<u32>; 6]>,
    boundary: &Vec<bool>,
) -> (r: Vec<Option<u32>>)
    requires
        ranks@.len() == neighbors@.len(),
        boundary@.len() == neighbors@.len(),
        slots_in_range(neighbors@, ranks@.len() as int),
    ensures
        r@.len() == ranks@.len(),
        forall|i: int| 0 <= i < r@.len() ==> #[trigger] r@[i] == drains_to(ranks@, neighbors@, boundary@, i),
{
    let n = ranks.len();
    let mut r: Vec<Option<u32>> = Vec::new();
    let mut i: usize = 0;
    while i < n
        invariant
            n == ranks@.len(),
            n == neighbors@.len(),
            n == boundary@.len(),
            slots_in_range(neighbors@, n as int),
            i <= n,
            r@.len() == i,
            forall|k: int| 0 <= k < i ==> #[trigger] r@[k] == drains_to(ranks@, neighbors@, boundary@, k),
        decreases n - i,
    {
        if boundary[i] {
            r.push(None);
        } else {
            let slots = neighbors[i];
            let here = ranks[i];
            let mut best: Option<u32> = None;
            let mut s: usize = 0;
            while s < 6
                invariant
                    n == ranks@.len(),
                    n == neighbors@.len(),
                    i < n,
                    slots@ == neighbors@[i as int]@,
                    here == ranks@[i as int],
                    slots_in_range(neighbors@, n as int),
                    s <= 6,
                    best == descent_after(ranks@, slots@, here, s as nat),
                    match best {
                        Some(b) => b < n,
                        None => true,
                    },
                decreases 6 - s,
            {
                assert(slots@[s as int] == neighbors@[i as int]@[s as int]);
                match slots[s] {
                    None => {},
                    Some(j) => {
                        let nv = ranks[j as usize];
                        let better = match best {
                            None => true,
                            Some(b) => nv < ranks[b as usize] || (nv == ranks[b as usize] && j < b),
                        };
                        if nv < here && better {
                            best = Some(j);
                        }
                    },
                }
                s = s + 1;
            }
            r.push(best);
        }
        i = i + 1;
    }
    r
}

proof fn lemma_descent(ranks: Seq<u64>, slots: Seq<Option<u32>>, here: u64, s: nat)
    requires
        s <= slots.len(),
        forall|t: int| 0 <= t < slots.len() ==> match #[trigger] slots[t] {
            Some(j) => j < ranks.len(),
            None => true,
        },
    ensures
        match descent_after(ranks, slots, here, s) {
            Some(j) => {
                &&& exists|t: int| 0 <= t < s && #[trigger] slots[t] == Some(j)
                &&& j < ranks.len()
                &&& ranks[j as int] < here
                &&& forall|t: int|
                    0 <= t < s ==> match #[trigger] slots[t] {
                        Some(k) => ranks[k as int] < here ==> ranks[j as int] <= ranks[k as int],
                        None => true,
                    }
            },
            None => forall|t: int|
                0 <= t < s ==> match #[trigger] slots[t] {
                    Some(k) => ranks[k as int] >= here,
                    None => true,
                },
        },
    decreases s,
{
    if s > 0 {
        lemma_descent(ranks, slots, here, (s - 1) as nat);
        let best = descent_after(ranks, slots, here, (s - 1) as nat);
        let last = slots[s - 1];
        match best {
            Some(b) => {
                let t0 = choose|t: int| 0 <= t < s - 1 && #[trigger] slots[t] == Some(b);
                assert(slots[t0] == Some(b));
            },
            None => {},
        }
        match last {
            Some(j) => {
                assert(slots[s - 1] == Some(j));
            },
            None => {},
        }
    }
}

/// Water runs strictly downhill: a hex drains only into one of its
/// neighbours, ranked strictly lower than itself and no higher than any
/// other strictly lower neighbour; a hex drains nowhere only when it lies on
/// the boundary or no neighbour is strictly lower.
pub proof fn law_flow_runs_downhill(
    ranks: Seq<u64>,
    neighbors: Seq<[Option<u32>; 6]>,
    boundary: Seq<bool>,
    i: int,
)
    requires
        ranks.len() == neighbors.len(),
        boundary.len() == neighbors.len(),
        slots_in_range(neighbors, ranks.len() as int),
        0 <= i < ranks.len(),
    ensures
        match drains_to(ranks, neighbors, boundary, i) {
            Some(j) => {
                &&& !boundary[i]
                &&& neighbors[i]@.contains(Some(j))
                &&& ranks[j as int] < ranks[i]
                &&& forall|s: int|
                    0 <= s < 6 ==> match #[trigger] neighbors[i]@[s] {
                        Some(k) => ranks[k as int] < ranks[i] ==> ranks[j as int] <= ranks[k as int],
                        None => true,
                    }
            },
            None => boundary[i] || forall|s: int|
                0 <= s < 6 ==> match #[trigger] neighbors[i]@[s] {
                    Some(k) => ranks[k as int] >= ranks[i],
                    None => true,
                },
        },
{
    let slots = neighbors[i]@;
    assert forall|t: int| 0 <= t < slots.len() implies match #[trigger] slots[t] {
        Some(j) => j < ranks.len(),
        None => true,
    } by {
        assert(slots[t] == neighbors[i]@[t]);
    }
    if !boundary[i] {
        lemma_descent(ranks, slots, ranks[i], 6);
    }
}

} // verus!

verus! {

// ---------------------------------------------------------------------------
// Flow accumulation
// ---------------------------------------------------------------------------

/// Every drainage pointer names a hex of the grid ranked strictly lower than
/// the hex it leaves.
pub open spec fn drains_downhill(ranks: Seq<u64>, down: Seq<Option<u32>>) -> bool {
    &&& ranks.len() == down.len()
    &&& forall|i: int|
        0 <= i < down.len() ==> match #[trigger] down[i] {
            Some(j) => j < down.len() && ranks[j as int] < ranks[i],
            None => true,
        }
}

/// The sum of `v[j]` over the hexes `j < k` that drain into hex `i`.
pub open spec fn inflow(v: Seq<int>, down: Seq<Option<u32>>, i: int, k: nat) -> int
    decreases k,
{
    if k == 0 {
        0
    } else {
        inflow(v, down, i, (k - 1) as nat) + if down[k - 1] == Some(i as u32) {
            v[k - 1]
        } else {
            0
        }
    }
}

/// The sum of `v[j]` over the outlets `j < k` (hexes that drain nowhere).
pub open spec fn outlet_total(v: Seq<int>, down: Seq<Option<u32>>, k: nat) -> int
    decreases k,
{
    if k == 0 {
        0
    } else {
        outlet_total(v, down, (k - 1) as nat) + if down[k - 1] is None {
            v[k - 1]
        } else {
            0
        }
    }
}

/// Each hex's count is one (itself) plus the counts of the hexes draining
/// into it.
pub open spec fn drainage_balanced(v: Seq<int>, down: Seq<Option<u32>>) -> bool {
    &&& v.len() == down.len()
    &&& forall|i: int| 0 <= i < v.len() ==> #[trigger] v[i] == 1 + inflow(v, down, i, down.len())
}

/// Counts as integers.
pub open spec fn counts_view(r: Seq<u32>) -> Seq<int> {
    r.map_values(|x: u32| x as int)
}

spec fn drain_count(ranks: Seq<u64>, down: Seq<Option<u32>>, i: int) -> int
    decreases u64::MAX - ranks[i], down.len() + 1,
{
    1 + drain_sum(ranks, down, i, down.len())
}

spec fn drain_sum(ranks: Seq<u64>, down: Seq<Option<u32>>, i: int, k: nat) -> int
    decreases u64::MAX - ranks[i], k,
{
    if k == 0 {
        0
    } else {
        drain_sum(ranks, down, i, (k - 1) as nat) + if down[k - 1] == Some(i as u32) && ranks[i]
            < ranks[k - 1] {
            drain_count(ranks, down, k - 1)
        } else {
            0
        }
    }
}

spec fn drain_counts(ranks: Seq<u64>, down: Seq<Option<u32>>) -> Seq<int> {
    Seq::new(down.len(), |i: int| drain_count(ranks, down, i))
}

proof fn lemma_drain_sum_is_inflow(ranks: Seq<u64>, down: Seq<Option<u32>>, i: int, k: nat)
    requires
        drains_downhill(ranks, down),
        down.len() <= u32::MAX,
        0 <= i < down.len(),
        k <= down.len(),
    ensures
        drain_sum(ranks, down, i, k) == inflow(drain_counts(ranks, down), down, i, k),
    decreases k,
{
    if k > 0 {
        lemma_drain_sum_is_inflow(ranks, down, i, (k - 1) as nat);
        let j = k - 1;
        if down[j] == Some(i as u32) {
            assert(ranks[i] < ranks[j]);
        }
    }
}

proof fn lemma_drain_counts_balanced(ranks: Seq<u64>, down: Seq<Option<u32>>)
    requires
        drains_downhill(ranks, down),
        down.len() <= u32::MAX,
    ensures
        drainage_balanced(drain_counts(ranks, down), down),
{
    let v = drain_counts(ranks, down);
    assert forall|i: int| 0 <= i < v.len() implies #[trigger] v[i] == 1 + inflow(v, down, i, down.len()) by {
        lemma_drain_sum_is_inflow(ranks, down, i, down.len());
    }
}

proof fn lemma_inflow_nonneg(v: Seq<int>, down: Seq<Option<u32>>, i: int, k: nat)
    requires
        forall|j: int| 0 <= j < k && down[j] == Some(i as u32) ==> #[trigger] v[j] >= 0,
    ensures
        inflow(v, down, i, k) >= 0,
    decreases k,
{
    if k > 0 {
        lemma_inflow_nonneg(v, down, i, (k - 1) as nat);
    }
}

proof fn lemma_inflow_term(v: Seq<int>, down: Seq<Option<u32>>, i: int, k: nat, j: int)
    requires
        0 <= j < k,
        down[j] == Some(i as u32),
        forall|q: int| 0 <= q < k && down[q] == Some(i as u32) ==> #[trigger] v[q] >= 0,
    ensures
        inflow(v, down, i, k) >= v[j],
    decreases k,
{
    if j < k - 1 {
        lemma_inflow_term(v, down, i, (k - 1) as nat, j);
        assert(down[k - 1] == Some(i as u32) ==> v[k - 1] >= 0);
    } else {
        lemma_inflow_nonneg(v, down, i, (k - 1) as nat);
    }
}

proof fn lemma_inflow_prefix(v: Seq<int>, down: Seq<Option<u32>>, i: int, k: nat, m: nat)
    requires
        k <= m,
        forall|q: int| 0 <= q < m && down[q] == Some(i as u32) ==> #[trigger] v[q] >= 0,
    ensures
        inflow(v, down, i, k) <= inflow(v, down, i, m),
    decreases m,
{
    if k < m {
        lemma_inflow_prefix(v, down, i, k, (m - 1) as nat);
        assert(down[m - 1] == Some(i as u32) ==> v[m - 1] >= 0);
    }
}

/// In a balanced drainage count every count is at least one.
proof fn lemma_balanced_positive(ranks: Seq<u64>, down: Seq<Option<u32>>, v: Seq<int>, i: int)
    requires
        drains_downhill(ranks, down),
        down.len() <= u32::MAX,
        drainage_balanced(v, down),
        0 <= i < down.len(),
    ensures
        v[i] >= 1,
    decreases u64::MAX - ranks[i],
{
    assert forall|j: int| 0 <= j < down.len() && down[j] == Some(i as u32) implies #[trigger] v[j]
        >= 0 by {
        assert(ranks[i] < ranks[j]);
        lemma_balanced_positive(ranks, down, v, j);
    }
    lemma_inflow_nonneg(v, down, i, down.len());
}

/// The sum of `v[i]` over the hexes `i < m`.
spec fn total(v: Seq<int>, m: nat) -> int
    decreases m,
{
    if m == 0 {
        0
    } else {
        total(v, (m - 1) as nat) + v[m - 1]
    }
}

/// The sum of `inflow(v, down, i, k)` over the hexes `i < m`.
spec fn inflow_total(v: Seq<int>, down: Seq<Option<u32>>, m: nat, k: nat) -> int
    decreases m,
{
    if m == 0 {
        0
    } else {
        inflow_total(v, down, (m - 1) as nat, k) + inflow(v, down, (m - 1) as int, k)
    }
}

/// The sum of `v[j]` over the hexes `j < k` that drain somewhere.
spec fn linked_total(v: Seq<int>, down: Seq<Option<u32>>, k: nat) -> int
    decreases k,
{
    if k == 0 {
        0
    } else {
        linked_total(v, down, (k - 1) as nat) + if down[k - 1] is Some {
            v[k - 1]
        } else {
            0
        }
    }
}

proof fn lemma_inflow_total_step(v: Seq<int>, down: Seq<Option<u32>>, m: nat, k: nat)
    requires
        m <= u32::MAX + 1,
    ensures
        inflow_total(v, down, m, k + 1) == inflow_total(v, down, m, k) + match down[k as int] {
            Some(t) => if (t as int) < m {
                v[k as int]
            } else {
                0
            },
            None => 0,
        },
    decreases m,
{
    if m > 0 {
        lemma_inflow_total_step(v, down, (m - 1) as nat, k);
    }
}

proof fn lemma_inflow_total_empty(v: Seq<int>, down: Seq<Option<u32>>, m: nat)
    ensures
        inflow_total(v, down, m, 0) == 0,
    decreases m,
{
    if m > 0 {
        lemma_inflow_total_empty(v, down, (m - 1) as nat);
    }
}

proof fn lemma_inflow_total_is_linked(v: Seq<int>, down: Seq<Option<u32>>, k: nat)
    requires
        down.len() <= u32::MAX,
        k <= down.len(),
        forall|j: int|
            0 <= j < down.len() ==> match #[trigger] down[j] {
                Some(t) => t < down.len(),
                None => true,
            },
    ensures
        inflow_total(v, down, down.len(), k) == linked_total(v, down, k),
    decreases k,
{
    if k == 0 {
        lemma_inflow_total_empty(v, down, down.len());
    } else {
        lemma_inflow_total_is_linked(v, down, (k - 1) as nat);
        lemma_inflow_total_step(v, down, down.len(), (k - 1) as nat);
        assert(down[k - 1] is Some ==> (down[k - 1]->0 as int) < down.len());
    }
}

proof fn lemma_total_of_balanced(v: Seq<int>, down: Seq<Option<u32>>, m: nat)
    requires
        drainage_balanced(v, down),
        m <= down.len(),
    ensures
        total(v, m) == m + inflow_total(v, down, m, down.len()),
    decreases m,
{
    if m > 0 {
        lemma_total_of_balanced(v, down, (m - 1) as nat);
        assert(v[m - 1] == 1 + inflow(v, down, m - 1, down.len()));
    }
}

proof fn lemma_total_split(v: Seq<int>, down: Seq<Option<u32>>, m: nat)
    ensures
        total(v, m) == outlet_total(v, down, m) + linked_total(v, down, m),
    decreases m,
{
    if m > 0 {
        lemma_total_split(v, down, (m - 1) as nat);
    }
}

proof fn lemma_outlet_term(v: Seq<int>, down: Seq<Option<u32>>, k: nat, j: int)
    requires
        0 <= j < k,
        down[j] is None,
        forall|q: int| 0 <= q < k ==> #[trigger] v[q] >= 0,
    ensures
        outlet_total(v, down, k) >= v[j],
    decreases k,
{
    if j < k - 1 {
        lemma_outlet_term(v, down, (k - 1) as nat, j);
        assert(v[k - 1] >= 0);
    } else {
        lemma_outlet_nonneg(v, down, (k - 1) as nat);
    }
}

proof fn lemma_outlet_nonneg(v: Seq<int>, down: Seq<Option<u32>>, k: nat)
    requires
        forall|q: int| 0 <= q < k ==> #[trigger] v[q] >= 0,
    ensures
        outlet_total(v, down, k) >= 0,
    decreases k,
{
    if k > 0 {
        lemma_outlet_nonneg(v, down, (k - 1) as nat);
        assert(v[k - 1] >= 0);
    }
}

/// Water is conserved: in any balanced drainage count over a grid whose
/// pointers name hexes of the grid, the counts at the outlets add up to the
/// number of hexes.
pub proof fn law_flow_conserved(v: Seq<int>, down: Seq<Option<u32>>)
    requires
        drainage_balanced(v, down),
        down.len() <= u32::MAX,
        forall|j: int|
            0 <= j < down.len() ==> match #[trigger] down[j] {
                Some(t) => t < down.len(),
                None => true,
            },
    ensures
        outlet_total(v, down, down.len()) == down.len(),
{
    lemma_total_of_balanced(v, down, down.len());
    lemma_inflow_total_is_linked(v, down, down.len());
    lemma_total_split(v, down, down.len());
}

proof fn lemma_balanced_bounded(ranks: Seq<u64>, down: Seq<Option<u32>>, v: Seq<int>, i: int)
    requires
        drains_downhill(ranks, down),
        down.len() <= u32::MAX,
        drainage_balanced(v, down),
        0 <= i < down.len(),
    ensures
        v[i] <= down.len(),
    decreases ranks[i],
{
    assert forall|q: int| 0 <= q < down.len() implies #[trigger] v[q] >= 0 by {
        lemma_balanced_positive(ranks, down, v, q);
    }
    match down[i] {
        None => {
            assert forall|j: int| 0 <= j < down.len() implies match #[trigger] down[j] {
                Some(t) => t < down.len(),
                None => true,
            } by {
                assert(drains_downhill(ranks, down));
            }
            law_flow_conserved(v, down);
            lemma_outlet_term(v, down, down.len(), i);
        },
        Some(t) => {
            let t = t as int;
            assert(ranks[t] < ranks[i]);
            lemma_balanced_bounded(ranks, down, v, t);
            lemma_inflow_term(v, down, t, down.len(), i);
        },
    }
}

/// How many hexes drain through each hex, itself included: each hex counts
/// one plus the counts of the hexes draining into it. Heights enter as
/// ranks, and every drainage pointer runs to a strictly lower rank.
pub fn accumulate_flow(ranks: &Vec<u64>, downstream: &Vec<Option<u32>>) -> (r: Vec<u32>)
    requires
        drains_downhill(ranks@, downstream@),
        downstream@.len() <= u32::MAX,
    ensures
        r@.len() == downstream@.len(),
        drainage_balanced(counts_view(r@), downstream@),
{
    let n = ranks.len();
    let ghost d = downstream@;
    let ghost dv = drain_counts(ranks@, d);
    proof {
        lemma_drain_counts_balanced(ranks@, d);
        assert forall|x: int| 0 <= x < n implies 1 <= #[trigger] dv[x] <= n by {
            lemma_balanced_positive(ranks@, d, dv, x);
            lemma_balanced_bounded(ranks@, d, dv, x);
        }
    }
    let mut acc: Vec<u32> = Vec::new();
    let mut k: usize = 0;
    while k < n
        invariant
            k <= n,
            acc@.len() == k,
        decreases n - k,
    {
        acc.push(0);
        k = k + 1;
    }
    if n == 0 {
        assert(counts_view(acc@) =~= dv);
        return acc;
    }
    let mut t: u64 = ranks[0];
    let mut k: usize = 1;
    while k < n
        invariant
            n == ranks@.len(),
            1 <= k <= n,
            forall|x: int| 0 <= x < k ==> ranks@[x] <= t,
        decreases n - k,
    {
        if ranks[k] > t {
            t = ranks[k];
        }
        k = k + 1;
    }
    loop
        invariant
            n == ranks@.len(),
            n == d.len(),
            n <= u32::MAX,
            d == downstream@,
            drains_downhill(ranks@, d),
            dv == drain_counts(ranks@, d),
            drainage_balanced(dv, d),
            forall|x: int| 0 <= x < n ==> 1 <= #[trigger] dv[x] <= n,
            acc@.len() == n,
            forall|x: int| 0 <= x < n && ranks@[x] > t ==> acc@[x] == dv[x],
        ensures
            acc@.len() == n,
            forall|x: int| 0 <= x < n ==> acc@[x] == dv[x],
        decreases t,
    {
        let mut i: usize = 0;
        while i < n
            invariant
                n == ranks@.len(),
                n == d.len(),
                n <= u32::MAX,
                d == downstream@,
                drains_downhill(ranks@, d),
                dv == drain_counts(ranks@, d),
                drainage_balanced(dv, d),
                forall|x: int| 0 <= x < n ==> 1 <= #[trigger] dv[x] <= n,
                acc@.len() == n,
                i <= n,
                forall|x: int|
                    0 <= x < n && (ranks@[x] > t || (x < i && ranks@[x] == t)) ==> acc@[x] == dv[x],
            decreases n - i,
        {
            if ranks[i] == t {
                let mut s: u32 = 0;
                let mut j: usize = 0;
                proof {
                    assert forall|q: int| 0 <= q < n && d[q] == Some(i as u32) implies #[trigger] dv[q]
                        >= 0 by {}
                }
                while j < n
                    invariant
                        n == ranks@.len(),
                        n == d.len(),
                        n <= u32::MAX,
                        d == downstream@,
                        drains_downhill(ranks@, d),
                        drainage_balanced(dv, d),
                        forall|x: int| 0 <= x < n ==> 1 <= #[trigger] dv[x] <= n,
                        acc@.len() == n,
                        i < n,
                        ranks@[i as int] == t,
                        j <= n,
                        forall|x: int| 0 <= x < n && ranks@[x] > t ==> acc@[x] == dv[x],
                        s == inflow(dv, d, i as int, j as nat),
                    decreases n - j,
                {
                    proof {
                        lemma_inflow_prefix(dv, d, i as int, (j + 1) as nat, n as nat);
                        assert(dv[i as int] == 1 + inflow(dv, d, i as int, n as nat));
                    }
                    if downstream[j] == Some(i as u32) {
                        assert(ranks@[i as int] < ranks@[j as int]);
                        s = s + acc[j];
                    }
                    j = j + 1;
                }
                proof {
                    assert(dv[i as int] == 1 + inflow(dv, d, i as int, n as nat));
                }
                acc.set(i, s + 1);
            }
            i = i + 1;
        }
        let mut next: Option<u64> = None;
        let mut k: usize = 0;
        while k < n
            invariant
                n == ranks@.len(),
                k <= n,
                match next {
                    Some(m) => m < t && forall|x: int| 0 <= x < k && ranks@[x] < t ==> ranks@[x] <= m,
                    None => forall|x: int| 0 <= x < k ==> ranks@[x] >= t,
                },
            decreases n - k,
        {
            let rk = ranks[k];
            if rk < t {
                match next {
                    Some(m) => {
                        if rk > m {
                            next = Some(rk);
                        }
                    },
                    None => {
                        next = Some(rk);
                    },
                }
            }
            k = k + 1;
        }
        match next {
            None => {
                break;
            },
            Some(m) => {
                t = m;
            },
        }
    }
    assert(counts_view(acc@) =~= dv);
    acc
}

} // verus!
