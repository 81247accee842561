//! The seven pipeline stages and the dirty-tracking state that decides which
//! stages must be recomputed after an override.

use vstd::prelude::*;

verus! {

/// The seven stages of the causal pipeline, ordered from stellar context
/// down to regional surface detail.
#[derive(Clone, Copy, Debug, PartialEq, Eq, Structural, Hash, PartialOrd, Ord)]
pub enum Stage {
    StellarContext,
    PlanetarySystem,
    Atmosphere,
    Skeleton,
    Climate,
    Biome,
    RegionalDetail,
}

/// One-based position of a stage in the pipeline.
pub open spec fn stage_index(s: Stage) -> nat {
    match s {
        Stage::StellarContext => 1,
        Stage::PlanetarySystem => 2,
        Stage::Atmosphere => 3,
        Stage::Skeleton => 4,
        Stage::Climate => 5,
        Stage::Biome => 6,
        Stage::RegionalDetail => 7,
    }
}

/// The stage at a one-based pipeline position (positions 1 through 7).
pub open spec fn stage_at(i: nat) -> Stage {
    if i <= 1 {
        Stage::StellarContext
    } else if i == 2 {
        Stage::PlanetarySystem
    } else if i == 3 {
        Stage::Atmosphere
    } else if i == 4 {
        Stage::Skeleton
    } else if i == 5 {
        Stage::Climate
    } else if i == 6 {
        Stage::Biome
    } else {
        Stage::RegionalDetail
    }
}

/// Every stage in pipeline order.
pub open spec fn all_stages() -> Seq<Stage> {
    seq![
        Stage::StellarContext,
        Stage::PlanetarySystem,
        Stage::Atmosphere,
        Stage::Skeleton,
        Stage::Climate,
        Stage::Biome,
        Stage::RegionalDetail,
    ]
}

/// Human-readable name of a stage.
pub open spec fn stage_name(s: Stage) -> Seq<char> {
    match s {
        Stage::StellarContext => "Stellar Context"@,
        Stage::PlanetarySystem => "Planetary System"@,
        Stage::Atmosphere => "Atmosphere"@,
        Stage::Skeleton => "Skeleton"@,
        Stage::Climate => "Climate"@,
        Stage::Biome => "Biome"@,
        Stage::RegionalDetail => "Regional Detail"@,
    }
}

/// The stages among the first `k` pipeline positions that satisfy `p`, in
/// pipeline order.
pub open spec fn stages_where(p: spec_fn(Stage) -> bool, k: nat) -> Seq<Stage>
    decreases k,
{
    if k == 0 {
        Seq::empty()
    } else {
        let rest = stages_where(p, (k - 1) as nat);
        if p(stage_at(k)) {
            rest.push(stage_at(k))
        } else {
            rest
        }
    }
}

/// The stages at or after `s`, in pipeline order.
pub open spec fn downstream(s: Stage) -> Seq<Stage> {
    stages_where(|t: Stage| stage_index(t) >= stage_index(s), 7)
}

/// The set of stages at or after `s`.
pub open spec fn downstream_set(s: Stage) -> Set<Stage> {
    Set::new(|t: Stage| stage_index(t) >= stage_index(s))
}

pub proof fn lemma_stage_index_bijective()
    ensures
        forall|s: Stage| #[trigger] stage_at(stage_index(s)) == s,
        forall|s: Stage| 1 <= #[trigger] stage_index(s) <= 7,
        forall|i: nat| 1 <= i <= 7 ==> #[trigger] stage_index(stage_at(i)) == i,
        forall|i: int| 0 <= i < 7 ==> stage_index(#[trigger] all_stages()[i]) == i + 1,
{
}

impl Stage {
    /// Human-readable name for this pipeline stage.
    pub fn name(&self) -> (r: &'static str)
        ensures
            r@ == stage_name(*self),
    {
        match self {
            Stage::StellarContext => "Stellar Context",
            Stage::PlanetarySystem => "Planetary System",
            Stage::Atmosphere => "Atmosphere",
            Stage::Skeleton => "Skeleton",
            Stage::Climate => "Climate",
            Stage::Biome => "Biome",
            Stage::RegionalDetail => "Regional Detail",
        }
    }

    /// One-based index of this stage in the pipeline.
    pub fn index(&self) -> (r: usize)
        ensures
            r == stage_index(*self),
    {
        match self {
            Stage::StellarContext => 1,
            Stage::PlanetarySystem => 2,
            Stage::Atmosphere => 3,
            Stage::Skeleton => 4,
            Stage::Climate => 5,
            Stage::Biome => 6,
            Stage::RegionalDetail => 7,
        }
    }
}

} // verus!

verus! {

/// `stages_where` lists exactly the stages satisfying the predicate, each
/// once, in strictly increasing pipeline order.
pub proof fn lemma_stages_where(p: spec_fn(Stage) -> bool, k: nat)
    requires
        k <= 7,
    ensures
        forall|s: Stage| #[trigger] stages_where(p, k).contains(s) <==> (p(s) && stage_index(s) <= k),
        forall|i: int, j: int|
            0 <= i < j < stages_where(p, k).len() ==> stage_index(#[trigger] stages_where(p, k)[i])
                < stage_index(#[trigger] stages_where(p, k)[j]),
        forall|i: int| 0 <= i < stages_where(p, k).len() ==> stage_index(#[trigger] stages_where(p, k)[i]) <= k,
    decreases k,
{
    lemma_stage_index_bijective();
    if k > 0 {
        lemma_stages_where(p, (k - 1) as nat);
        let rest = stages_where(p, (k - 1) as nat);
        let cur = stages_where(p, k);
        assert forall|s: Stage| #[trigger] cur.contains(s) implies (p(s) && stage_index(s) <= k) by {
            let i = choose|i: int| 0 <= i < cur.len() && cur[i] == s;
            if p(stage_at(k)) {
                if i < rest.len() {
                    assert(rest[i] == s);
                    assert(rest.contains(s));
                }
            } else {
                assert(rest[i] == s);
                assert(rest.contains(s));
            }
        }
        assert forall|s: Stage| p(s) && stage_index(s) <= k implies #[trigger] cur.contains(s) by {
            if stage_index(s) == k {
                assert(stage_at(stage_index(s)) == s);
                assert(cur[rest.len() as int] == s);
            } else {
                assert(rest.contains(s));
                let i = choose|i: int| 0 <= i < rest.len() && rest[i] == s;
                assert(cur[i] == s);
            }
        }
    }
}

} // verus!

verus! {

/// The exec-side stage at a one-based pipeline position.
fn stage_from_index(i: usize) -> (s: Stage)
    requires
        1 <= i <= 7,
    ensures
        s == stage_at(i as nat),
        stage_index(s) == i,
{
    if i == 1 {
        Stage::StellarContext
    } else if i == 2 {
        Stage::PlanetarySystem
    } else if i == 3 {
        Stage::Atmosphere
    } else if i == 4 {
        Stage::Skeleton
    } else if i == 5 {
        Stage::Climate
    } else if i == 6 {
        Stage::Biome
    } else {
        Stage::RegionalDetail
    }
}

impl Stage {
    /// All stages in pipeline order.
    pub fn all() -> (r: Vec<Stage>)
        ensures
            r@ == all_stages(),
    {
        let r = vec![
            Stage::StellarContext,
            Stage::PlanetarySystem,
            Stage::Atmosphere,
            Stage::Skeleton,
            Stage::Climate,
            Stage::Biome,
            Stage::RegionalDetail,
        ];
        assert(r@ =~= all_stages());
        r
    }

    /// Returns all stages at or after the given stage (inclusive), in
    /// pipeline order.
    pub fn downstream_of(stage: Stage) -> (r: Vec<Stage>)
        ensures
            r@ == downstream(stage),
    {
        let ghost p = |t: Stage| stage_index(t) >= stage_index(stage);
        let mut r: Vec<Stage> = Vec::new();
        let first = stage.index();
        let mut i: usize = 1;
        while i <= 7
            invariant
                1 <= i <= 8,
                first == stage_index(stage),
                p == (|t: Stage| stage_index(t) >= stage_index(stage)),
                r@ == stages_where(p, (i - 1) as nat),
            decreases 8 - i,
        {
            let s = stage_from_index(i);
            proof {
                lemma_stage_index_bijective();
            }
            if i >= first {
                r.push(s);
            }
            assert(stages_where(p, i as nat) == (if p(stage_at(i as nat)) {
                stages_where(p, (i - 1) as nat).push(stage_at(i as nat))
            } else {
                stages_where(p, (i - 1) as nat)
            }));
            i = i + 1;
        }
        r
    }
}

/// Tracks which pipeline stages need recomputation.
///
/// When an override is applied at stage N, that stage and all downstream
/// stages (N through 7) are marked dirty. Stages upstream of N remain
/// unaffected.
pub struct PipelineDirtyState {
    /// `dirty[k]` is true when the stage at one-based position `k + 1` is dirty.
    dirty: [bool; 7],
}

impl View for PipelineDirtyState {
    type V = Set<Stage>;

    /// The set of dirty stages.
    closed spec fn view(&self) -> Set<Stage> {
        Set::new(|s: Stage| self.dirty@[stage_index(s) - 1])
    }
}

/// The set of stages that is dirty after an override at `stage`, starting
/// from the dirty set `dirty`.
pub open spec fn after_override(dirty: Set<Stage>, stage: Stage) -> Set<Stage> {
    dirty.union(downstream_set(stage))
}

/// The stages of `dirty` listed in pipeline order.
pub open spec fn dirty_listing(dirty: Set<Stage>) -> Seq<Stage> {
    stages_where(|s: Stage| dirty.contains(s), 7)
}

/// The stage with the lowest pipeline index in `dirty`, if any.
pub open spec fn first_dirty(dirty: Set<Stage>) -> Option<Stage> {
    let ordered = dirty_listing(dirty);
    if ordered.len() == 0 {
        None
    } else {
        Some(ordered[0])
    }
}

impl PipelineDirtyState {
    /// Creates a new dirty state with all stages marked dirty (fresh
    /// generation).
    pub fn new() -> (r: Self)
        ensures
            r@ == Set::<Stage>::full(),
    {
        let r = PipelineDirtyState { dirty: [true, true, true, true, true, true, true] };
        proof {
            lemma_stage_index_bijective();
            assert(r@ =~= Set::<Stage>::full());
        }
        r
    }

    /// Creates a dirty state with no stages dirty (fully computed pipeline).
    pub fn clean() -> (r: Self)
        ensures
            r@ == Set::<Stage>::empty(),
    {
        let r = PipelineDirtyState { dirty: [false, false, false, false, false, false, false] };
        proof {
            lemma_stage_index_bijective();
            assert(r@ =~= Set::<Stage>::empty());
        }
        r
    }

    /// Marks the given stage and all downstream stages as dirty.
    pub fn mark_override_at(&mut self, stage: Stage)
        ensures
            final(self)@ == after_override(old(self)@, stage),
    {
        let first = stage.index();
        let mut k: usize = first - 1;
        while k < 7
            invariant
                first == stage_index(stage),
                first - 1 <= k <= 7,
                forall|j: int| 0 <= j < first - 1 ==> self.dirty@[j] == old(self).dirty@[j],
                forall|j: int| first - 1 <= j < k ==> self.dirty@[j],
            decreases 7 - k,
        {
            self.dirty[k] = true;
            k = k + 1;
        }
        proof {
            lemma_stage_index_bijective();
            assert(self@ =~= after_override(old(self)@, stage));
        }
    }

    /// Marks a single stage as clean after it has been recomputed.
    pub fn mark_clean(&mut self, stage: Stage)
        ensures
            final(self)@ == old(self)@.remove(stage),
    {
        let k = stage.index() - 1;
        self.dirty[k] = false;
        proof {
            lemma_stage_index_bijective();
            assert forall|s: Stage| #[trigger] self@.contains(s) == old(self)@.remove(stage).contains(s) by {
                if s != stage {
                    assert(stage_at(stage_index(s)) == s);
                    assert(stage_at(stage_index(stage)) == stage);
                }
            }
            assert(self@ =~= old(self)@.remove(stage));
        }
    }

    /// Returns true if the given stage needs recomputation.
    pub fn is_dirty(&self, stage: Stage) -> (r: bool)
        ensures
            r == self@.contains(stage),
    {
        self.dirty[stage.index() - 1]
    }

    /// Returns all dirty stages in pipeline order.
    pub fn dirty_stages(&self) -> (r: Vec<Stage>)
        ensures
            r@ == dirty_listing(self@),
    {
        let ghost p = |s: Stage| self@.contains(s);
        let mut r: Vec<Stage> = Vec::new();
        let mut i: usize = 1;
        while i <= 7
            invariant
                1 <= i <= 8,
                p == (|s: Stage| self@.contains(s)),
                r@ == stages_where(p, (i - 1) as nat),
            decreases 8 - i,
        {
            let s = stage_from_index(i);
            proof {
                lemma_stage_index_bijective();
                assert(stage_index(s) == i);
                assert(self@.contains(s) == self.dirty@[stage_index(s) - 1]);
                assert(self@.contains(s) == self.dirty@[i - 1]);
                assert(p(s) == self.dirty@[i - 1]);
            }
            if self.dirty[i - 1] {
                r.push(s);
            }
            assert(stages_where(p, i as nat) == (if p(stage_at(i as nat)) {
                stages_where(p, (i - 1) as nat).push(stage_at(i as nat))
            } else {
                stages_where(p, (i - 1) as nat)
            }));
            i = i + 1;
        }
        r
    }

    /// Returns the first dirty stage (lowest index), or `None` if all clean.
    pub fn next_dirty(&self) -> (r: Option<Stage>)
        ensures
            r == first_dirty(self@),
    {
        let ghost p = |s: Stage| self@.contains(s);
        let mut i: usize = 1;
        while i <= 7
            invariant
                1 <= i <= 8,
                p == (|s: Stage| self@.contains(s)),
                stages_where(p, (i - 1) as nat).len() == 0,
            decreases 8 - i,
        {
            let s = stage_from_index(i);
            proof {
                lemma_stage_index_bijective();
                assert(p(s) == self.dirty@[i - 1]);
            }
            assert(stages_where(p, i as nat) == (if p(stage_at(i as nat)) {
                stages_where(p, (i - 1) as nat).push(stage_at(i as nat))
            } else {
                stages_where(p, (i - 1) as nat)
            }));
            if self.dirty[i - 1] {
                proof {
                    lemma_stages_where_extend(p, i as nat);
                }
                return Some(s);
            }
            i = i + 1;
        }
        None
    }
}

/// Once the first `k` positions yield the one-element list `[s]`, every
/// longer prefix still starts with `s`.
proof fn lemma_stages_where_extend(p: spec_fn(Stage) -> bool, k: nat)
    requires
        1 <= k <= 7,
        stages_where(p, k).len() > 0,
    ensures
        stages_where(p, 7).len() > 0,
        stages_where(p, 7)[0] == stages_where(p, k)[0],
    decreases 7 - k,
{
    if k < 7 {
        assert(stages_where(p, (k + 1) as nat)[0] == stages_where(p, k)[0]);
        lemma_stages_where_extend(p, (k + 1) as nat);
    }
}

impl Default for PipelineDirtyState {
    fn default() -> (r: Self)
        ensures
            r@ == Set::<Stage>::full(),
    {
        Self::new()
    }
}

} // verus!

verus! {

/// `first_dirty` returns the dirty stage with the smallest pipeline index,
/// and `None` exactly when no stage is dirty.
pub proof fn lemma_first_dirty(dirty: Set<Stage>)
    ensures
        first_dirty(dirty) is None <==> (forall|t: Stage| !dirty.contains(t)),
        first_dirty(dirty) matches Some(s) ==> dirty.contains(s) && (forall|t: Stage|
            #[trigger] dirty.contains(t) ==> stage_index(s) <= stage_index(t)),
{
    let p = |s: Stage| dirty.contains(s);
    lemma_stage_index_bijective();
    lemma_stages_where(p, 7);
    let ordered = stages_where(p, 7);
    if ordered.len() == 0 {
        assert forall|t: Stage| !dirty.contains(t) by {
            if dirty.contains(t) {
                assert(ordered.contains(t));
            }
        }
    } else {
        assert(ordered.contains(ordered[0]));
        assert forall|t: Stage| #[trigger] dirty.contains(t) implies stage_index(ordered[0]) <= stage_index(t) by {
            assert(ordered.contains(t));
            let j = choose|j: int| 0 <= j < ordered.len() && ordered[j] == t;
            if j > 0 {
                assert(stage_index(ordered[0]) < stage_index(ordered[j]));
            }
        }
    }
}

/// An override at `stage` leaves every upstream stage exactly as dirty (or
/// clean) as it was, and makes `stage` and every downstream stage dirty.
pub proof fn law_override_marks_exactly_downstream(dirty: Set<Stage>, stage: Stage)
    ensures
        forall|t: Stage|
            stage_index(t) < stage_index(stage) ==> (#[trigger] after_override(dirty, stage).contains(t)
                <==> dirty.contains(t)),
        forall|t: Stage|
            stage_index(t) >= stage_index(stage) ==> #[trigger] after_override(dirty, stage).contains(t),
{
}

/// A later override whose stage is at or after an earlier override's stage
/// adds nothing: the earlier override already covered it.
pub proof fn law_later_override_absorbed(dirty: Set<Stage>, earlier: Stage, later: Stage)
    requires
        stage_index(earlier) <= stage_index(later),
    ensures
        after_override(after_override(dirty, earlier), later) == after_override(dirty, earlier),
{
    assert(after_override(after_override(dirty, earlier), later) =~= after_override(dirty, earlier));
}

/// The order in which two overrides are applied does not matter.
pub proof fn law_overrides_commute(dirty: Set<Stage>, a: Stage, b: Stage)
    ensures
        after_override(after_override(dirty, a), b) == after_override(after_override(dirty, b), a),
{
    assert(after_override(after_override(dirty, a), b) =~= after_override(after_override(dirty, b), a));
}

/// After an override at `stage`, the next stage to recompute is `stage`
/// itself unless some upstream stage was already dirty, in which case it is
/// the earliest such stage.
pub proof fn law_next_dirty_after_override(dirty: Set<Stage>, stage: Stage)
    ensures
        first_dirty(after_override(dirty, stage)) == (match first_dirty(dirty) {
            Some(s) => if stage_index(s) < stage_index(stage) {
                Some(s)
            } else {
                Some(stage)
            },
            None => Some(stage),
        }),
{
    lemma_stage_index_bijective();
    let after = after_override(dirty, stage);
    lemma_first_dirty(dirty);
    lemma_first_dirty(after);
    assert(after.contains(stage));
    let f = first_dirty(after)->0;
    assert(stage_index(f) <= stage_index(stage));
    match first_dirty(dirty) {
        Some(s) => {
            assert(after.contains(s));
            if stage_index(s) < stage_index(stage) {
                assert(dirty.contains(f));
                assert(stage_at(stage_index(f)) == f);
                assert(stage_at(stage_index(s)) == s);
            } else {
                if f != stage {
                    assert(stage_at(stage_index(f)) == f);
                    assert(stage_at(stage_index(stage)) == stage);
                    assert(dirty.contains(f));
                }
            }
        },
        None => {
            if f != stage {
                assert(stage_at(stage_index(f)) == f);
                assert(stage_at(stage_index(stage)) == stage);
                assert(dirty.contains(f));
            }
        },
    }
}

/// The dirty-stage listing contains each dirty stage exactly once, in
/// strictly increasing pipeline order, and nothing else.
pub proof fn law_dirty_listing_is_sorted_set(dirty: Set<Stage>)
    ensures
        forall|s: Stage| #[trigger] dirty_listing(dirty).contains(s) <==> dirty.contains(s),
        forall|i: int, j: int|
            0 <= i < j < dirty_listing(dirty).len() ==> stage_index(#[trigger] dirty_listing(dirty)[i])
                < stage_index(#[trigger] dirty_listing(dirty)[j]),
{
    lemma_stage_index_bijective();
    lemma_stages_where(|t: Stage| dirty.contains(t), 7);
}

/// A stage of the causal pipeline: it turns an input into an output under a
/// configuration, and one stage's output is the next stage's input.
pub trait PipelineStage {
    /// The data this stage consumes.
    type Input;
    /// The data this stage produces.
    type Output;
    /// Configuration controlling the stage.
    type Config;

    /// Human-readable name for logging and diagnostics.
    fn name(&self) -> &'static str;

    /// Run the stage on an input under a configuration.
    fn execute(&self, input: &Self::Input, config: &Self::Config) -> Self::Output;
}

} // verus!
