//! Per-stage counts of how the pipeline's values were obtained.

use vstd::prelude::*;
use crate::text::{chars_of, decimal, push_decimal, push_str_chars, slice_equals};

verus! {

/// How a value was obtained: computed from upstream stages, injected from
/// observational data, or assumed as a fallback.
#[derive(Clone, Copy, Debug, PartialEq, Eq, Structural, Hash)]
pub enum SourceKind {
    Derived,
    Observed,
    Assumed,
}

/// Source counts for a single pipeline stage.
#[derive(Clone, Copy, Debug, PartialEq, Eq, Structural)]
pub struct StageCounts {
    /// Fields tagged observed.
    pub observed: usize,
    /// Fields tagged derived.
    pub derived: usize,
    /// Fields tagged assumed.
    pub assumed: usize,
}

/// Total number of fields a set of counts tracks.
pub open spec fn counts_total(c: StageCounts) -> int {
    c.observed + c.derived + c.assumed
}

/// The counts after one more field of the given kind.
pub open spec fn tallied(c: StageCounts, kind: SourceKind) -> StageCounts {
    match kind {
        SourceKind::Observed => StageCounts { observed: (c.observed + 1) as usize, ..c },
        SourceKind::Derived => StageCounts { derived: (c.derived + 1) as usize, ..c },
        SourceKind::Assumed => StageCounts { assumed: (c.assumed + 1) as usize, ..c },
    }
}

/// Two stages' counts added kind by kind.
pub open spec fn merged(a: StageCounts, b: StageCounts) -> StageCounts {
    StageCounts {
        observed: (a.observed + b.observed) as usize,
        derived: (a.derived + b.derived) as usize,
        assumed: (a.assumed + b.assumed) as usize,
    }
}

/// Adding two stages' counts fits in the machine's counters.
pub open spec fn mergeable(a: StageCounts, b: StageCounts) -> bool {
    &&& a.observed + b.observed <= usize::MAX
    &&& a.derived + b.derived <= usize::MAX
    &&& a.assumed + b.assumed <= usize::MAX
}

impl StageCounts {
    /// All counts zero.
    pub fn default() -> (r: Self)
        ensures
            r.observed == 0,
            r.derived == 0,
            r.assumed == 0,
    {
        StageCounts { observed: 0, derived: 0, assumed: 0 }
    }

    /// Count one more field of the given kind.
    pub fn tally(&mut self, kind: SourceKind)
        requires
            match kind {
                SourceKind::Observed => old(self).observed < usize::MAX,
                SourceKind::Derived => old(self).derived < usize::MAX,
                SourceKind::Assumed => old(self).assumed < usize::MAX,
            },
        ensures
            *final(self) == tallied(*old(self), kind),
    {
        match kind {
            SourceKind::Observed => self.observed = self.observed + 1,
            SourceKind::Derived => self.derived = self.derived + 1,
            SourceKind::Assumed => self.assumed = self.assumed + 1,
        }
    }

    /// Add another stage's counts into these, kind by kind.
    pub fn merge(&mut self, other: &StageCounts)
        requires
            mergeable(*old(self), *other),
        ensures
            *final(self) == merged(*old(self), *other),
    {
        self.observed = self.observed + other.observed;
        self.derived = self.derived + other.derived;
        self.assumed = self.assumed + other.assumed;
    }

    /// Total number of tracked fields.
    pub fn total(&self) -> (r: usize)
        requires
            counts_total(*self) <= usize::MAX,
        ensures
            r == counts_total(*self),
    {
        self.observed + self.derived + self.assumed
    }
}

/// Tallying a field adds exactly one to the total, under its own kind.
pub proof fn law_tally_adds_one(c: StageCounts, kind: SourceKind)
    requires
        match kind {
            SourceKind::Observed => c.observed < usize::MAX,
            SourceKind::Derived => c.derived < usize::MAX,
            SourceKind::Assumed => c.assumed < usize::MAX,
        },
    ensures
        counts_total(tallied(c, kind)) == counts_total(c) + 1,
{
}

/// Tallying a field of one kind adds one to that kind's count and leaves
/// the other two counts as they were.
pub proof fn law_tally_counts_its_own_kind(c: StageCounts, kind: SourceKind)
    requires
        match kind {
            SourceKind::Observed => c.observed < usize::MAX,
            SourceKind::Derived => c.derived < usize::MAX,
            SourceKind::Assumed => c.assumed < usize::MAX,
        },
    ensures
        tallied(c, kind).observed == c.observed + if kind == SourceKind::Observed {
            1int
        } else {
            0int
        },
        tallied(c, kind).derived == c.derived + if kind == SourceKind::Derived {
            1int
        } else {
            0int
        },
        tallied(c, kind).assumed == c.assumed + if kind == SourceKind::Assumed {
            1int
        } else {
            0int
        },
{
}

/// Merging adds totals, is commutative, and merging in a third stage's
/// counts gives the same result whichever pair is merged first.
pub proof fn law_merge_adds_totals(a: StageCounts, b: StageCounts, c: StageCounts)
    requires
        mergeable(a, b),
        mergeable(merged(a, b), c),
    ensures
        counts_total(merged(a, b)) == counts_total(a) + counts_total(b),
        merged(a, b) == merged(b, a),
        mergeable(b, c),
        mergeable(a, merged(b, c)),
        merged(merged(a, b), c) == merged(a, merged(b, c)),
{
}

} // verus!

verus! {

/// The pipeline's stages in run order, by their names in a provenance
/// report.
pub open spec fn pipeline_report_order() -> Seq<Seq<char>> {
    seq!["stellar"@, "orbital_body"@, "atmosphere"@, "skeleton"@, "climate"@, "biome"@]
}

/// The characters of each name.
pub open spec fn report_names(names: Seq<String>) -> Seq<Seq<char>> {
    names.map_values(|s: String| s@)
}

/// The first `k` pipeline stages, in run order, that the report has.
pub open spec fn pipeline_present(names: Seq<Seq<char>>, k: nat) -> Seq<Seq<char>>
    decreases k,
{
    if k == 0 {
        Seq::empty()
    } else {
        let rest = pipeline_present(names, (k - 1) as nat);
        if names.contains(pipeline_report_order()[k - 1]) {
            rest.push(pipeline_report_order()[k - 1])
        } else {
            rest
        }
    }
}

/// The first `k` names that are not pipeline stages, in the given order.
pub open spec fn off_pipeline(names: Seq<Seq<char>>, k: nat) -> Seq<Seq<char>>
    decreases k,
{
    if k == 0 {
        Seq::empty()
    } else {
        let rest = off_pipeline(names, (k - 1) as nat);
        if pipeline_report_order().contains(names[k - 1]) {
            rest
        } else {
            rest.push(names[k - 1])
        }
    }
}

/// The order a report summary lists its stages in: the pipeline stages it
/// has, in run order, then every other stage in the given order.
pub open spec fn summary_order_of(names: Seq<Seq<char>>) -> Seq<Seq<char>> {
    pipeline_present(names, 6) + off_pipeline(names, names.len())
}

fn same_name(name: &String, lit: &str) -> (r: bool)
    ensures
        r == (name@ == lit@),
{
    let v = chars_of(name.as_str());
    assert(v@.subrange(0, v@.len() as int) =~= v@);
    slice_equals(&v, 0, v.len(), lit)
}

fn pipeline_names() -> (r: [&'static str; 6])
    ensures
        r@.map_values(|s: &str| s@) == pipeline_report_order(),
{
    let r = ["stellar", "orbital_body", "atmosphere", "skeleton", "climate", "biome"];
    assert(r@.map_values(|s: &str| s@) =~= pipeline_report_order());
    r
}

fn first_named(names: &Vec<String>, lit: &str) -> (r: Option<usize>)
    ensures
        match r {
            Some(j) => j < names@.len() && names@[j as int]@ == lit@,
            None => !report_names(names@).contains(lit@),
        },
{
    let mut j: usize = 0;
    while j < names.len()
        invariant
            j <= names@.len(),
            forall|k: int| 0 <= k < j ==> (#[trigger] names@[k])@ != lit@,
        decreases names@.len() - j,
    {
        if same_name(&names[j], lit) {
            return Some(j);
        }
        j = j + 1;
    }
    assert(!report_names(names@).contains(lit@)) by {
        if report_names(names@).contains(lit@) {
            let k = choose|k: int| 0 <= k < report_names(names@).len() && report_names(names@)[k] == lit@;
            assert(names@[k]@ == lit@);
        }
    }
    None
}

fn on_pipeline(name: &String) -> (r: bool)
    ensures
        r == pipeline_report_order().contains(name@),
{
    let order = pipeline_names();
    let mut k: usize = 0;
    while k < 6
        invariant
            k <= 6,
            order@.map_values(|s: &str| s@) == pipeline_report_order(),
            forall|q: int| 0 <= q < k ==> pipeline_report_order()[q] != name@,
        decreases 6 - k,
    {
        assert(order@.map_values(|s: &str| s@)[k as int] == order@[k as int]@);
        if same_name(name, order[k]) {
            assert(pipeline_report_order()[k as int] == name@);
            return true;
        }
        k = k + 1;
    }
    false
}

/// Positions of a report's stages in the order its summary lists them (see
/// [`summary_order_of`]); a pipeline stage named more than once is listed
/// at its first position.
pub fn summary_order(stage_names: &Vec<String>) -> (r: Vec<usize>)
    ensures
        forall|k: int| 0 <= k < r@.len() ==> #[trigger] r@[k] < stage_names@.len(),
        r@.map_values(|i: usize| stage_names@[i as int]@) == summary_order_of(
            report_names(stage_names@),
        ),
{
    let ghost nv = report_names(stage_names@);
    let order = pipeline_names();
    let mut r: Vec<usize> = Vec::new();
    let mut k: usize = 0;
    while k < 6
        invariant
            k <= 6,
            nv == report_names(stage_names@),
            order@.map_values(|s: &str| s@) == pipeline_report_order(),
            forall|q: int| 0 <= q < r@.len() ==> #[trigger] r@[q] < stage_names@.len(),
            r@.map_values(|i: usize| stage_names@[i as int]@) == pipeline_present(nv, k as nat),
        decreases 6 - k,
    {
        assert(order@.map_values(|s: &str| s@)[k as int] == order@[k as int]@);
        let ghost before = r@;
        match first_named(stage_names, order[k]) {
            Some(j) => {
                assert(nv[j as int] == stage_names@[j as int]@);
                assert(nv.contains(pipeline_report_order()[k as int]));
                r.push(j);
                assert(r@.map_values(|i: usize| stage_names@[i as int]@) =~= before.map_values(
                    |i: usize| stage_names@[i as int]@,
                ).push(stage_names@[j as int]@));
            },
            None => {},
        }
        k = k + 1;
    }
    let ghost head = r@;
    let mut j: usize = 0;
    while j < stage_names.len()
        invariant
            j <= stage_names@.len(),
            nv == report_names(stage_names@),
            forall|q: int| 0 <= q < r@.len() ==> #[trigger] r@[q] < stage_names@.len(),
            r@.map_values(|i: usize| stage_names@[i as int]@) == pipeline_present(nv, 6)
                + off_pipeline(nv, j as nat),
        decreases stage_names@.len() - j,
    {
        let ghost before = r@;
        assert(nv[j as int] == stage_names@[j as int]@);
        if !on_pipeline(&stage_names[j]) {
            r.push(j);
            assert(r@.map_values(|i: usize| stage_names@[i as int]@) =~= before.map_values(
                |i: usize| stage_names@[i as int]@,
            ).push(stage_names@[j as int]@));
            assert(pipeline_present(nv, 6) + off_pipeline(nv, (j + 1) as nat) =~= (pipeline_present(
                nv,
                6,
            ) + off_pipeline(nv, j as nat)).push(nv[j as int]));
        }
        j = j + 1;
    }
    r
}

/// One line of a report summary: the stage name and its three counts.
pub open spec fn summary_line_of(name: Seq<char>, c: StageCounts) -> Seq<char> {
    "  "@ + name + ": "@ + decimal(c.observed as nat) + " Observed / "@ + decimal(
        c.derived as nat,
    ) + " Derived / "@ + decimal(c.assumed as nat) + " Assumed"@
}

/// Format a summary line, e.g. "  climate: 0 Observed / 12 Derived / 3
/// Assumed".
pub fn summary_line(name: &str, counts: &StageCounts) -> (r: String)
    ensures
        r@ == summary_line_of(name@, *counts),
{
    let mut s = String::new();
    push_str_chars(&mut s, "  ");
    push_str_chars(&mut s, name);
    push_str_chars(&mut s, ": ");
    push_decimal(&mut s, counts.observed as u64);
    push_str_chars(&mut s, " Observed / ");
    push_decimal(&mut s, counts.derived as u64);
    push_str_chars(&mut s, " Derived / ");
    push_decimal(&mut s, counts.assumed as u64);
    push_str_chars(&mut s, " Assumed");
    assert(s@ =~= summary_line_of(name@, *counts));
    s
}

proof fn lemma_pipeline_present_contains(names: Seq<Seq<char>>, k: nat, x: Seq<char>)
    requires
        k <= 6,
    ensures
        pipeline_present(names, k).contains(x) <==> (names.contains(x) && exists|q: int|
            0 <= q < k && pipeline_report_order()[q] == x),
    decreases k,
{
    if k > 0 {
        lemma_pipeline_present_contains(names, (k - 1) as nat, x);
        let rest = pipeline_present(names, (k - 1) as nat);
        let cur = pipeline_present(names, k);
        let o = pipeline_report_order()[k - 1];
        if names.contains(o) {
            assert(cur == rest.push(o));
            if x == o {
                assert(cur[rest.len() as int] == x);
            }
            if rest.contains(x) {
                let i = choose|i: int| 0 <= i < rest.len() && rest[i] == x;
                assert(cur[i] == x);
            }
            if cur.contains(x) && !rest.contains(x) {
                let i = choose|i: int| 0 <= i < cur.len() && cur[i] == x;
                if i < rest.len() {
                    assert(rest[i] == x);
                }
            }
        }
    }
}

proof fn lemma_off_pipeline_contains(names: Seq<Seq<char>>, k: nat, x: Seq<char>)
    requires
        k <= names.len(),
    ensures
        off_pipeline(names, k).contains(x) <==> (!pipeline_report_order().contains(x) && exists|j: int|
            0 <= j < k && names[j] == x),
    decreases k,
{
    if k > 0 {
        lemma_off_pipeline_contains(names, (k - 1) as nat, x);
        let rest = off_pipeline(names, (k - 1) as nat);
        let cur = off_pipeline(names, k);
        let n = names[k - 1];
        if !pipeline_report_order().contains(n) {
            assert(cur == rest.push(n));
            if x == n {
                assert(cur[rest.len() as int] == x);
            }
            if rest.contains(x) {
                let i = choose|i: int| 0 <= i < rest.len() && rest[i] == x;
                assert(cur[i] == x);
            }
            if cur.contains(x) && !rest.contains(x) {
                let i = choose|i: int| 0 <= i < cur.len() && cur[i] == x;
                if i < rest.len() {
                    assert(rest[i] == x);
                }
            }
        }
    }
}

/// A report summary lists exactly the stages the report has: every stage of
/// the report appears in it, and nothing else does.
pub proof fn law_summary_lists_every_stage(names: Seq<Seq<char>>, x: Seq<char>)
    ensures
        summary_order_of(names).contains(x) <==> names.contains(x),
{
    let a = pipeline_present(names, 6);
    let b = off_pipeline(names, names.len());
    lemma_pipeline_present_contains(names, 6, x);
    lemma_off_pipeline_contains(names, names.len(), x);
    if (a + b).contains(x) {
        let i = choose|i: int| 0 <= i < (a + b).len() && (a + b)[i] == x;
        if i < a.len() {
            assert(a[i] == x);
        } else {
            assert(b[i - a.len()] == x);
        }
    }
    if names.contains(x) {
        let j = choose|j: int| 0 <= j < names.len() && names[j] == x;
        if pipeline_report_order().contains(x) {
            let q = choose|q: int| 0 <= q < pipeline_report_order().len() && pipeline_report_order()[q] == x;
            assert(a.contains(x));
            let i = choose|i: int| 0 <= i < a.len() && a[i] == x;
            assert((a + b)[i] == x);
        } else {
            assert(b.contains(x));
            let i = choose|i: int| 0 <= i < b.len() && b[i] == x;
            assert((a + b)[i + a.len()] == x);
        }
    }
}

} // verus!
