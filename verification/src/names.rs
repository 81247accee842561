//! The common-name alias table (name -> Gaia source ID) and the
//! classification of free-text star queries.

use std::collections::HashMap;
use vstd::prelude::*;
pub use vstd::hash_map::StringHashMap;
use crate::text::{
    all_digits, ascii_lower, ascii_lowercase, chars_of, decimal, law_decimal_round_trip, lemma_decimal_digits,
    lemma_trim_ends, lemma_trim_fixed, is_digit, lowercase_string, parse_u64, parse_u64_spec, slice_equals, substring, trim,
    trim_bounds,
};

verus! {

broadcast use vstd::std_specs::hash::group_hash_axioms;

/// The text after the last newline of `s` (the line still being read).
pub open spec fn open_line(s: Seq<char>) -> Seq<char>
    decreases s.len(),
{
    if s.len() == 0 {
        Seq::empty()
    } else if s.last() == '\n' {
        Seq::empty()
    } else {
        open_line(s.drop_last()).push(s.last())
    }
}

/// The newline-terminated lines of `s`, without their newlines.
pub open spec fn complete_lines(s: Seq<char>) -> Seq<Seq<char>>
    decreases s.len(),
{
    if s.len() == 0 {
        Seq::empty()
    } else if s.last() == '\n' {
        complete_lines(s.drop_last()).push(open_line(s.drop_last()))
    } else {
        complete_lines(s.drop_last())
    }
}

/// The pieces of `s` between newline characters, in order. Trimming each
/// piece gives the same text as trimming each of `str::lines`.
pub open spec fn text_lines(s: Seq<char>) -> Seq<Seq<char>> {
    complete_lines(s).push(open_line(s))
}

/// Index of the first tab character of `s`, if any.
pub open spec fn first_tab(s: Seq<char>) -> Option<int>
    decreases s.len(),
{
    if s.len() == 0 {
        None
    } else if s[0] == '\t' {
        Some(0)
    } else {
        match first_tab(s.drop_first()) {
            Some(k) => Some(k + 1),
            None => None,
        }
    }
}

/// The `(name, id)` entry that one line of the alias table contributes:
/// blank and `#` lines contribute nothing; otherwise the trimmed text before
/// the first tab is the name and the trimmed text after it must parse as a
/// `u64`.
pub open spec fn alias_entry(line: Seq<char>) -> Option<(Seq<char>, u64)> {
    let t = trim(line);
    if t.len() == 0 || t[0] == '#' {
        None
    } else {
        match first_tab(t) {
            None => None,
            Some(k) => match parse_u64_spec(trim(t.subrange(k + 1, t.len() as int))) {
                Some(id) => Some((trim(t.take(k)), id)),
                None => None,
            },
        }
    }
}

/// The entries contributed by a sequence of lines, in order.
pub open spec fn alias_entries(lines: Seq<Seq<char>>) -> Seq<(Seq<char>, u64)>
    decreases lines.len(),
{
    if lines.len() == 0 {
        Seq::empty()
    } else {
        let rest = alias_entries(lines.drop_last());
        match alias_entry(lines.last()) {
            Some(e) => rest.push(e),
            None => rest,
        }
    }
}

/// Lower-cased name -> id; a later entry for the same name wins.
pub open spec fn alias_forward(entries: Seq<(Seq<char>, u64)>) -> Map<Seq<char>, u64>
    decreases entries.len(),
{
    if entries.len() == 0 {
        Map::empty()
    } else {
        alias_forward(entries.drop_last()).insert(
            ascii_lowercase(entries.last().0),
            entries.last().1,
        )
    }
}

/// Id -> name as written; the first entry for an id wins.
pub open spec fn alias_reverse(entries: Seq<(Seq<char>, u64)>) -> Map<u64, Seq<char>>
    decreases entries.len(),
{
    if entries.len() == 0 {
        Map::empty()
    } else {
        let m = alias_reverse(entries.drop_last());
        if m.contains_key(entries.last().1) {
            m
        } else {
            m.insert(entries.last().1, entries.last().0)
        }
    }
}

/// Index of the first tab in `v[lo..hi]`, relative to `lo`.
fn find_tab(v: &[char], lo: usize, hi: usize) -> (r: Option<usize>)
    requires
        lo <= hi <= v@.len(),
    ensures
        match first_tab(v@.subrange(lo as int, hi as int)) {
            Some(k) => r matches Some(x) && x as int == lo + k,
            None => r is None,
        },
        r matches Some(k) ==> lo <= k < hi && v@[k as int] == '\t',
    decreases hi - lo,
{
    if lo == hi {
        return None;
    }
    assert(v@.subrange(lo as int, hi as int).drop_first() =~= v@.subrange(lo + 1, hi as int));
    if v[lo] == '\t' {
        Some(lo)
    } else {
        find_tab(v, lo + 1, hi)
    }
}

/// The entry of the line `v[lo..hi]`, as (lower-cased name, name, id).
fn line_entry(v: &[char], lo: usize, hi: usize) -> (r: Option<(String, String, u64)>)
    requires
        lo <= hi <= v@.len(),
    ensures
        match alias_entry(v@.subrange(lo as int, hi as int)) {
            Some(e) => r matches Some(t) && t.0@ == ascii_lowercase(e.0) && t.1@ == e.0 && t.2 == e.1,
            None => r is None,
        },
{
    let (a, b) = trim_bounds(v, lo, hi);
    let ghost t = v@.subrange(a as int, b as int);
    assert(t == trim(v@.subrange(lo as int, hi as int)));
    if a == b {
        return None;
    }
    assert(t[0] == v@[a as int]);
    if v[a] == '#' {
        return None;
    }
    let k = match find_tab(v, a, b) {
        Some(k) => k,
        None => return None,
    };
    assert(first_tab(t) == Some((k - a) as int));
    assert(t.subrange((k - a) + 1, t.len() as int) =~= v@.subrange(k + 1, b as int));
    assert(t.take(k - a) =~= v@.subrange(a as int, k as int));
    let (ia, ib) = trim_bounds(v, k + 1, b);
    let id = match parse_u64(v, ia, ib) {
        Some(id) => id,
        None => return None,
    };
    let (na, nb) = trim_bounds(v, a, k);
    let lower = lowercase_string(v, na, nb);
    let name = substring(v, na, nb);
    assert(alias_entry(v@.subrange(lo as int, hi as int)) == Some((v@.subrange(na as int, nb as int), id)));
    Some((lower, name, id))
}

/// Adds the entry of the line `v[lo..hi]` (if any) to both maps.
fn absorb_line(
    v: &[char],
    lo: usize,
    hi: usize,
    forward: &mut StringHashMap<u64>,
    reverse: &mut HashMap<u64, String>,
    Ghost(lines): Ghost<Seq<Seq<char>>>,
)
    requires
        lo <= hi <= v@.len(),
        old(forward)@ == alias_forward(alias_entries(lines)),
        old(reverse)@.map_values(|s: String| s@) == alias_reverse(alias_entries(lines)),
    ensures
        final(forward)@ == alias_forward(alias_entries(lines.push(v@.subrange(lo as int, hi as int)))),
        final(reverse)@.map_values(|s: String| s@) == alias_reverse(
            alias_entries(lines.push(v@.subrange(lo as int, hi as int))),
        ),
{
    let ghost line = v@.subrange(lo as int, hi as int);
    let ghost all = lines.push(line);
    assert(all.drop_last() =~= lines);
    match line_entry(v, lo, hi) {
        None => {},
        Some((lower, name, id)) => {
            let ghost e = alias_entry(line)->0;
            let ghost es = alias_entries(all);
            assert(es.drop_last() =~= alias_entries(lines));
            assert(es.last() == e);
            forward.insert(lower, id);
            if !reverse.contains_key(&id) {
                reverse.insert(id, name);
                assert(reverse@.map_values(|s: String| s@) =~= alias_reverse(es));
            } else {
                assert(old(reverse)@.map_values(|s: String| s@).contains_key(id));
            }
        },
    }
}

proof fn lemma_lines_step(s: Seq<char>, c: char)
    ensures
        c == '\n' ==> complete_lines(s.push(c)) == complete_lines(s).push(open_line(s)) && open_line(
            s.push(c),
        ) == Seq::<char>::empty(),
        c != '\n' ==> complete_lines(s.push(c)) == complete_lines(s) && open_line(s.push(c))
            == open_line(s).push(c),
{
    assert(s.push(c).drop_last() =~= s);
}

/// Parse the alias table text into forward (lower-cased name -> id) and
/// reverse (id -> first-seen name) maps. Each line is `name<TAB>id`;
/// blank lines, `#` lines and lines whose id does not parse are skipped.
pub fn parse_alias_table(tsv: &str) -> (r: (StringHashMap<u64>, HashMap<u64, String>))
    ensures
        r.0@ == alias_forward(alias_entries(text_lines(tsv@))),
        r.1@.map_values(|s: String| s@) == alias_reverse(alias_entries(text_lines(tsv@))),
{
    let v = chars_of(tsv);
    let n = v.len();
    let mut forward: StringHashMap<u64> = StringHashMap::new();
    let mut reverse: HashMap<u64, String> = HashMap::new();
    let mut line_start: usize = 0;
    let mut i: usize = 0;
    while i < n
        invariant
            n == v@.len(),
            line_start <= i <= n,
            open_line(v@.take(i as int)) == v@.subrange(line_start as int, i as int),
            forward@ == alias_forward(alias_entries(complete_lines(v@.take(i as int)))),
            reverse@.map_values(|s: String| s@) == alias_reverse(
                alias_entries(complete_lines(v@.take(i as int))),
            ),
        decreases n - i,
    {
        proof {
            lemma_lines_step(v@.take(i as int), v@[i as int]);
            assert(v@.take(i + 1) =~= v@.take(i as int).push(v@[i as int]));
        }
        if v[i] == '\n' {
            let ghost lines = complete_lines(v@.take(i as int));
            let ghost line = v@.subrange(line_start as int, i as int);
            assert(lines.push(line).drop_last() =~= lines);
            absorb_line(&v, line_start, i, &mut forward, &mut reverse, Ghost(lines));
            line_start = i + 1;
            assert(v@.subrange(line_start as int, i + 1) =~= Seq::<char>::empty());
        } else {
            assert(v@.subrange(line_start as int, i + 1) =~= v@.subrange(
                line_start as int,
                i as int,
            ).push(v@[i as int]));
        }
        i = i + 1;
    }
    assert(v@.take(n as int) =~= tsv@);
    let ghost lines = complete_lines(tsv@);
    assert(lines.push(open_line(tsv@)).drop_last() =~= lines);
    absorb_line(&v, line_start, n, &mut forward, &mut reverse, Ghost(lines));
    (forward, reverse)
}

} // verus!

verus! {

/// What a free-text star query resolves to before any catalog lookup.
#[derive(Clone, Copy, Debug, PartialEq, Eq, Structural)]
pub enum StarTarget {
    /// The Sun ("Sol" / "Sun"), which has no Gaia DR3 row.
    Sun,
    /// A Gaia DR3 source ID.
    GaiaId(u64),
}

/// Resolution of a query: empty text resolves to nothing; "sol" / "sun" (any
/// case) to the Sun; an all-digit query that fits in a `u64` to that Gaia
/// ID; anything else to the alias table's ID for its lower-cased form.
pub open spec fn resolve_target_spec(query: Seq<char>, names: Map<Seq<char>, u64>) -> Option<StarTarget> {
    let t = trim(query);
    let l = ascii_lowercase(t);
    if t.len() == 0 {
        None
    } else if l == "sol"@ || l == "sun"@ {
        Some(StarTarget::Sun)
    } else if all_digits(t) && parse_u64_spec(t) is Some {
        Some(StarTarget::GaiaId(parse_u64_spec(t)->0))
    } else if names.contains_key(l) {
        Some(StarTarget::GaiaId(names[l]))
    } else {
        None
    }
}

/// Resolve a name or Gaia source ID string against the alias table.
///
/// Resolution order: "Sol" / "Sun" first (the Sun has no Gaia row), then a
/// pure-digit query as a Gaia source ID, then a case-insensitive lookup in
/// the alias table.
pub fn resolve_target(query: &str, names: &StringHashMap<u64>) -> (r: Option<StarTarget>)
    ensures
        r == resolve_target_spec(query@, names@),
{
    let v = chars_of(query);
    let n = v.len();
    let (a, b) = trim_bounds(&v, 0, n);
    assert(v@.subrange(0, n as int) =~= v@);
    if a == b {
        return None;
    }
    let lower = lowercase_string(&v, a, b);
    let lv = chars_of(lower.as_str());
    let m = lv.len();
    assert(lv@.subrange(0, m as int) =~= lv@);
    if slice_equals(&lv, 0, m, "sol") || slice_equals(&lv, 0, m, "sun") {
        return Some(StarTarget::Sun);
    }
    let mut i = a;
    let mut digits = true;
    while i < b
        invariant
            a <= i <= b <= v@.len(),
            digits == (forall|j: int| a <= j < i ==> is_digit(#[trigger] v@[j])),
        decreases b - i,
    {
        if !('0' <= v[i] && v[i] <= '9') {
            digits = false;
        }
        i = i + 1;
    }
    let ghost t = v@.subrange(a as int, b as int);
    assert(digits == all_digits(t)) by {
        if digits {
            assert forall|j: int| 0 <= j < t.len() implies is_digit(#[trigger] t[j]) by {
                assert(t[j] == v@[a + j]);
            }
        } else {
            let j = choose|j: int| a <= j < b && !is_digit(#[trigger] v@[j]);
            assert(t[j - a] == v@[j]);
        }
    }
    if digits {
        if let Some(gid) = parse_u64(&v, a, b) {
            return Some(StarTarget::GaiaId(gid));
        }
    }
    match names.get(lower.as_str()) {
        Some(gid) => Some(StarTarget::GaiaId(*gid)),
        None => None,
    }
}

proof fn lemma_lower_keeps_digits(c: char, d: char)
    requires
        ascii_lower(c) == ascii_lower(d),
        is_digit(c),
    ensures
        c == d,
{
    if 'A' <= d <= 'Z' {
        assert(ascii_lower(d) as u32 == d as u32 + 32);
        assert(false);
    }
}

proof fn lemma_same_lowercase_digits(s: Seq<char>, t: Seq<char>)
    requires
        ascii_lowercase(s) == ascii_lowercase(t),
        all_digits(s),
    ensures
        s == t,
{
    assert(s.len() == ascii_lowercase(s).len());
    assert(t.len() == ascii_lowercase(t).len());
    assert forall|i: int| 0 <= i < s.len() implies s[i] == t[i] by {
        assert(ascii_lowercase(s)[i] == ascii_lower(s[i]));
        assert(ascii_lowercase(t)[i] == ascii_lower(t[i]));
        lemma_lower_keeps_digits(s[i], t[i]);
    }
    assert(s =~= t);
}

/// Resolution ignores case and surrounding whitespace: two queries whose
/// trimmed texts agree up to ASCII case resolve to the same target. In
/// particular an alias-table key (trimmed, lower-case, not "sol"/"sun" and
/// not all digits) resolves to its own ID, and so does any spelling of it
/// that differs only in case or surrounding whitespace.
pub proof fn law_resolution_ignores_case(q1: Seq<char>, q2: Seq<char>, names: Map<Seq<char>, u64>)
    ensures
        ascii_lowercase(trim(q1)) == ascii_lowercase(trim(q2)) ==> resolve_target_spec(q1, names)
            == resolve_target_spec(q2, names),
        ({
            let k = ascii_lowercase(trim(q1));
            (names.contains_key(k) && k.len() > 0 && k != "sol"@ && k != "sun"@ && !all_digits(
                trim(q1),
            )) ==> resolve_target_spec(q1, names) == Some(StarTarget::GaiaId(names[k]))
        }),
{
    let t1 = trim(q1);
    let t2 = trim(q2);
    if ascii_lowercase(t1) == ascii_lowercase(t2) {
        assert(t1.len() == ascii_lowercase(t1).len());
        assert(t2.len() == ascii_lowercase(t2).len());
        if all_digits(t1) {
            lemma_same_lowercase_digits(t1, t2);
        }
        if all_digits(t2) {
            lemma_same_lowercase_digits(t2, t1);
        }
    }
    assert(t1.len() == ascii_lowercase(t1).len());
}

proof fn lemma_first_tab_after(p: Seq<char>, q: Seq<char>)
    requires
        !p.contains('\t'),
        q.len() > 0,
        q[0] == '\t',
    ensures
        first_tab(p + q) == Some(p.len() as int),
    decreases p.len(),
{
    if p.len() == 0 {
        assert(p + q =~= q);
    } else {
        assert((p + q).drop_first() =~= p.drop_first() + q);
        assert(p[0] != '\t') by {
            if p[0] == '\t' {
                assert(p.contains(p[0]));
            }
        }
        assert(!p.drop_first().contains('\t')) by {
            if p.drop_first().contains('\t') {
                let i = choose|i: int| 0 <= i < p.drop_first().len() && p.drop_first()[i] == '\t';
                assert(p[i + 1] == '\t');
            }
        }
        lemma_first_tab_after(p.drop_first(), q);
    }
}

/// A table line written as a name, a tab and an ID in decimal gives back
/// that name and ID, for a trimmed, non-empty name without tabs that does
/// not start a comment; blank lines and `#` lines give nothing.
pub proof fn law_alias_line_round_trip(name: Seq<char>, id: u64, other: Seq<char>)
    requires
        trim(name) == name,
        name.len() > 0,
        name[0] != '#',
        !name.contains('\t'),
    ensures
        alias_entry(name + seq!['\t'] + decimal(id as nat)) == Some((name, id)),
        (trim(other).len() == 0 || trim(other)[0] == '#') ==> alias_entry(other) is None,
{
    let d = decimal(id as nat);
    let line = name + seq!['\t'] + d;
    lemma_decimal_digits(id as nat);
    law_decimal_round_trip(id);
    lemma_trim_ends(name);
    assert(is_digit(d[0]) && is_digit(d.last()));
    assert(line[0] == name[0]);
    assert(line.last() == d.last());
    lemma_trim_fixed(line);
    lemma_trim_fixed(d);
    assert(name + seq!['\t'] + d =~= name + (seq!['\t'] + d));
    lemma_first_tab_after(name, seq!['\t'] + d);
    let k = name.len() as int;
    assert(line.subrange(k + 1, line.len() as int) =~= d);
    assert(line.take(k) =~= name);
}

/// A later table entry for a name replaces earlier ones, under the
/// name's lower-case form.
pub proof fn law_alias_later_entry_wins(entries: Seq<(Seq<char>, u64)>, name: Seq<char>, id: u64)
    ensures
        alias_forward(entries.push((name, id))).contains_key(ascii_lowercase(name)),
        alias_forward(entries.push((name, id)))[ascii_lowercase(name)] == id,
{
    assert(entries.push((name, id)).drop_last() =~= entries);
}

} // verus!
