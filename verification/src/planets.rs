//! Lookup structure of the exoplanet catalog: which planet records belong to
//! a host name (with the aliases that share a Gaia source ID) and to a Gaia
//! source ID, plus the planet-letter rule of the Archive rows.
//!
//! Records are identified by their position in the catalog; the records
//! themselves (with their measured quantities) are held by the caller.

use vstd::prelude::*;
use std::collections::HashMap;
use vstd::hash_map::StringHashMap;
use crate::text::{
    ascii_lower, ascii_lowercase, chars_of, is_white_space, lemma_trim_ends, lemma_trim_fixed,
    lemma_trim_start_shape, lowercase_string, string_of, substring, trim, trim_bounds,
};

verus! {

broadcast use vstd::std_specs::hash::group_hash_axioms;

// ---------------------------------------------------------------------------
// Planet letters and lookup keys
// ---------------------------------------------------------------------------

/// The planet letter of an Archive row: the explicit letter column when it
/// is not blank, else what follows the host name in the planet name (both
/// trimmed), else empty.
pub open spec fn planet_letter_of(letter: Seq<char>, name: Seq<char>, host: Seq<char>) -> Seq<char> {
    let l = trim(letter);
    let n = trim(name);
    let h = trim(host);
    if l.len() > 0 {
        l
    } else if n.len() > 0 && h.len() > 0 && h.is_prefix_of(n) {
        trim(n.subrange(h.len() as int, n.len() as int))
    } else {
        Seq::empty()
    }
}

/// The key under which a host name is looked up: trimmed and ASCII
/// lower-cased.
pub open spec fn lookup_key_of(s: Seq<char>) -> Seq<char> {
    ascii_lowercase(trim(s))
}

fn ranges_equal(a: &Vec<char>, alo: usize, b: &Vec<char>, blo: usize, len: usize) -> (r: bool)
    requires
        alo + len <= a@.len(),
        blo + len <= b@.len(),
    ensures
        r == (a@.subrange(alo as int, alo + len) == b@.subrange(blo as int, blo + len)),
{
    let alen = a.len();
    let blen = b.len();
    let mut k: usize = 0;
    while k < len
        invariant
            alen == a@.len(),
            blen == b@.len(),
            alo + len <= alen,
            blo + len <= blen,
            k <= len,
            a@.subrange(alo as int, alo + k) == b@.subrange(blo as int, blo + k),
        decreases len - k,
    {
        if a[alo + k] != b[blo + k] {
            assert(a@.subrange(alo as int, alo + len)[k as int] != b@.subrange(
                blo as int,
                blo + len,
            )[k as int]);
            return false;
        }
        assert(a@.subrange(alo as int, alo + k + 1) =~= a@.subrange(alo as int, alo + k).push(
            a@[alo + k],
        ));
        assert(b@.subrange(blo as int, blo + k + 1) =~= b@.subrange(blo as int, blo + k).push(
            b@[blo + k],
        ));
        k = k + 1;
    }
    true
}

/// The planet letter of an Archive row (see [`planet_letter_of`]).
pub fn planet_letter(pl_letter: &str, pl_name: &str, hostname: &str) -> (r: String)
    ensures
        r@ == planet_letter_of(pl_letter@, pl_name@, hostname@),
{
    let lv = chars_of(pl_letter);
    let (la, lb) = trim_bounds(&lv, 0, lv.len());
    assert(lv@.subrange(0, lv@.len() as int) =~= pl_letter@);
    if la < lb {
        return substring(&lv, la, lb);
    }
    let nv = chars_of(pl_name);
    let (na, nb) = trim_bounds(&nv, 0, nv.len());
    assert(nv@.subrange(0, nv@.len() as int) =~= pl_name@);
    let hv = chars_of(hostname);
    let (ha, hb) = trim_bounds(&hv, 0, hv.len());
    assert(hv@.subrange(0, hv@.len() as int) =~= hostname@);
    if na < nb && ha < hb {
        let hl = hb - ha;
        let ghost n = nv@.subrange(na as int, nb as int);
        let ghost h = hv@.subrange(ha as int, hb as int);
        if hl <= nb - na && ranges_equal(&nv, na, &hv, ha, hl) {
            assert(h.is_prefix_of(n)) by {
                assert(n.subrange(0, h.len() as int) =~= nv@.subrange(na as int, na + hl));
            }
            let (ra, rb) = trim_bounds(&nv, na + hl, nb);
            assert(n.subrange(h.len() as int, n.len() as int) =~= nv@.subrange(na + hl, nb as int));
            return substring(&nv, ra, rb);
        }
        assert(!h.is_prefix_of(n)) by {
            if h.is_prefix_of(n) {
                assert(n.subrange(0, h.len() as int) =~= nv@.subrange(na as int, na + hl));
                assert(h =~= hv@.subrange(ha as int, ha + hl));
            }
        }
        return String::new();
    }
    String::new()
}

/// How a planet is listed for its star: the host name, then a space and
/// the planet letter when there is one.
pub open spec fn planet_label_of(host: Seq<char>, letter: Seq<char>) -> Seq<char> {
    if letter.len() == 0 {
        host
    } else {
        host + seq![' '] + letter
    }
}

/// A planet's listing name (see [`planet_label_of`]), e.g. "TRAPPIST-1 e".
pub fn planet_label(host_name: &str, planet_letter: &str) -> (r: String)
    ensures
        r@ == planet_label_of(host_name@, planet_letter@),
{
    let hv = chars_of(host_name);
    let lv = chars_of(planet_letter);
    if lv.len() == 0 {
        return string_of(&hv);
    }
    let mut s = string_of(&hv);
    s.push(' ');
    let mut i: usize = 0;
    while i < lv.len()
        invariant
            i <= lv@.len(),
            s@ == hv@ + seq![' '] + lv@.take(i as int),
        decreases lv@.len() - i,
    {
        s.push(lv[i]);
        assert(lv@.take(i + 1) =~= lv@.take(i as int).push(lv@[i as int]));
        i = i + 1;
    }
    assert(lv@.take(lv@.len() as int) =~= lv@);
    s
}

/// The lookup key of a host-name query: trimmed and ASCII lower-cased.
pub fn lookup_key(query: &str) -> (r: String)
    ensures
        r@ == lookup_key_of(query@),
{
    let v = chars_of(query);
    let (a, b) = trim_bounds(&v, 0, v.len());
    assert(v@.subrange(0, v@.len() as int) =~= query@);
    lowercase_string(&v, a, b)
}

/// A non-blank letter column wins: the planet letter is that column,
/// trimmed, whatever the names say.
pub proof fn law_letter_column_wins(letter: Seq<char>, name: Seq<char>, host: Seq<char>)
    requires
        trim(letter).len() > 0,
    ensures
        planet_letter_of(letter, name, host) == trim(letter),
{
}

/// With a blank letter column, the letter is read back from a planet name
/// written as its listing label: for a trimmed, non-empty host name and a
/// trimmed letter, the name "host letter" (or just "host" for no letter)
/// gives that letter.
pub proof fn law_letter_recovered_from_label(blank: Seq<char>, host: Seq<char>, letter: Seq<char>)
    requires
        trim(blank).len() == 0,
        trim(host) == host,
        host.len() > 0,
        trim(letter) == letter,
    ensures
        planet_letter_of(blank, planet_label_of(host, letter), host) == letter,
{
    lemma_trim_ends(host);
    lemma_trim_ends(letter);
    let n = planet_label_of(host, letter);
    if letter.len() == 0 {
        assert(n.subrange(host.len() as int, n.len() as int) =~= Seq::<char>::empty());
        lemma_trim_fixed(Seq::<char>::empty());
        assert(host.is_prefix_of(n)) by {
            assert(n.subrange(0, host.len() as int) =~= host);
        }
    } else {
        assert(n[0] == host[0]);
        assert(n.last() == letter.last());
        lemma_trim_fixed(n);
        assert(host.is_prefix_of(n)) by {
            assert(n.subrange(0, host.len() as int) =~= host);
        }
        let rest = n.subrange(host.len() as int, n.len() as int);
        assert(rest.drop_first() =~= letter);
        assert(is_white_space(rest[0]));
        lemma_trim_start_shape(rest);
        lemma_trim_start_shape(letter);
        lemma_trim_fixed(letter);
    }
}

/// A lookup key has no surrounding whitespace, no ASCII capitals, the
/// length of the trimmed query, and is its own key.
pub proof fn law_lookup_key_normal(s: Seq<char>)
    ensures
        ({
            let k = lookup_key_of(s);
            &&& k.len() == trim(s).len()
            &&& k.len() > 0 ==> !is_white_space(k[0]) && !is_white_space(k.last())
            &&& forall|i: int| 0 <= i < k.len() ==> !('A' <= #[trigger] k[i] <= 'Z')
            &&& lookup_key_of(k) == k
        }),
{
    let t = trim(s);
    let k = lookup_key_of(s);
    lemma_trim_ends(s);
    assert(k.len() == t.len());
    assert forall|i: int| 0 <= i < k.len() implies !('A' <= #[trigger] k[i] <= 'Z')
        && (is_white_space(k[i]) == is_white_space(t[i])) by {
        assert(k[i] == ascii_lower(t[i]));
        if 'A' <= t[i] <= 'Z' {
            assert(ascii_lower(t[i]) as u32 == t[i] as u32 + 32);
        }
    }
    if k.len() > 0 {
        assert(is_white_space(k[0]) == is_white_space(t[0]));
        assert(is_white_space(k[k.len() - 1]) == is_white_space(t[t.len() - 1]));
    }
    lemma_trim_fixed(k);
    assert(ascii_lowercase(k) =~= k);
}

// ---------------------------------------------------------------------------
// The host and Gaia indices
// ---------------------------------------------------------------------------

/// A catalog record as the index sees it: its host name (trimmed, non-empty)
/// and its Gaia source ID, if known.
pub struct PlanetHost {
    pub host_name: String,
    pub gaia_id: Option<u64>,
}

/// The rows of a record list, by view.
pub open spec fn host_rows(hosts: Seq<PlanetHost>) -> Seq<(Seq<char>, Option<u64>)> {
    hosts.map_values(|h: PlanetHost| (h.host_name@, h.gaia_id))
}

/// The list stored under a key, or the empty list.
pub open spec fn list_at<K>(m: Map<K, Seq<usize>>, k: K) -> Seq<usize> {
    if m.contains_key(k) {
        m[k]
    } else {
        Seq::empty()
    }
}

/// Each lower-cased host name mapped to the positions of its records, in
/// order.
pub open spec fn host_lists(rows: Seq<(Seq<char>, Option<u64>)>) -> Map<Seq<char>, Seq<usize>>
    decreases rows.len(),
{
    if rows.len() == 0 {
        Map::empty()
    } else {
        let m = host_lists(rows.drop_last());
        let k = ascii_lowercase(rows.last().0);
        m.insert(k, list_at(m, k).push((rows.len() - 1) as usize))
    }
}

/// Each Gaia source ID mapped to the positions of its records, in order.
pub open spec fn gaia_lists(rows: Seq<(Seq<char>, Option<u64>)>) -> Map<u64, Seq<usize>>
    decreases rows.len(),
{
    if rows.len() == 0 {
        Map::empty()
    } else {
        let m = gaia_lists(rows.drop_last());
        match rows.last().1 {
            Some(g) => m.insert(g, list_at(m, g).push((rows.len() - 1) as usize)),
            None => m,
        }
    }
}

/// Some name in `ns` equals `name` up to ASCII case.
pub open spec fn has_name(ns: Seq<Seq<char>>, name: Seq<char>) -> bool {
    exists|j: int| 0 <= j < ns.len() && ascii_lowercase(#[trigger] ns[j]) == ascii_lowercase(name)
}

/// The names stored under a key, or none.
pub open spec fn names_at(m: Map<u64, Seq<Seq<char>>>, g: u64) -> Seq<Seq<char>> {
    if m.contains_key(g) {
        m[g]
    } else {
        Seq::empty()
    }
}

/// Each Gaia source ID mapped to the distinct host names (compared without
/// ASCII case) of its records, in order of first appearance.
pub open spec fn alias_groups(rows: Seq<(Seq<char>, Option<u64>)>) -> Map<u64, Seq<Seq<char>>>
    decreases rows.len(),
{
    if rows.len() == 0 {
        Map::empty()
    } else {
        let m = alias_groups(rows.drop_last());
        let name = rows.last().0;
        match rows.last().1 {
            Some(g) => if has_name(names_at(m, g), name) {
                m.insert(g, names_at(m, g))
            } else {
                m.insert(g, names_at(m, g).push(name))
            },
            None => m,
        }
    }
}

/// The Gaia source IDs of the records, each once, in order of first
/// appearance.
pub open spec fn gaia_order(rows: Seq<(Seq<char>, Option<u64>)>) -> Seq<u64>
    decreases rows.len(),
{
    if rows.len() == 0 {
        Seq::empty()
    } else {
        let o = gaia_order(rows.drop_last());
        match rows.last().1 {
            Some(g) => if o.contains(g) {
                o
            } else {
                o.push(g)
            },
            None => o,
        }
    }
}

/// `a` followed by the elements of `b` that are not yet present, in order.
pub open spec fn append_missing(a: Seq<usize>, b: Seq<usize>) -> Seq<usize>
    decreases b.len(),
{
    if b.len() == 0 {
        a
    } else {
        let r = append_missing(a, b.drop_last());
        if r.contains(b.last()) {
            r
        } else {
            r.push(b.last())
        }
    }
}

/// The positions listed under any of `names`, each once.
pub open spec fn group_union(m: Map<Seq<char>, Seq<usize>>, names: Seq<Seq<char>>) -> Seq<usize>
    decreases names.len(),
{
    if names.len() == 0 {
        Seq::empty()
    } else {
        append_missing(
            group_union(m, names.drop_last()),
            list_at(m, ascii_lowercase(names.last())),
        )
    }
}

/// `m` with the positions `u` added under each of `names`.
pub open spec fn spread_union(m: Map<Seq<char>, Seq<usize>>, names: Seq<Seq<char>>, u: Seq<usize>) -> Map<
    Seq<char>,
    Seq<usize>,
>
    decreases names.len(),
{
    if names.len() == 0 {
        m
    } else {
        let m2 = spread_union(m, names.drop_last(), u);
        let k = ascii_lowercase(names.last());
        m2.insert(k, append_missing(list_at(m2, k), u))
    }
}

/// Host names that share a Gaia source ID become synonyms: each of them
/// lists every record of all of them.
pub open spec fn merge_group(m: Map<Seq<char>, Seq<usize>>, names: Seq<Seq<char>>) -> Map<
    Seq<char>,
    Seq<usize>,
> {
    if names.len() < 2 {
        m
    } else {
        spread_union(m, names, group_union(m, names))
    }
}

/// The alias groups merged one after another, in the given order.
pub open spec fn merge_groups(
    m: Map<Seq<char>, Seq<usize>>,
    order: Seq<u64>,
    groups: Map<u64, Seq<Seq<char>>>,
) -> Map<Seq<char>, Seq<usize>>
    decreases order.len(),
{
    if order.len() == 0 {
        m
    } else {
        merge_group(merge_groups(m, order.drop_last(), groups), groups[order.last()])
    }
}

/// The host index of a record list: lower-cased host name to record
/// positions, with alias groups merged in order of first appearance of
/// their Gaia source ID.
pub open spec fn host_index(rows: Seq<(Seq<char>, Option<u64>)>) -> Map<Seq<char>, Seq<usize>> {
    merge_groups(host_lists(rows), gaia_order(rows), alias_groups(rows))
}

/// Lookup structure of the exoplanet catalog.
pub struct PlanetIndex {
    /// Lower-cased host name (and alias) to record positions.
    pub by_host: StringHashMap<Vec<usize>>,
    /// Gaia source ID to record positions.
    pub by_gaia: HashMap<u64, Vec<usize>>,
}

/// A list of names, by view.
pub open spec fn names_view(v: Seq<String>) -> Seq<Seq<char>> {
    v.map_values(|s: String| s@)
}

/// The alias groups of a map of name lists, by view.
pub open spec fn alias_view(m: Map<u64, Vec<String>>) -> Map<u64, Seq<Seq<char>>> {
    m.map_values(|v: Vec<String>| names_view(v@))
}

/// The lists of a map of vectors, by view.
pub open spec fn lists_view<K>(m: Map<K, Vec<usize>>) -> Map<K, Seq<usize>> {
    m.map_values(|v: Vec<usize>| v@)
}

fn copy_positions(v: &Vec<usize>) -> (r: Vec<usize>)
    ensures
        r@ == v@,
{
    let mut r: Vec<usize> = Vec::new();
    let mut i: usize = 0;
    while i < v.len()
        invariant
            i <= v@.len(),
            r@ == v@.take(i as int),
        decreases v@.len() - i,
    {
        r.push(v[i]);
        assert(v@.take(i + 1) =~= v@.take(i as int).push(v@[i as int]));
        i = i + 1;
    }
    assert(v@.take(v@.len() as int) =~= v@);
    r
}

fn copy_names(v: &Vec<String>) -> (r: Vec<String>)
    ensures
        names_view(r@) == names_view(v@),
{
    let mut r: Vec<String> = Vec::new();
    let mut i: usize = 0;
    while i < v.len()
        invariant
            i <= v@.len(),
            r@.len() == i,
            names_view(r@) == names_view(v@.take(i as int)),
        decreases v@.len() - i,
    {
        let c = v[i].clone();
        assert(c@ == v@[i as int]@);
        let ghost before = r@;
        r.push(c);
        assert(v@.take(i + 1) =~= v@.take(i as int).push(v@[i as int]));
        assert forall|j: int| 0 <= j < i + 1 implies r@[j]@ == v@.take(i + 1)[j]@ by {
            if j < i {
                assert(r@[j] == before[j]);
                assert(v@.take(i + 1)[j] == v@.take(i as int)[j]);
                assert(names_view(before)[j] == before[j]@);
                assert(names_view(v@.take(i as int))[j] == v@.take(i as int)[j]@);
                assert(names_view(before)[j] == names_view(v@.take(i as int))[j]);
            } else {
                assert(r@[j] == c);
                assert(v@.take(i + 1)[j] == v@[i as int]);
            }
        }
        assert(names_view(r@) =~= names_view(v@.take(i + 1)));
        i = i + 1;
    }
    assert(v@.take(v@.len() as int) =~= v@);
    r
}

fn contains_position(v: &Vec<usize>, x: usize) -> (r: bool)
    ensures
        r == v@.contains(x),
{
    let mut i: usize = 0;
    while i < v.len()
        invariant
            i <= v@.len(),
            forall|j: int| 0 <= j < i ==> v@[j] != x,
        decreases v@.len() - i,
    {
        if v[i] == x {
            return true;
        }
        i = i + 1;
    }
    false
}

/// Appends to `a` the elements of `b` it lacks, in order.
fn append_missing_into(a: &mut Vec<usize>, b: &Vec<usize>)
    ensures
        final(a)@ == append_missing(old(a)@, b@),
{
    let ghost a0 = a@;
    let mut i: usize = 0;
    assert(b@.take(0) =~= Seq::<usize>::empty());
    while i < b.len()
        invariant
            i <= b@.len(),
            a@ == append_missing(a0, b@.take(i as int)),
        decreases b@.len() - i,
    {
        let x = b[i];
        assert(b@.take(i + 1).drop_last() =~= b@.take(i as int));
        if !contains_position(a, x) {
            a.push(x);
        }
        i = i + 1;
    }
    assert(b@.take(b@.len() as int) =~= b@);
}

fn lower_string(s: &String) -> (r: String)
    ensures
        r@ == ascii_lowercase(s@),
{
    let v = chars_of(s.as_str());
    assert(v@.subrange(0, v@.len() as int) =~= v@);
    lowercase_string(&v, 0, v.len())
}

fn same_ignoring_case(a: &String, b: &String) -> (r: bool)
    ensures
        r == (ascii_lowercase(a@) == ascii_lowercase(b@)),
{
    let la = chars_of(lower_string(a).as_str());
    let lb = chars_of(lower_string(b).as_str());
    if la.len() != lb.len() {
        return false;
    }
    let r = ranges_equal(&la, 0, &lb, 0, la.len());
    assert(la@.subrange(0, la@.len() as int) =~= la@);
    assert(lb@.subrange(0, lb@.len() as int) =~= lb@);
    r
}

impl PlanetIndex {
    /// Index a record list by lower-cased host name and by Gaia source ID,
    /// then merge the host names that share a Gaia source ID into alias
    /// groups.
    fn index_rows(hosts: &Vec<PlanetHost>) -> (r: (PlanetIndex, HashMap<u64, Vec<String>>, Vec<u64>))
        ensures
            lists_view(r.0.by_host@) == host_lists(host_rows(hosts@)),
            lists_view(r.0.by_gaia@) == gaia_lists(host_rows(hosts@)),
            alias_view(r.1@) == alias_groups(host_rows(hosts@)),
            r.2@ == gaia_order(host_rows(hosts@)),
            forall|g: u64| #[trigger] r.2@.contains(g) <==> r.1@.contains_key(g),
    {
        let ghost rows = host_rows(hosts@);
        let mut by_host: StringHashMap<Vec<usize>> = StringHashMap::new();
        let mut by_gaia: HashMap<u64, Vec<usize>> = HashMap::new();
        let mut aliases: HashMap<u64, Vec<String>> = HashMap::new();
        let mut order: Vec<u64> = Vec::new();
        let mut i: usize = 0;
        proof {
            assert(rows.take(0) =~= Seq::<(Seq<char>, Option<u64>)>::empty());
            assert(lists_view(by_host@) =~= host_lists(rows.take(0)));
            assert(lists_view(by_gaia@) =~= gaia_lists(rows.take(0)));
            assert(alias_view(aliases@)
                =~= alias_groups(rows.take(0)));
        }
        while i < hosts.len()
            invariant
                rows == host_rows(hosts@),
                i <= hosts@.len(),
                lists_view(by_host@) == host_lists(rows.take(i as int)),
                lists_view(by_gaia@) == gaia_lists(rows.take(i as int)),
                alias_view(aliases@)
                    == alias_groups(rows.take(i as int)),
                order@ == gaia_order(rows.take(i as int)),
                forall|g: u64| #[trigger] order@.contains(g) <==> aliases@.contains_key(g),
            decreases hosts@.len() - i,
        {
            let row = &hosts[i];
            let ghost pre = rows.take(i as int);
            let ghost cur = rows.take(i + 1);
            proof {
                assert(cur.drop_last() =~= pre);
                assert(cur.last() == (row.host_name@, row.gaia_id));
            }
            let key = lower_string(&row.host_name);
            let mut list = match by_host.get(key.as_str()) {
                Some(v) => copy_positions(v),
                None => Vec::new(),
            };
            list.push(i);
            by_host.insert(key, list);
            proof {
                assert(lists_view(by_host@) =~= host_lists(cur));
            }
            match row.gaia_id {
                Some(g) => {
                    let mut glist = match by_gaia.get(&g) {
                        Some(v) => copy_positions(v),
                        None => Vec::new(),
                    };
                    glist.push(i);
                    by_gaia.insert(g, glist);
                    proof {
                        assert(lists_view(by_gaia@) =~= gaia_lists(cur));
                    }
                    let known = aliases.contains_key(&g);
                    let ghost am = alias_view(aliases@);
                    let ghost old_order = order@;
                    let ghost old_aliases = aliases@;
                    let mut names = match aliases.get(&g) {
                        Some(v) => copy_names(v),
                        None => Vec::new(),
                    };
                    let ghost ns = names_view(names@);
                    proof {
                        if known {
                            assert(am.contains_key(g));
                            assert(ns == am[g]);
                        } else {
                            assert(!am.contains_key(g));
                            assert(ns =~= Seq::<Seq<char>>::empty());
                        }
                    }
                    let mut seen = false;
                    let mut j: usize = 0;
                    while j < names.len()
                        invariant
                            j <= names@.len(),
                            ns == names_view(names@),
                            seen == exists|q: int|
                                0 <= q < j && ascii_lowercase(#[trigger] ns[q]) == ascii_lowercase(
                                    row.host_name@,
                                ),
                        decreases names@.len() - j,
                    {
                        if same_ignoring_case(&names[j], &row.host_name) {
                            seen = true;
                        }
                        proof {
                            assert(ns[j as int] == names@[j as int]@);
                        }
                        j = j + 1;
                    }
                    proof {
                        assert(ns.len() == names@.len());
                        assert(names_at(alias_groups(pre), g) == ns);
                    }
                    if !seen {
                        let c = row.host_name.clone();
                        names.push(c);
                        proof {
assert(names_view(names@) =~= ns.push(row.host_name@));
                        }
                    }
                    let ghost final_ns = names_view(names@);
                    aliases.insert(g, names);
                    proof {
                        assert(aliases@ == old_aliases.insert(g, names));
                        assert(alias_view(aliases@)
                            =~= am.insert(g, final_ns));
                        assert(seen == has_name(ns, cur.last().0));
                        assert(alias_view(aliases@)
                            =~= alias_groups(cur));
                    }
                    if !known {
                        order.push(g);
                    }
                    proof {
                        assert(order@ =~= gaia_order(cur));
                        assert forall|h: u64| #[trigger] order@.contains(h) <==> aliases@.contains_key(h) by {
                            if h == g {
                                if known {
                                    assert(old_order.contains(g));
                                } else {
                                    assert(order@[order@.len() - 1] == g);
                                }
                            } else {
                                if order@.contains(h) {
                                    let x = choose|x: int| 0 <= x < order@.len() && order@[x] == h;
                                    assert(old_order[x] == h);
                                }
                                if old_order.contains(h) {
                                    let x = choose|x: int| 0 <= x < old_order.len() && old_order[x] == h;
                                    assert(order@[x] == h);
                                }
                            }
                        }
                    }
                },
                None => {
                    proof {
                        assert(lists_view(by_gaia@) =~= gaia_lists(cur));
                    }
                },
            }
            i = i + 1;
        }
        proof {
            assert(rows.take(rows.len() as int) =~= rows);
        }
        (PlanetIndex { by_host, by_gaia }, aliases, order)
    }

    /// Index a record list by lower-cased host name and by Gaia source ID,
    /// without alias groups (how a catalog restored from its serialized
    /// records is indexed).
    pub fn unmerged(hosts: &Vec<PlanetHost>) -> (r: PlanetIndex)
        ensures
            lists_view(r.by_host@) == host_lists(host_rows(hosts@)),
            lists_view(r.by_gaia@) == gaia_lists(host_rows(hosts@)),
    {
        let (index, _, _) = PlanetIndex::index_rows(hosts);
        index
    }

    /// Index a record list by lower-cased host name and by Gaia source ID,
    /// then merge the host names that share a Gaia source ID into alias
    /// groups.
    pub fn build(hosts: &Vec<PlanetHost>) -> (r: PlanetIndex)
        ensures
            lists_view(r.by_host@) == host_index(host_rows(hosts@)),
            lists_view(r.by_gaia@) == gaia_lists(host_rows(hosts@)),
    {
        let ghost rows = host_rows(hosts@);
        let (index, aliases, order) = PlanetIndex::index_rows(hosts);
        let PlanetIndex { mut by_host, by_gaia } = index;
        let ghost base = lists_view(by_host@);
        let ghost groups = alias_groups(rows);
        let mut p: usize = 0;
        assert(order@.take(0) =~= Seq::<u64>::empty());
        while p < order.len()
            invariant
                p <= order@.len(),
                order@ == gaia_order(rows),
                groups == alias_groups(rows),
                forall|g: u64| #[trigger] order@.contains(g) <==> aliases@.contains_key(g),
                alias_view(aliases@) == groups,
                lists_view(by_host@) == merge_groups(base, order@.take(p as int), groups),
            decreases order@.len() - p,
        {
            let g = order[p];
            proof {
                assert(order@.take(p + 1).drop_last() =~= order@.take(p as int));
                assert(order@.contains(g));
            }
            let names = match aliases.get(&g) {
                Some(v) => copy_names(v),
                None => Vec::new(),
            };
            let ghost ns = names_view(names@);
            proof {
                assert(ns == groups[g]);
            }
            if names.len() >= 2 {
                let ghost m0 = lists_view(by_host@);
                let mut union: Vec<usize> = Vec::new();
                let mut q: usize = 0;
                assert(ns.take(0) =~= Seq::<Seq<char>>::empty());
                while q < names.len()
                    invariant
                        q <= names@.len(),
                        ns == names_view(names@),
                        m0 == lists_view(by_host@),
                        union@ == group_union(m0, ns.take(q as int)),
                    decreases names@.len() - q,
                {
                    let key = lower_string(&names[q]);
                    proof {
                        assert(ns.take(q + 1).drop_last() =~= ns.take(q as int));
                        assert(ns.take(q + 1).last() == names@[q as int]@);
                    }
                    match by_host.get(key.as_str()) {
                        Some(v) => {
                            append_missing_into(&mut union, v);
                        },
                        None => {
                            assert(append_missing(union@, Seq::<usize>::empty()) == union@);
                        },
                    }
                    q = q + 1;
                }
                assert(ns.take(ns.len() as int) =~= ns);
                let ghost u = union@;
                let mut q: usize = 0;
                while q < names.len()
                    invariant
                        q <= names@.len(),
                        ns == names_view(names@),
                        u == union@,
                        lists_view(by_host@) == spread_union(m0, ns.take(q as int), u),
                    decreases names@.len() - q,
                {
                    let key = lower_string(&names[q]);
                    proof {
                        assert(ns.take(q + 1).drop_last() =~= ns.take(q as int));
                        assert(ns.take(q + 1).last() == names@[q as int]@);
                    }
                    let mut entry = match by_host.get(key.as_str()) {
                        Some(v) => copy_positions(v),
                        None => Vec::new(),
                    };
                    append_missing_into(&mut entry, &union);
                    by_host.insert(key, entry);
                    proof {
                        assert(lists_view(by_host@) =~= spread_union(m0, ns.take(q + 1), u));
                    }
                    q = q + 1;
                }
                assert(ns.take(ns.len() as int) =~= ns);
            }
            p = p + 1;
        }
        assert(order@.take(order@.len() as int) =~= order@);
        PlanetIndex { by_host, by_gaia }
    }
}


impl PlanetIndex {
    /// Positions of the records of a host (or of one of its aliases): the
    /// query is trimmed and compared without ASCII case; empty when no host
    /// matches.
    pub fn host_positions(&self, query: &str) -> (r: Vec<usize>)
        ensures
            r@ == list_at(lists_view(self.by_host@), lookup_key_of(query@)),
    {
        let key = lookup_key(query);
        match self.by_host.get(key.as_str()) {
            Some(v) => copy_positions(v),
            None => Vec::new(),
        }
    }

    /// Positions of the records with a Gaia source ID; empty when none has
    /// it.
    pub fn gaia_positions(&self, gaia_id: u64) -> (r: Vec<usize>)
        ensures
            r@ == list_at(lists_view(self.by_gaia@), gaia_id),
    {
        match self.by_gaia.get(&gaia_id) {
            Some(v) => copy_positions(v),
            None => Vec::new(),
        }
    }
}

/// The positions form one ascending run starting at the first.
pub open spec fn contiguous_run(idxs: Seq<usize>) -> bool {
    forall|i: int| 0 <= i < idxs.len() ==> #[trigger] idxs[i] == idxs[0] + i
}

/// The record range handed out for a lookup's positions: the whole run
/// when the positions form one ascending run, and nothing otherwise (no
/// positions, or an aliased lookup spread over separate runs, whose records
/// stay reachable position by position).
pub fn record_range(idxs: &Vec<usize>) -> (r: Option<(usize, usize)>)
    requires
        idxs@.len() > 0 ==> idxs@[0] + idxs@.len() <= usize::MAX,
    ensures
        r == (if idxs@.len() > 0 && contiguous_run(idxs@) {
            Some((idxs@[0], (idxs@[0] + idxs@.len()) as usize))
        } else {
            None
        }),
{
    if idxs.len() == 0 {
        return None;
    }
    let first = idxs[0];
    let mut i: usize = 0;
    let mut run = true;
    while i < idxs.len()
        invariant
            idxs@.len() > 0,
            first == idxs@[0],
            first + idxs@.len() <= usize::MAX,
            i <= idxs@.len(),
            run == forall|j: int| 0 <= j < i ==> #[trigger] idxs@[j] == idxs@[0] + j,
        decreases idxs@.len() - i,
    {
        if idxs[i] != first + i {
            run = false;
        }
        i = i + 1;
    }
    if run {
        Some((first, first + idxs.len()))
    } else {
        None
    }
}

// ---------------------------------------------------------------------------
// Laws of the index
// ---------------------------------------------------------------------------

/// Position `x` is listed under key `k`.
pub open spec fn listed<K>(m: Map<K, Seq<usize>>, k: K, x: usize) -> bool {
    m.contains_key(k) && m[k].contains(x)
}

/// Every position listed in `m` is still listed under the same key in `m2`.
pub open spec fn grows(m: Map<Seq<char>, Seq<usize>>, m2: Map<Seq<char>, Seq<usize>>) -> bool {
    forall|k: Seq<char>, x: usize| #[trigger] listed(m, k, x) ==> #[trigger] listed(m2, k, x)
}

proof fn lemma_append_missing(a: Seq<usize>, b: Seq<usize>)
    ensures
        forall|x: usize| a.contains(x) ==> #[trigger] append_missing(a, b).contains(x),
        forall|x: usize| b.contains(x) ==> #[trigger] append_missing(a, b).contains(x),
    decreases b.len(),
{
    if b.len() > 0 {
        let r = append_missing(a, b.drop_last());
        lemma_append_missing(a, b.drop_last());
        let f = append_missing(a, b);
        assert forall|x: usize| r.contains(x) implies f.contains(x) by {
            if !r.contains(b.last()) {
                let j = choose|j: int| 0 <= j < r.len() && r[j] == x;
                assert(f[j] == x);
            }
        }
        assert forall|x: usize| b.contains(x) implies f.contains(x) by {
            let j = choose|j: int| 0 <= j < b.len() && b[j] == x;
            if j < b.len() - 1 {
                assert(b.drop_last()[j] == x);
                assert(r.contains(x));
            } else if !r.contains(b.last()) {
                assert(f[r.len() as int] == x);
            }
        }
    }
}

proof fn lemma_group_union_covers(m: Map<Seq<char>, Seq<usize>>, names: Seq<Seq<char>>, q: int)
    requires
        0 <= q < names.len(),
    ensures
        forall|x: usize|
            #[trigger] list_at(m, ascii_lowercase(names[q])).contains(x) ==> group_union(m, names).contains(
                x,
            ),
    decreases names.len(),
{
    let init = names.drop_last();
    lemma_append_missing(group_union(m, init), list_at(m, ascii_lowercase(names.last())));
    if q < names.len() - 1 {
        lemma_group_union_covers(m, init, q);
        assert(init[q] == names[q]);
    }
}

proof fn lemma_spread_union(m: Map<Seq<char>, Seq<usize>>, names: Seq<Seq<char>>, u: Seq<usize>)
    ensures
        grows(m, spread_union(m, names, u)),
        forall|q: int, x: usize|
            0 <= q < names.len() && u.contains(x) ==> #[trigger] listed(
                spread_union(m, names, u),
                ascii_lowercase(names[q]),
                x,
            ),
    decreases names.len(),
{
    if names.len() > 0 {
        let init = names.drop_last();
        let m2 = spread_union(m, init, u);
        lemma_spread_union(m, init, u);
        let k = ascii_lowercase(names.last());
        lemma_append_missing(list_at(m2, k), u);
        let m3 = spread_union(m, names, u);
        assert forall|kk: Seq<char>, x: usize| #[trigger] listed(m2, kk, x) implies listed(m3, kk, x) by {
            if kk == k {
                assert(list_at(m2, k).contains(x));
            }
        }
        assert forall|kk: Seq<char>, x: usize| #[trigger] listed(m, kk, x) implies listed(m3, kk, x) by {
            assert(listed(m2, kk, x));
        }
        assert forall|q: int, x: usize|
            0 <= q < names.len() && u.contains(x) implies #[trigger] listed(
            m3,
            ascii_lowercase(names[q]),
            x,
        ) by {
            if q < names.len() - 1 {
                assert(init[q] == names[q]);
                assert(listed(m2, ascii_lowercase(init[q]), x));
            }
        }
    }
}

proof fn lemma_merge_groups_grows(
    m: Map<Seq<char>, Seq<usize>>,
    order: Seq<u64>,
    groups: Map<u64, Seq<Seq<char>>>,
)
    ensures
        grows(m, merge_groups(m, order, groups)),
    decreases order.len(),
{
    if order.len() > 0 {
        let m2 = merge_groups(m, order.drop_last(), groups);
        lemma_merge_groups_grows(m, order.drop_last(), groups);
        let names = groups[order.last()];
        if names.len() >= 2 {
            lemma_spread_union(m2, names, group_union(m2, names));
        }
        let m3 = merge_groups(m, order, groups);
        assert forall|k: Seq<char>, x: usize| #[trigger] listed(m, k, x) implies listed(m3, k, x) by {
            assert(listed(m2, k, x));
        }
    }
}

proof fn lemma_merge_groups_split(
    m: Map<Seq<char>, Seq<usize>>,
    order: Seq<u64>,
    groups: Map<u64, Seq<Seq<char>>>,
    p: int,
)
    requires
        0 <= p <= order.len(),
    ensures
        merge_groups(m, order, groups) == merge_groups(
            merge_groups(m, order.take(p), groups),
            order.skip(p),
            groups,
        ),
    decreases order.len(),
{
    if p == order.len() {
        assert(order.take(p) =~= order);
        assert(order.skip(p) =~= Seq::<u64>::empty());
    } else {
        lemma_merge_groups_split(m, order.drop_last(), groups, p);
        assert(order.drop_last().take(p) =~= order.take(p));
        assert(order.skip(p).drop_last() =~= order.drop_last().skip(p));
        assert(order.skip(p).last() == order.last());
    }
}

proof fn lemma_host_lists(rows: Seq<(Seq<char>, Option<u64>)>, i: int)
    requires
        0 <= i < rows.len(),
        rows.len() <= usize::MAX,
    ensures
        listed(host_lists(rows), ascii_lowercase(rows[i].0), i as usize),
    decreases rows.len(),
{
    let init = rows.drop_last();
    let m = host_lists(init);
    let k = ascii_lowercase(rows.last().0);
    if i == rows.len() - 1 {
        assert(list_at(m, k).push(i as usize).last() == i as usize);
    } else {
        lemma_host_lists(init, i);
        assert(init[i] == rows[i]);
        let ki = ascii_lowercase(rows[i].0);
        if ki == k {
            let j = choose|j: int| 0 <= j < m[ki].len() && m[ki][j] == i as usize;
            assert(list_at(m, k).push((rows.len() - 1) as usize)[j] == i as usize);
        }
    }
}

proof fn lemma_gaia_lists(rows: Seq<(Seq<char>, Option<u64>)>, g: u64, x: usize)
    requires
        rows.len() <= usize::MAX,
    ensures
        listed(gaia_lists(rows), g, x) <==> (x < rows.len() && rows[x as int].1 == Some(g)),
    decreases rows.len(),
{
    if rows.len() > 0 {
        let init = rows.drop_last();
        lemma_gaia_lists(init, g, x);
        let m = gaia_lists(init);
        let n1 = (rows.len() - 1) as usize;
        if x < init.len() {
            assert(init[x as int] == rows[x as int]);
        }
        if let Some(h) = rows.last().1 {
            if h == g {
                let l = list_at(m, g).push(n1);
                if listed(gaia_lists(rows), g, x) && x != n1 {
                    let j = choose|j: int| 0 <= j < l.len() && l[j] == x;
                    assert(j < l.len() - 1);
                    assert(list_at(m, g)[j] == x);
                }
                if x < rows.len() && rows[x as int].1 == Some(g) {
                    if x == n1 {
                        assert(l[l.len() - 1] == x);
                    } else {
                        let j = choose|j: int| 0 <= j < m[g].len() && m[g][j] == x;
                        assert(l[j] == x);
                    }
                }
            }
        }
    }
}

proof fn lemma_alias_groups(rows: Seq<(Seq<char>, Option<u64>)>, i: int, g: u64)
    requires
        0 <= i < rows.len(),
        rows[i].1 == Some(g),
    ensures
        alias_groups(rows).contains_key(g),
        has_name(alias_groups(rows)[g], rows[i].0),
        gaia_order(rows).contains(g),
    decreases rows.len(),
{
    let init = rows.drop_last();
    let m = alias_groups(init);
    let o = gaia_order(init);
    if i < rows.len() - 1 {
        assert(init[i] == rows[i]);
        lemma_alias_groups(init, i, g);
        let ns = m[g];
        let j = choose|j: int| 0 <= j < ns.len() && ascii_lowercase(#[trigger] ns[j]) == ascii_lowercase(rows[i].0);
        if let Some(h) = rows.last().1 {
            if h == g {
                let ns2 = if has_name(names_at(m, g), rows.last().0) {
                    names_at(m, g)
                } else {
                    names_at(m, g).push(rows.last().0)
                };
                assert(ns2[j] == ns[j]);
            }
            let oj = choose|oj: int| 0 <= oj < o.len() && o[oj] == g;
            assert(gaia_order(rows)[oj] == g);
        }
    } else {
        let ns = names_at(m, g);
        if !has_name(ns, rows.last().0) {
            assert(ns.push(rows.last().0)[ns.len() as int] == rows[i].0);
        }
        if !o.contains(g) {
            assert(o.push(g)[o.len() as int] == g);
        }
    }
}

/// Every record can be found under its own host name, both in a loaded
/// catalog's index and in the index of a catalog restored from its records.
pub proof fn law_records_found_by_host(hosts: Seq<PlanetHost>, i: int)
    requires
        0 <= i < hosts.len(),
        hosts.len() <= usize::MAX,
    ensures
        listed(host_index(host_rows(hosts)), ascii_lowercase(hosts[i].host_name@), i as usize),
        listed(host_lists(host_rows(hosts)), ascii_lowercase(hosts[i].host_name@), i as usize),
{
    let rows = host_rows(hosts);
    lemma_host_lists(rows, i);
    lemma_merge_groups_grows(host_lists(rows), gaia_order(rows), alias_groups(rows));
}

/// The Gaia index lists exactly the records with that source ID.
pub proof fn law_gaia_index_exact(hosts: Seq<PlanetHost>, g: u64, x: usize)
    requires
        hosts.len() <= usize::MAX,
    ensures
        listed(gaia_lists(host_rows(hosts)), g, x) <==> (x < hosts.len() && hosts[x as int].gaia_id
            == Some(g)),
{
    lemma_gaia_lists(host_rows(hosts), g, x);
}

/// Host names that co-appear with one Gaia source ID point at the same
/// system: looking up either finds the records of both.
pub proof fn law_aliases_share_records(hosts: Seq<PlanetHost>, i: int, j: int, g: u64)
    requires
        0 <= i < hosts.len(),
        0 <= j < hosts.len(),
        hosts.len() <= usize::MAX,
        hosts[i].gaia_id == Some(g),
        hosts[j].gaia_id == Some(g),
    ensures
        listed(host_index(host_rows(hosts)), ascii_lowercase(hosts[i].host_name@), j as usize),
{
    let rows = host_rows(hosts);
    let base = host_lists(rows);
    let order = gaia_order(rows);
    let groups = alias_groups(rows);
    let ki = ascii_lowercase(rows[i].0);
    let kj = ascii_lowercase(rows[j].0);
    lemma_host_lists(rows, j);
    lemma_merge_groups_grows(base, order, groups);
    if ki != kj {
        lemma_alias_groups(rows, i, g);
        lemma_alias_groups(rows, j, g);
        let names = groups[g];
        let qi = choose|q: int| 0 <= q < names.len() && ascii_lowercase(#[trigger] names[q]) == ki;
        let qj = choose|q: int| 0 <= q < names.len() && ascii_lowercase(#[trigger] names[q]) == kj;
        assert(qi != qj);
        assert(names.len() >= 2);
        let p = choose|p: int| 0 <= p < order.len() && order[p] == g;
        let before = merge_groups(base, order.take(p), groups);
        lemma_merge_groups_grows(base, order.take(p), groups);
        assert(listed(before, kj, j as usize));
        let u = group_union(before, names);
        lemma_group_union_covers(before, names, qj);
        assert(list_at(before, kj).contains(j as usize));
        assert(u.contains(j as usize));
        lemma_spread_union(before, names, u);
        let after = merge_groups(base, order.take(p + 1), groups);
        assert(order.take(p + 1).drop_last() =~= order.take(p));
        assert(after == merge_group(before, names));
        assert(listed(after, ki, j as usize));
        lemma_merge_groups_split(base, order, groups, p + 1);
        lemma_merge_groups_grows(after, order.skip(p + 1), groups);
    }
}

} // verus!
