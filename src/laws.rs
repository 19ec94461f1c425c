//! Laws of path resolution, stated over the specifications and proved.

use vstd::prelude::*;
use crate::definitions::builtin_mapping;
use crate::groups::TypeGroups;
use crate::resolver::{
    best_candidate, candidate_le, clean_names, common_type, could_be_stdlib, drop_leading_sep,
    exact, lemma_candidate_order, normalize, normalize_pattern, progressive_from, resolve_path, table_after,
    std_rooted, stdlib_module, suffix_candidate,
};
use crate::syntax::unraw_segment;
use crate::text::{has_prefix, join, sep, split_pieces, split_scan};
use crate::utils::{raw_marked, unraw};

verus! {

/// Resolution is a function of the custom mappings, the groups and the
/// path's segments: equal inputs give equal results, call after call.
pub proof fn lemma_resolve_deterministic(
    m1: Map<Seq<char>, Seq<char>>,
    g1: TypeGroups,
    path_a: Seq<(Seq<char>, bool)>,
    m2: Map<Seq<char>, Seq<char>>,
    g2: TypeGroups,
    path_b: Seq<(Seq<char>, bool)>,
)
    requires
        m1 == m2,
        g1 == g2,
        path_a == path_b,
    ensures
        resolve_path(m1, g1, path_a) == resolve_path(m2, g2, path_b),
{
}

proof fn lemma_join_cons(x: Seq<char>, rest: Seq<Seq<char>>)
    requires
        rest.len() >= 1,
    ensures
        join(seq![x] + rest) == x + sep() + join(rest),
    decreases rest.len(),
{
    let all = seq![x] + rest;
    if rest.len() == 1 {
        assert(all.drop_last() =~= seq![x]);
        assert(join(seq![x]) == x);
        assert(all.last() == rest[0]);
        assert(join(rest) == rest[0]);
        assert(join(all) == join(all.drop_last()) + sep() + all.last());
    } else {
        assert(all.last() == rest.last());
        assert(join(rest) == join(rest.drop_last()) + sep() + rest.last());
        assert(all.drop_last() =~= seq![x] + rest.drop_last());
        lemma_join_cons(x, rest.drop_last());
        assert(join(all) =~= x + sep() + (join(rest.drop_last()) + sep() + rest.last()));
    }
}

proof fn lemma_split_scan_nonempty(s: Seq<char>, start: int, i: int)
    ensures
        split_scan(s, start, i).len() >= 1,
    decreases s.len() - i,
{
    if i < 0 || i >= s.len() {
    } else if i + 2 <= s.len() && s[i] == ':' && s[i + 1] == ':' {
        lemma_split_scan_nonempty(s, i + 2, i + 2);
    } else {
        lemma_split_scan_nonempty(s, start, i + 1);
    }
}

proof fn lemma_join_split_scan(s: Seq<char>, start: int, i: int)
    requires
        0 <= start <= i <= s.len(),
    ensures
        join(split_scan(s, start, i)) == s.subrange(start, s.len() as int),
    decreases s.len() - i,
{
    if i >= s.len() {
    } else if i + 2 <= s.len() && s[i] == ':' && s[i + 1] == ':' {
        lemma_split_scan_nonempty(s, i + 2, i + 2);
        lemma_join_split_scan(s, i + 2, i + 2);
        lemma_join_cons(s.subrange(start, i), split_scan(s, i + 2, i + 2));
        assert(s.subrange(start, i) + sep() + s.subrange(i + 2, s.len() as int) =~= s.subrange(
            start,
            s.len() as int,
        ));
    } else {
        lemma_join_split_scan(s, start, i + 1);
    }
}

/// Joining the pieces of a split gives the text back.
pub proof fn lemma_join_split(s: Seq<char>)
    ensures
        join(split_pieces(s)) == s,
{
    lemma_join_split_scan(s, 0, 0);
    assert(s.subrange(0, s.len() as int) =~= s);
}

/// Normalizing a key already in normal form (no leading `::`, no piece
/// written as a raw identifier) returns it unchanged.
pub proof fn lemma_normalize_pattern_idempotent(s: Seq<char>)
    requires
        !has_prefix(s, sep()),
        forall|i: int| 0 <= i < split_pieces(s).len() ==> !raw_marked(#[trigger] split_pieces(s)[i]),
    ensures
        normalize_pattern(s) == s,
{
    assert(drop_leading_sep(s) == s);
    assert(split_pieces(s).map_values(|p: Seq<char>| unraw(p)) =~= split_pieces(s));
    lemma_join_split(s);
}

/// A piece that reads as an identifier: non-empty, with no `:` and no `#`.
pub open spec fn ident_like(t: Seq<char>) -> bool {
    t.len() > 0 && forall|i: int| 0 <= i < t.len() ==> #[trigger] t[i] != ':' && t[i] != '#'
}

/// A path pattern as written: an optional leading `::`, then `::`-separated
/// identifiers, each optionally marked once with `r#`.
pub open spec fn well_formed_pattern(s: Seq<char>) -> bool {
    forall|i: int|
        0 <= i < split_pieces(drop_leading_sep(s)).len() ==> ident_like(
            unraw(#[trigger] split_pieces(drop_leading_sep(s))[i]),
        )
}

proof fn lemma_scan_to_end(s: Seq<char>, start: int, i: int)
    requires
        0 <= start <= i <= s.len(),
        forall|m: int| i <= m < s.len() ==> s[m] != ':',
    ensures
        split_scan(s, start, i) == seq![s.subrange(start, s.len() as int)],
    decreases s.len() - i,
{
    if i < s.len() {
        lemma_scan_to_end(s, start, i + 1);
    }
}

proof fn lemma_scan_skip(s: Seq<char>, start: int, i: int, j: int)
    requires
        0 <= start <= i <= j < s.len(),
        forall|m: int| i <= m < j ==> s[m] != ':',
    ensures
        split_scan(s, start, i) == split_scan(s, start, j),
    decreases j - i,
{
    if i < j {
        lemma_scan_skip(s, start, i + 1, j);
    }
}

proof fn lemma_scan_shift(s: Seq<char>, a: int, start: int, i: int)
    requires
        0 <= a <= start <= i <= s.len(),
    ensures
        split_scan(s, start, i) == split_scan(s.subrange(a, s.len() as int), start - a, i - a),
    decreases s.len() - i,
{
    let t = s.subrange(a, s.len() as int);
    if i >= s.len() {
        assert(t.subrange(start - a, t.len() as int) =~= s.subrange(start, s.len() as int));
    } else if i + 2 <= s.len() && s[i] == ':' && s[i + 1] == ':' {
        assert(t[i - a] == s[i] && t[i - a + 1] == s[i + 1]);
        lemma_scan_shift(s, a, i + 2, i + 2);
        assert(t.subrange(start - a, i - a) =~= s.subrange(start, i));
    } else {
        assert(t[i - a] == s[i]);
        if i + 1 < s.len() {
            assert(t[i - a + 1] == s[i + 1]);
        }
        lemma_scan_shift(s, a, start, i + 1);
    }
}

/// Splitting a join of identifier-like pieces gives the pieces back.
proof fn lemma_split_join(ts: Seq<Seq<char>>)
    requires
        ts.len() >= 1,
        forall|i: int| 0 <= i < ts.len() ==> ident_like(#[trigger] ts[i]),
    ensures
        split_pieces(join(ts)) == ts,
        join(ts).len() > 0 && join(ts)[0] == ts[0][0],
    decreases ts.len(),
{
    let t0 = ts[0];
    assert(ident_like(t0));
    if ts.len() == 1 {
        assert(join(ts) == t0);
        lemma_scan_to_end(t0, 0, 0);
        assert(t0.subrange(0, t0.len() as int) =~= t0);
        assert(ts =~= seq![t0]);
    } else {
        let rest = ts.drop_first();
        assert(ts =~= seq![t0] + rest);
        assert forall|i: int| 0 <= i < rest.len() implies ident_like(#[trigger] rest[i]) by {
            assert(rest[i] == ts[i + 1]);
        }
        lemma_split_join(rest);
        lemma_join_cons(t0, rest);
        let s = join(ts);
        let n = t0.len() as int;
        assert(s == t0 + sep() + join(rest));
        assert(s[n] == ':' && s[n + 1] == ':');
        assert forall|m: int| 0 <= m < n implies s[m] != ':' by {
            assert(s[m] == t0[m]);
        }
        lemma_scan_skip(s, 0, 0, n);
        lemma_scan_shift(s, n + 2, n + 2, n + 2);
        assert(s.subrange(n + 2, s.len() as int) =~= join(rest));
        assert(s.subrange(0, n) =~= t0);
        assert(split_pieces(s) =~= seq![t0] + split_pieces(join(rest)));
        assert(s[0] == t0[0]);
    }
}

/// Normalizing a well-formed pattern yields a key in normal form: no leading
/// `::`, no piece marked raw; normalizing that key again returns it unchanged.
pub proof fn lemma_normalize_well_formed(s: Seq<char>)
    requires
        well_formed_pattern(s),
    ensures
        !has_prefix(normalize_pattern(s), sep()),
        forall|i: int|
            0 <= i < split_pieces(normalize_pattern(s)).len() ==> !raw_marked(
                #[trigger] split_pieces(normalize_pattern(s))[i],
            ),
        normalize_pattern(normalize_pattern(s)) == normalize_pattern(s),
{
    let pieces = split_pieces(drop_leading_sep(s));
    lemma_split_scan_nonempty(drop_leading_sep(s), 0, 0);
    let ts = pieces.map_values(|p: Seq<char>| unraw(p));
    assert forall|i: int| 0 <= i < ts.len() implies ident_like(#[trigger] ts[i]) by {
        assert(ts[i] == unraw(pieces[i]));
    }
    lemma_split_join(ts);
    let k = normalize_pattern(s);
    assert(k == join(ts));
    assert(ident_like(ts[0]));
    assert(k[0] != ':');
    if has_prefix(k, sep()) {
        assert(k.subrange(0, 2)[0] == k[0]);
    }
    assert forall|i: int| 0 <= i < split_pieces(k).len() implies !raw_marked(
        #[trigger] split_pieces(k)[i],
    ) by {
        let t = split_pieces(k)[i];
        assert(t == ts[i]);
        assert(ident_like(ts[i]));
        if raw_marked(t) {
            assert(t.subrange(0, 2)[1] == t[1]);
        }
    }
    lemma_normalize_pattern_idempotent(k);
}

/// Resolving a path gives the same result as resolving the same path with
/// its raw markers stripped; the leading `::` plays no part either, as the
/// resolution reads the segments alone. The names are identifiers: once
/// unmarked, none carries a second marker.
pub proof fn lemma_resolve_ignores_raw_markers(
    m: Map<Seq<char>, Seq<char>>,
    g: TypeGroups,
    segs: Seq<(Seq<char>, bool)>,
)
    requires
        forall|i: int| 0 <= i < segs.len() ==> !raw_marked(unraw(#[trigger] segs[i].0)),
    ensures
        resolve_path(m, g, segs) == resolve_path(
            m,
            g,
            segs.map_values(|s: (Seq<char>, bool)| unraw_segment(s)),
        ),
{
    let clean = segs.map_values(|s: (Seq<char>, bool)| unraw_segment(s));
    assert(clean_names(clean) =~= clean_names(segs));
}

/// When the normalized path is a registered key, resolution returns its
/// mapping, whatever the other strategies would select.
pub proof fn lemma_exact_match_precedence(
    m: Map<Seq<char>, Seq<char>>,
    g: TypeGroups,
    segs: Seq<(Seq<char>, bool)>,
)
    requires
        m.contains_key(normalize(segs)),
    ensures
        resolve_path(m, g, segs) == Some(m[normalize(segs)]),
{
}

proof fn lemma_progressive_from_none(
    m: Map<Seq<char>, Seq<char>>,
    g: TypeGroups,
    names: Seq<Seq<char>>,
    start: int,
)
    requires
        names.len() >= 2,
        0 <= start,
        forall|k: int|
            0 <= k < names.len() - 1 ==> exact(
                m,
                g,
                #[trigger] join(names.subrange(k, names.len() - 1).push(names.last())),
            ) is None,
        exact(m, g, names.last()) is None,
        !could_be_stdlib(names, names.last()),
    ensures
        progressive_from(m, g, names, names.last(), start) is None,
    decreases names.len() - start,
{
    if start < names.len() - 1 {
        assert(exact(m, g, join(names.subrange(start, names.len() - 1).push(names.last()))) is None);
        lemma_progressive_from_none(m, g, names, start + 1);
    }
}

/// A path of several segments that no suffix of it maps, exactly or through
/// the built-in groups, and that the standard-library guard rejects, resolves
/// to nothing, even where its last name is the last name of a registered key.
pub proof fn lemma_no_false_positive(
    m: Map<Seq<char>, Seq<char>>,
    g: TypeGroups,
    segs: Seq<(Seq<char>, bool)>,
)
    requires
        segs.len() >= 2,
        exact(m, g, normalize(segs)) is None,
        forall|k: int|
            0 <= k < segs.len() - 1 ==> exact(
                m,
                g,
                #[trigger] join(
                    clean_names(segs).subrange(k, segs.len() - 1).push(clean_names(segs).last()),
                ),
            ) is None,
        exact(m, g, clean_names(segs).last()) is None,
        !could_be_stdlib(clean_names(segs), clean_names(segs).last()),
    ensures
        resolve_path(m, g, segs) is None,
{
    lemma_progressive_from_none(m, g, clean_names(segs), 0);
}

/// The key of a path of several names is a suffix candidate of its last name.
proof fn lemma_key_is_candidate(names: Seq<Seq<char>>)
    requires
        names.len() >= 2,
    ensures
        crate::text::has_suffix(join(names), sep() + names.last()),
{
    let k = join(names);
    assert(k == join(names.drop_last()) + sep() + names.last());
    assert(k.subrange(k.len() - (sep() + names.last()).len(), k.len() as int) =~= sep()
        + names.last());
}

/// Generic arguments and module prefixes do not change what a type resolves
/// to: with a full path `a::...::T` registered, the only registered key that
/// ends in `::T`, and no mapping for `T` alone, the full path, `T<..>`, and
/// `m::T<..>` for a standard-library module `m` and a common library type `T`
/// (which the suffix-matching guard admits) all resolve to its mapping.
pub proof fn lemma_generic_transparency(
    m: Map<Seq<char>, Seq<char>>,
    g: TypeGroups,
    full: Seq<(Seq<char>, bool)>,
    single: Seq<(Seq<char>, bool)>,
    short: Seq<(Seq<char>, bool)>,
)
    requires
        full.len() >= 2,
        m.contains_key(normalize(full)),
        forall|k: Seq<char>|
            suffix_candidate(m, clean_names(full).last(), k) ==> k == normalize(full),
        exact(m, g, clean_names(full).last()) is None,
        single.len() == 1,
        unraw(single[0].0) == clean_names(full).last(),
        short.len() == 2,
        unraw(short[1].0) == clean_names(full).last(),
        stdlib_module(unraw(short[0].0)),
        common_type(clean_names(full).last()),
        exact(m, g, normalize(short)) is None,
    ensures
        resolve_path(m, g, full) == Some(m[normalize(full)]),
        resolve_path(m, g, single) == Some(m[normalize(full)]),
        resolve_path(m, g, short) == Some(m[normalize(full)]),
{
    let key = normalize(full);
    let base = clean_names(full).last();
    lemma_key_is_candidate(clean_names(full));
    assert(suffix_candidate(m, base, key));
    lemma_candidate_order(key, key, key);
    assert(best_candidate(m, base, key));
    let c = choose|k: Seq<char>| best_candidate(m, base, k);
    assert(c == key);
    assert(clean_names(single) =~= seq![base]);
    assert(normalize(single) == base);
    let names = clean_names(short);
    assert(names =~= seq![unraw(short[0].0), base]);
    assert(names.subrange(0, 1).push(base) =~= names);
    assert(stdlib_module(names[0]));
    assert(could_be_stdlib(names, base));
    assert(names.last() == base);
    assert(suffix_candidate(m, base, key));
    assert(crate::resolver::find_ending(m, g, base) == Some(m[key]));
    assert(progressive_from(m, g, names, base, 1) == Some(m[key]));
    assert(join(names.subrange(0, 1).push(base)) == normalize(short));
    assert(progressive_from(m, g, names, base, 0) == Some(m[key]));
}

proof fn lemma_min_exists(s: Set<Seq<char>>)
    requires
        s.finite(),
        s.len() > 0,
    ensures
        exists|k: Seq<char>|
            s.contains(k) && forall|j: Seq<char>| s.contains(j) ==> #[trigger] candidate_le(k, j),
    decreases s.len(),
{
    let x = s.choose();
    let t = s.remove(x);
    if t.len() == 0 {
        assert forall|j: Seq<char>| s.contains(j) implies #[trigger] candidate_le(x, j) by {
            if j != x {
                assert(t.contains(j));
            }
            lemma_candidate_order(x, x, x);
        }
    } else {
        lemma_min_exists(t);
        let k = choose|k: Seq<char>|
            t.contains(k) && forall|j: Seq<char>| t.contains(j) ==> #[trigger] candidate_le(k, j);
        lemma_candidate_order(x, k, x);
        if candidate_le(x, k) {
            assert forall|j: Seq<char>| s.contains(j) implies #[trigger] candidate_le(x, j) by {
                if j != x {
                    assert(t.contains(j));
                    lemma_candidate_order(x, k, j);
                }
            }
        } else {
            assert forall|j: Seq<char>| s.contains(j) implies #[trigger] candidate_le(k, j) by {
                if j == x {
                    lemma_candidate_order(k, x, j);
                }
            }
        }
    }
}

/// Under ambiguity a key rooted at `std`, `core` or `alloc` wins: a bare type
/// name with no mapping of its own resolves, where some rooted registered key
/// ends in `::name`, to the mapping of a rooted key ending in `::name`.
pub proof fn lemma_std_rooted_preferred(
    m: Map<Seq<char>, Seq<char>>,
    g: TypeGroups,
    segs: Seq<(Seq<char>, bool)>,
    rooted: Seq<char>,
)
    requires
        m.dom().finite(),
        segs.len() == 1,
        exact(m, g, unraw(segs[0].0)) is None,
        suffix_candidate(m, unraw(segs[0].0), rooted),
        std_rooted(rooted),
    ensures
        exists|k: Seq<char>|
            std_rooted(k) && suffix_candidate(m, unraw(segs[0].0), k) && resolve_path(m, g, segs)
                == Some(m[k]),
{
    let base = unraw(segs[0].0);
    let cands = m.dom().filter(|k: Seq<char>| suffix_candidate(m, base, k));
    assert(cands.contains(rooted));
    vstd::set_lib::lemma_len_subset(cands, m.dom());
    assert(cands.len() > 0) by {
        if cands.len() == 0 {
            assert(cands =~= Set::<Seq<char>>::empty());
        }
    }
    lemma_min_exists(cands);
    let b = choose|k: Seq<char>|
        cands.contains(k) && forall|j: Seq<char>| cands.contains(j) ==> #[trigger] candidate_le(k, j);
    assert forall|j: Seq<char>| #[trigger] suffix_candidate(m, base, j) implies candidate_le(b, j) by {
        assert(cands.contains(j));
    }
    assert(best_candidate(m, base, b));
    let c = choose|k: Seq<char>| best_candidate(m, base, k);
    assert(candidate_le(c, rooted));
    assert(clean_names(segs) =~= seq![base]);
    assert(normalize(segs) == base);
}

/// The normalized keys of the patterns registered.
pub open spec fn normalized_keys(adds: Seq<(Seq<char>, Seq<char>)>) -> Set<Seq<char>> {
    adds.map_values(|a: (Seq<char>, Seq<char>)| normalize_pattern(a.0)).to_set()
}

/// Registering patterns on an empty table leaves one mapping per distinct
/// normalized key, so the count is the number of distinct normalized keys.
pub proof fn lemma_count_distinct_keys(adds: Seq<(Seq<char>, Seq<char>)>)
    ensures
        table_after(Map::empty(), adds).dom() == normalized_keys(adds),
        table_after(Map::empty(), adds).len() == normalized_keys(adds).len(),
    decreases adds.len(),
{
    if adds.len() > 0 {
        lemma_count_distinct_keys(adds.drop_last());
        let f = |a: (Seq<char>, Seq<char>)| normalize_pattern(a.0);
        assert(adds.map_values(f) =~= adds.drop_last().map_values(f).push(f(adds.last())));
        adds.drop_last().map_values(f).lemma_push_to_set_commute(f(adds.last()));
        assert(normalized_keys(adds) =~= normalized_keys(adds.drop_last()).insert(f(adds.last())));
    }
    assert(table_after(Map::empty(), adds).dom() =~= normalized_keys(adds));
}

} // verus!
