//! Immutable mappings held in a `phf::Map` built at compile time.

use vstd::prelude::*;
use crate::storage::{values_listed, MappingStorage};
use crate::text::{opt_chars, str_eq, strs_view};

verus! {

#[verifier::external_type_specification]
#[verifier::external_body]
#[verifier::reject_recursive_types(K)]
#[verifier::reject_recursive_types(V)]
pub struct ExPhfMap<K: 'static, V: 'static>(phf::Map<K, V>);

/// The entries of a `phf::Map` in the order it holds them, keys and values
/// as characters.
pub uninterp spec fn phf_entry_seq(m: phf::Map<&'static str, &'static str>) -> Seq<
    (Seq<char>, Seq<char>),
>;

/// What `phf::Map::get` returns for `key`: a function of the map and the key.
pub uninterp spec fn phf_lookup(m: phf::Map<&'static str, &'static str>, key: Seq<char>) -> Option<
    Seq<char>,
>;

/// The largest entry count for which phf's index arithmetic in `u32` stays
/// away from a remainder by zero.
pub const PHF_MAX_ENTRIES: usize = 0xffff_ffff;

/// Relies on `phf::Map::get` (through `get_entry`): with at least one entry it
/// hashes `key` and returns the value of the entry found only where that
/// entry's key equals `key`.
#[verifier::external_body]
fn phf_get<'a>(m: &'a phf::Map<&'static str, &'static str>, key: &str) -> (r: Option<&'a str>)
    requires
        0 < phf_entry_seq(*m).len() <= PHF_MAX_ENTRIES,
    ensures
        opt_chars(r) == phf_lookup(*m, key@),
        r matches Some(v) ==> exists|i: int|
            0 <= i < phf_entry_seq(*m).len() && #[trigger] phf_entry_seq(*m)[i] == (key@, v@),
{
    m.get(key).copied()
}

/// Relies on `phf::Map::contains_key`: whether `get` returns a value, which
/// it does only for the key of an entry.
#[verifier::external_body]
fn phf_contains_key(m: &phf::Map<&'static str, &'static str>, key: &str) -> (r: bool)
    requires
        0 < phf_entry_seq(*m).len() <= PHF_MAX_ENTRIES,
    ensures
        r == phf_lookup(*m, key@) is Some,
        r ==> exists|i: int|
            0 <= i < phf_entry_seq(*m).len() && #[trigger] phf_entry_seq(*m)[i].0 == key@,
{
    m.contains_key(key)
}

/// Relies on `phf::Map::len`: the length of the entries.
#[verifier::external_body]
fn phf_len(m: &phf::Map<&'static str, &'static str>) -> (r: usize)
    ensures
        r == phf_entry_seq(*m).len(),
{
    m.len()
}

/// Relies on `phf::Map::is_empty`: whether there is no entry.
#[verifier::external_body]
fn phf_is_empty(m: &phf::Map<&'static str, &'static str>) -> (r: bool)
    ensures
        r == (phf_entry_seq(*m).len() == 0),
{
    m.is_empty()
}

/// Relies on `phf::Map::keys`: the key of each entry, in the order of the entries.
#[verifier::external_body]
fn phf_keys<'a>(m: &'a phf::Map<&'static str, &'static str>) -> (r: Vec<&'a str>)
    ensures
        strs_view(r@) == phf_entry_seq(*m).map_values(|e: (Seq<char>, Seq<char>)| e.0),
{
    m.keys().copied().collect()
}

/// Relies on `phf::Map::values`: the value of each entry, in the order of the entries.
#[verifier::external_body]
fn phf_values<'a>(m: &'a phf::Map<&'static str, &'static str>) -> (r: Vec<&'a str>)
    ensures
        strs_view(r@) == phf_entry_seq(*m).map_values(|e: (Seq<char>, Seq<char>)| e.1),
{
    m.values().copied().collect()
}

/// The entries of `s` read as a map; with distinct keys each entry is kept.
pub open spec fn pairs_map(s: Seq<(Seq<char>, Seq<char>)>) -> Map<Seq<char>, Seq<char>> {
    Map::new(
        |k: Seq<char>| exists|i: int| 0 <= i < s.len() && #[trigger] s[i].0 == k,
        |k: Seq<char>| s[choose|i: int| 0 <= i < s.len() && #[trigger] s[i].0 == k].1,
    )
}

/// The keys of `s` are distinct.
pub open spec fn distinct_keys(s: Seq<(Seq<char>, Seq<char>)>) -> bool {
    forall|i: int, j: int| 0 <= i < j < s.len() ==> #[trigger] s[i].0 != #[trigger] s[j].0
}

/// A map whose keys are distinct and whose lookup finds every entry, as the
/// maps that phf's macros and generator build are.
pub open spec fn phf_consistent(m: phf::Map<&'static str, &'static str>) -> bool {
    &&& phf_entry_seq(m).len() <= PHF_MAX_ENTRIES
    &&& distinct_keys(phf_entry_seq(m))
    &&& forall|i: int|
        0 <= i < phf_entry_seq(m).len() ==> phf_lookup(m, #[trigger] phf_entry_seq(m)[i].0)
            == Some(phf_entry_seq(m)[i].1)
}

proof fn lemma_pairs_map_entry(s: Seq<(Seq<char>, Seq<char>)>, i: int)
    requires
        distinct_keys(s),
        0 <= i < s.len(),
    ensures
        pairs_map(s).contains_key(s[i].0),
        pairs_map(s)[s[i].0] == s[i].1,
{
    let k = s[i].0;
    assert(0 <= i < s.len() && s[i].0 == k);
    let j = choose|j: int| 0 <= j < s.len() && #[trigger] s[j].0 == k;
    if i < j {
        assert(s[i].0 != s[j].0);
    } else if j < i {
        assert(s[j].0 != s[i].0);
    }
}

proof fn lemma_pairs_map_len(s: Seq<(Seq<char>, Seq<char>)>)
    requires
        distinct_keys(s),
    ensures
        pairs_map(s).len() == s.len(),
        pairs_map(s).dom().finite(),
{
    let ks = s.map_values(|e: (Seq<char>, Seq<char>)| e.0);
    assert forall|k: Seq<char>| pairs_map(s).dom().contains(k) <==> ks.to_set().contains(k) by {
        if pairs_map(s).dom().contains(k) {
            let i = choose|i: int| 0 <= i < s.len() && #[trigger] s[i].0 == k;
            assert(ks[i] == k);
        }
        if ks.to_set().contains(k) {
            let i = choose|i: int| 0 <= i < ks.len() && ks[i] == k;
            assert(s[i].0 == k);
        }
    }
    assert(pairs_map(s).dom() =~= ks.to_set());
    assert(ks.no_duplicates()) by {
        assert forall|i: int, j: int| 0 <= i < ks.len() && 0 <= j < ks.len() && i != j implies ks[i]
            != ks[j] by {
            if i < j {
                assert(s[i].0 != s[j].0);
            } else {
                assert(s[j].0 != s[i].0);
            }
        }
    }
    ks.unique_seq_to_set();
    vstd::seq_lib::seq_to_set_is_finite(ks);
}

/// Mappings fixed at compile time in a `phf::Map` that has been checked to
/// be consistent: distinct keys, each found by lookup with its value.
pub struct PhfTable {
    map: &'static phf::Map<&'static str, &'static str>,
}

impl PhfTable {
    /// The underlying map.
    pub closed spec fn source(&self) -> phf::Map<&'static str, &'static str> {
        *self.map
    }

    #[verifier::type_invariant]
    closed spec fn consistent(&self) -> bool {
        phf_consistent(*self.map)
    }

    /// Wraps `map` where it is consistent; `None` otherwise.
    pub fn new(map: &'static phf::Map<&'static str, &'static str>) -> (r: Option<PhfTable>)
        ensures
            r is Some <==> phf_consistent(*map),
            r matches Some(t) ==> t.source() == *map && t.mapping() == pairs_map(
                phf_entry_seq(*map),
            ),
    {
        let ghost s = phf_entry_seq(*map);
        let n = phf_len(map);
        if n > PHF_MAX_ENTRIES {
            return None;
        }
        let keys = phf_keys(map);
        let values = phf_values(map);
        assert(strs_view(keys@).len() == n && strs_view(values@).len() == n);
        assert(keys@.len() == n && values@.len() == n);
        let mut i: usize = 0;
        while i < n
            invariant
                n == s.len(),
                s == phf_entry_seq(*map),
                n <= PHF_MAX_ENTRIES,
                i <= n,
                keys@.len() == n,
                values@.len() == n,
                strs_view(keys@) == s.map_values(|e: (Seq<char>, Seq<char>)| e.0),
                strs_view(values@) == s.map_values(|e: (Seq<char>, Seq<char>)| e.1),
                forall|a: int, b: int| 0 <= a < b < i ==> #[trigger] s[a].0 != #[trigger] s[b].0,
                forall|a: int| 0 <= a < i ==> phf_lookup(*map, #[trigger] s[a].0) == Some(s[a].1),
            decreases n - i,
        {
            assert(keys@[i as int]@ == strs_view(keys@)[i as int]);
            assert(values@[i as int]@ == strs_view(values@)[i as int]);
            assert(keys@[i as int]@ == s[i as int].0);
            assert(values@[i as int]@ == s[i as int].1);
            let mut j: usize = 0;
            while j < i
                invariant
                    i < n,
                    j <= i,
                    n == s.len(),
                    s == phf_entry_seq(*map),
                    keys@.len() == n,
                    strs_view(keys@) == s.map_values(|e: (Seq<char>, Seq<char>)| e.0),
                    forall|a: int| 0 <= a < j ==> s[a].0 != s[i as int].0,
                decreases i - j,
            {
                assert(keys@[j as int]@ == strs_view(keys@)[j as int]);
                assert(keys@[i as int]@ == strs_view(keys@)[i as int]);
                if str_eq(keys[j], keys[i]) {
                    assert(!distinct_keys(s)) by {
                        assert(s[j as int].0 == s[i as int].0);
                    }
                    return None;
                }
                j = j + 1;
            }
            match phf_get(map, keys[i]) {
                Some(v) => {
                    if !str_eq(v, values[i]) {
                        assert(phf_lookup(*map, s[i as int].0) != Some(s[i as int].1));
                        return None;
                    }
                },
                None => {
                    assert(phf_lookup(*map, s[i as int].0) is None);
                    assert(!phf_consistent(*map));
                    return None;
                },
            }
            i = i + 1;
        }
        Some(PhfTable { map })
    }
}

impl MappingStorage for PhfTable {
    closed spec fn mapping(&self) -> Map<Seq<char>, Seq<char>> {
        pairs_map(phf_entry_seq(*self.map))
    }

    fn get(&self, path: &str) -> (r: Option<&str>) {
        proof {
            use_type_invariant(self);
        }
        let ghost s = phf_entry_seq(*self.map);
        if phf_is_empty(self.map) {
            return None;
        }
        let r = phf_get(self.map, path);
        proof {
            if pairs_map(s).contains_key(path@) {
                let i = choose|i: int| 0 <= i < s.len() && #[trigger] s[i].0 == path@;
                lemma_pairs_map_entry(s, i);
            }
            if let Some(v) = r {
                let i = choose|i: int| 0 <= i < s.len() && #[trigger] s[i] == (path@, v@);
                assert(s[i].0 == path@);
                lemma_pairs_map_entry(s, i);
            }
        }
        r
    }

    fn contains_key(&self, path: &str) -> (r: bool) {
        proof {
            use_type_invariant(self);
        }
        let ghost s = phf_entry_seq(*self.map);
        if phf_is_empty(self.map) {
            return false;
        }
        let r = phf_contains_key(self.map, path);
        proof {
            if pairs_map(s).contains_key(path@) {
                let i = choose|i: int| 0 <= i < s.len() && #[trigger] s[i].0 == path@;
                lemma_pairs_map_entry(s, i);
            }
        }
        r
    }

    fn len(&self) -> (r: usize) {
        proof {
            use_type_invariant(self);
            lemma_pairs_map_len(phf_entry_seq(*self.map));
        }
        phf_len(self.map)
    }

    fn is_empty(&self) -> (r: bool) {
        proof {
            use_type_invariant(self);
            lemma_pairs_map_len(phf_entry_seq(*self.map));
        }
        phf_is_empty(self.map)
    }

    fn keys(&self) -> (r: Vec<&str>) {
        proof {
            use_type_invariant(self);
        }
        let ghost s = phf_entry_seq(*self.map);
        let r = phf_keys(self.map);
        proof {
            assert(strs_view(r@).len() == r@.len());
            lemma_pairs_map_len(s);
            let m = pairs_map(s);
            assert forall|i: int| 0 <= i < r@.len() implies m.contains_key(#[trigger] r@[i]@) by {
                assert(r@[i]@ == strs_view(r@)[i]);
                lemma_pairs_map_entry(s, i);
            }
            assert forall|k: Seq<char>| m.contains_key(k) implies exists|i: int|
                0 <= i < r@.len() && #[trigger] r@[i]@ == k by {
                let i = choose|i: int| 0 <= i < s.len() && #[trigger] s[i].0 == k;
                assert(r@[i]@ == strs_view(r@)[i]);
            }
            assert forall|a: int, b: int| 0 <= a < b < r@.len() implies #[trigger] r@[a]@
                != #[trigger] r@[b]@ by {
                assert(r@[a]@ == strs_view(r@)[a]);
                assert(r@[b]@ == strs_view(r@)[b]);
                assert(s[a].0 != s[b].0);
            }
        }
        r
    }

    fn values(&self) -> (r: Vec<&str>) {
        proof {
            use_type_invariant(self);
        }
        let ghost s = phf_entry_seq(*self.map);
        let r = phf_values(self.map);
        proof {
            assert(strs_view(r@).len() == r@.len());
            lemma_pairs_map_len(s);
            let m = pairs_map(s);
            let ks = s.map_values(|e: (Seq<char>, Seq<char>)| e.0);
            assert forall|i: int| 0 <= i < ks.len() implies m.contains_key(#[trigger] ks[i])
                && r@[i]@ == m[ks[i]] by {
                assert(r@[i]@ == strs_view(r@)[i]);
                lemma_pairs_map_entry(s, i);
            }
            assert forall|k: Seq<char>| m.contains_key(k) implies #[trigger] ks.contains(k) by {
                let i = choose|i: int| 0 <= i < s.len() && #[trigger] s[i].0 == k;
                assert(ks[i] == k);
            }
            assert(ks.len() == r@.len());
            assert(ks.len() == m.len());
            assert(ks.no_duplicates()) by {
                assert forall|a: int, b: int|
                    0 <= a < ks.len() && 0 <= b < ks.len() && a != b implies ks[a] != ks[b] by {
                    if a < b {
                        assert(s[a].0 != s[b].0);
                    } else {
                        assert(s[b].0 != s[a].0);
                    }
                }
            }
            assert(values_listed(r@, m));
        }
        r
    }
}

} // verus!
