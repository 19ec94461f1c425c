//! Storage of custom mappings from normalized paths to canonical names.

use vstd::prelude::*;

verus! {

/// `ks` lists the keys of `m`, each once.
pub open spec fn keys_listed(ks: Seq<&str>, m: Map<Seq<char>, Seq<char>>) -> bool {
    &&& ks.len() == m.len()
    &&& forall|i: int| 0 <= i < ks.len() ==> m.contains_key(#[trigger] ks[i]@)
    &&& forall|k: Seq<char>|
        m.contains_key(k) ==> exists|i: int| 0 <= i < ks.len() && #[trigger] ks[i]@ == k
    &&& forall|i: int, j: int| 0 <= i < j < ks.len() ==> #[trigger] ks[i]@ != #[trigger] ks[j]@
}

/// `vs` lists the values of `m`, one for each key.
pub open spec fn values_listed(vs: Seq<&str>, m: Map<Seq<char>, Seq<char>>) -> bool {
    exists|ks: Seq<Seq<char>>|
        {
            &&& ks.len() == vs.len()
            &&& ks.len() == m.len()
            &&& ks.no_duplicates()
            &&& forall|i: int|
                0 <= i < ks.len() ==> m.contains_key(#[trigger] ks[i]) && vs[i]@ == m[ks[i]]
            &&& forall|k: Seq<char>| m.contains_key(k) ==> #[trigger] ks.contains(k)
        }
}

/// A table from normalized path strings to canonical type names.
pub trait MappingStorage {
    /// The mappings held.
    spec fn mapping(&self) -> Map<Seq<char>, Seq<char>>;

    /// The canonical name stored for `path`.
    fn get(&self, path: &str) -> (r: Option<&str>)
        ensures
            r is Some <==> self.mapping().contains_key(path@),
            r matches Some(v) ==> v@ == self.mapping()[path@],
    ;

    /// Whether a mapping is stored for `path`.
    fn contains_key(&self, path: &str) -> (r: bool)
        ensures
            r == self.mapping().contains_key(path@),
    ;

    /// The number of mappings.
    fn len(&self) -> (r: usize)
        ensures
            r == self.mapping().len(),
    ;

    /// Whether no mapping is stored.
    fn is_empty(&self) -> (r: bool)
        ensures
            r == (self.mapping().len() == 0),
    ;

    /// The stored path patterns.
    fn keys(&self) -> (r: Vec<&str>)
        ensures
            keys_listed(r@, self.mapping()),
    ;

    /// The stored canonical names, one for each pattern.
    fn values(&self) -> (r: Vec<&str>)
        ensures
            values_listed(r@, self.mapping()),
    ;
}

/// A storage with no mappings, for resolvers that use the built-in groups only.
#[derive(Debug, Clone, Copy)]
pub struct EmptyStorage;

impl MappingStorage for EmptyStorage {
    open spec fn mapping(&self) -> Map<Seq<char>, Seq<char>> {
        Map::empty()
    }

    fn get(&self, path: &str) -> (r: Option<&str>) {
        None
    }

    fn contains_key(&self, path: &str) -> (r: bool) {
        false
    }

    fn len(&self) -> (r: usize) {
        0
    }

    fn is_empty(&self) -> (r: bool) {
        true
    }

    fn keys(&self) -> (r: Vec<&str>) {
        Vec::new()
    }

    fn values(&self) -> (r: Vec<&str>) {
        let r: Vec<&str> = Vec::new();
        assert(Seq::<Seq<char>>::empty().no_duplicates());
        assert(values_listed(r@, self.mapping())) by {
            let ks = Seq::<Seq<char>>::empty();
            assert(forall|k: Seq<char>| self.mapping().contains_key(k) ==> #[trigger] ks.contains(k));
        }
        r
    }
}

/// A mutable table of mappings; each key is held once, a later insertion
/// under the same key replaces the earlier one. Keys are stored as given:
/// the resolver's `add_mapping` and `from_map` normalize them first.
pub struct MappingTable {
    entries: Vec<(String, String)>,
}

impl MappingTable {
    /// The keys in the order held.
    pub closed spec fn key_seq(&self) -> Seq<Seq<char>> {
        self.entries@.map_values(|e: (String, String)| e.0@)
    }

    #[verifier::type_invariant]
    closed spec fn keys_unique(&self) -> bool {
        self.key_seq().no_duplicates()
    }

    /// The mappings held.
    pub closed spec fn table(&self) -> Map<Seq<char>, Seq<char>> {
        Map::new(
            |k: Seq<char>| self.key_seq().contains(k),
            |k: Seq<char>| self.entries@[self.index_of(k)].1@,
        )
    }

    /// The entries as character sequences, in the order their keys were
    /// first inserted.
    pub closed spec fn pairs(&self) -> Seq<(Seq<char>, Seq<char>)> {
        self.entries@.map_values(|e: (String, String)| (e.0@, e.1@))
    }

    /// The position of the entry with key `k`.
    pub closed spec fn index_of(&self, k: Seq<char>) -> int {
        choose|i: int| 0 <= i < self.entries@.len() && self.entries@[i].0@ == k
    }

    proof fn lemma_entry(&self, i: int)
        requires
            self.keys_unique(),
            0 <= i < self.entries@.len(),
        ensures
            self.table().contains_key(self.entries@[i].0@),
            self.table()[self.entries@[i].0@] == self.entries@[i].1@,
            self.index_of(self.entries@[i].0@) == i,
    {
        let k = self.entries@[i].0@;
        assert(self.key_seq()[i] == k);
        assert(self.key_seq().contains(k));
        assert(0 <= i < self.entries@.len() && self.entries@[i].0@ == k);
        let j = self.index_of(k);
        assert(self.key_seq()[j] == k);
        assert(i == j);
        assert(self.table()[k] == self.entries@[j].1@);
    }

    proof fn lemma_len(&self)
        requires
            self.keys_unique(),
        ensures
            self.table().dom() == self.key_seq().to_set(),
            self.table().dom().finite(),
            self.table().len() == self.entries@.len(),
    {
        assert(self.table().dom() =~= self.key_seq().to_set());
        self.key_seq().unique_seq_to_set();
        vstd::seq_lib::seq_to_set_is_finite(self.key_seq());
    }

    /// An empty table.
    pub fn new() -> (r: MappingTable)
        ensures
            r.table() == Map::<Seq<char>, Seq<char>>::empty(),
            r.pairs() == Seq::<(Seq<char>, Seq<char>)>::empty(),
    {
        let r = MappingTable { entries: Vec::new() };
        assert(r.pairs() =~= Seq::<(Seq<char>, Seq<char>)>::empty());
        assert(r.table() =~= Map::<Seq<char>, Seq<char>>::empty());
        r
    }

    /// Position of the entry with key `k`, if any.
    fn find(&self, k: &str) -> (r: Option<usize>)
        ensures
            r is Some <==> self.table().contains_key(k@),
            r matches Some(i) ==> i < self.entries@.len() && self.entries@[i as int].0@ == k@,
    {
        let mut i: usize = 0;
        while i < self.entries.len()
            invariant
                i <= self.entries@.len(),
                forall|j: int| 0 <= j < i ==> self.entries@[j].0@ != k@,
            decreases self.entries.len() - i,
        {
            if crate::text::str_eq(self.entries[i].0.as_str(), k) {
                assert(self.key_seq()[i as int] == k@);
                return Some(i);
            }
            i = i + 1;
        }
        assert(!self.key_seq().contains(k@)) by {
            if self.key_seq().contains(k@) {
                let j = choose|j: int| 0 <= j < self.key_seq().len() && self.key_seq()[j] == k@;
                assert(self.entries@[j].0@ == k@);
            }
        }
        None
    }

    /// Stores `value` under `key`, replacing what was stored there.
    pub fn insert(&mut self, key: String, value: String)
        ensures
            final(self).table() == old(self).table().insert(key@, value@),
            old(self).table().contains_key(key@) ==> final(self).pairs() == old(self).pairs().update(
                old(self).index_of(key@),
                (key@, value@),
            ),
            !old(self).table().contains_key(key@) ==> final(self).pairs() == old(self).pairs().push(
                (key@, value@),
            ),
    {
        proof {
            use_type_invariant(&*self);
        }
        let ghost k = key@;
        let ghost v = value@;
        let ghost before = *self;
        let found = self.find(key.as_str());
        let mut entries: Vec<(String, String)> = Vec::new();
        std::mem::swap(&mut self.entries, &mut entries);
        match found {
            Some(i) => {
                entries.set(i, (key, value));
            },
            None => {
                entries.push((key, value));
            },
        }
        proof {
            let ks = entries@.map_values(|e: (String, String)| e.0@);
            match found {
                Some(i) => {
                    assert(ks =~= before.key_seq());
                },
                None => {
                    assert(ks =~= before.key_seq().push(k));
                    assert(!before.key_seq().contains(k));
                    assert forall|a: int, b: int|
                        0 <= a < ks.len() && 0 <= b < ks.len() && a != b implies ks[a]
                        != ks[b] by {
                        if a < before.key_seq().len() && b < before.key_seq().len() {
                            assert(before.key_seq()[a] != before.key_seq()[b]);
                        } else if a < before.key_seq().len() {
                            assert(before.key_seq().contains(ks[a]));
                        } else {
                            assert(before.key_seq().contains(ks[b]));
                        }
                    }
                },
            }
            assert(ks.no_duplicates());
        }
        let after = MappingTable { entries };
        proof {
            match found {
                Some(i) => {
                    before.lemma_entry(i as int);
                    assert(after.pairs() =~= before.pairs().update(i as int, (k, v)));
                },
                None => {
                    assert(after.pairs() =~= before.pairs().push((k, v)));
                },
            }
            let n = match found {
                Some(i) => i as int,
                None => before.entries@.len() as int,
            };
            after.lemma_entry(n);
            assert forall|q: Seq<char>| #[trigger]
                after.table().contains_key(q) && q != k implies after.table()[q]
                == before.table()[q] by {
                let j = choose|j: int| 0 <= j < after.key_seq().len() && after.key_seq()[j] == q;
                assert(after.key_seq()[j] == q);
                assert(j != n);
                assert(before.key_seq()[j] == q);
                after.lemma_entry(j);
                before.lemma_entry(j);
            }
            assert forall|q: Seq<char>| #[trigger] after.key_seq().contains(q) <==> (
            before.key_seq().contains(q) || q == k) by {
                if after.key_seq().contains(q) {
                    let j = choose|j: int| 0 <= j < after.key_seq().len() && after.key_seq()[j] == q;
                    if j != n {
                        assert(before.key_seq()[j] == q);
                    }
                }
                if before.key_seq().contains(q) {
                    let j = choose|j: int| 0 <= j < before.key_seq().len() && before.key_seq()[j] == q;
                    if j != n {
                        assert(after.key_seq()[j] == q);
                    }
                }
                if q == k {
                    assert(after.key_seq()[n] == q);
                }
            }
            assert(after.table().dom() =~= before.table().dom().insert(k));
            assert(after.table() =~= before.table().insert(k, v));
        }
        *self = after;
    }

    /// The number of entries.
    pub fn count(&self) -> (r: usize)
        ensures
            r == self.pairs().len(),
    {
        self.entries.len()
    }

    /// The `i`-th entry, key and value.
    pub fn entry(&self, i: usize) -> (r: (&str, &str))
        requires
            i < self.pairs().len(),
        ensures
            (r.0@, r.1@) == self.pairs()[i as int],
    {
        (self.entries[i].0.as_str(), self.entries[i].1.as_str())
    }

    /// Removes every mapping.
    pub fn clear(&mut self)
        ensures
            final(self).table() == Map::<Seq<char>, Seq<char>>::empty(),
            final(self).pairs() == Seq::<(Seq<char>, Seq<char>)>::empty(),
    {
        *self = MappingTable { entries: Vec::new() };
        assert(self.pairs() =~= Seq::<(Seq<char>, Seq<char>)>::empty());
        assert(self.table() =~= Map::<Seq<char>, Seq<char>>::empty());
    }
}

impl MappingStorage for MappingTable {
    open spec fn mapping(&self) -> Map<Seq<char>, Seq<char>> {
        self.table()
    }

    fn get(&self, path: &str) -> (r: Option<&str>) {
        proof {
            use_type_invariant(self);
        }
        match self.find(path) {
            Some(i) => {
                proof {
                    self.lemma_entry(i as int);
                }
                Some(self.entries[i].1.as_str())
            },
            None => None,
        }
    }

    fn contains_key(&self, path: &str) -> (r: bool) {
        self.find(path).is_some()
    }

    fn len(&self) -> (r: usize) {
        proof {
            use_type_invariant(self);
            self.lemma_len();
        }
        self.entries.len()
    }

    fn is_empty(&self) -> (r: bool) {
        proof {
            use_type_invariant(self);
            self.lemma_len();
        }
        self.entries.len() == 0
    }

    fn keys(&self) -> (r: Vec<&str>) {
        proof {
            use_type_invariant(self);
            self.lemma_len();
        }
        let mut r: Vec<&str> = Vec::new();
        let mut i: usize = 0;
        while i < self.entries.len()
            invariant
                i <= self.entries@.len(),
                r@.len() == i,
                self.keys_unique(),
                forall|j: int| 0 <= j < i ==> #[trigger] r@[j]@ == self.entries@[j].0@,
            decreases self.entries.len() - i,
        {
            r.push(self.entries[i].0.as_str());
            i = i + 1;
        }
        proof {
            assert forall|j: int| 0 <= j < r@.len() implies self.table().contains_key(
                #[trigger] r@[j]@,
            ) by {
                self.lemma_entry(j);
            }
            assert forall|k: Seq<char>| self.table().contains_key(k) implies exists|j: int|
                0 <= j < r@.len() && #[trigger] r@[j]@ == k by {
                let j = choose|j: int| 0 <= j < self.key_seq().len() && self.key_seq()[j] == k;
                assert(r@[j]@ == k);
            }
            assert forall|a: int, b: int| 0 <= a < b < r@.len() implies #[trigger] r@[a]@
                != #[trigger] r@[b]@ by {
                assert(self.key_seq()[a] != self.key_seq()[b]);
            }
        }
        r
    }

    fn values(&self) -> (r: Vec<&str>) {
        proof {
            use_type_invariant(self);
            self.lemma_len();
        }
        let mut r: Vec<&str> = Vec::new();
        let mut i: usize = 0;
        while i < self.entries.len()
            invariant
                i <= self.entries@.len(),
                r@.len() == i,
                self.keys_unique(),
                forall|j: int| 0 <= j < i ==> #[trigger] r@[j]@ == self.entries@[j].1@,
            decreases self.entries.len() - i,
        {
            r.push(self.entries[i].1.as_str());
            i = i + 1;
        }
        proof {
            let ks = self.key_seq();
            assert forall|j: int| 0 <= j < ks.len() implies self.table().contains_key(
                #[trigger] ks[j],
            ) && r@[j]@ == self.table()[ks[j]] by {
                self.lemma_entry(j);
            }
            assert forall|k: Seq<char>| self.table().contains_key(k) implies #[trigger] ks.contains(
                k,
            ) by {}
        }
        r
    }
}

} // verus!
