//! The path resolver: normalization and the resolution strategies.

use vstd::prelude::*;
use crate::definitions::{builtin_mapping, builtin_names, builtin_type_names, get_builtin_mapping};
use crate::groups::{no_groups, TypeGroups};
use crate::storage::{keys_listed, values_listed, EmptyStorage, MappingStorage, MappingTable};
use crate::phf_storage::{phf_consistent, PhfTable};
use crate::syntax::Path;
use crate::text::{
    ends_with, has_prefix, has_suffix, join, join_parts, lemma_lex_antisymmetric, lemma_lex_total,
    lemma_lex_transitive, lex_le, lex_le_str, count_sep, opt_chars, sep, sep_count, sep_str,
    split_pieces, starts_with, str_eq, strs_view,
};
use crate::utils::{strip_raw_prefix, unraw};

verus! {

/// The segment names of a path with raw markers removed.
pub open spec fn clean_names(segs: Seq<(Seq<char>, bool)>) -> Seq<Seq<char>> {
    segs.map_values(|s: (Seq<char>, bool)| unraw(s.0))
}

/// The normalized key of a path: its unmarked names joined by `::`; the
/// leading `::` and the generic arguments play no part.
pub open spec fn normalize(segs: Seq<(Seq<char>, bool)>) -> Seq<char> {
    join(clean_names(segs))
}

/// `s` without one leading `::`.
pub open spec fn drop_leading_sep(s: Seq<char>) -> Seq<char> {
    if has_prefix(s, sep()) {
        s.subrange(2, s.len() as int)
    } else {
        s
    }
}

/// The normalized key of a path pattern written as text: one leading `::`
/// dropped, the `r#` of each `::`-separated piece removed.
pub open spec fn normalize_pattern(s: Seq<char>) -> Seq<char> {
    join(split_pieces(drop_leading_sep(s)).map_values(|p: Seq<char>| unraw(p)))
}

/// The custom table after registering `adds` in order on `m`, each pattern
/// normalized.
pub open spec fn table_after(
    m: Map<Seq<char>, Seq<char>>,
    adds: Seq<(Seq<char>, Seq<char>)>,
) -> Map<Seq<char>, Seq<char>>
    decreases adds.len(),
{
    if adds.len() == 0 {
        m
    } else {
        table_after(m, adds.drop_last()).insert(normalize_pattern(adds.last().0), adds.last().1)
    }
}

/// Exact lookup of a key: the custom table first, then the built-in groups.
pub open spec fn exact(m: Map<Seq<char>, Seq<char>>, g: TypeGroups, key: Seq<char>) -> Option<
    Seq<char>,
> {
    if m.contains_key(key) {
        Some(m[key])
    } else {
        builtin_mapping(key, g)
    }
}

/// Type names for which shortened standard-library paths are recognized.
pub open spec fn common_type(b: Seq<char>) -> bool {
    b == "Option"@ || b == "Vec"@ || b == "HashMap"@ || b == "HashSet"@ || b == "Result"@ ||
        b == "String"@ || b == "Box"@ || b == "BTreeMap"@ || b == "BTreeSet"@ ||
        b == "LinkedList"@ || b == "Cow"@ || b == "RefCell"@ || b == "Arc"@ || b == "Rc"@
}

/// Module names that mark a path as a standard-library path.
pub open spec fn stdlib_module(s: Seq<char>) -> bool {
    s == "std"@ || s == "core"@ || s == "alloc"@ || s == "option"@ || s == "vec"@ ||
        s == "collections"@ || s == "string"@ || s == "result"@ || s == "borrow"@ ||
        s == "boxed"@ || s == "cell"@ || s == "sync"@ || s == "rc"@ || s == "hash_map"@ ||
        s == "hash_set"@ || s == "btree_map"@ || s == "btree_set"@ || s == "linked_list"@
}

/// The guard on suffix matching for a path of several segments: `base` is a
/// common library type and some segment names a standard-library module.
pub open spec fn could_be_stdlib(names: Seq<Seq<char>>, base: Seq<char>) -> bool {
    common_type(base) && exists|i: int| 0 <= i < names.len() && stdlib_module(#[trigger] names[i])
}

/// A key rooted at `std`, `core` or `alloc`.
pub open spec fn std_rooted(k: Seq<char>) -> bool {
    has_prefix(k, "std::"@) || has_prefix(k, "core::"@) || has_prefix(k, "alloc::"@)
}

/// Preference among suffix candidates: rooted keys first, then fewer
/// separators, then the lexicographic order.
pub open spec fn candidate_le(a: Seq<char>, b: Seq<char>) -> bool {
    if std_rooted(a) != std_rooted(b) {
        std_rooted(a)
    } else if sep_count(a) != sep_count(b) {
        sep_count(a) < sep_count(b)
    } else {
        lex_le(a, b)
    }
}

/// A custom key that ends in `::base`.
pub open spec fn suffix_candidate(m: Map<Seq<char>, Seq<char>>, base: Seq<char>, k: Seq<char>) -> bool {
    m.contains_key(k) && has_suffix(k, sep() + base)
}

/// The candidate preferred over every other.
pub open spec fn best_candidate(m: Map<Seq<char>, Seq<char>>, base: Seq<char>, k: Seq<char>) -> bool {
    suffix_candidate(m, base, k) && forall|j: Seq<char>|
        #[trigger] suffix_candidate(m, base, j) ==> candidate_le(k, j)
}

/// The root prefixes tried for a built-in type.
pub open spec fn root_prefix(i: int) -> Seq<char> {
    if i == 0 {
        "std"@
    } else if i == 1 {
        "core"@
    } else {
        "alloc"@
    }
}

/// The module paths tried between a root prefix and a built-in type.
pub open spec fn module_infix(j: int) -> Seq<char> {
    if j == 0 {
        ""@
    } else if j == 1 {
        "primitive::"@
    } else if j == 2 {
        "string::"@
    } else if j == 3 {
        "vec::"@
    } else if j == 4 {
        "collections::"@
    } else if j == 5 {
        "collections::hash_map::"@
    } else if j == 6 {
        "collections::hash_set::"@
    } else if j == 7 {
        "collections::btree_map::"@
    } else if j == 8 {
        "collections::btree_set::"@
    } else if j == 9 {
        "collections::linked_list::"@
    } else if j == 10 {
        "option::"@
    } else if j == 11 {
        "result::"@
    } else if j == 12 {
        "boxed::"@
    } else if j == 13 {
        "borrow::"@
    } else if j == 14 {
        "cell::"@
    } else if j == 15 {
        "sync::"@
    } else {
        "rc::"@
    }
}

/// Number of root prefixes.
pub const N_ROOTS: usize = 3;

/// Number of module paths.
pub const N_INFIXES: usize = 17;

/// The `k`-th conventional full path of `base`, root-major.
pub open spec fn pattern(base: Seq<char>, k: int) -> Seq<char> {
    root_prefix(k / 17) + sep() + module_infix(k % 17) + base
}

/// The built-in mapping of the first conventional full path of `base`, from
/// the `k`-th on, that has one.
pub open spec fn pattern_hit(base: Seq<char>, g: TypeGroups, k: int) -> Option<Seq<char>>
    decreases 51 - k,
{
    if k < 0 || k >= 51 {
        None
    } else if builtin_mapping(pattern(base, k), g) is Some {
        builtin_mapping(pattern(base, k), g)
    } else {
        pattern_hit(base, g, k + 1)
    }
}

/// Suffix matching: an exact hit on `base`; else the value of the preferred
/// custom key ending in `::base`; else, with some group enabled, the built-in
/// mapping of `base` or of its first conventional full path that has one.
pub open spec fn find_ending(m: Map<Seq<char>, Seq<char>>, g: TypeGroups, base: Seq<char>) -> Option<
    Seq<char>,
> {
    if exact(m, g, base) is Some {
        exact(m, g, base)
    } else if exists|k: Seq<char>| suffix_candidate(m, base, k) {
        Some(m[choose|k: Seq<char>| best_candidate(m, base, k)])
    } else if no_groups(g) {
        None
    } else if builtin_mapping(base, g) is Some {
        builtin_mapping(base, g)
    } else {
        pattern_hit(base, g, 0)
    }
}

/// Progressive shortening from split point `start`: the names strictly
/// between `start` and the last, followed by `base`, looked up exactly; at the
/// last split point `base` alone, then suffix matching under the guard.
pub open spec fn progressive_from(
    m: Map<Seq<char>, Seq<char>>,
    g: TypeGroups,
    names: Seq<Seq<char>>,
    base: Seq<char>,
    start: int,
) -> Option<Seq<char>>
    decreases names.len() - start,
{
    if start < 0 || start >= names.len() {
        None
    } else if start == names.len() - 1 {
        if exact(m, g, base) is Some {
            exact(m, g, base)
        } else if could_be_stdlib(names, base) {
            find_ending(m, g, base)
        } else {
            None
        }
    } else {
        let key = join(names.subrange(start, names.len() - 1).push(base));
        if exact(m, g, key) is Some {
            exact(m, g, key)
        } else {
            progressive_from(m, g, names, base, start + 1)
        }
    }
}

/// Progressive path resolution of `base` for a path with segment names `names`.
pub open spec fn progressive(
    m: Map<Seq<char>, Seq<char>>,
    g: TypeGroups,
    names: Seq<Seq<char>>,
    base: Seq<char>,
) -> Option<Seq<char>> {
    if names.len() == 1 {
        find_ending(m, g, base)
    } else {
        progressive_from(m, g, names, base, 0)
    }
}

/// What a path resolves to: the exact match of its normalized key, else
/// progressive resolution of its last name.
pub open spec fn resolve_path(
    m: Map<Seq<char>, Seq<char>>,
    g: TypeGroups,
    segs: Seq<(Seq<char>, bool)>,
) -> Option<Seq<char>> {
    if exact(m, g, normalize(segs)) is Some {
        exact(m, g, normalize(segs))
    } else if segs.len() == 0 {
        None
    } else {
        progressive(m, g, clean_names(segs), clean_names(segs).last())
    }
}

/// Whether `b` is a common library type name.
fn is_common_type(b: &str) -> (r: bool)
    ensures
        r == common_type(b@),
{
    str_eq(b, "Option") || str_eq(b, "Vec") || str_eq(b, "HashMap") || str_eq(b, "HashSet") ||
        str_eq(b, "Result") || str_eq(b, "String") || str_eq(b, "Box") ||
        str_eq(b, "BTreeMap") || str_eq(b, "BTreeSet") || str_eq(b, "LinkedList") ||
        str_eq(b, "Cow") || str_eq(b, "RefCell") || str_eq(b, "Arc") || str_eq(b, "Rc")
}

/// Whether `s` is a standard-library module name.
fn is_stdlib_module(s: &str) -> (r: bool)
    ensures
        r == stdlib_module(s@),
{
    str_eq(s, "std") || str_eq(s, "core") || str_eq(s, "alloc") || str_eq(s, "option") ||
        str_eq(s, "vec") || str_eq(s, "collections") || str_eq(s, "string") ||
        str_eq(s, "result") || str_eq(s, "borrow") || str_eq(s, "boxed") ||
        str_eq(s, "cell") || str_eq(s, "sync") || str_eq(s, "rc") || str_eq(s, "hash_map") ||
        str_eq(s, "hash_set") || str_eq(s, "btree_map") || str_eq(s, "btree_set") ||
        str_eq(s, "linked_list")
}

/// The `i`-th root prefix.
fn root_prefix_at(i: usize) -> (r: &'static str)
    ensures
        r@ == root_prefix(i as int),
{
    if i == 0 {
        "std"
    } else if i == 1 {
        "core"
    } else {
        "alloc"
    }
}

/// The `j`-th module path.
fn module_infix_at(j: usize) -> (r: &'static str)
    ensures
        r@ == module_infix(j as int),
{
    if j == 0 {
        ""
    } else if j == 1 {
        "primitive::"
    } else if j == 2 {
        "string::"
    } else if j == 3 {
        "vec::"
    } else if j == 4 {
        "collections::"
    } else if j == 5 {
        "collections::hash_map::"
    } else if j == 6 {
        "collections::hash_set::"
    } else if j == 7 {
        "collections::btree_map::"
    } else if j == 8 {
        "collections::btree_set::"
    } else if j == 9 {
        "collections::linked_list::"
    } else if j == 10 {
        "option::"
    } else if j == 11 {
        "result::"
    } else if j == 12 {
        "boxed::"
    } else if j == 13 {
        "borrow::"
    } else if j == 14 {
        "cell::"
    } else if j == 15 {
        "sync::"
    } else {
        "rc::"
    }
}

/// Whether `k` starts with `std::`, `core::` or `alloc::`.
fn is_std_rooted(k: &str) -> (r: bool)
    ensures
        r == std_rooted(k@),
{
    starts_with(k, "std::") || starts_with(k, "core::") || starts_with(k, "alloc::")
}

proof fn lemma_lex_reflexive(a: Seq<char>)
    ensures
        lex_le(a, a),
    decreases a.len(),
{
    if a.len() > 0 {
        lemma_lex_reflexive(a.drop_first());
    }
}

/// The preference order among suffix candidates is a total order.
pub proof fn lemma_candidate_order(a: Seq<char>, b: Seq<char>, c: Seq<char>)
    ensures
        candidate_le(a, a),
        candidate_le(a, b) || candidate_le(b, a),
        candidate_le(a, b) && candidate_le(b, a) ==> a == b,
        candidate_le(a, b) && candidate_le(b, c) ==> candidate_le(a, c),
{
    lemma_lex_reflexive(a);
    lemma_lex_total(a, b);
    if lex_le(a, b) && lex_le(b, a) {
        lemma_lex_antisymmetric(a, b);
    }
    if lex_le(a, b) && lex_le(b, c) {
        lemma_lex_transitive(a, b, c);
    }
}

/// At most one key is the preferred candidate.
proof fn lemma_best_unique(m: Map<Seq<char>, Seq<char>>, base: Seq<char>, a: Seq<char>, b: Seq<char>)
    requires
        best_candidate(m, base, a),
        best_candidate(m, base, b),
    ensures
        a == b,
{
    lemma_candidate_order(a, b, a);
}

/// Whether `a` is preferred to `b` among suffix candidates.
fn candidate_precedes(a: &str, b: &str) -> (r: bool)
    ensures
        r == candidate_le(a@, b@),
{
    let ra = is_std_rooted(a);
    let rb = is_std_rooted(b);
    if ra != rb {
        return ra;
    }
    let ca = count_sep(a);
    let cb = count_sep(b);
    if ca != cb {
        return ca < cb;
    }
    lex_le_str(a, b)
}

proof fn lemma_join_push(s: Seq<Seq<char>>, x: Seq<char>)
    requires
        s.len() >= 1,
    ensures
        join(s.push(x)) == join(s) + sep() + x,
{
    assert(s.push(x).drop_last() =~= s);
}

/// The names of the segments of `path`, raw markers removed.
fn clean_segment_names(path: &Path) -> (r: Vec<&str>)
    ensures
        strs_view(r@) == clean_names(path@.1),
{
    let mut r: Vec<&str> = Vec::new();
    let mut i: usize = 0;
    while i < path.segments.len()
        invariant
            i <= path.segments@.len(),
            r@.len() == i,
            forall|j: int| 0 <= j < i ==> #[trigger] r@[j]@ == unraw(path@.1[j].0),
        decreases path.segments.len() - i,
    {
        r.push(strip_raw_prefix(path.segments[i].ident.as_str()));
        i = i + 1;
    }
    assert(strs_view(r@) =~= clean_names(path@.1));
    r
}

/// The normalized key of a path pattern given as text: a leading `::`
/// dropped and the `r#` of each piece removed.
pub fn normalize_pattern_text(path_str: &str) -> (r: String)
    ensures
        r@ == normalize_pattern(path_str@),
{
    let rest = if starts_with(path_str, sep_str()) {
        path_str.substring_char(2, path_str.unicode_len())
    } else {
        path_str
    };
    let pieces = crate::text::split_sep_str(rest);
    let mut cleaned: Vec<&str> = Vec::new();
    let mut i: usize = 0;
    while i < pieces.len()
        invariant
            i <= pieces@.len(),
            cleaned@.len() == i,
            forall|j: int| 0 <= j < i ==> #[trigger] cleaned@[j]@ == unraw(pieces@[j]@),
        decreases pieces.len() - i,
    {
        cleaned.push(strip_raw_prefix(pieces[i]));
        i = i + 1;
    }
    assert(strs_view(cleaned@) =~= split_pieces(rest@).map_values(|p: Seq<char>| unraw(p))) by {
        assert(strs_view(pieces@) == split_pieces(rest@));
        assert forall|j: int| 0 <= j < cleaned@.len() implies strs_view(cleaned@)[j]
            == unraw(split_pieces(rest@)[j]) by {
            assert(strs_view(pieces@)[j] == pieces@[j]@);
        }
    }
    assert(strs_view(cleaned@).subrange(0, cleaned@.len() as int) =~= strs_view(cleaned@));
    join_parts(&cleaned, 0, cleaned.len())
}

/// Resolves type paths to canonical names through a table of custom
/// mappings and the enabled built-in type groups.
pub struct PathResolver<M> {
    mappings: M,
    groups: TypeGroups,
}

/// A resolver whose mappings can change at run time.
pub type DynamicPathResolver = PathResolver<MappingTable>;

/// A resolver with no custom mappings, only the built-in groups.
pub type PrimitivePathResolver = PathResolver<EmptyStorage>;

/// A resolver over mappings fixed at compile time in a `phf::Map`.
pub type StaticPathResolver = PathResolver<PhfTable>;

impl<M: MappingStorage> PathResolver<M> {
    /// The custom mappings.
    pub closed spec fn table(&self) -> Map<Seq<char>, Seq<char>> {
        self.mappings.mapping()
    }

    /// The enabled groups.
    pub closed spec fn type_groups(&self) -> TypeGroups {
        self.groups
    }

    /// A resolver over `mappings` with the groups `groups`; the keys are used
    /// as stored.
    pub fn new(mappings: M, groups: TypeGroups) -> (r: Self)
        ensures
            r.table() == mappings.mapping(),
            r.type_groups() == groups,
    {
        PathResolver { mappings, groups }
    }

    /// The groups in use.
    pub fn groups(&self) -> (r: TypeGroups)
        ensures
            r == self.type_groups(),
    {
        self.groups
    }

    /// Whether any group is enabled.
    pub fn uses_groups(&self) -> (r: bool)
        ensures
            r == !no_groups(self.type_groups()),
    {
        !self.groups.is_empty()
    }

    /// Whether primitive mappings are enabled.
    pub fn uses_primitives(&self) -> (r: bool)
        ensures
            r == self.type_groups().primitives,
    {
        self.groups.primitives
    }

    /// Whether prelude mappings are enabled.
    pub fn uses_prelude(&self) -> (r: bool)
        ensures
            r == self.type_groups().prelude,
    {
        self.groups.prelude
    }

    /// Whether common standard-library mappings are enabled.
    pub fn uses_common_std(&self) -> (r: bool)
        ensures
            r == self.type_groups().common_std,
    {
        self.groups.common_std
    }

    /// Looks `key` up in the custom mappings, then in the enabled groups.
    fn try_resolve_base_type(&self, key: &str) -> (r: Option<&str>)
        ensures
            opt_chars(r) == exact(self.table(), self.type_groups(), key@),
    {
        if let Some(canonical) = self.mappings.get(key) {
            return Some(canonical);
        }
        if !self.groups.is_empty() {
            return get_builtin_mapping(key, self.groups);
        }
        None
    }

    /// Whether a path with names `segments` ending in `base` may be a
    /// shortened standard-library path.
    fn could_be_stdlib_shortening(&self, segments: &Vec<&str>, base_type: &str) -> (r: bool)
        ensures
            r == could_be_stdlib(strs_view(segments@), base_type@),
    {
        if !is_common_type(base_type) {
            return false;
        }
        let mut i: usize = 0;
        while i < segments.len()
            invariant
                i <= segments@.len(),
                common_type(base_type@),
                forall|j: int| 0 <= j < i ==> !stdlib_module(#[trigger] strs_view(segments@)[j]),
            decreases segments.len() - i,
        {
            if is_stdlib_module(segments[i]) {
                assert(stdlib_module(strs_view(segments@)[i as int]));
                assert(strs_view(segments@).len() == segments@.len());
                return true;
            }
            i = i + 1;
        }
        false
    }

    /// Suffix matching for `base_type`: see `find_ending`.
    fn find_mapping_ending_with(&self, base_type: &str) -> (r: Option<&str>)
        ensures
            opt_chars(r) == find_ending(self.table(), self.type_groups(), base_type@),
    {
        if let Some(result) = self.try_resolve_base_type(base_type) {
            return Some(result);
        }
        let ghost m = self.table();
        let ghost base = base_type@;
        let mut suffix = String::new();
        suffix.append(sep_str());
        suffix.append(base_type);
        let keys = self.mappings.keys();
        let mut best: Option<(&str, &str)> = None;
        let mut i: usize = 0;
        while i < keys.len()
            invariant
                i <= keys@.len(),
                m == self.table(),
                keys_listed(keys@, m),
                suffix@ == sep() + base,
                best is None ==> forall|j: int|
                    0 <= j < i ==> !suffix_candidate(m, base, #[trigger] keys@[j]@),
                best matches Some(b) ==> {
                    &&& suffix_candidate(m, base, b.0@)
                    &&& b.1@ == m[b.0@]
                    &&& forall|j: int|
                        0 <= j < i && suffix_candidate(m, base, #[trigger] keys@[j]@)
                            ==> candidate_le(b.0@, keys@[j]@)
                },
            decreases keys.len() - i,
        {
            let key = keys[i];
            if ends_with(key, suffix.as_str()) {
                assert(m.contains_key(key@));
                if let Some(result) = self.try_resolve_base_type(key) {
                    let take = match best {
                        None => true,
                        Some(b) => candidate_precedes(key, b.0),
                    };
                    proof {
                        if let Some(b) = best {
                            assert forall|j: int|
                                0 <= j < i + 1 && suffix_candidate(m, base, #[trigger] keys@[j]@)
                                    implies candidate_le(
                                    (if take { key@ } else { b.0@ }),
                                    keys@[j]@,
                                ) by {
                                lemma_candidate_order(key@, b.0@, keys@[j]@);
                                lemma_candidate_order(b.0@, key@, keys@[j]@);
                            }
                        } else {
                            lemma_candidate_order(key@, key@, key@);
                        }
                    }
                    if take {
                        best = Some((key, result));
                    }
                }
            }
            i = i + 1;
        }
        if let Some(b) = best {
            proof {
                assert forall|j: Seq<char>| #[trigger] suffix_candidate(m, base, j) implies candidate_le(
                    b.0@,
                    j,
                ) by {
                    let n = choose|n: int| 0 <= n < keys@.len() && #[trigger] keys@[n]@ == j;
                    assert(keys@[n]@ == j);
                }
                assert(best_candidate(m, base, b.0@));
                let c = choose|k: Seq<char>| best_candidate(m, base, k);
                lemma_best_unique(m, base, b.0@, c);
            }
            return Some(b.1);
        }
        proof {
            assert forall|k: Seq<char>| !suffix_candidate(m, base, k) by {
                if suffix_candidate(m, base, k) {
                    let n = choose|n: int| 0 <= n < keys@.len() && #[trigger] keys@[n]@ == k;
                    assert(keys@[n]@ == k);
                }
            }
        }
        if !self.groups.is_empty() {
            if let Some(result) = get_builtin_mapping(base_type, self.groups) {
                return Some(result);
            }
            return self.check_builtin_patterns(base_type);
        }
        None
    }

    /// Progressive path resolution of `base_type` for a path whose names are
    /// `segments`: see `progressive`.
    fn resolve_with_progressive_paths(&self, segments: &Vec<&str>, base_type: &str) -> (r: Option<
        &str,
    >)
        ensures
            opt_chars(r) == progressive(
                self.table(),
                self.type_groups(),
                strs_view(segments@),
                base_type@,
            ),
    {
        let ghost names = strs_view(segments@);
        let ghost m = self.table();
        let ghost g = self.type_groups();
        let n = segments.len();
        if n == 1 {
            return self.find_mapping_ending_with(base_type);
        }
        let mut start: usize = 0;
        while start < n
            invariant
                n == segments@.len(),
                n != 1,
                names == strs_view(segments@),
                m == self.table(),
                g == self.type_groups(),
                start <= n,
                progressive(m, g, names, base_type@) == progressive_from(
                    m,
                    g,
                    names,
                    base_type@,
                    start as int,
                ),
            decreases n - start,
        {
            if start == n - 1 {
                if let Some(result) = self.try_resolve_base_type(base_type) {
                    return Some(result);
                }
                if self.could_be_stdlib_shortening(segments, base_type) {
                    return self.find_mapping_ending_with(base_type);
                }
            } else {
                let mut candidate = join_parts(segments, start, n - 1);
                candidate.append(sep_str());
                candidate.append(base_type);
                proof {
                    lemma_join_push(names.subrange(start as int, n - 1), base_type@);
                }
                if let Some(result) = self.try_resolve_base_type(candidate.as_str()) {
                    return Some(result);
                }
            }
            start = start + 1;
        }
        None
    }

    /// Resolves `path` to its canonical type name, if it has one.
    ///
    /// The normalized path is looked up exactly first; failing that, its last
    /// name (the base type, generic arguments aside) goes through progressive
    /// path resolution: shorter and shorter paths ending in it, then, where
    /// allowed, suffix matching over the custom keys and the built-in groups.
    pub fn resolve(&self, path: &Path) -> (r: Option<&str>)
        ensures
            opt_chars(r) == resolve_path(self.table(), self.type_groups(), path@.1),
    {
        let names = clean_segment_names(path);
        let full_normalized = join_parts(&names, 0, names.len());
        assert(strs_view(names@).subrange(0, names@.len() as int) =~= strs_view(names@));
        if let Some(result) = self.try_resolve_base_type(full_normalized.as_str()) {
            return Some(result);
        }
        if names.len() == 0 {
            return None;
        }
        let base_type = names[names.len() - 1];
        self.resolve_with_progressive_paths(&names, base_type)
    }

    /// The normalized key of `path`: its unmarked names joined by `::`.
    pub fn normalize_path(&self, path: &Path) -> (r: String)
        ensures
            r@ == normalize(path@.1),
    {
        let names = clean_segment_names(path);
        assert(strs_view(names@).subrange(0, names@.len() as int) =~= strs_view(names@));
        join_parts(&names, 0, names.len())
    }

    /// The normalized key of a path pattern given as text: a leading `::`
    /// dropped and the `r#` of each piece removed.
    pub fn normalize_path_string(&self, path_str: &str) -> (r: String)
        ensures
            r@ == normalize_pattern(path_str@),
    {
        normalize_pattern_text(path_str)
    }

    /// Whether the normalized form of `path` has a mapping, custom or built-in.
    pub fn has_mapping(&self, path: &Path) -> (r: bool)
        ensures
            r == (self.table().contains_key(normalize(path@.1)) || builtin_mapping(
                normalize(path@.1),
                self.type_groups(),
            ) is Some),
    {
        let normalized = self.normalize_path(path);
        self.mappings.contains_key(normalized.as_str()) || (!self.groups.is_empty()
            && get_builtin_mapping(normalized.as_str(), self.groups).is_some())
    }

    /// The number of custom mappings; the built-in groups are not counted.
    pub fn len(&self) -> (r: usize)
        ensures
            r == self.table().len(),
    {
        self.mappings.len()
    }

    /// Whether there is no custom mapping and no group is enabled.
    pub fn is_empty(&self) -> (r: bool)
        ensures
            r == (self.table().len() == 0 && no_groups(self.type_groups())),
    {
        self.mappings.is_empty() && self.groups.is_empty()
    }

    /// The custom path patterns; the built-in groups' patterns are not listed.
    pub fn path_patterns(&self) -> (r: Vec<&str>)
        ensures
            keys_listed(r@, self.table()),
    {
        self.mappings.keys()
    }

    /// The canonical names known: those of the custom mappings, then, for
    /// each enabled group, its built-in names.
    pub fn canonical_types(&self) -> (r: Vec<&str>)
        ensures
            values_listed(r@.subrange(0, self.table().len() as int), self.table()),
            strs_view(r@.subrange(self.table().len() as int, r@.len() as int)) == builtin_names(
                self.type_groups(),
            ),
    {
        let mut r = self.mappings.values();
        let ghost custom = r@;
        let builtin = builtin_type_names(self.groups);
        let mut i: usize = 0;
        while i < builtin.len()
            invariant
                i <= builtin@.len(),
                r@.len() == custom.len() + i,
                r@.subrange(0, custom.len() as int) == custom,
                forall|j: int| 0 <= j < i ==> #[trigger] r@[custom.len() + j]@ == builtin@[j]@,
            decreases builtin.len() - i,
        {
            r.push(builtin[i]);
            assert(r@.subrange(0, custom.len() as int) =~= custom);
            i = i + 1;
        }
        proof {
            let tail = r@.subrange(custom.len() as int, r@.len() as int);
            assert forall|j: int| 0 <= j < tail.len() implies strs_view(tail)[j] == strs_view(
                builtin@,
            )[j] by {
                assert(tail[j] == r@[custom.len() + j]);
            }
            assert(strs_view(tail) =~= strs_view(builtin@));
        }
        r
    }

    /// The built-in mapping of the first conventional full path of `base`
    /// that has one.
    fn check_builtin_patterns(&self, base_type: &str) -> (r: Option<&'static str>)
        ensures
            opt_chars(r) == pattern_hit(base_type@, self.type_groups(), 0),
    {
        let mut k: usize = 0;
        while k < N_ROOTS * N_INFIXES
            invariant
                k <= 51,
                pattern_hit(base_type@, self.type_groups(), 0) == pattern_hit(
                    base_type@,
                    self.type_groups(),
                    k as int,
                ),
            decreases 51 - k,
        {
            let mut candidate = String::new();
            candidate.append(root_prefix_at(k / N_INFIXES));
            candidate.append(sep_str());
            candidate.append(module_infix_at(k % N_INFIXES));
            candidate.append(base_type);
            assert(candidate@ == pattern(base_type@, k as int));
            if let Some(result) = get_builtin_mapping(candidate.as_str(), self.groups) {
                return Some(result);
            }
            k = k + 1;
        }
        None
    }
}

impl PathResolver<MappingTable> {
    /// A resolver with no custom mappings and every group enabled.
    pub fn with_all_groups() -> (r: Self)
        ensures
            r.table() == Map::<Seq<char>, Seq<char>>::empty(),
            r.type_groups() == TypeGroups::all_spec(),
    {
        PathResolver::new(MappingTable::new(), TypeGroups::all())
    }

    /// A resolver with no custom mappings and the primitives only.
    pub fn with_primitives() -> (r: Self)
        ensures
            r.table() == Map::<Seq<char>, Seq<char>>::empty(),
            r.type_groups() == TypeGroups::primitives_spec(),
    {
        PathResolver::new(MappingTable::new(), TypeGroups::primitives_only())
    }

    /// A resolver with no custom mappings, the primitives and the prelude types.
    pub fn with_prelude() -> (r: Self)
        ensures
            r.table() == Map::<Seq<char>, Seq<char>>::empty(),
            r.type_groups() == TypeGroups::prelude_spec(),
    {
        PathResolver::new(MappingTable::new(), TypeGroups::with_prelude())
    }

    /// A resolver over the entries of an existing table, each key
    /// normalized; where two keys normalize alike, the later entry wins.
    pub fn from_map(mappings: MappingTable, groups: TypeGroups) -> (r: Self)
        ensures
            r.table() == table_after(Map::empty(), mappings.pairs()),
            r.type_groups() == groups,
    {
        let mut table = MappingTable::new();
        let n = mappings.count();
        let mut i: usize = 0;
        while i < n
            invariant
                n == mappings.pairs().len(),
                i <= n,
                table.table() == table_after(Map::empty(), mappings.pairs().take(i as int)),
            decreases n - i,
        {
            let (key, value) = mappings.entry(i);
            table.insert(normalize_pattern_text(key), value.to_owned());
            assert(mappings.pairs().take(i + 1).drop_last() =~= mappings.pairs().take(i as int));
            i = i + 1;
        }
        assert(mappings.pairs().take(n as int) =~= mappings.pairs());
        PathResolver::new(table, groups)
    }

    /// Replaces the enabled groups.
    pub fn set_groups(&mut self, groups: TypeGroups)
        ensures
            final(self).table() == old(self).table(),
            final(self).type_groups() == groups,
    {
        self.groups = groups;
    }

    /// Enables every group, or none.
    pub fn set_use_primitives(&mut self, use_primitives: bool)
        ensures
            final(self).table() == old(self).table(),
            final(self).type_groups() == (if use_primitives {
                TypeGroups::all_spec()
            } else {
                TypeGroups::none_spec()
            }),
    {
        self.groups = if use_primitives {
            TypeGroups::all()
        } else {
            TypeGroups::none()
        };
    }

    /// Maps the normalized form of `path_pattern` to `canonical_type`,
    /// replacing an earlier mapping of the same key.
    pub fn add_mapping(&mut self, path_pattern: &str, canonical_type: &str)
        ensures
            final(self).table() == old(self).table().insert(
                normalize_pattern(path_pattern@),
                canonical_type@,
            ),
            final(self).type_groups() == old(self).type_groups(),
    {
        let normalized_pattern = self.normalize_path_string(path_pattern);
        self.mappings.insert(normalized_pattern, canonical_type.to_owned());
    }

    /// Removes every custom mapping; the groups stay as they are.
    pub fn clear(&mut self)
        ensures
            final(self).table() == Map::<Seq<char>, Seq<char>>::empty(),
            final(self).type_groups() == old(self).type_groups(),
    {
        self.mappings.clear();
    }
}

impl Default for PathResolver<MappingTable> {
    fn default() -> (r: Self)
        ensures
            r.table() == Map::<Seq<char>, Seq<char>>::empty(),
            no_groups(r.type_groups()),
    {
        PathResolver::new(MappingTable::new(), TypeGroups::none())
    }
}

impl PathResolver<EmptyStorage> {
    /// A resolver with every group enabled and no custom mappings.
    pub fn all_groups() -> (r: Self)
        ensures
            r.table() == Map::<Seq<char>, Seq<char>>::empty(),
            r.type_groups() == TypeGroups::all_spec(),
    {
        PathResolver::new(EmptyStorage, TypeGroups::all())
    }

    /// A resolver with the primitives and the prelude types, no custom mappings.
    pub fn with_prelude() -> (r: Self)
        ensures
            r.table() == Map::<Seq<char>, Seq<char>>::empty(),
            r.type_groups() == TypeGroups::prelude_spec(),
    {
        PathResolver::new(EmptyStorage, TypeGroups::with_prelude())
    }

    /// A resolver with the primitives only, no custom mappings.
    pub fn primitives_only() -> (r: Self)
        ensures
            r.table() == Map::<Seq<char>, Seq<char>>::empty(),
            r.type_groups() == TypeGroups::primitives_spec(),
    {
        PathResolver::new(EmptyStorage, TypeGroups::primitives_only())
    }

    /// A resolver that resolves nothing.
    pub fn empty() -> (r: Self)
        ensures
            r.table() == Map::<Seq<char>, Seq<char>>::empty(),
            r.type_groups() == TypeGroups::none_spec(),
    {
        PathResolver::new(EmptyStorage, TypeGroups::none())
    }
}

/// A resolver over the compile-time mappings `custom_mappings`; `None` where
/// the map is not consistent (see `PhfTable::new`).
pub fn create_static_resolver(
    custom_mappings: &'static phf::Map<&'static str, &'static str>,
    groups: TypeGroups,
) -> (r: Option<StaticPathResolver>)
    ensures
        r is Some <==> phf_consistent(*custom_mappings),
        r matches Some(res) ==> res.table() == crate::phf_storage::pairs_map(
            crate::phf_storage::phf_entry_seq(*custom_mappings),
        ) && res.type_groups() == groups,
{
    match PhfTable::new(custom_mappings) {
        Some(table) => Some(PathResolver::new(table, groups)),
        None => None,
    }
}

} // verus!
