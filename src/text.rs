//! Character-level string helpers with exact specifications.

use vstd::prelude::*;

verus! {

/// Every character is ASCII.
pub open spec fn ascii(s: Seq<char>) -> bool {
    forall|i: int| 0 <= i < s.len() ==> (#[trigger] s[i] as int) < 128
}

/// The path separator `::` as a character sequence.
pub open spec fn sep() -> Seq<char> {
    seq![':', ':']
}

/// `s` begins with `p`.
pub open spec fn has_prefix(s: Seq<char>, p: Seq<char>) -> bool {
    p.len() <= s.len() && s.subrange(0, p.len() as int) == p
}

/// `s` ends with `p`.
pub open spec fn has_suffix(s: Seq<char>, p: Seq<char>) -> bool {
    p.len() <= s.len() && s.subrange(s.len() - p.len(), s.len() as int) == p
}

/// Number of non-overlapping `::` found scanning from the left, as
/// `str::matches("::").count()` counts them.
pub open spec fn sep_count(s: Seq<char>) -> nat
    decreases s.len(),
{
    if s.len() < 2 {
        0
    } else if s[0] == ':' && s[1] == ':' {
        1 + sep_count(s.subrange(2, s.len() as int))
    } else {
        sep_count(s.subrange(1, s.len() as int))
    }
}

/// Lexicographic order on characters by code point, the order of `str::cmp`.
pub open spec fn lex_le(a: Seq<char>, b: Seq<char>) -> bool
    decreases a.len(),
{
    if a.len() == 0 {
        true
    } else if b.len() == 0 {
        false
    } else if a[0] as int != b[0] as int {
        (a[0] as int) < (b[0] as int)
    } else {
        lex_le(a.drop_first(), b.drop_first())
    }
}

/// Joins the parts with `::` between neighbours.
pub open spec fn join(parts: Seq<Seq<char>>) -> Seq<char>
    decreases parts.len(),
{
    if parts.len() == 0 {
        Seq::empty()
    } else if parts.len() == 1 {
        parts[0]
    } else {
        join(parts.drop_last()) + sep() + parts.last()
    }
}

pub proof fn lemma_lex_antisymmetric(a: Seq<char>, b: Seq<char>)
    requires
        lex_le(a, b),
        lex_le(b, a),
    ensures
        a == b,
    decreases a.len(),
{
    if a.len() > 0 && b.len() > 0 {
        assert(a[0] as int == b[0] as int);
        lemma_lex_antisymmetric(a.drop_first(), b.drop_first());
        assert(a =~= seq![a[0]] + a.drop_first());
        assert(b =~= seq![b[0]] + b.drop_first());
    } else {
        assert(a.len() == 0 && b.len() == 0);
        assert(a =~= b);
    }
}

pub proof fn lemma_lex_total(a: Seq<char>, b: Seq<char>)
    ensures
        lex_le(a, b) || lex_le(b, a),
    decreases a.len(),
{
    if a.len() > 0 && b.len() > 0 && a[0] as int == b[0] as int {
        lemma_lex_total(a.drop_first(), b.drop_first());
    }
}

pub proof fn lemma_lex_transitive(a: Seq<char>, b: Seq<char>, c: Seq<char>)
    requires
        lex_le(a, b),
        lex_le(b, c),
    ensures
        lex_le(a, c),
    decreases a.len(),
{
    if a.len() > 0 && b.len() > 0 && c.len() > 0 && a[0] as int == b[0] as int && b[0] as int
        == c[0] as int {
        lemma_lex_transitive(a.drop_first(), b.drop_first(), c.drop_first());
    }
}

/// `a == b` on character sequences.
pub fn str_eq(a: &str, b: &str) -> (r: bool)
    ensures
        r == (a@ == b@),
{
    let n = a.unicode_len();
    let m = b.unicode_len();
    if n != m {
        return false;
    }
    let mut i: usize = 0;
    while i < n
        invariant
            n == a@.len(),
            m == b@.len(),
            n == m,
            i <= n,
            a@.subrange(0, i as int) == b@.subrange(0, i as int),
        decreases n - i,
    {
        if a.get_char(i) != b.get_char(i) {
            return false;
        }
        assert(a@.subrange(0, i + 1) =~= a@.subrange(0, i as int).push(a@[i as int]));
        assert(b@.subrange(0, i + 1) =~= b@.subrange(0, i as int).push(b@[i as int]));
        i = i + 1;
    }
    assert(a@ =~= a@.subrange(0, n as int));
    assert(b@ =~= b@.subrange(0, n as int));
    true
}

/// Whether `s` holds `p` at character offset `at`.
fn matches_at(s: &str, p: &str, at: usize) -> (r: bool)
    requires
        at <= s@.len(),
    ensures
        r == (at + p@.len() <= s@.len() && s@.subrange(at as int, at + p@.len()) == p@),
{
    let n = s.unicode_len();
    let m = p.unicode_len();
    if m > n - at {
        return false;
    }
    let mut i: usize = 0;
    while i < m
        invariant
            n == s@.len(),
            m == p@.len(),
            at + m <= n,
            i <= m,
            s@.subrange(at as int, at + i) == p@.subrange(0, i as int),
        decreases m - i,
    {
        if s.get_char(at + i) != p.get_char(i) {
            assert(s@.subrange(at as int, at + m)[i as int] == s@[at + i]);
            return false;
        }
        assert(s@.subrange(at as int, at + i + 1) =~= s@.subrange(at as int, at + i).push(
            s@[at + i],
        ));
        assert(p@.subrange(0, i + 1) =~= p@.subrange(0, i as int).push(p@[i as int]));
        i = i + 1;
    }
    assert(p@ =~= p@.subrange(0, m as int));
    true
}

/// `s` begins with `p`.
pub fn starts_with(s: &str, p: &str) -> (r: bool)
    ensures
        r == has_prefix(s@, p@),
{
    matches_at(s, p, 0)
}

/// `s` ends with `p`.
pub fn ends_with(s: &str, p: &str) -> (r: bool)
    ensures
        r == has_suffix(s@, p@),
{
    let n = s.unicode_len();
    let m = p.unicode_len();
    if m > n {
        return false;
    }
    matches_at(s, p, n - m)
}

/// `lex_le(a@, b@)`, computed.
pub fn lex_le_str(a: &str, b: &str) -> (r: bool)
    ensures
        r == lex_le(a@, b@),
{
    let n = a.unicode_len();
    let m = b.unicode_len();
    let mut i: usize = 0;
    assert(a@.subrange(0, n as int) =~= a@);
    assert(b@.subrange(0, m as int) =~= b@);
    while i < n && i < m
        invariant
            n == a@.len(),
            m == b@.len(),
            i <= n,
            i <= m,
            lex_le(a@, b@) == lex_le(a@.subrange(i as int, n as int), b@.subrange(i as int, m as int)),
        decreases n - i,
    {
        let x = a.get_char(i);
        let y = b.get_char(i);
        let ghost sa = a@.subrange(i as int, n as int);
        let ghost sb = b@.subrange(i as int, m as int);
        assert(sa[0] == x && sb[0] == y);
        if (x as u32) != (y as u32) {
            return (x as u32) < (y as u32);
        }
        assert(sa.drop_first() =~= a@.subrange(i + 1, n as int));
        assert(sb.drop_first() =~= b@.subrange(i + 1, m as int));
        i = i + 1;
    }
    i == n
}

/// `sep_count(s@)`, computed.
pub fn count_sep(s: &str) -> (r: usize)
    ensures
        r == sep_count(s@),
{
    let n = s.unicode_len();
    let mut i: usize = 0;
    let mut count: usize = 0;
    assert(s@.subrange(0, n as int) =~= s@);
    while i < n
        invariant
            n == s@.len(),
            i <= n,
            count <= i,
            count + sep_count(s@.subrange(i as int, n as int)) == sep_count(s@),
        decreases n - i,
    {
        let ghost t = s@.subrange(i as int, n as int);
        if i + 1 < n && s.get_char(i) == ':' && s.get_char(i + 1) == ':' {
            assert(t.subrange(2, t.len() as int) =~= s@.subrange(i + 2, n as int));
            count = count + 1;
            i = i + 2;
        } else {
            proof {
                if t.len() >= 2 {
                    assert(t.subrange(1, t.len() as int) =~= s@.subrange(i + 1, n as int));
                } else {
                    assert(sep_count(s@.subrange(i + 1, n as int)) == 0);
                }
            }
            i = i + 1;
        }
    }
    assert(sep_count(s@.subrange(n as int, n as int)) == 0);
    count
}

} // verus!

verus! {

/// The characters of an optional string.
pub open spec fn opt_chars(o: Option<&str>) -> Option<Seq<char>> {
    match o {
        Some(s) => Some(s@),
        None => None,
    }
}

} // verus!

verus! {

/// The characters of each string.
pub open spec fn strs_view(v: Seq<&str>) -> Seq<Seq<char>> {
    v.map_values(|s: &str| s@)
}

/// The separator `::`.
pub fn sep_str() -> (r: &'static str)
    ensures
        r@ == sep(),
{
    proof {
        reveal_strlit("::");
    }
    "::"
}

proof fn lemma_join_step(v: Seq<Seq<char>>, from: int, i: int)
    requires
        0 <= from < i,
        i < v.len(),
    ensures
        join(v.subrange(from, i + 1)) == join(v.subrange(from, i)) + sep() + v[i],
{
    assert(v.subrange(from, i + 1).drop_last() =~= v.subrange(from, i));
}

/// Joins `parts[from..to]` with `::`.
pub fn join_parts(parts: &Vec<&str>, from: usize, to: usize) -> (r: String)
    requires
        from <= to <= parts@.len(),
    ensures
        r@ == join(strs_view(parts@).subrange(from as int, to as int)),
{
    let mut acc = String::new();
    let mut i: usize = from;
    let ghost v = strs_view(parts@);
    while i < to
        invariant
            from <= i <= to,
            to <= parts@.len(),
            v == strs_view(parts@),
            acc@ == join(v.subrange(from as int, i as int)),
        decreases to - i,
    {
        if i > from {
            acc.append(sep_str());
            acc.append(parts[i]);
            proof {
                lemma_join_step(v, from as int, i as int);
            }
        } else {
            acc.append(parts[i]);
            assert(v.subrange(from as int, i + 1) =~= seq![v[i as int]]);
            assert(acc@ =~= v[i as int]);
        }
        i = i + 1;
    }
    acc
}

/// The pieces of `s[start..]` that a left-to-right scan for `::` from
/// position `i` yields, the current piece having begun at `start`.
pub open spec fn split_scan(s: Seq<char>, start: int, i: int) -> Seq<Seq<char>>
    decreases s.len() - i,
{
    if i < 0 || i >= s.len() {
        seq![s.subrange(start, s.len() as int)]
    } else if i + 2 <= s.len() && s[i] == ':' && s[i + 1] == ':' {
        seq![s.subrange(start, i)] + split_scan(s, i + 2, i + 2)
    } else {
        split_scan(s, start, i + 1)
    }
}

/// The pieces between the `::` of `s`, as `str::split("::")` yields them.
pub open spec fn split_pieces(s: Seq<char>) -> Seq<Seq<char>> {
    split_scan(s, 0, 0)
}

/// Splits `s` at every `::`.
pub fn split_sep_str(s: &str) -> (r: Vec<&str>)
    ensures
        strs_view(r@) == split_pieces(s@),
{
    let n = s.unicode_len();
    let mut r: Vec<&str> = Vec::new();
    let mut start: usize = 0;
    let mut i: usize = 0;
    while i < n
        invariant
            n == s@.len(),
            start <= i <= n,
            strs_view(r@) + split_scan(s@, start as int, i as int) == split_pieces(s@),
        decreases n - i,
    {
        if i + 1 < n && s.get_char(i) == ':' && s.get_char(i + 1) == ':' {
            let piece = s.substring_char(start, i);
            let ghost old_r = strs_view(r@);
            r.push(piece);
            assert(strs_view(r@) =~= old_r.push(piece@));
            assert(strs_view(r@) + split_scan(s@, i + 2, i + 2) =~= old_r + (seq![piece@]
                + split_scan(s@, i + 2, i + 2)));
            i = i + 2;
            start = i;
        } else {
            i = i + 1;
        }
    }
    let piece = s.substring_char(start, n);
    let ghost old_r = strs_view(r@);
    r.push(piece);
    assert(strs_view(r@) =~= old_r.push(piece@));
    assert(old_r.push(piece@) =~= old_r + seq![piece@]);
    r
}

} // verus!
