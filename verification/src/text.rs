use vstd::prelude::*;

verus! {

/// ASCII lowercasing of a single character, the case folding that both the
/// kind vocabulary and the fuzzy matcher use.
pub open spec fn lower_char(c: char) -> char {
    if 'A' <= c && c <= 'Z' {
        ((c as u8) + 32) as char
    } else {
        c
    }
}

/// ASCII lowercasing of a character sequence.
pub open spec fn lower_seq(s: Seq<char>) -> Seq<char> {
    s.map_values(|c: char| lower_char(c))
}

pub fn to_lower_char(c: char) -> (r: char)
    ensures
        r == lower_char(c),
{
    if 'A' <= c && c <= 'Z' {
        ((c as u8) + 32) as char
    } else {
        c
    }
}

/// Character-for-character equality of two string slices.
pub fn str_eq(a: &str, b: &str) -> (r: bool)
    ensures
        r == (a@ == b@),
{
    let n = a.unicode_len();
    if n != b.unicode_len() {
        proof {
            assert(a@ != b@);
        }
        return false;
    }
    for i in 0..n
        invariant
            n == a@.len() && n == b@.len(),
            forall|k: int| 0 <= k < i ==> a@[k] == b@[k],
    {
        if a.get_char(i) != b.get_char(i) {
            return false;
        }
    }
    proof {
        assert(a@ =~= b@);
    }
    true
}

/// Whether `p` is a prefix of `s`.
pub open spec fn has_prefix(s: Seq<char>, p: Seq<char>) -> bool {
    p.len() <= s.len() && s.take(p.len() as int) == p
}

/// Whether `p` is a suffix of `s`.
pub open spec fn has_suffix(s: Seq<char>, p: Seq<char>) -> bool {
    p.len() <= s.len() && s.skip(s.len() - p.len()) == p
}

pub fn str_has_prefix(s: &str, p: &str) -> (r: bool)
    ensures
        r == has_prefix(s@, p@),
{
    let n = s.unicode_len();
    let m = p.unicode_len();
    if m > n {
        return false;
    }
    for i in 0..m
        invariant
            n == s@.len() && m == p@.len() && m <= n,
            forall|k: int| 0 <= k < i ==> s@[k] == p@[k],
    {
        if s.get_char(i) != p.get_char(i) {
            proof {
                assert(s@.take(m as int)[i as int] != p@[i as int]);
            }
            return false;
        }
    }
    proof {
        assert(s@.take(m as int) =~= p@);
    }
    true
}

pub fn str_has_suffix(s: &str, p: &str) -> (r: bool)
    ensures
        r == has_suffix(s@, p@),
{
    let n = s.unicode_len();
    let m = p.unicode_len();
    if m > n {
        return false;
    }
    let off = n - m;
    for i in 0..m
        invariant
            n == s@.len() && m == p@.len() && m <= n && off == n - m,
            forall|k: int| 0 <= k < i ==> s@[off + k] == p@[k],
    {
        if s.get_char(off + i) != p.get_char(i) {
            proof {
                assert(s@.skip(off as int)[i as int] != p@[i as int]);
            }
            return false;
        }
    }
    proof {
        assert(s@.skip(off as int) =~= p@);
    }
    true
}

/// The pieces of `s` between occurrences of the separator `sep`; splitting
/// the empty sequence yields one empty piece.
pub open spec fn spec_split(s: Seq<char>, sep: char) -> Seq<Seq<char>>
    decreases s.len(),
{
    if s.len() == 0 {
        seq![Seq::<char>::empty()]
    } else {
        let rest = spec_split(s.drop_last(), sep);
        if s.last() == sep {
            rest.push(Seq::<char>::empty())
        } else {
            rest.update(rest.len() - 1, rest.last().push(s.last()))
        }
    }
}

/// Splitting always yields at least one piece.
pub proof fn lemma_split_len(s: Seq<char>, sep: char)
    ensures
        spec_split(s, sep).len() >= 1,
    decreases s.len(),
{
    if s.len() > 0 {
        lemma_split_len(s.drop_last(), sep);
    }
}

/// The views of a vector of strings.
pub open spec fn views_of(v: Seq<String>) -> Seq<Seq<char>> {
    v.map_values(|x: String| x@)
}

pub fn split_char(s: &str, sep: char) -> (r: Vec<String>)
    ensures
        views_of(r@) == spec_split(s@, sep),
        r@.len() >= 1,
{
    let n = s.unicode_len();
    let mut r: Vec<String> = Vec::new();
    let mut start: usize = 0;
    proof {
        assert(s@.take(0) =~= Seq::<char>::empty());
        assert(views_of(r@).push(s@.subrange(0, 0)) =~~= spec_split(s@.take(0), sep));
    }
    for i in 0..n
        invariant
            n == s@.len(),
            start <= i,
            views_of(r@).push(s@.subrange(start as int, i as int)) == spec_split(
                s@.take(i as int),
                sep,
            ),
    {
        proof {
            assert(s@.take(i + 1).drop_last() =~= s@.take(i as int));
            assert(s@.take(i + 1).last() == s@[i as int]);
            lemma_split_len(s@.take(i as int), sep);
        }
        let ghost pieces_before = views_of(r@);
        let ghost partial = s@.subrange(start as int, i as int);
        if s.get_char(i) == sep {
            let piece = s.substring_char(start, i);
            r.push(String::from_str(piece));
            start = i + 1;
            proof {
                assert(views_of(r@) =~~= pieces_before.push(partial));
                assert(s@.subrange(start as int, i + 1) =~= Seq::<char>::empty());
                assert(views_of(r@).push(s@.subrange(start as int, i + 1)) =~~= spec_split(
                    s@.take(i + 1),
                    sep,
                ));
            }
        } else {
            proof {
                assert(s@.subrange(start as int, i + 1) =~= s@.subrange(
                    start as int,
                    i as int,
                ).push(s@[i as int]));
                assert(views_of(r@).push(s@.subrange(start as int, i + 1)) =~~= spec_split(
                    s@.take(i + 1),
                    sep,
                ));
            }
        }
    }
    let ghost pieces_before = views_of(r@);
    let piece = s.substring_char(start, n);
    r.push(String::from_str(piece));
    proof {
        assert(views_of(r@) =~~= pieces_before.push(s@.subrange(start as int, n as int)));
        assert(s@.take(n as int) =~= s@);
        assert(views_of(r@) =~~= spec_split(s@, sep));
    }
    r
}

/// The pieces joined with the separator `sep` between them.
pub open spec fn spec_join(ps: Seq<Seq<char>>, sep: Seq<char>) -> Seq<char>
    decreases ps.len(),
{
    if ps.len() == 0 {
        Seq::<char>::empty()
    } else if ps.len() == 1 {
        ps[0]
    } else {
        spec_join(ps.drop_last(), sep) + sep + ps.last()
    }
}

pub fn join_sep(ps: &Vec<String>, sep: &str) -> (r: String)
    ensures
        r@ == spec_join(views_of(ps@), sep@),
{
    let mut r = String::new();
    let n = ps.len();
    for i in 0..n
        invariant
            n == ps@.len(),
            r@ == spec_join(views_of(ps@.take(i as int)), sep@),
    {
        if i > 0 {
            r.append(sep);
        }
        r.append(ps[i].as_str());
        proof {
            assert(views_of(ps@.take(i + 1)).drop_last() =~= views_of(ps@.take(i as int)));
            assert(views_of(ps@.take(i + 1)).last() == ps@[i as int]@);
            if i == 0 {
                assert(r@ =~= spec_join(views_of(ps@.take(i + 1)), sep@));
            }
        }
    }
    proof {
        assert(ps@.take(n as int) =~= ps@);
    }
    r
}

/// The position of the first occurrence of `c` in `s`.
pub open spec fn first_index_of(s: Seq<char>, c: char) -> Option<int>
    decreases s.len(),
{
    if s.len() == 0 {
        None
    } else if s[0] == c {
        Some(0)
    } else {
        match first_index_of(s.skip(1), c) {
            Some(i) => Some(i + 1),
            None => None,
        }
    }
}

/// The position of the last occurrence of `c` in `s`.
pub open spec fn last_index_of(s: Seq<char>, c: char) -> Option<int>
    decreases s.len(),
{
    if s.len() == 0 {
        None
    } else if s.last() == c {
        Some(s.len() - 1)
    } else {
        last_index_of(s.drop_last(), c)
    }
}

proof fn lemma_first_index_of(s: Seq<char>, c: char)
    ensures
        match first_index_of(s, c) {
            Some(i) => 0 <= i < s.len() && s[i] == c && forall|k: int| 0 <= k < i ==> s[k] != c,
            None => forall|k: int| 0 <= k < s.len() ==> s[k] != c,
        },
    decreases s.len(),
{
    if s.len() > 0 && s[0] != c {
        lemma_first_index_of(s.skip(1), c);
        match first_index_of(s.skip(1), c) {
            Some(i) => {
                assert(s[i + 1] == s.skip(1)[i]);
                assert forall|k: int| 0 <= k < i + 1 implies s[k] != c by {
                    if k >= 1 {
                        assert(s.skip(1)[k - 1] != c);
                        assert(s.skip(1)[k - 1] == s[k]);
                    }
                }
            },
            None => {
                assert forall|k: int| 0 <= k < s.len() implies s[k] != c by {
                    if k >= 1 {
                        assert(s.skip(1)[k - 1] != c);
                        assert(s.skip(1)[k - 1] == s[k]);
                    }
                }
            },
        }
    }
}

proof fn lemma_last_index_of(s: Seq<char>, c: char)
    ensures
        match last_index_of(s, c) {
            Some(i) => 0 <= i < s.len() && s[i] == c && forall|k: int| i < k < s.len() ==> s[k]
                != c,
            None => forall|k: int| 0 <= k < s.len() ==> s[k] != c,
        },
    decreases s.len(),
{
    if s.len() > 0 && s.last() != c {
        lemma_last_index_of(s.drop_last(), c);
        match last_index_of(s.drop_last(), c) {
            Some(i) => {
                assert(s[i] == s.drop_last()[i]);
                assert forall|k: int| i < k < s.len() implies s[k] != c by {
                    if k < s.len() - 1 {
                        assert(s.drop_last()[k] != c);
                        assert(s.drop_last()[k] == s[k]);
                    }
                }
            },
            None => {
                assert forall|k: int| 0 <= k < s.len() implies s[k] != c by {
                    if k < s.len() - 1 {
                        assert(s.drop_last()[k] != c);
                        assert(s.drop_last()[k] == s[k]);
                    }
                }
            },
        }
    }
}

pub fn find_char(s: &str, c: char) -> (r: Option<usize>)
    ensures
        match r {
            Some(i) => first_index_of(s@, c) == Some(i as int) && i < s@.len(),
            None => first_index_of(s@, c) is None,
        },
{
    let n = s.unicode_len();
    for i in 0..n
        invariant
            n == s@.len(),
            forall|k: int| 0 <= k < i ==> s@[k] != c,
    {
        if s.get_char(i) == c {
            proof {
                lemma_first_index_of(s@, c);
            }
            return Some(i);
        }
    }
    proof {
        lemma_first_index_of(s@, c);
    }
    None
}

pub fn rfind_char(s: &str, c: char) -> (r: Option<usize>)
    ensures
        match r {
            Some(i) => last_index_of(s@, c) == Some(i as int) && i < s@.len(),
            None => last_index_of(s@, c) is None,
        },
{
    let n = s.unicode_len();
    let mut j = n;
    while j > 0
        invariant
            n == s@.len(),
            j <= n,
            forall|k: int| j <= k < n ==> s@[k] != c,
        decreases j,
    {
        j = j - 1;
        if s.get_char(j) == c {
            proof {
                lemma_last_index_of(s@, c);
            }
            return Some(j);
        }
    }
    proof {
        lemma_last_index_of(s@, c);
    }
    None
}

/// The part of `s` before index `i` and the part after it, as fresh strings.
pub fn split_at_index(s: &str, i: usize) -> (r: (String, String))
    requires
        i < s@.len(),
    ensures
        r.0@ == s@.take(i as int),
        r.1@ == s@.skip(i + 1),
{
    let n = s.unicode_len();
    let before = String::from_str(s.substring_char(0, i));
    let after = String::from_str(s.substring_char(i + 1, n));
    proof {
        assert(before@ =~= s@.take(i as int));
        assert(after@ =~= s@.skip(i + 1));
    }
    (before, after)
}

/// Whether `sub` occurs contiguously anywhere inside `s`.
pub open spec fn contains_sub(s: Seq<char>, sub: Seq<char>) -> bool {
    exists|i: int|
        0 <= i && i + sub.len() <= s.len() && #[trigger] s.subrange(i, i + sub.len() as int) == sub
}

/// Whether `sub` occurs in `s` starting exactly at position `i`.
fn matches_at(s: &str, i: usize, sub: &str) -> (r: bool)
    requires
        i + sub@.len() <= s@.len(),
        s@.len() <= usize::MAX,
    ensures
        r == (s@.subrange(i as int, i + sub@.len() as int) == sub@),
{
    let m = sub.unicode_len();
    for j in 0..m
        invariant
            m == sub@.len(),
            i + m <= s@.len(),
            s@.len() <= usize::MAX,
            forall|k: int| 0 <= k < j ==> s@[i + k] == sub@[k],
    {
        if s.get_char(i + j) != sub.get_char(j) {
            proof {
                assert(s@.subrange(i as int, i + sub@.len() as int)[j as int] != sub@[j as int]);
            }
            return false;
        }
    }
    proof {
        assert(s@.subrange(i as int, i + sub@.len() as int) =~= sub@);
    }
    true
}

pub fn str_contains(s: &str, sub: &str) -> (r: bool)
    ensures
        r == contains_sub(s@, sub@),
{
    let n = s.unicode_len();
    let m = sub.unicode_len();
    if m > n {
        return false;
    }
    if m == 0 {
        proof {
            assert(s@.subrange(0, 0 + sub@.len() as int) =~= sub@);
        }
        return true;
    }
    let mut i: usize = 0;
    while i <= n - m
        invariant
            n == s@.len() && m == sub@.len() && 1 <= m <= n,
            i <= n - m + 1,
            forall|k: int| 0 <= k < i ==> #[trigger] s@.subrange(k, k + sub@.len() as int)
                != sub@,
        decreases n - i,
    {
        if matches_at(s, i, sub) {
            return true;
        }
        i = i + 1;
    }
    proof {
        assert forall|k: int| 0 <= k && k + sub@.len() <= s@.len() implies #[trigger] s@.subrange(
            k,
            k + sub@.len() as int,
        ) != sub@ by {
            assert(k < i);
        }
    }
    false
}

/// Whether `s`, folded to ASCII lower case, equals `t` exactly.
pub fn eq_lower(s: &str, t: &str) -> (r: bool)
    ensures
        r == (lower_seq(s@) == t@),
{
    let n = s.unicode_len();
    if n != t.unicode_len() {
        proof {
            assert(lower_seq(s@).len() == s@.len());
            assert(lower_seq(s@) != t@);
        }
        return false;
    }
    for i in 0..n
        invariant
            n == s@.len() && n == t@.len(),
            forall|k: int| 0 <= k < i ==> lower_char(s@[k]) == t@[k],
    {
        if to_lower_char(s.get_char(i)) != t.get_char(i) {
            proof {
                assert(lower_seq(s@)[i as int] != t@[i as int]);
            }
            return false;
        }
    }
    proof {
        assert(lower_seq(s@) =~= t@);
    }
    true
}

} // verus!
