use vstd::prelude::*;

use crate::kind::spec_label;
use crate::kind::EntryType;
use crate::store::RowV;
use crate::text::lower_char;
use crate::text::lower_seq;
use crate::text::to_lower_char;

verus! {

/// SQL `LIKE` matching: `%` matches any character sequence (including the
/// empty one), `_` exactly one character, and any other pattern character
/// only itself.
pub open spec fn like_match(p: Seq<char>, t: Seq<char>) -> bool
    decreases p.len(), t.len(),
{
    if p.len() == 0 {
        t.len() == 0
    } else if p[0] == '%' {
        like_match(p.skip(1), t) || (t.len() > 0 && like_match(p, t.skip(1)))
    } else if t.len() == 0 {
        false
    } else {
        (p[0] == '_' || p[0] == t[0]) && like_match(p.skip(1), t.skip(1))
    }
}

/// Case-insensitive `LIKE`: both sides folded to ASCII lower case first.
pub open spec fn like_ci(p: Seq<char>, t: Seq<char>) -> bool {
    like_match(lower_seq(p), lower_seq(t))
}

/// The caller's query with spaces turned into wildcard gaps.
pub open spec fn spec_wildcards(q: Seq<char>) -> Seq<char> {
    q.map_values(|c: char| if c == ' ' { '%' } else { c })
}

/// The fuzzy pattern of a query: the empty query matches everything; a
/// query that already starts or ends with a wildcard is used verbatim; any
/// other query gets wildcard gaps for spaces and wildcards on both ends.
pub open spec fn fuzzy_pattern(q: Seq<char>) -> Seq<char> {
    if q.len() == 0 {
        seq!['%']
    } else if q[0] == '%' || q.last() == '%' {
        q
    } else {
        seq!['%'] + spec_wildcards(q) + seq!['%']
    }
}

/// The literal (wildcard-stripped) query that the ranking tiers compare
/// against.
pub open spec fn exact_query(q: Seq<char>) -> Seq<char> {
    q.filter(|c: char| c != '%')
}

/// Whether a row belongs to a search's results: its kind label must belong
/// to the kind filter (an empty filter admits all kinds), and the fuzzy
/// pattern must match the row's name or its location path,
/// case-insensitively.
pub open spec fn kind_allowed(kinds: Seq<EntryType>, ty: Seq<char>) -> bool {
    exists|k: int| 0 <= k < kinds.len() && spec_label(kinds[k]) == ty
}

pub open spec fn row_matches(q: Seq<char>, kinds: Seq<EntryType>, row: RowV) -> bool {
    (kinds.len() == 0 || kind_allowed(kinds, row.ty)) && (like_ci(fuzzy_pattern(q), row.name)
        || like_ci(fuzzy_pattern(q), row.path))
}

/// The ranking tier of a row, ascending (an earlier tier ranks higher):
/// name equal to the literal query, then location equal to it, then name
/// ending or starting with it, then location ending or starting with it,
/// then everything else.
pub open spec fn spec_tier(q: Seq<char>, row: RowV) -> int {
    let e = exact_query(q);
    if row.name == e {
        0
    } else if row.path == e {
        1
    } else if like_ci(seq!['%'] + e, row.name) {
        2
    } else if like_ci(e + seq!['%'], row.name) {
        3
    } else if like_ci(seq!['%'] + e, row.path) {
        4
    } else if like_ci(e + seq!['%'], row.path) {
        5
    } else {
        6
    }
}

/// The characters of a string slice, folded to ASCII lower case.
fn lower_chars(s: &str) -> (r: Vec<char>)
    ensures
        r@ == lower_seq(s@),
{
    let n = s.unicode_len();
    let mut r: Vec<char> = Vec::new();
    for i in 0..n
        invariant
            n == s@.len(),
            r@ =~= lower_seq(s@.take(i as int)),
    {
        r.push(to_lower_char(s.get_char(i)));
        proof {
            assert(r@ =~= lower_seq(s@.take(i + 1)));
        }
    }
    proof {
        assert(s@.take(n as int) =~= s@);
    }
    r
}

/// Recursive `LIKE` matching over the suffixes starting at `i` and `j`.
fn like_rec(p: &Vec<char>, t: &Vec<char>, i: usize, j: usize) -> (r: bool)
    requires
        i <= p@.len(),
        j <= t@.len(),
    ensures
        r == like_match(p@.skip(i as int), t@.skip(j as int)),
    decreases p@.len() - i, t@.len() - j,
{
    let ghost ps = p@.skip(i as int);
    let ghost ts = t@.skip(j as int);
    if i == p.len() {
        j == t.len()
    } else if p[i] == '%' {
        proof {
            assert(ps[0] == p@[i as int]);
            assert(ps.skip(1) =~= p@.skip(i + 1));
            if ts.len() > 0 {
                assert(ts.skip(1) =~= t@.skip(j + 1));
            }
        }
        if like_rec(p, t, i + 1, j) {
            true
        } else if j < t.len() {
            like_rec(p, t, i, j + 1)
        } else {
            false
        }
    } else if j == t.len() {
        proof {
            assert(ps[0] == p@[i as int]);
        }
        false
    } else {
        proof {
            assert(ps[0] == p@[i as int]);
            assert(ts[0] == t@[j as int]);
            assert(ps.skip(1) =~= p@.skip(i + 1));
            assert(ts.skip(1) =~= t@.skip(j + 1));
        }
        if p[i] == '_' || p[i] == t[j] {
            like_rec(p, t, i + 1, j + 1)
        } else {
            false
        }
    }
}

/// Runtime `LIKE` over already-lowered character vectors.
fn like_low(p: &Vec<char>, t: &Vec<char>) -> (r: bool)
    ensures
        r == like_match(p@, t@),
{
    let r = like_rec(p, t, 0, 0);
    proof {
        assert(p@.skip(0) =~= p@);
        assert(t@.skip(0) =~= t@);
    }
    r
}

/// The fuzzy pattern of a query, folded to lower case, as a vector.
fn fuzzy_pattern_low(q: &str) -> (r: Vec<char>)
    ensures
        r@ == lower_seq(fuzzy_pattern(q@)),
{
    let n = q.unicode_len();
    let mut r: Vec<char> = Vec::new();
    if n == 0 {
        r.push('%');
        proof {
            assert(r@ =~= lower_seq(fuzzy_pattern(q@)));
        }
        return r;
    }
    if q.get_char(0) == '%' || q.get_char(n - 1) == '%' {
        let r = lower_chars(q);
        return r;
    }
    r.push('%');
    for i in 0..n
        invariant
            n == q@.len() && n > 0,
            q@[0] != '%' && q@[n - 1] != '%',
            r@ =~= seq!['%'] + lower_seq(spec_wildcards(q@.take(i as int))),
    {
        let c = q.get_char(i);
        if c == ' ' {
            r.push('%');
        } else {
            r.push(to_lower_char(c));
        }
        proof {
            assert(spec_wildcards(q@.take(i + 1)) =~= spec_wildcards(q@.take(i as int)).push(
                if q@[i as int] == ' ' {
                    '%'
                } else {
                    q@[i as int]
                },
            ));
            assert(lower_char('%') == '%');
            assert(r@ =~= seq!['%'] + lower_seq(spec_wildcards(q@.take(i + 1))));
        }
    }
    r.push('%');
    proof {
        assert(q@.take(n as int) =~= q@);
        assert(fuzzy_pattern(q@) == seq!['%'] + spec_wildcards(q@) + seq!['%']);
        assert(r@ =~= lower_seq(seq!['%'] + spec_wildcards(q@) + seq!['%']));
    }
    r
}

/// The literal query, as a vector (exact case) and lowered.
fn exact_query_vec(q: &str) -> (r: Vec<char>)
    ensures
        r@ == exact_query(q@),
{
    let n = q.unicode_len();
    let mut r: Vec<char> = Vec::new();
    proof {
        reveal(Seq::filter);
        assert(r@ =~= q@.take(0).filter(|c: char| c != '%'));
    }
    for i in 0..n
        invariant
            n == q@.len(),
            r@ == q@.take(i as int).filter(|c: char| c != '%'),
    {
        proof {
            reveal(Seq::filter);
            assert(q@.take(i + 1).drop_last() =~= q@.take(i as int));
        }
        let c = q.get_char(i);
        if c != '%' {
            r.push(c);
        }
    }
    proof {
        assert(q@.take(n as int) =~= q@);
    }
    r
}

/// Lexicographic order on character sequences, by code point; a proper
/// prefix comes first.
pub open spec fn lex_leq(a: Seq<char>, b: Seq<char>) -> bool
    decreases a.len(),
{
    if a.len() == 0 {
        true
    } else if b.len() == 0 {
        false
    } else if a[0] != b[0] {
        a[0] < b[0]
    } else {
        lex_leq(a.skip(1), b.skip(1))
    }
}

/// `lex_leq` is total.
pub proof fn lemma_lex_total(a: Seq<char>, b: Seq<char>)
    ensures
        lex_leq(a, b) || lex_leq(b, a),
    decreases a.len(),
{
    if a.len() > 0 && b.len() > 0 {
        if a[0] == b[0] {
            lemma_lex_total(a.skip(1), b.skip(1));
        } else {
        }
    }
}

/// `lex_leq` is antisymmetric.
pub proof fn lemma_lex_antisym(a: Seq<char>, b: Seq<char>)
    requires
        lex_leq(a, b),
        lex_leq(b, a),
    ensures
        a == b,
    decreases a.len(),
{
    if a.len() > 0 && b.len() > 0 && a[0] == b[0] {
        lemma_lex_antisym(a.skip(1), b.skip(1));
        assert forall|k: int| 0 <= k < a.len() implies a[k] == b[k] by {
            if k > 0 {
                assert(a.skip(1)[k - 1] == a[k]);
                assert(b.skip(1)[k - 1] == b[k]);
            }
        }
        assert(a =~= b);
    }
}

/// `lex_leq` is transitive.
pub proof fn lemma_lex_trans(a: Seq<char>, b: Seq<char>, c: Seq<char>)
    requires
        lex_leq(a, b),
        lex_leq(b, c),
    ensures
        lex_leq(a, c),
    decreases a.len(),
{
    if a.len() > 0 && b.len() > 0 && c.len() > 0 && a[0] == b[0] && b[0] == c[0] {
        lemma_lex_trans(a.skip(1), b.skip(1), c.skip(1));
    }
}

/// The deterministic ranking order over rows for a given query: by tier,
/// then shorter name, then shorter location, then name, location and kind
/// label lexicographically. A total order, so a search's output sequence is
/// a function of the matched row set alone.
pub open spec fn row_leq(q: Seq<char>, a: RowV, b: RowV) -> bool {
    if spec_tier(q, a) != spec_tier(q, b) {
        spec_tier(q, a) < spec_tier(q, b)
    } else if a.name.len() != b.name.len() {
        a.name.len() < b.name.len()
    } else if a.path.len() != b.path.len() {
        a.path.len() < b.path.len()
    } else if a.name != b.name {
        lex_leq(a.name, b.name)
    } else if a.path != b.path {
        lex_leq(a.path, b.path)
    } else {
        lex_leq(a.ty, b.ty)
    }
}

/// The ranking order is total.
pub proof fn lemma_row_leq_total(q: Seq<char>, a: RowV, b: RowV)
    ensures
        row_leq(q, a, b) || row_leq(q, b, a),
{
    lemma_lex_total(a.name, b.name);
    lemma_lex_total(a.path, b.path);
    lemma_lex_total(a.ty, b.ty);
}

/// The ranking order is transitive.
pub proof fn lemma_row_leq_trans(q: Seq<char>, a: RowV, b: RowV, c: RowV)
    requires
        row_leq(q, a, b),
        row_leq(q, b, c),
    ensures
        row_leq(q, a, c),
{
    lemma_lex_total(a.name, b.name);
    lemma_lex_total(b.name, c.name);
    lemma_lex_total(a.name, c.name);
    lemma_lex_total(a.path, b.path);
    lemma_lex_total(b.path, c.path);
    lemma_lex_total(a.path, c.path);
    if lex_leq(a.name, b.name) && lex_leq(b.name, a.name) {
        lemma_lex_antisym(a.name, b.name);
    }
    if lex_leq(b.name, c.name) && lex_leq(c.name, b.name) {
        lemma_lex_antisym(b.name, c.name);
    }
    if lex_leq(a.name, b.name) && lex_leq(b.name, c.name) {
        lemma_lex_trans(a.name, b.name, c.name);
    }
    if lex_leq(a.path, b.path) && lex_leq(b.path, c.path) {
        lemma_lex_trans(a.path, b.path, c.path);
    }
    if lex_leq(a.path, b.path) && lex_leq(b.path, a.path) {
        lemma_lex_antisym(a.path, b.path);
    }
    if lex_leq(b.path, c.path) && lex_leq(c.path, b.path) {
        lemma_lex_antisym(b.path, c.path);
    }
    if lex_leq(a.ty, b.ty) && lex_leq(b.ty, c.ty) {
        lemma_lex_trans(a.ty, b.ty, c.ty);
    }
}

/// The ranking order is antisymmetric: rows tied in every component are
/// the same row.
pub proof fn lemma_row_leq_antisym(q: Seq<char>, a: RowV, b: RowV)
    requires
        row_leq(q, a, b),
        row_leq(q, b, a),
    ensures
        a == b,
{
    lemma_lex_total(a.name, b.name);
    lemma_lex_total(a.path, b.path);
    if lex_leq(a.name, b.name) && lex_leq(b.name, a.name) {
        lemma_lex_antisym(a.name, b.name);
    }
    if lex_leq(a.path, b.path) && lex_leq(b.path, a.path) {
        lemma_lex_antisym(a.path, b.path);
    }
    if lex_leq(a.ty, b.ty) && lex_leq(b.ty, a.ty) {
        lemma_lex_antisym(a.ty, b.ty);
    }
}

/// Whether a row sequence is sorted by the ranking order.
pub open spec fn sorted_rows(q: Seq<char>, s: Seq<RowV>) -> bool {
    forall|i: int, j: int| 0 <= i < j < s.len() ==> row_leq(q, s[i], s[j])
}

/// Deterministic ranking: two sorted sequences over the same row multiset
/// are identical, so a search's output is a function of the matched row set
/// alone.
pub proof fn lemma_sorted_unique(q: Seq<char>, s1: Seq<RowV>, s2: Seq<RowV>)
    requires
        sorted_rows(q, s1),
        sorted_rows(q, s2),
        s1.to_multiset() == s2.to_multiset(),
    ensures
        s1 == s2,
    decreases s1.len(),
{
    broadcast use vstd::multiset::group_multiset_axioms;

    s1.to_multiset_ensures();
    s2.to_multiset_ensures();
    if s1.len() == 0 {
        assert(s2.len() == 0);
        assert(s1 =~= s2);
    } else {
        assert(s2.len() == s1.len());
        assert(s1[0] == s2[0]) by {
            assert(s1.contains(s2[0])) by {
                assert(s2.to_multiset().count(s2[0]) > 0);
            }
            assert(s2.contains(s1[0])) by {
                assert(s1.to_multiset().count(s1[0]) > 0);
            }
            let j1 = choose|j: int| 0 <= j < s1.len() && s1[j] == s2[0];
            let j2 = choose|j: int| 0 <= j < s2.len() && s2[j] == s1[0];
            lemma_row_leq_total(q, s1[0], s2[0]);
            assert(row_leq(q, s1[0], s2[0])) by {
                if j1 > 0 {
                    assert(row_leq(q, s1[0], s1[j1]));
                }
            }
            assert(row_leq(q, s2[0], s1[0])) by {
                if j2 > 0 {
                    assert(row_leq(q, s2[0], s2[j2]));
                }
            }
            lemma_row_leq_antisym(q, s1[0], s2[0]);
        }
        let t1 = s1.remove(0);
        let t2 = s2.remove(0);
        s1.remove_ensures(0);
        s2.remove_ensures(0);
        assert(t1.to_multiset() =~= s1.to_multiset().remove(s1[0]));
        assert(t2.to_multiset() =~= s2.to_multiset().remove(s2[0]));
        assert(sorted_rows(q, t1)) by {
            assert forall|i: int, j: int| 0 <= i < j < t1.len() implies row_leq(
                q,
                t1[i],
                t1[j],
            ) by {
                assert(t1[i] == s1[i + 1] && t1[j] == s1[j + 1]);
            }
        }
        assert(sorted_rows(q, t2)) by {
            assert forall|i: int, j: int| 0 <= i < j < t2.len() implies row_leq(
                q,
                t2[i],
                t2[j],
            ) by {
                assert(t2[i] == s2[i + 1] && t2[j] == s2[j + 1]);
            }
        }
        lemma_sorted_unique(q, t1, t2);
        assert forall|k: int| 0 <= k < s1.len() implies s1[k] == s2[k] by {
            if k > 0 {
                assert(t1[k - 1] == s1[k] && t2[k - 1] == s2[k]);
            }
        }
        assert(s1 =~= s2);
    }
}

/// Folds a character vector to lower case.
fn lower_vec(v: &Vec<char>) -> (r: Vec<char>)
    ensures
        r@ == lower_seq(v@),
{
    let n = v.len();
    let mut r: Vec<char> = Vec::new();
    for i in 0..n
        invariant
            n == v@.len(),
            r@ =~= lower_seq(v@.take(i as int)),
    {
        r.push(to_lower_char(v[i]));
        proof {
            assert(r@ =~= lower_seq(v@.take(i + 1)));
        }
    }
    proof {
        assert(v@.take(n as int) =~= v@);
    }
    r
}

/// Whether a character vector spells the same sequence as a string slice.
fn vec_eq_str(v: &Vec<char>, s: &str) -> (r: bool)
    ensures
        r == (s@ == v@),
{
    let n = v.len();
    if s.unicode_len() != n {
        proof {
            assert(s@ != v@);
        }
        return false;
    }
    for i in 0..n
        invariant
            n == v@.len() && n == s@.len(),
            forall|k: int| 0 <= k < i ==> s@[k] == v@[k],
    {
        if s.get_char(i) != v[i] {
            return false;
        }
    }
    proof {
        assert(s@ =~= v@);
    }
    true
}

/// Runtime lexicographic comparison of two string slices.
fn str_lex_leq(a: &str, b: &str) -> (r: bool)
    ensures
        r == lex_leq(a@, b@),
{
    let n = a.unicode_len();
    let m = b.unicode_len();
    let mut i: usize = 0;
    proof {
        assert(a@.skip(0) =~= a@);
        assert(b@.skip(0) =~= b@);
    }
    while i < n && i < m
        invariant
            n == a@.len() && m == b@.len(),
            i <= n && i <= m,
            lex_leq(a@, b@) == lex_leq(a@.skip(i as int), b@.skip(i as int)),
            lex_leq(b@, a@) == lex_leq(b@.skip(i as int), a@.skip(i as int)),
        decreases n - i,
    {
        let ca = a.get_char(i);
        let cb = b.get_char(i);
        proof {
            assert(a@.skip(i as int)[0] == a@[i as int]);
            assert(b@.skip(i as int)[0] == b@[i as int]);
            assert(a@.skip(i as int).skip(1) =~= a@.skip(i + 1));
            assert(b@.skip(i as int).skip(1) =~= b@.skip(i + 1));
        }
        if ca != cb {
            return ca < cb;
        }
        i = i + 1;
    }
    proof {
        if i == n {
            assert(a@.skip(i as int).len() == 0);
        } else {
            assert(b@.skip(i as int).len() == 0);
            assert(a@.skip(i as int).len() > 0);
        }
    }
    i == n
}

/// Runtime tier computation; the three pattern vectors are the lowered
/// literal query, and the literal query with a leading and with a trailing
/// wildcard.
fn tier_of(
    Ghost(q): Ghost<Seq<char>>,
    exact: &Vec<char>,
    pe: &Vec<char>,
    ep: &Vec<char>,
    row: &crate::store::StoreRow,
) -> (r: u8)
    requires
        exact@ == exact_query(q),
        pe@ == lower_seq(seq!['%'] + exact_query(q)),
        ep@ == lower_seq(exact_query(q) + seq!['%']),
    ensures
        r as int == spec_tier(q, row@),
{
    let name_low = lower_chars(row.name.as_str());
    let path_low = lower_chars(row.path.as_str());
    if vec_eq_str(exact, row.name.as_str()) {
        0
    } else if vec_eq_str(exact, row.path.as_str()) {
        1
    } else if like_low(pe, &name_low) {
        2
    } else if like_low(ep, &name_low) {
        3
    } else if like_low(pe, &path_low) {
        4
    } else if like_low(ep, &path_low) {
        5
    } else {
        6
    }
}

/// Runtime ranking comparison of two rows.
fn row_le(
    Ghost(q): Ghost<Seq<char>>,
    exact: &Vec<char>,
    pe: &Vec<char>,
    ep: &Vec<char>,
    a: &crate::store::StoreRow,
    b: &crate::store::StoreRow,
) -> (r: bool)
    requires
        exact@ == exact_query(q),
        pe@ == lower_seq(seq!['%'] + exact_query(q)),
        ep@ == lower_seq(exact_query(q) + seq!['%']),
    ensures
        r == row_leq(q, a@, b@),
{
    let ta = tier_of(Ghost(q), exact, pe, ep, a);
    let tb = tier_of(Ghost(q), exact, pe, ep, b);
    if ta != tb {
        return ta < tb;
    }
    let an = a.name.unicode_len();
    let bn = b.name.unicode_len();
    if an != bn {
        return an < bn;
    }
    let ap = a.path.unicode_len();
    let bp = b.path.unicode_len();
    if ap != bp {
        return ap < bp;
    }
    if !crate::text::str_eq(a.name.as_str(), b.name.as_str()) {
        return str_lex_leq(a.name.as_str(), b.name.as_str());
    }
    if !crate::text::str_eq(a.path.as_str(), b.path.as_str()) {
        return str_lex_leq(a.path.as_str(), b.path.as_str());
    }
    str_lex_leq(a.ty.as_str(), b.ty.as_str())
}

/// Runtime test for `row_matches`.
fn row_match(
    Ghost(q): Ghost<Seq<char>>,
    fuzzy_low: &Vec<char>,
    kinds: &Vec<EntryType>,
    row: &crate::store::StoreRow,
) -> (r: bool)
    requires
        fuzzy_low@ == lower_seq(fuzzy_pattern(q)),
    ensures
        r == row_matches(q, kinds@, row@),
{
    let nk = kinds.len();
    let mut kind_ok = nk == 0;
    if !kind_ok {
        for k in 0..nk
            invariant
                nk == kinds@.len(),
                kind_ok == kind_allowed(kinds@.take(k as int), row@.ty),
        {
            let ghost pre = kinds@.take(k as int);
            proof {
                assert(kinds@.take(k + 1).drop_last() =~= pre);
                if kind_allowed(pre, row@.ty) {
                    let j = choose|j: int|
                        0 <= j < pre.len() && spec_label(pre[j]) == row@.ty;
                    assert(kinds@.take(k + 1)[j] == pre[j]);
                    assert(kind_allowed(kinds@.take(k + 1), row@.ty));
                }
            }
            let label = kinds[k].label();
            if crate::text::str_eq(label.as_str(), row.ty.as_str()) {
                kind_ok = true;
                proof {
                    assert(kinds@.take(k + 1)[k as int] == kinds@[k as int]);
                    assert(kind_allowed(kinds@.take(k + 1), row@.ty));
                }
            } else {
                proof {
                    if kind_allowed(kinds@.take(k + 1), row@.ty) {
                        let j = choose|j: int|
                            0 <= j < kinds@.take(k + 1).len() && #[trigger] spec_label(
                                kinds@.take(k + 1)[j],
                            ) == row@.ty;
                        if j < k {
                            assert(pre[j] == kinds@.take(k + 1)[j]);
                            assert(kind_allowed(pre, row@.ty));
                        }
                    }
                }
            }
        }
        proof {
            assert(kinds@.take(nk as int) =~= kinds@);
        }
    }
    if !kind_ok {
        return false;
    }
    let name_low = lower_chars(row.name.as_str());
    if like_low(fuzzy_low, &name_low) {
        return true;
    }
    let path_low = lower_chars(row.path.as_str());
    like_low(fuzzy_low, &path_low)
}

/// A lone wildcard matches every text.
proof fn lemma_like_pct_all(t: Seq<char>)
    ensures
        like_match(seq!['%'], t),
    decreases t.len(),
{
    let p = seq!['%'];
    assert(p[0] == '%');
    if t.len() == 0 {
        assert(p.skip(1) =~= Seq::<char>::empty());
        assert(like_match(p.skip(1), t));
    } else {
        lemma_like_pct_all(t.skip(1));
    }
}

/// The space-to-wildcard image of a text matches the text itself.
proof fn lemma_wild_self(s: Seq<char>)
    ensures
        like_match(lower_seq(spec_wildcards(s)), lower_seq(s)),
    decreases s.len(),
{
    let p = lower_seq(spec_wildcards(s));
    let t = lower_seq(s);
    if s.len() == 0 {
        assert(p.len() == 0 && t.len() == 0);
    } else {
        lemma_wild_self(s.skip(1));
        assert(p.skip(1) =~= lower_seq(spec_wildcards(s.skip(1)))) by {
            assert forall|k: int| 0 <= k < p.len() - 1 implies p.skip(1)[k] == lower_seq(
                spec_wildcards(s.skip(1)),
            )[k] by {
                assert(p.skip(1)[k] == p[k + 1]);
                assert(spec_wildcards(s)[k + 1] == spec_wildcards(s.skip(1))[k]);
            }
        }
        assert(t.skip(1) =~= lower_seq(s.skip(1))) by {
            assert forall|k: int| 0 <= k < t.len() - 1 implies t.skip(1)[k] == lower_seq(
                s.skip(1),
            )[k] by {
                assert(t.skip(1)[k] == t[k + 1]);
            }
        }
        if p[0] == '%' {
            assert(t.len() > 0);
            assert(like_match(p, t.skip(1))) by {
                assert(like_match(p.skip(1), t.skip(1)));
            }
        } else {
            assert(p[0] == lower_char(if s[0] == ' ' {
                '%'
            } else {
                s[0]
            }));
            assert(s[0] != ' ') by {
                assert(lower_char('%') == '%');
            }
            assert(p[0] == t[0]);
            assert(like_match(p.skip(1), t.skip(1)));
        }
    }
}

/// A trailing wildcard can always be added to a matching pattern.
proof fn lemma_like_push_pct(p: Seq<char>, t: Seq<char>)
    requires
        like_match(p, t),
    ensures
        like_match(p.push('%'), t),
    decreases p.len(), t.len(),
{
    let g = p.push('%');
    assert(g[0] == if p.len() == 0 {
        '%'
    } else {
        p[0]
    });
    if p.len() == 0 {
        assert(t.len() == 0);
        assert(g.skip(1) =~= Seq::<char>::empty());
        assert(like_match(g.skip(1), t));
    } else {
        assert(g.skip(1) =~= p.skip(1).push('%'));
        if p[0] == '%' {
            if like_match(p.skip(1), t) {
                lemma_like_push_pct(p.skip(1), t);
                assert(like_match(g.skip(1), t));
            } else {
                assert(t.len() > 0 && like_match(p, t.skip(1)));
                lemma_like_push_pct(p, t.skip(1));
            }
        } else {
            assert(t.len() > 0);
            lemma_like_push_pct(p.skip(1), t.skip(1));
        }
    }
}

/// A leading wildcard can always be added to a matching pattern.
proof fn lemma_like_cons_pct(p: Seq<char>, t: Seq<char>)
    requires
        like_match(p, t),
    ensures
        like_match(seq!['%'] + p, t),
{
    let g = seq!['%'] + p;
    assert(g[0] == '%');
    assert(g.skip(1) =~= p);
}

/// The fuzzy pattern of a wildcard-free query matches the query itself,
/// case-insensitively.
proof fn lemma_fuzzy_matches_self(q: Seq<char>)
    requires
        forall|i: int| 0 <= i < q.len() ==> q[i] != '%',
    ensures
        like_ci(fuzzy_pattern(q), q),
{
    if q.len() == 0 {
        assert(lower_char('%') == '%');
        assert(lower_seq(fuzzy_pattern(q)) =~= seq!['%']);
        assert(lower_seq(q) =~= Seq::<char>::empty());
        lemma_like_pct_all(lower_seq(q));
    } else {
        assert(q[0] != '%' && q.last() != '%');
        lemma_wild_self(q);
        let lw = lower_seq(spec_wildcards(q));
        let lq = lower_seq(q);
        lemma_like_push_pct(lw, lq);
        lemma_like_cons_pct(lw.push('%'), lq);
        assert(lower_char('%') == '%');
        assert(lower_seq(seq!['%'] + spec_wildcards(q) + seq!['%']) =~= seq!['%'] + lw.push('%'));
    }
}

/// A wildcard-free pattern matches itself.
proof fn lemma_like_self(p: Seq<char>)
    requires
        forall|i: int| 0 <= i < p.len() ==> p[i] != '%',
    ensures
        like_match(p, p),
    decreases p.len(),
{
    if p.len() > 0 {
        lemma_like_self(p.skip(1));
    }
}

/// A leading wildcard absorbs any prefix of the text.
proof fn lemma_like_absorb(p: Seq<char>, u: Seq<char>, v: Seq<char>)
    requires
        like_match(p, v),
    ensures
        like_match(seq!['%'] + p, u + v),
    decreases u.len(),
{
    let g = seq!['%'] + p;
    assert(g[0] == '%');
    if u.len() == 0 {
        assert(u + v =~= v);
        lemma_like_cons_pct(p, v);
    } else {
        lemma_like_absorb(p, u.skip(1), v);
        assert((u + v).skip(1) =~= u.skip(1) + v);
        assert((u + v).len() > 0);
    }
}

/// The literal query never holds a wildcard character.
proof fn lemma_exact_no_pct(q: Seq<char>)
    ensures
        forall|i: int| 0 <= i < exact_query(q).len() ==> #[trigger] exact_query(q)[i] != '%',
{
    broadcast use vstd::seq_lib::group_filter_ensures;

    assert forall|i: int| 0 <= i < exact_query(q).len() implies #[trigger] exact_query(q)[i]
        != '%' by {
        assert((|c: char| c != '%')(q.filter(|c: char| c != '%')[i]));
    }
}

/// A text whose case-folded form ends with the case-folded literal query
/// matches the literal query under a leading wildcard.
proof fn lemma_suffix_like(e: Seq<char>, t: Seq<char>)
    requires
        forall|i: int| 0 <= i < e.len() ==> e[i] != '%',
        crate::text::has_suffix(lower_seq(t), lower_seq(e)),
    ensures
        like_ci(seq!['%'] + e, t),
{
    let el = lower_seq(e);
    let tl = lower_seq(t);
    assert forall|i: int| 0 <= i < el.len() implies el[i] != '%' by {
        assert(lower_char('%') == '%');
        if 'A' <= e[i] && e[i] <= 'Z' {
            assert(('a' as u8) <= (el[i] as u8) && (el[i] as u8) <= ('z' as u8));
        }
    }
    lemma_like_self(el);
    let u = tl.take(tl.len() - el.len());
    assert(tl =~= u + tl.skip(tl.len() - el.len()));
    assert(tl.skip(tl.len() - el.len()) == el);
    lemma_like_absorb(el, u, el);
    assert(lower_seq(seq!['%'] + e) =~= seq!['%'] + el) by {
        assert(lower_char('%') == '%');
    }
}

/// Ranking tie-break: a result row whose case-folded name ends with the
/// case-folded literal query ranks strictly before any result row whose
/// name the literal query matches at neither end (neither row's name or
/// location being the literal query itself): every position of the first
/// row precedes every position of the second.
pub proof fn lemma_ranking_tie_break(
    q: Seq<char>,
    kinds: Seq<EntryType>,
    rows: vstd::multiset::Multiset<RowV>,
    limit: Option<usize>,
    out: Seq<RowV>,
    a: RowV,
    b: RowV,
)
    requires
        search_post(q, kinds, rows, limit, out),
        a.name != exact_query(q),
        a.path != exact_query(q),
        b.name != exact_query(q),
        b.path != exact_query(q),
        crate::text::has_suffix(lower_seq(a.name), lower_seq(exact_query(q))),
        !like_ci(seq!['%'] + exact_query(q), b.name),
        !like_ci(exact_query(q) + seq!['%'], b.name),
    ensures
        forall|ia: int, ib: int|
            0 <= ia < out.len() && 0 <= ib < out.len() && #[trigger] out[ia] == a
                && #[trigger] out[ib] == b ==> ia < ib,
{
    let e = exact_query(q);
    lemma_exact_no_pct(q);
    lemma_suffix_like(e, a.name);
    assert(spec_tier(q, a) == 2);
    assert(spec_tier(q, b) >= 4);
    let full = choose|full: Seq<RowV>| #[trigger] is_search_output(q, kinds, rows, limit, full, out);
    assert(sorted_rows(q, out)) by {
        match limit {
            Some(l) => {
                if l < full.len() {
                    assert forall|i: int, j: int| 0 <= i < j < out.len() implies row_leq(
                        q,
                        out[i],
                        out[j],
                    ) by {
                        assert(out[i] == full[i] && out[j] == full[j]);
                    }
                }
            },
            None => {},
        }
    }
    assert forall|ia: int, ib: int|
        0 <= ia < out.len() && 0 <= ib < out.len() && #[trigger] out[ia] == a && #[trigger] out[ib]
            == b implies ia < ib by {
        if ib < ia {
            assert(row_leq(q, out[ib], out[ia]));
        } else if ib == ia {
            assert(a == b);
        }
    }
}

/// Stripping wildcards from a wildcard-free query changes nothing.
proof fn lemma_exact_of_clean(q: Seq<char>)
    requires
        forall|i: int| 0 <= i < q.len() ==> q[i] != '%',
    ensures
        exact_query(q) == q,
    decreases q.len(),
{
    reveal(Seq::filter);
    if q.len() > 0 {
        lemma_exact_of_clean(q.drop_last());
        assert(exact_query(q) =~= q);
    } else {
        assert(exact_query(q) =~= q);
    }
}

/// Round trip: an indexed entry searched for under its own fully qualified
/// name (one without wildcard characters), with no kind filter and no
/// limit, comes back in the top, tier-zero position: the search output is
/// nonempty, its first row ranks in tier zero, the entry's row is among the
/// output, and every tier-zero row carries exactly the queried name.
pub proof fn lemma_round_trip(q: Seq<char>, rows: vstd::multiset::Multiset<RowV>, row: RowV, out: Seq<RowV>)
    requires
        search_post(q, Seq::<EntryType>::empty(), rows, None, out),
        rows.contains(row),
        row.name == q,
        forall|i: int| 0 <= i < q.len() ==> q[i] != '%',
    ensures
        out.len() > 0,
        spec_tier(q, out[0]) == 0,
        out.contains(row),
        forall|k: int| 0 <= k < out.len() && spec_tier(q, out[k]) == 0 ==> out[k].name == q,
{
    broadcast use vstd::multiset::group_multiset_axioms;

    let full = choose|full: Seq<RowV>|
        #[trigger] is_search_output(q, Seq::<EntryType>::empty(), rows, None, full, out);
    assert(out == full);
    lemma_fuzzy_matches_self(q);
    lemma_exact_of_clean(q);
    assert(row_matches(q, Seq::<EntryType>::empty(), row));
    assert(match_pred(q, Seq::<EntryType>::empty())(row));
    assert(full.to_multiset().count(row) == rows.count(row));
    full.to_multiset_ensures();
    assert(full.contains(row));
    let idx = choose|idx: int| 0 <= idx < full.len() && full[idx] == row;
    assert(spec_tier(q, row) == 0);
    if idx > 0 {
        assert(row_leq(q, full[0], full[idx]));
    }
    assert(spec_tier(q, full[0]) == 0);
    assert forall|k: int| 0 <= k < out.len() && spec_tier(q, out[k]) == 0 implies out[k].name
        == q by {
        assert(out[k].name == exact_query(q));
    }
}

/// Kind filtering: with a nonempty kind filter, every row a search returns
/// carries the label of one of the requested kinds — a `Method`-only search
/// can never return a `Struct` or `Module` entry.
pub proof fn lemma_kind_filter(
    q: Seq<char>,
    kinds: Seq<EntryType>,
    rows: vstd::multiset::Multiset<RowV>,
    limit: Option<usize>,
    out: Seq<RowV>,
)
    requires
        search_post(q, kinds, rows, limit, out),
        kinds.len() > 0,
    ensures
        forall|i: int| 0 <= i < out.len() ==> kind_allowed(kinds, #[trigger] out[i].ty),
{
    broadcast use vstd::multiset::group_multiset_axioms;

    let full = choose|full: Seq<RowV>| #[trigger] is_search_output(q, kinds, rows, limit, full, out);
    full.to_multiset_ensures();
    assert forall|i: int| 0 <= i < out.len() implies kind_allowed(kinds, #[trigger] out[i].ty) by {
        assert(full.contains(out[i])) by {
            match limit {
                Some(l) => {
                    if l < full.len() {
                        assert(out[i] == full.take(l as int)[i]);
                        assert(out[i] == full[i]);
                    }
                },
                None => {},
            }
        }
        assert(full.to_multiset().count(out[i]) > 0);
        assert(match_pred(q, kinds)(out[i]));
        assert(row_matches(q, kinds, out[i]));
    }
}

/// Empty query: a search with an empty query, no kind filter and no limit
/// returns every stored row exactly as often as the store holds it — on a
/// store built by the indexer, every indexed entry exactly once.
pub proof fn lemma_empty_query(
    q: Seq<char>,
    rows: vstd::multiset::Multiset<RowV>,
    out: Seq<RowV>,
)
    requires
        search_post(q, Seq::<EntryType>::empty(), rows, None, out),
        q.len() == 0,
    ensures
        out.to_multiset() == rows,
{
    broadcast use vstd::multiset::group_multiset_axioms;

    let full = choose|full: Seq<RowV>|
        #[trigger] is_search_output(q, Seq::<EntryType>::empty(), rows, None, full, out);
    assert(out == full);
    assert forall|row: RowV| #[trigger] rows.count(row) == full.to_multiset().count(row) by {
        assert(like_ci(fuzzy_pattern(q), row.name)) by {
            assert(lower_char('%') == '%');
            assert(lower_seq(fuzzy_pattern(q)) =~= seq!['%']);
            lemma_like_pct_all(lower_seq(row.name));
        }
        assert(row_matches(q, Seq::<EntryType>::empty(), row));
        assert(match_pred(q, Seq::<EntryType>::empty())(row));
        assert(full.to_multiset().count(row) == rows.count(row));
    }
    assert(out.to_multiset() =~= rows);
}

/// Inserting anywhere into a sequence inserts into its multiset.
proof fn lemma_insert_to_multiset<A>(s: Seq<A>, pos: int, x: A)
    requires
        0 <= pos <= s.len(),
    ensures
        s.insert(pos, x).to_multiset() == s.to_multiset().insert(x),
{
    broadcast use vstd::multiset::group_multiset_axioms;

    let a = s.subrange(0, pos);
    let b = s.subrange(pos, s.len() as int);
    assert(s =~= a + b);
    assert(s.insert(pos, x) =~= a.push(x) + b);
    vstd::seq_lib::lemma_multiset_commutative(a.push(x), b);
    vstd::seq_lib::lemma_multiset_commutative(a, b);
    a.to_multiset_ensures();
    assert(a.push(x).to_multiset() =~= a.to_multiset().insert(x));
    assert(s.insert(pos, x).to_multiset() =~= s.to_multiset().insert(x));
}

/// Filtering a sequence and filtering its multiset agree.
proof fn lemma_filter_to_multiset<A>(s: Seq<A>, pred: spec_fn(A) -> bool)
    ensures
        s.filter(pred).to_multiset() == s.to_multiset().filter(pred),
    decreases s.len(),
{
    broadcast use vstd::multiset::group_multiset_axioms;

    reveal(Seq::filter);
    s.to_multiset_ensures();
    s.filter(pred).to_multiset_ensures();
    if s.len() == 0 {
        assert forall|v: A| s.filter(pred).to_multiset().count(v) == s.to_multiset().filter(
            pred,
        ).count(v) by {
            assert(!s.contains(v));
            assert(!s.filter(pred).contains(v));
        }
        assert(s.filter(pred).to_multiset() =~= s.to_multiset().filter(pred));
    } else {
        let dl = s.drop_last();
        let x = s.last();
        lemma_filter_to_multiset(dl, pred);
        dl.to_multiset_ensures();
        dl.filter(pred).to_multiset_ensures();
        assert(s =~= dl.push(x));
        assert(dl.push(x).to_multiset() =~= dl.to_multiset().insert(x));
        if pred(x) {
            assert(s.filter(pred) == dl.filter(pred).push(x));
            assert(dl.filter(pred).push(x).to_multiset() =~= dl.filter(pred).to_multiset().insert(
                x,
            ));
            assert(s.filter(pred).to_multiset() =~= s.to_multiset().filter(pred));
        } else {
            assert(s.filter(pred) == dl.filter(pred));
            assert(s.filter(pred).to_multiset() =~= s.to_multiset().filter(pred));
        }
    }
}

/// The position where a row belongs in an already-sorted vector.
fn find_pos(
    Ghost(q): Ghost<Seq<char>>,
    exact: &Vec<char>,
    pe: &Vec<char>,
    ep: &Vec<char>,
    out: &Vec<crate::store::StoreRow>,
    x: &crate::store::StoreRow,
) -> (r: usize)
    requires
        exact@ == exact_query(q),
        pe@ == lower_seq(seq!['%'] + exact_query(q)),
        ep@ == lower_seq(exact_query(q) + seq!['%']),
    ensures
        r <= out@.len(),
        forall|k: int| 0 <= k < r ==> row_leq(q, #[trigger] out@[k]@, x@),
        r < out@.len() ==> !row_leq(q, out@[r as int]@, x@),
{
    let n = out.len();
    for pos in 0..n
        invariant
            n == out@.len(),
            exact@ == exact_query(q),
            pe@ == lower_seq(seq!['%'] + exact_query(q)),
            ep@ == lower_seq(exact_query(q) + seq!['%']),
            forall|k: int| 0 <= k < pos ==> row_leq(q, #[trigger] out@[k]@, x@),
    {
        if !row_le(Ghost(q), exact, pe, ep, &out[pos], x) {
            return pos;
        }
    }
    n
}

/// The row views of a store-row sequence.
pub open spec fn rv(s: Seq<crate::store::StoreRow>) -> Seq<RowV> {
    crate::store::row_views(s)
}

/// The row predicate of one search: what `row_matches` says for the given
/// query and kind filter.
pub open spec fn match_pred(q: Seq<char>, kinds: Seq<EntryType>) -> spec_fn(RowV) -> bool {
    |row: RowV| row_matches(q, kinds, row)
}

/// What a search hands back for a query, a kind filter and a result limit,
/// against a given stored row set: there is a full result list holding
/// exactly the matching rows, sorted by the ranking order, and the output
/// is that list, truncated to the limit when one is given.
pub open spec fn is_search_output(
    q: Seq<char>,
    kinds: Seq<EntryType>,
    rows: vstd::multiset::Multiset<RowV>,
    limit: Option<usize>,
    full: Seq<RowV>,
    out: Seq<RowV>,
) -> bool {
    &&& full.to_multiset() == rows.filter(match_pred(q, kinds))
    &&& sorted_rows(q, full)
    &&& match limit {
        Some(l) => out == if l < full.len() {
            full.take(l as int)
        } else {
            full
        },
        None => out == full,
    }
}

/// What `search` promises of its output row views: some full, sorted,
/// matching result list exists of which the output is the (possibly
/// truncated) front.
pub open spec fn search_post(
    q: Seq<char>,
    kinds: Seq<EntryType>,
    rows: vstd::multiset::Multiset<RowV>,
    limit: Option<usize>,
    out: Seq<RowV>,
) -> bool {
    exists|full: Seq<RowV>| #[trigger] is_search_output(q, kinds, rows, limit, full, out)
}

/// Executes a fuzzy, kind-filtered, deterministically ranked lookup against
/// the index store: every stored row that the query matches comes back
/// exactly as often as it is stored, ordered by tier, then shorter name,
/// then shorter location (with a fixed lexicographic tie-break), truncated
/// to `limit` results when a limit is given.
#[verifier::rlimit(100)]
pub fn search(
    conn: &rusqlite::Connection,
    query: &str,
    kinds: &Vec<EntryType>,
    limit: Option<usize>,
) -> (r: Result<Vec<crate::store::StoreRow>, crate::error::Error>)
    ensures
        r matches Ok(v) ==> search_post(query@, kinds@, crate::store::store_rows(*conn), limit, rv(v@)),
        r matches Err(e) ==> e is Sqlite,
{
    let rows = match crate::store::store_select_all(conn) {
        Err(e) => {
            return Err(crate::error::Error::Sqlite(e));
        },
        Ok(v) => v,
    };
    let ghost orig = rows@;
    let ghost q = query@;
    let ghost pred = match_pred(q, kinds@);
    let fuzzy_low = fuzzy_pattern_low(query);
    let exact = exact_query_vec(query);
    let exact_low = lower_vec(&exact);
    let mut pe: Vec<char> = Vec::new();
    pe.push('%');
    let mut k: usize = 0;
    while k < exact_low.len()
        invariant
            exact_low@ == lower_seq(exact@),
            k <= exact_low@.len(),
            pe@ =~= seq!['%'] + exact_low@.take(k as int),
        decreases exact_low@.len() - k,
    {
        pe.push(exact_low[k]);
        proof {
            assert(pe@ =~= seq!['%'] + exact_low@.take(k + 1));
        }
        k = k + 1;
    }
    let mut ep: Vec<char> = exact_low;
    ep.push('%');
    proof {
        assert(pe@.skip(1) =~= lower_seq(exact@));
        assert(lower_char('%') == '%');
        assert(pe@ =~= lower_seq(seq!['%'] + exact_query(q)));
        assert(ep@ =~= lower_seq(exact_query(q) + seq!['%']));
    }
    let mut input = rows;
    let mut out: Vec<crate::store::StoreRow> = Vec::new();
    proof {
        reveal(Seq::filter);
        assert(rv(out@) =~= Seq::<RowV>::empty());
        assert(orig.take(0) =~= Seq::<crate::store::StoreRow>::empty());
        assert(rv(orig.take(0)) =~= Seq::<RowV>::empty());
        assert(rv(out@).to_multiset() =~= rv(orig.take(0)).filter(pred).to_multiset());
        assert(input@ =~= orig.skip(0));
    }
    while input.len() > 0
        invariant
            exact@ == exact_query(q),
            q == query@,
            pred == match_pred(q, kinds@),
            fuzzy_low@ == lower_seq(fuzzy_pattern(q)),
            pe@ == lower_seq(seq!['%'] + exact_query(q)),
            ep@ == lower_seq(exact_query(q) + seq!['%']),
            input@ == orig.skip(orig.len() - input@.len()),
            input@.len() <= orig.len(),
            sorted_rows(q, rv(out@)),
            rv(out@).to_multiset() == rv(orig.take(orig.len() - input@.len())).filter(
                pred,
            ).to_multiset(),
        decreases input@.len(),
    {
        let ghost done = orig.len() - input@.len();
        let x = input.remove(0);
        proof {
            assert(input@ =~= orig.skip(done + 1));
            assert(orig.skip(done)[0] == orig[done]);
            assert(x == orig[done]);
            assert(orig.take(done + 1).drop_last() =~= orig.take(done));
            assert(orig.take(done + 1).last() == orig[done]);
        }
        let keep = row_match(Ghost(q), &fuzzy_low, kinds, &x);
        proof {
            reveal(Seq::filter);
            assert(rv(orig.take(done + 1)) =~= rv(orig.take(done)).push(x@));
            assert(rv(orig.take(done)).push(x@).drop_last() =~= rv(orig.take(done)));
            if pred(x@) {
                assert(rv(orig.take(done + 1)).filter(pred) =~= rv(orig.take(done)).filter(
                    pred,
                ).push(x@));
                rv(orig.take(done)).filter(pred).to_multiset_ensures();
            } else {
                assert(rv(orig.take(done + 1)).filter(pred) =~= rv(orig.take(done)).filter(pred));
            }
        }
        if keep {
            let ghost ob = out@;
            let pos = find_pos(Ghost(q), &exact, &pe, &ep, &out, &x);
            proof {
                if (pos as int) < ob.len() {
                    lemma_row_leq_total(q, rv(ob)[pos as int], x@);
                }
            }
            out.insert(pos, x);
            proof {
                let ov = rv(ob);
                assert(out@ == ob.insert(pos as int, x));
                ob.insert_ensures(pos as int, x);
                ov.insert_ensures(pos as int, x@);
                assert forall|t: int| 0 <= t < rv(out@).len() implies rv(out@)[t] == ov.insert(
                    pos as int,
                    x@,
                )[t] by {
                    if t < pos {
                        assert(out@[t] == ob[t]);
                    } else if t == pos {
                        assert(out@[t] == x);
                    } else {
                        assert(out@[t] == ob[t - 1]);
                    }
                }
                assert(rv(out@) =~= ov.insert(pos as int, x@));
                lemma_insert_to_multiset(ov, pos as int, x@);
                assert forall|i: int, j: int| 0 <= i < j < rv(out@).len() implies row_leq(
                    q,
                    rv(out@)[i],
                    rv(out@)[j],
                ) by {
                    if j < pos {
                        assert(row_leq(q, ov[i], ov[j]));
                    } else if i < pos && j == pos {
                        assert(row_leq(q, ov[i], x@));
                    } else if i < pos && j > pos {
                        assert(row_leq(q, ov[i], ov[j - 1]));
                    } else if i == pos {
                        assert(!row_leq(q, ov[pos as int], x@));
                        assert(row_leq(q, x@, ov[pos as int]));
                        if j - 1 > pos {
                            assert(row_leq(q, ov[pos as int], ov[j - 1]));
                            lemma_row_leq_trans(q, x@, ov[pos as int], ov[j - 1]);
                        }
                    } else {
                        assert(row_leq(q, ov[i - 1], ov[j - 1]));
                    }
                }
            }
        }
    }
    let ghost full = rv(out@);
    proof {
        assert(orig.take(orig.len() as int) =~= orig);
        lemma_filter_to_multiset(rv(orig), pred);
        assert(rv(orig).to_multiset() == crate::store::store_rows(*conn));
        assert(full.to_multiset() == crate::store::store_rows(*conn).filter(pred));
    }
    match limit {
        None => {
            proof {
                assert(rv(out@) == full);
                assert(is_search_output(
                    query@,
                    kinds@,
                    crate::store::store_rows(*conn),
                    limit,
                    full,
                    rv(out@),
                ));
                assert(search_post(query@, kinds@, crate::store::store_rows(*conn), limit, rv(out@)));
            }
            Ok(out)
        },
        Some(l) => {
            proof {
                assert(full.take(out@.len() as int) =~= full);
            }
            while out.len() > l
                invariant
                    rv(out@) == full.take(out@.len() as int),
                    out@.len() <= full.len(),
                    (l as int) <= out@.len() || out@.len() == full.len(),
                decreases out@.len(),
            {
                let ghost before = out@;
                out.pop();
                proof {
                    assert(out@ =~= before.drop_last());
                    assert(rv(out@) =~= rv(before).drop_last());
                    assert(full.take(before.len() as int).drop_last() =~= full.take(
                        before.len() - 1,
                    ));
                }
            }
            proof {
                if l < full.len() {
                    assert(rv(out@) == full.take(l as int));
                } else {
                    assert(full.take(out@.len() as int) =~= full);
                }
                assert(is_search_output(
                    query@,
                    kinds@,
                    crate::store::store_rows(*conn),
                    limit,
                    full,
                    rv(out@),
                ));
                assert(search_post(query@, kinds@, crate::store::store_rows(*conn), limit, rv(out@)));
            }
            Ok(out)
        },
    }
}

} // verus!
