//! Character-level string utilities: equality, substring search, prefix
//! tests, lexicographic ordering, sorting and joining. Everything here is
//! verified except the single trusted specification for `String::push`.

use vstd::prelude::*;
use vstd::multiset::Multiset;
use vstd::relations::{sorted_by, total_ordering};
use vstd::string::StrSliceExecFns;
use vstd::string::StringExecFns;

verus! {

/// Relies on std's String::push: appends one character at the end.
pub assume_specification[ String::push ](s: &mut String, c: char)
    ensures
        final(s)@ == old(s)@.push(c),
;

/// The characters of `s`, one vector entry per `char`.
pub fn str_chars(s: &str) -> (v: Vec<char>)
    ensures
        v@ == s@,
{
    let n = s.unicode_len();
    let mut v: Vec<char> = Vec::new();
    let mut i: usize = 0;
    while i < n
        invariant
            n == s@.len(),
            i <= n,
            v@ == s@.take(i as int),
        decreases n - i,
    {
        let c = s.get_char(i);
        v.push(c);
        assert(s@.take(i as int).push(s@[i as int]) =~= s@.take(i + 1));
        i = i + 1;
    }
    assert(s@.take(n as int) =~= s@);
    v
}

/// A `String` holding exactly the characters of `v`.
pub fn chars_to_string(v: &Vec<char>) -> (s: String)
    ensures
        s@ == v@,
{
    let mut s = String::new();
    let mut i: usize = 0;
    while i < v.len()
        invariant
            i <= v@.len(),
            s@ == v@.take(i as int),
        decreases v@.len() - i,
    {
        s.push(v[i]);
        assert(v@.take(i as int).push(v@[i as int]) =~= v@.take(i + 1));
        i = i + 1;
    }
    assert(v@.take(v@.len() as int) =~= v@);
    s
}

/// Character-for-character equality of two string slices.
pub fn str_eq(a: &str, b: &str) -> (r: bool)
    ensures
        r == (a@ == b@),
{
    let na = a.unicode_len();
    let nb = b.unicode_len();
    if na != nb {
        return false;
    }
    let mut i: usize = 0;
    while i < na
        invariant
            i <= na,
            na == a@.len(),
            na == b@.len(),
            forall|k: int| 0 <= k < i ==> a@[k] == b@[k],
        decreases na - i,
    {
        if a.get_char(i) != b.get_char(i) {
            return false;
        }
        i = i + 1;
    }
    assert(a@ =~= b@);
    true
}

pub open spec fn spec_starts_with(s: Seq<char>, p: Seq<char>) -> bool {
    p.len() <= s.len() && s.subrange(0, p.len() as int) == p
}

/// True when the characters of `nd` occur in `h` starting at index `i`.
pub fn match_at(h: &Vec<char>, nd: &Vec<char>, i: usize) -> (r: bool)
    requires
        i + nd@.len() <= h@.len(),
    ensures
        r == (h@.subrange(i as int, i as int + nd@.len() as int) == nd@),
{
    let m = nd.len();
    let n = h.len();
    let mut j: usize = 0;
    while j < m
        invariant
            j <= m,
            m == nd@.len(),
            n == h@.len(),
            i + m <= n,
            forall|k: int| 0 <= k < j ==> h@[i + k] == nd@[k],
        decreases m - j,
    {
        if h[i + j] != nd[j] {
            assert(h@.subrange(i as int, i as int + m as int)[j as int] == h@[i + j]);
            return false;
        }
        j = j + 1;
    }
    assert(h@.subrange(i as int, i as int + m as int) =~= nd@);
    true
}

pub fn str_starts_with(s: &str, p: &str) -> (r: bool)
    ensures
        r == spec_starts_with(s@, p@),
{
    let sv = str_chars(s);
    let pv = str_chars(p);
    if pv.len() > sv.len() {
        return false;
    }
    match_at(&sv, &pv, 0)
}

pub open spec fn spec_contains_sub(hay: Seq<char>, sub: Seq<char>) -> bool {
    exists|i: int|
        0 <= i && i + sub.len() <= hay.len() && #[trigger] hay.subrange(i, i + sub.len() as int)
            == sub
}

/// Substring search: does `needle` occur anywhere in `hay`?
pub fn str_contains(hay: &str, needle: &str) -> (r: bool)
    ensures
        r == spec_contains_sub(hay@, needle@),
{
    let h = str_chars(hay);
    let nd = str_chars(needle);
    let n = h.len();
    let m = nd.len();
    if m > n {
        return false;
    }
    if m == 0 {
        assert(spec_contains_sub(hay@, needle@)) by {
            assert(hay@.subrange(0, 0 + needle@.len() as int) =~= needle@);
        }
        return true;
    }
    let mut i: usize = 0;
    while i <= n - m
        invariant
            0 < m <= n,
            n == hay@.len(),
            m == needle@.len(),
            h@ == hay@,
            nd@ == needle@,
            i <= n - m + 1,
            forall|k: int|
                0 <= k < i ==> #[trigger] hay@.subrange(k, k + needle@.len() as int) != needle@,
        decreases n - i,
    {
        if match_at(&h, &nd, i) {
            assert(spec_contains_sub(hay@, needle@)) by {
                assert(hay@.subrange(i as int, i as int + needle@.len() as int) == needle@);
            }
            return true;
        }
        i = i + 1;
    }
    false
}

/// Lexicographic order on character sequences, by code point.
pub open spec fn spec_lex_leq(a: Seq<char>, b: Seq<char>) -> bool
    decreases a.len(),
{
    if a.len() == 0 {
        true
    } else if b.len() == 0 {
        false
    } else if a[0] == b[0] {
        spec_lex_leq(a.drop_first(), b.drop_first())
    } else {
        (a[0] as int) < (b[0] as int)
    }
}

pub open spec fn lex_leq_rel() -> spec_fn(Seq<char>, Seq<char>) -> bool {
    |a: Seq<char>, b: Seq<char>| spec_lex_leq(a, b)
}

proof fn lemma_lex_refl(a: Seq<char>)
    ensures
        spec_lex_leq(a, a),
    decreases a.len(),
{
    if a.len() > 0 {
        lemma_lex_refl(a.drop_first());
    }
}

proof fn lemma_lex_trans(a: Seq<char>, b: Seq<char>, c: Seq<char>)
    requires
        spec_lex_leq(a, b),
        spec_lex_leq(b, c),
    ensures
        spec_lex_leq(a, c),
    decreases a.len(),
{
    if a.len() == 0 {
    } else {
        if a[0] == b[0] {
            if b[0] == c[0] {
                lemma_lex_trans(a.drop_first(), b.drop_first(), c.drop_first());
            }
        }
    }
}

proof fn lemma_lex_antisym(a: Seq<char>, b: Seq<char>)
    requires
        spec_lex_leq(a, b),
        spec_lex_leq(b, a),
    ensures
        a == b,
    decreases a.len(),
{
    if a.len() == 0 {
        assert(b.len() == 0);
        assert(a =~= b);
    } else {
        assert(a[0] == b[0]);
        lemma_lex_antisym(a.drop_first(), b.drop_first());
        assert(a.drop_first().len() == a.len() - 1);
        assert(b.drop_first().len() == b.len() - 1);
        assert(a.len() == b.len());
        assert forall|i: int| 0 <= i < a.len() implies a[i] == b[i] by {
            if i > 0 {
                assert(a[i] == a.drop_first()[i - 1]);
                assert(b[i] == b.drop_first()[i - 1]);
            }
        }
        assert(a =~= b);
    }
}

proof fn lemma_lex_connected(a: Seq<char>, b: Seq<char>)
    ensures
        spec_lex_leq(a, b) || spec_lex_leq(b, a),
    decreases a.len(),
{
    if a.len() == 0 || b.len() == 0 {
    } else if a[0] == b[0] {
        lemma_lex_connected(a.drop_first(), b.drop_first());
    } else {
        assert((a[0] as int) != (b[0] as int));
    }
}

/// The lexicographic order is a total order, as `Seq::sort_by` requires.
pub proof fn lemma_lex_total_ordering()
    ensures
        total_ordering(lex_leq_rel()),
{
    let r = lex_leq_rel();
    assert forall|a: Seq<char>| #[trigger] r(a, a) by {
        lemma_lex_refl(a);
    }
    assert forall|a: Seq<char>, b: Seq<char>| #[trigger] r(a, b) && #[trigger] r(b, a) implies a
        == b by {
        lemma_lex_antisym(a, b);
    }
    assert forall|a: Seq<char>, b: Seq<char>, c: Seq<char>|
        #[trigger] r(a, b) && #[trigger] r(b, c) implies r(a, c) by {
        lemma_lex_trans(a, b, c);
    }
    assert forall|a: Seq<char>, b: Seq<char>| #[trigger] r(a, b) || #[trigger] r(b, a) by {
        lemma_lex_connected(a, b);
    }
}

/// The views of a sequence of strings.
pub open spec fn spec_views(s: Seq<String>) -> Seq<Seq<char>> {
    s.map_values(|x: String| x@)
}

/// Comparison backing the sort below.
pub fn lex_le(a: &str, b: &str) -> (r: bool)
    ensures
        r == spec_lex_leq(a@, b@),
{
    let na = a.unicode_len();
    let nb = b.unicode_len();
    let mut i: usize = 0;
    assert(a@.skip(0) =~= a@);
    assert(b@.skip(0) =~= b@);
    while i < na && i < nb
        invariant
            i <= na,
            i <= nb,
            na == a@.len(),
            nb == b@.len(),
            spec_lex_leq(a@, b@) == spec_lex_leq(a@.skip(i as int), b@.skip(i as int)),
            spec_lex_leq(b@, a@) == spec_lex_leq(b@.skip(i as int), a@.skip(i as int)),
        decreases na - i,
    {
        let ca = a.get_char(i);
        let cb = b.get_char(i);
        if ca != cb {
            assert(a@.skip(i as int)[0] == ca && b@.skip(i as int)[0] == cb);
            let r = (ca as u32) < (cb as u32);
            assert(r == ((ca as int) < (cb as int)));
            return r;
        }
        assert(a@.skip(i as int).drop_first() =~= a@.skip(i + 1));
        assert(b@.skip(i as int).drop_first() =~= b@.skip(i + 1));
        i = i + 1;
    }
    assert(a@.skip(i as int).len() == 0 || b@.skip(i as int).len() == 0);
    na <= nb
}

proof fn lemma_insert_multiset<A>(s: Seq<A>, i: int, a: A)
    requires
        0 <= i <= s.len(),
    ensures
        s.insert(i, a).to_multiset() == s.to_multiset().insert(a),
{
    broadcast use vstd::seq_lib::group_to_multiset_ensures;

    let pre = s.take(i);
    let post = s.skip(i);
    assert(s.insert(i, a) =~= pre + (seq![a] + post));
    assert(s =~= pre + post);
    vstd::seq_lib::lemma_multiset_commutative(pre, seq![a] + post);
    vstd::seq_lib::lemma_multiset_commutative(seq![a], post);
    vstd::seq_lib::lemma_multiset_commutative(pre, post);
    assert(seq![a].to_multiset() =~= Multiset::<A>::empty().insert(a)) by {
        assert(seq![a] =~= Seq::<A>::empty().push(a));
        assert(Seq::<A>::empty().to_multiset() =~= Multiset::<A>::empty());
    }
    assert(s.insert(i, a).to_multiset() =~= s.to_multiset().insert(a));
}

/// Sorts strings into lexicographic (code point) order by insertion.
pub fn sort_strings(v: &Vec<String>) -> (r: Vec<String>)
    ensures
        sorted_by(spec_views(r@), lex_leq_rel()),
        spec_views(r@).to_multiset() == spec_views(v@).to_multiset(),
{
    proof {
        broadcast use vstd::seq_lib::group_to_multiset_ensures;
    }
    let mut r: Vec<String> = Vec::new();
    let mut i: usize = 0;
    assert(spec_views(v@.take(0)) =~= Seq::<Seq<char>>::empty());
    assert(spec_views(r@) =~= Seq::<Seq<char>>::empty());
    while i < v.len()
        invariant
            i <= v@.len(),
            sorted_by(spec_views(r@), lex_leq_rel()),
            spec_views(r@).to_multiset() == spec_views(v@.take(i as int)).to_multiset(),
        decreases v@.len() - i,
    {
        let x = v[i].clone();
        let ghost old_r = r@;
        let mut p: usize = 0;
        while p < r.len() && lex_le(r[p].as_str(), x.as_str())
            invariant
                p <= r@.len(),
                forall|k: int| 0 <= k < p ==> spec_lex_leq(spec_views(r@)[k], x@),
                r@ == old_r,
        decreases r@.len() - p,
        {
            p = p + 1;
        }
        proof {
            lemma_lex_total_ordering();
        }
        r.insert(p, x);
        proof {
            let rel = lex_leq_rel();
            let vs = spec_views(old_r);
            let nvs = spec_views(r@);
            assert(nvs =~= vs.insert(p as int, v@[i as int]@));
            assert forall|a: int, b: int| 0 <= a < b < nvs.len() implies #[trigger] rel(
                nvs[a],
                nvs[b],
            ) by {
                if b < p {
                    assert(nvs[a] == vs[a] && nvs[b] == vs[b]);
                } else if a > p {
                    assert(nvs[a] == vs[a - 1] && nvs[b] == vs[b - 1]);
                } else if a < p && b == p {
                    assert(nvs[a] == vs[a]);
                    assert(rel(vs[a], v@[i as int]@));
                } else if a == p && b > p {
                    assert(nvs[b] == vs[b - 1]);
                    if p < vs.len() {
                        assert(!spec_lex_leq(vs[p as int], v@[i as int]@));
                        lemma_lex_connected(vs[p as int], v@[i as int]@);
                        if b - 1 > p {
                            assert(rel(vs[p as int], vs[b - 1]));
                            lemma_lex_trans(v@[i as int]@, vs[p as int], vs[b - 1]);
                        }
                    }
                } else if a < p && b > p {
                    assert(nvs[a] == vs[a] && nvs[b] == vs[b - 1]);
                }
            }
            lemma_insert_multiset(vs, p as int, v@[i as int]@);
            assert(spec_views(v@.take(i + 1)) =~= spec_views(v@.take(i as int)).push(
                v@[i as int]@,
            ));
            broadcast use vstd::seq_lib::group_to_multiset_ensures;

            assert(spec_views(v@.take(i + 1)).to_multiset() == spec_views(
                v@.take(i as int),
            ).to_multiset().insert(v@[i as int]@));
        }
        i = i + 1;
    }
    assert(v@.take(v@.len() as int) =~= v@);
    r
}

/// Splitting at every occurrence of `sep`; the result always has one part
/// more than there are separators, so it is never empty.
pub open spec fn spec_split(s: Seq<char>, sep: char) -> Seq<Seq<char>>
    decreases s.len(),
{
    if s.len() == 0 {
        seq![Seq::<char>::empty()]
    } else if s[0] == sep {
        seq![Seq::<char>::empty()] + spec_split(s.drop_first(), sep)
    } else {
        let rest = spec_split(s.drop_first(), sep);
        seq![seq![s[0]] + rest[0]] + rest.drop_first()
    }
}

pub proof fn lemma_split_nonempty(s: Seq<char>, sep: char)
    ensures
        spec_split(s, sep).len() >= 1,
    decreases s.len(),
{
    if s.len() > 0 {
        lemma_split_nonempty(s.drop_first(), sep);
    }
}

/// The partial split while a scan stands inside a part: the characters seen
/// since the last separator, consed onto the split of the rest.
spec fn spec_split_acc(pre: Seq<char>, sp: Seq<Seq<char>>) -> Seq<Seq<char>> {
    seq![pre + sp[0]] + sp.drop_first()
}

pub fn split_chars(s: &Vec<char>, sep: char) -> (parts: Vec<String>)
    ensures
        spec_views(parts@) == spec_split(s@, sep),
{
    let n = s.len();
    let mut parts: Vec<String> = Vec::new();
    let mut cur: Vec<char> = Vec::new();
    let mut i: usize = 0;
    proof {
        assert(s@.skip(0) =~= s@);
        assert(spec_views(parts@) =~= Seq::<Seq<char>>::empty());
    }
    while i < n
        invariant
            i <= n,
            n == s@.len(),
            spec_split(s@, sep) == spec_views(parts@) + spec_split_acc(
                cur@,
                spec_split(s@.skip(i as int), sep),
            ),
        decreases n - i,
    {
        let ghost rem = s@.skip(i as int);
        let ghost rem1 = s@.skip(i + 1);
        proof {
            assert(rem.len() > 0 && rem[0] == s@[i as int]);
            assert(rem.drop_first() =~= rem1);
            lemma_split_nonempty(rem1, sep);
        }
        let c = s[i];
        let ghost old_parts = parts@;
        let ghost old_cur = cur@;
        if c == sep {
            let done = chars_to_string(&cur);
            parts.push(done);
            cur = Vec::new();
            proof {
                let sp1 = spec_split(rem1, sep);
                assert(spec_split(rem, sep) == seq![Seq::<char>::empty()] + sp1);
                assert(spec_split_acc(old_cur, spec_split(rem, sep)) =~= seq![old_cur] + sp1) by {
                    assert((seq![Seq::<char>::empty()] + sp1).drop_first() =~= sp1);
                    assert(old_cur + (seq![Seq::<char>::empty()] + sp1)[0] =~= old_cur);
                }
                assert(spec_views(parts@) =~= spec_views(old_parts) + seq![done@]);
                assert(spec_views(parts@) + spec_split_acc(cur@, sp1) =~= spec_views(old_parts)
                    + spec_split_acc(old_cur, spec_split(rem, sep))) by {
                    assert(spec_split_acc(Seq::<char>::empty(), sp1) =~= sp1) by {
                        assert(Seq::<char>::empty() + sp1[0] =~= sp1[0]);
                    }
                }
            }
        } else {
            cur.push(c);
            proof {
                let sp1 = spec_split(rem1, sep);
                assert(spec_split(rem, sep) == seq![seq![rem[0]] + sp1[0]] + sp1.drop_first());
                assert(spec_split_acc(old_cur, spec_split(rem, sep)) =~= spec_split_acc(
                    cur@,
                    sp1,
                )) by {
                    assert(old_cur + (seq![seq![rem[0]] + sp1[0]] + sp1.drop_first())[0] =~= cur@
                        + sp1[0]);
                    assert((seq![seq![rem[0]] + sp1[0]] + sp1.drop_first()).drop_first() =~= sp1
                        .drop_first());
                }
            }
        }
        i = i + 1;
    }
    let ghost old_parts = parts@;
    let ghost old_cur = cur@;
    let done = chars_to_string(&cur);
    parts.push(done);
    proof {
        assert(s@.skip(n as int).len() == 0);
        assert(spec_split(s@.skip(n as int), sep) == seq![Seq::<char>::empty()]);
        assert(spec_split_acc(old_cur, seq![Seq::<char>::empty()]) =~= seq![old_cur]) by {
            assert(old_cur + seq![Seq::<char>::empty()][0] =~= old_cur);
        }
        assert(spec_views(parts@) =~= spec_views(old_parts) + seq![old_cur]);
        assert(spec_views(parts@) =~= spec_split(s@, sep));
    }
    parts
}

/// Trailing occurrences of `c` removed.
pub open spec fn spec_trim_end_char(s: Seq<char>, c: char) -> Seq<char>
    decreases s.len(),
{
    if s.len() > 0 && s.last() == c {
        spec_trim_end_char(s.drop_last(), c)
    } else {
        s
    }
}

pub fn trim_end_char(v: &mut Vec<char>, c: char)
    ensures
        final(v)@ == spec_trim_end_char(old(v)@, c),
{
    while v.len() > 0 && v[v.len() - 1] == c
        invariant
            spec_trim_end_char(v@, c) == spec_trim_end_char(old(v)@, c),
        decreases v@.len(),
    {
        let ghost pre = v@;
        v.pop();
        proof {
            assert(pre.last() == c);
            assert(v@ =~= pre.drop_last());
            assert(spec_trim_end_char(pre, c) == spec_trim_end_char(pre.drop_last(), c));
        }
    }
}

/// The string with its first character uppercased (by the Unicode
/// mapping) and the rest unchanged.
pub fn capitalize(s: &str) -> (r: String)
    ensures
        s@.len() == 0 ==> r@ == Seq::<char>::empty(),
        s@.len() > 0 ==> r@ == crate::wrappers::spec_char_upper(s@[0]) + s@.skip(1),
{
    let n = s.unicode_len();
    if n == 0 {
        return String::new();
    }
    let first = s.get_char(0);
    let mut r = crate::wrappers::char_to_uppercase(first);
    let rest = s.substring_char(1, n);
    r.append(rest);
    r
}

/// `parts` joined with `sep` between consecutive elements.
pub open spec fn spec_join_sep(parts: Seq<Seq<char>>, sep: Seq<char>) -> Seq<char>
    decreases parts.len(),
{
    if parts.len() == 0 {
        Seq::empty()
    } else if parts.len() == 1 {
        parts[0]
    } else {
        spec_join_sep(parts.drop_last(), sep) + sep + parts.last()
    }
}

pub fn join_with(parts: &Vec<String>, sep: &str) -> (r: String)
    ensures
        r@ == spec_join_sep(spec_views(parts@), sep@),
{
    let mut r = String::new();
    let mut i: usize = 0;
    while i < parts.len()
        invariant
            i <= parts@.len(),
            r@ == spec_join_sep(spec_views(parts@.take(i as int)), sep@),
        decreases parts@.len() - i,
    {
        if i > 0 {
            r.append(sep);
        }
        r.append(parts[i].as_str());
        proof {
            let vs = spec_views(parts@.take(i + 1));
            assert(vs.drop_last() =~= spec_views(parts@.take(i as int)));
            assert(vs.last() == parts@[i as int]@);
        }
        i = i + 1;
    }
    assert(parts@.take(parts@.len() as int) =~= parts@);
    r
}

} // verus!
