//! Small verified helpers over sequences and vectors of strings.

use vstd::prelude::*;

use crate::strings::str_eq;

verus! {

/// Step lemma for loops that build a filtered prefix front to back.
pub proof fn lemma_filter_take_step<A>(s: Seq<A>, i: int, pred: spec_fn(A) -> bool)
    requires
        0 <= i < s.len(),
    ensures
        s.take(i + 1).filter(pred) == (if pred(s[i]) {
            s.take(i).filter(pred).push(s[i])
        } else {
            s.take(i).filter(pred)
        }),
{
    reveal(Seq::filter);
    assert(s.take(i + 1).drop_last() =~= s.take(i));
    assert(s.take(i + 1).last() == s[i]);
}

/// Membership of a character sequence among the views of a string vector.
pub open spec fn spec_contains_str(s: Seq<String>, t: Seq<char>) -> bool {
    exists|k: int| 0 <= k < s.len() && #[trigger] s[k]@ == t
}

pub fn vec_contains_str(v: &Vec<String>, t: &str) -> (r: bool)
    ensures
        r == spec_contains_str(v@, t@),
{
    let mut k: usize = 0;
    while k < v.len()
        invariant
            k <= v@.len(),
            forall|j: int| 0 <= j < k ==> #[trigger] v@[j]@ != t@,
        decreases v@.len() - k,
    {
        if crate::strings::str_eq(v[k].as_str(), t) {
            return true;
        }
        k = k + 1;
    }
    false
}

/// An element-wise copy of a string vector.
pub fn clone_strings(v: &Vec<String>) -> (r: Vec<String>)
    ensures
        r@ == v@,
{
    let mut r: Vec<String> = Vec::new();
    let mut i: usize = 0;
    while i < v.len()
        invariant
            i <= v@.len(),
            r@ == v@.take(i as int),
        decreases v@.len() - i,
    {
        r.push(v[i].clone());
        assert(v@.take(i as int).push(v@[i as int]) =~= v@.take(i + 1));
        i = i + 1;
    }
    assert(v@.take(v@.len() as int) =~= v@);
    r
}

/// An element-wise copy of a vector of string pairs.
pub fn clone_pairs(v: &Vec<(String, String)>) -> (r: Vec<(String, String)>)
    ensures
        r@ == v@,
{
    let mut r: Vec<(String, String)> = Vec::new();
    let mut i: usize = 0;
    while i < v.len()
        invariant
            i <= v@.len(),
            r@ == v@.take(i as int),
        decreases v@.len() - i,
    {
        let p = (v[i].0.clone(), v[i].1.clone());
        assert(p == v@[i as int]);
        r.push(p);
        assert(v@.take(i as int).push(v@[i as int]) =~= v@.take(i + 1));
        i = i + 1;
    }
    assert(v@.take(v@.len() as int) =~= v@);
    r
}

/// How many entries of `s` are true.
pub open spec fn spec_count_true(s: Seq<bool>) -> int
    decreases s.len(),
{
    if s.len() == 0 {
        0
    } else {
        spec_count_true(s.drop_last()) + if s.last() {
            1int
        } else {
            0int
        }
    }
}

pub proof fn lemma_count_true_bounds(s: Seq<bool>)
    ensures
        0 <= spec_count_true(s) <= s.len(),
    decreases s.len(),
{
    if s.len() > 0 {
        lemma_count_true_bounds(s.drop_last());
    }
}

pub proof fn lemma_count_true_update(s: Seq<bool>, i: int)
    requires
        0 <= i < s.len(),
        !s[i],
    ensures
        spec_count_true(s.update(i, true)) == spec_count_true(s) + 1,
    decreases s.len(),
{
    if i == s.len() - 1 {
        assert(s.update(i, true).drop_last() =~= s.drop_last());
        assert(s.update(i, true).last());
    } else {
        lemma_count_true_update(s.drop_last(), i);
        assert(s.update(i, true).drop_last() =~= s.drop_last().update(i, true));
        assert(s.update(i, true).last() == s.last());
    }
}

pub proof fn lemma_count_true_mono(a: Seq<bool>, b: Seq<bool>)
    requires
        a.len() == b.len(),
        forall|i: int| 0 <= i < a.len() && a[i] ==> #[trigger] b[i],
    ensures
        spec_count_true(a) <= spec_count_true(b),
    decreases a.len(),
{
    if a.len() > 0 {
        lemma_count_true_mono(a.drop_last(), b.drop_last());
        assert(a.last() ==> b.last());
    }
}

/// The views of a vector of string pairs.
pub open spec fn spec_pair_views(s: Seq<(String, String)>) -> Seq<(Seq<char>, Seq<char>)> {
    s.map_values(|p: (String, String)| (p.0@, p.1@))
}

/// The index of the group keyed by `key`, if one exists.
pub fn find_group(groups: &Vec<(String, Vec<String>)>, key: &str) -> (r: Option<usize>)
    ensures
        match r {
            Some(f) => f < groups@.len() && groups@[f as int].0@ == key@,
            None => forall|h: int| 0 <= h < groups@.len() ==> (#[trigger] groups@[h]).0@ != key@,
        },
{
    let mut g: usize = 0;
    while g < groups.len()
        invariant
            g <= groups@.len(),
            forall|h: int| 0 <= h < g ==> (#[trigger] groups@[h]).0@ != key@,
        decreases groups@.len() - g,
    {
        if str_eq(groups[g].0.as_str(), key) {
            return Some(g);
        }
        g = g + 1;
    }
    None
}

/// The distinct first components, in order of first occurrence.
pub open spec fn spec_group_keys(pairs: Seq<(Seq<char>, Seq<char>)>) -> Seq<Seq<char>>
    decreases pairs.len(),
{
    if pairs.len() == 0 {
        Seq::empty()
    } else {
        let pre = spec_group_keys(pairs.drop_last());
        if pre.contains(pairs.last().0) {
            pre
        } else {
            pre.push(pairs.last().0)
        }
    }
}

/// The second components recorded under one key, in order.
pub open spec fn spec_group_members(pairs: Seq<(Seq<char>, Seq<char>)>, key: Seq<char>) -> Seq<
    Seq<char>,
>
    decreases pairs.len(),
{
    if pairs.len() == 0 {
        Seq::empty()
    } else {
        let pre = spec_group_members(pairs.drop_last(), key);
        if pairs.last().0 == key {
            pre.push(pairs.last().1)
        } else {
            pre
        }
    }
}

/// A key never seen among the keys has an empty member list.
pub proof fn lemma_group_unknown_key(pairs: Seq<(Seq<char>, Seq<char>)>, key: Seq<char>)
    requires
        !spec_group_keys(pairs).contains(key),
    ensures
        spec_group_members(pairs, key).len() == 0,
    decreases pairs.len(),
{
    if pairs.len() > 0 {
        let pre_keys = spec_group_keys(pairs.drop_last());
        assert forall|k: int| 0 <= k < pre_keys.len() implies spec_group_keys(pairs)[k]
            == pre_keys[k] by {
            if pre_keys.contains(pairs.last().0) {
            }
        }
        assert(!pre_keys.contains(key)) by {
            if pre_keys.contains(key) {
                let w = choose|w: int| 0 <= w < pre_keys.len() && pre_keys[w] == key;
                assert(spec_group_keys(pairs)[w] == key);
                assert(spec_group_keys(pairs).contains(key));
            }
        }
        lemma_group_unknown_key(pairs.drop_last(), key);
        assert(pairs.last().0 != key) by {
            if pairs.last().0 == key {
                if pre_keys.contains(key) {
                } else {
                    assert(spec_group_keys(pairs).last() == key);
                    assert(spec_group_keys(pairs).contains(key));
                }
            }
        }
    }
}

/// The keys of a grouping are pairwise distinct.
pub proof fn lemma_group_keys_distinct(pairs: Seq<(Seq<char>, Seq<char>)>)
    ensures
        forall|a: int, b: int|
            0 <= a < b < spec_group_keys(pairs).len() ==> #[trigger] spec_group_keys(
                pairs,
            )[a] != #[trigger] spec_group_keys(pairs)[b],
    decreases pairs.len(),
{
    if pairs.len() > 0 {
        lemma_group_keys_distinct(pairs.drop_last());
        let pre = spec_group_keys(pairs.drop_last());
        let keys = spec_group_keys(pairs);
        assert forall|a: int, b: int| 0 <= a < b < keys.len() implies #[trigger] keys[a]
            != #[trigger] keys[b] by {
            if pre.contains(pairs.last().0) {
                assert(keys[a] == pre[a] && keys[b] == pre[b]);
            } else {
                if b < pre.len() {
                    assert(keys[a] == pre[a] && keys[b] == pre[b]);
                } else {
                    assert(keys[b] == pairs.last().0);
                    assert(keys[a] == pre[a]);
                    if keys[a] == keys[b] {
                        assert(pre.contains(pairs.last().0));
                        assert(false);
                    }
                }
            }
        }
    }
}


/// Groups string pairs by first component: one entry per distinct key in
/// first-occurrence order, carrying the second components in order.
pub fn group_pairs(pairs: &Vec<(String, String)>) -> (groups: Vec<(String, Vec<String>)>)
    ensures
        groups@.map_values(|g: (String, Vec<String>)| g.0@) == spec_group_keys(
            spec_pair_views(pairs@),
        ),
        forall|g: int|
            0 <= g < groups@.len() ==> crate::strings::spec_views((#[trigger] groups@[g]).1@)
                == spec_group_members(spec_pair_views(pairs@), groups@[g].0@),
{
    let ghost pview = spec_pair_views(pairs@);
    let mut groups: Vec<(String, Vec<String>)> = Vec::new();
    let mut t: usize = 0;
    proof {
        assert(pview.take(0) =~= Seq::<(Seq<char>, Seq<char>)>::empty());
        assert(groups@.map_values(|g: (String, Vec<String>)| g.0@) =~= Seq::<Seq<char>>::empty());
    }
    while t < pairs.len()
        invariant
            t <= pairs@.len(),
            pview == spec_pair_views(pairs@),
            groups@.map_values(|g: (String, Vec<String>)| g.0@) == spec_group_keys(
                pview.take(t as int),
            ),
            forall|g: int|
                0 <= g < groups@.len() ==> crate::strings::spec_views((#[trigger] groups@[g]).1@)
                    == spec_group_members(pview.take(t as int), groups@[g].0@),
        decreases pairs@.len() - t,
    {
        let ghost keys_pre = spec_group_keys(pview.take(t as int));
        proof {
            assert(pview.take(t + 1).drop_last() =~= pview.take(t as int));
            assert(pview.take(t + 1).last() == pview[t as int]);
            assert(pview[t as int] == (pairs@[t as int].0@, pairs@[t as int].1@));
        }
        let key = &pairs[t].0;
        let name = &pairs[t].1;
        let found = find_group(&groups, key.as_str());
        proof {
            match found {
                Some(f) => {
                    assert(groups@[f as int].0@ == key@);
                    assert(groups@.map_values(|gg: (String, Vec<String>)| gg.0@)[f as int]
                        == key@);
                    assert(keys_pre.contains(key@));
                },
                None => {
                    if keys_pre.contains(key@) {
                        let w = choose|w: int| 0 <= w < keys_pre.len() && keys_pre[w] == key@;
                        assert(groups@.map_values(|gg: (String, Vec<String>)| gg.0@)[w] == key@);
                        assert(groups@[w].0@ == key@);
                        assert(false);
                    }
                },
            }
        }
        if found.is_none() {
            let mut members: Vec<String> = Vec::new();
            members.push(name.clone());
            groups.push((key.clone(), members));
            proof {
                let keys_new = spec_group_keys(pview.take(t + 1));
                assert(keys_new == keys_pre.push(key@));
                assert(groups@.map_values(|gg: (String, Vec<String>)| gg.0@) =~= keys_new);
                assert forall|h: int| 0 <= h < groups@.len() implies crate::strings::spec_views(
                    (#[trigger] groups@[h]).1@,
                ) == spec_group_members(pview.take(t + 1), groups@[h].0@) by {
                    if h < groups@.len() - 1 {
                        assert(groups@[h] == groups@.drop_last()[h]);
                        assert(crate::strings::spec_views(groups@[h].1@) == spec_group_members(
                            pview.take(t as int),
                            groups@[h].0@,
                        ));
                        assert(groups@[h].0@ != key@) by {
                            assert(keys_new[h] == groups@[h].0@);
                            assert(keys_new[keys_new.len() - 1] == key@);
                            if groups@[h].0@ == key@ {
                                assert(keys_pre.contains(key@)) by {
                                    assert(keys_pre[h] == keys_new[h]);
                                }
                                assert(false);
                            }
                        }
                    } else {
                        assert(groups@[h].0@ == key@);
                        assert(spec_group_members(pview.take(t as int), key@) =~= Seq::<
                            Seq<char>,
                        >::empty()) by {
                            lemma_group_unknown_key(pview.take(t as int), key@);
                        }
                        assert(crate::strings::spec_views(groups@[h].1@) =~= seq![name@]);
                    }
                }
            }
        } else {
            let found = match found {
                Some(f) => f,
                None => 0,
            };
            let updated_members = {
                let mut m = clone_strings(&groups[found].1);
                m.push(name.clone());
                m
            };
            let updated = (groups[found].0.clone(), updated_members);
            let ghost pre_groups = groups@;
            groups.set(found, updated);
            proof {
                let keys_new = spec_group_keys(pview.take(t + 1));
                assert(keys_new == keys_pre);
                assert(groups@.map_values(|gg: (String, Vec<String>)| gg.0@) =~= keys_pre) by {
                    assert forall|h: int| 0 <= h < groups@.len() implies groups@[h].0@
                        == pre_groups[h].0@ by {}
                }
                assert forall|h: int| 0 <= h < groups@.len() implies crate::strings::spec_views(
                    (#[trigger] groups@[h]).1@,
                ) == spec_group_members(pview.take(t + 1), groups@[h].0@) by {
                    if h == found {
                        assert(groups@[h].0@ == key@);
                        assert(crate::strings::spec_views(groups@[h].1@)
                            =~= crate::strings::spec_views(pre_groups[h].1@).push(name@));
                    } else {
                        assert(groups@[h] == pre_groups[h]);
                        assert(groups@[h].0@ != key@) by {
                            if groups@[h].0@ == key@ {
                                lemma_group_keys_distinct(pview.take(t as int));
                                assert(keys_pre[h] == groups@[h].0@);
                                assert(keys_pre[found as int] == key@);
                                assert(false);
                            }
                        }
                    }
                }
            }
        }
        t = t + 1;
    }
    assert(pview.take(pview.len() as int) =~= pview);
    groups
}

} // verus!
