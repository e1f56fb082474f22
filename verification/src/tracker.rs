//! Snapshot-based change tracking: a timestamped, checksummed capture of
//! the dependency set, inheritance of first-seen and last-changed
//! timestamps across snapshots, set comparison into an add/update/remove
//! change list, staleness buckets, and compliance flags.

use vstd::prelude::*;

use crate::seqs::lemma_filter_take_step;
use crate::strings::join_with;
use crate::strings::lex_leq_rel;
use crate::strings::lemma_lex_total_ordering;
use crate::strings::sort_strings;
use crate::strings::spec_join_sep;
use crate::strings::spec_views;
use crate::strings::spec_contains_sub;
use crate::strings::str_contains;
use crate::strings::str_eq;
use crate::types::DependencyNode;
use crate::wrappers::hex_encode;
use crate::wrappers::parse_rfc3339_millis;
use crate::wrappers::sha256_str;
use crate::wrappers::spec_hex_lower;
use crate::wrappers::spec_rfc3339_millis;
use crate::wrappers::spec_sha256_str;
use crate::wrappers::spec_str_upper;
use crate::wrappers::str_to_uppercase;
use vstd::seq_lib::lemma_sorted_unique;
use vstd::string::StringExecFns;

verus! {

/// Thirty days, one year and two years, in milliseconds.
pub const THIRTY_DAYS_MILLIS: i64 = 2592000000;

pub const ONE_YEAR_MILLIS: i64 = 31536000000;

pub const TWO_YEARS_MILLIS: i64 = 63072000000;

/// A timestamped, checksummed capture of the whole dependency set.
#[derive(Debug, Clone)]
pub struct DependencySnapshot {
    pub timestamp: String,
    pub checksum: String,
    pub dependencies: Vec<TrackedDependency>,
    pub metadata: SnapshotMetadata,
}

/// One dependency as the tracker carries it across snapshots.
#[derive(Debug, Clone)]
pub struct TrackedDependency {
    pub name: String,
    pub version: String,
    pub dep_type: String,
    pub added_at: Option<String>,
    pub updated_at: Option<String>,
    pub license: Option<String>,
    pub security_status: Option<String>,
}

#[derive(Debug, Clone)]
pub struct SnapshotMetadata {
    pub repo_path: String,
    pub package_manager: String,
    pub total_count: usize,
}

/// One difference between two snapshots.
#[derive(Debug, Clone)]
pub struct DependencyChange {
    pub change_type: String,
    pub name: String,
    pub old_version: Option<String>,
    pub new_version: Option<String>,
    pub timestamp: String,
    pub reason: Option<String>,
}

/// One compliance finding on an entry of the snapshot.
#[derive(Debug, Clone)]
pub struct ComplianceIssue {
    pub dependency: String,
    pub version: String,
    pub issue: String,
    pub severity: String,
    pub description: String,
    pub recommendation: String,
    pub auto_fix_available: bool,
}

/// The current snapshot with its entries bucketed by recency.
#[derive(Debug, Clone)]
pub struct DependencyHistory {
    pub current_snapshot: DependencySnapshot,
    pub recently_added: Vec<TrackedDependency>,
    pub recently_updated: Vec<TrackedDependency>,
    pub stale: Vec<TrackedDependency>,
}

pub open spec fn spec_opt_view(o: Option<String>) -> Option<Seq<char>> {
    match o {
        Some(s) => Some(s@),
        None => None,
    }
}

/// The token one dependency contributes to the checksum.
pub open spec fn spec_token(name: Seq<char>, version: Seq<char>) -> Seq<char> {
    name + "@"@ + version
}

pub open spec fn spec_node_tokens(tree: Seq<DependencyNode>) -> Seq<Seq<char>> {
    tree.map_values(|n: DependencyNode| spec_token(n.name@, n.version@))
}

/// The snapshot checksum: the tokens sorted (so that list order cannot
/// matter), joined, digested, and the first eight digest bytes kept as
/// lowercase hex.
pub open spec fn spec_checksum(tokens: Seq<Seq<char>>) -> Seq<char> {
    spec_hex_lower(
        spec_sha256_str(spec_join_sep(tokens.sort_by(lex_leq_rel()), "|"@)).take(8),
    )
}

/// The checksum is order-independent: any two token lists with the same
/// members (with multiplicity) have the same checksum.
pub proof fn lemma_checksum_permutation(a: Seq<Seq<char>>, b: Seq<Seq<char>>)
    requires
        a.to_multiset() == b.to_multiset(),
    ensures
        spec_checksum(a) == spec_checksum(b),
{
    lemma_lex_total_ordering();
    a.lemma_sort_by_ensures(lex_leq_rel());
    b.lemma_sort_by_ensures(lex_leq_rel());
    lemma_sorted_unique(a.sort_by(lex_leq_rel()), b.sort_by(lex_leq_rel()), lex_leq_rel());
}

/// The stored checksum of a token list.
pub fn checksum_of_tokens(tokens: &Vec<String>) -> (r: String)
    ensures
        r@ == spec_checksum(spec_views(tokens@)),
{
    let sorted = sort_strings(tokens);
    proof {
        lemma_lex_total_ordering();
        spec_views(tokens@).lemma_sort_by_ensures(lex_leq_rel());
        lemma_sorted_unique(
            spec_views(sorted@),
            spec_views(tokens@).sort_by(lex_leq_rel()),
            lex_leq_rel(),
        );
    }
    let joined = join_with(&sorted, "|");
    let digest = sha256_str(joined.as_str());
    let mut prefix: Vec<u8> = Vec::new();
    let mut i: usize = 0;
    while i < 8
        invariant
            i <= 8,
            digest@.len() == 32,
            prefix@ == digest@.subrange(0, i as int),
        decreases 8 - i,
    {
        prefix.push(digest[i]);
        assert(digest@.subrange(0, i as int).push(digest@[i as int]) =~= digest@.subrange(
            0,
            i + 1,
        ));
        i = i + 1;
    }
    assert(prefix@ =~= digest@.take(8));
    hex_encode(&prefix)
}

/// The last entry carrying the given name: the one a name-keyed map
/// built from the list would hold, since later entries overwrite earlier
/// ones.
pub open spec fn spec_last_dep_index(deps: Seq<TrackedDependency>, name: Seq<char>) -> Option<
    int,
>
    decreases deps.len(),
{
    if deps.len() == 0 {
        None
    } else if deps.last().name@ == name {
        Some(deps.len() - 1)
    } else {
        spec_last_dep_index(deps.drop_last(), name)
    }
}

pub proof fn lemma_last_dep_index(deps: Seq<TrackedDependency>, name: Seq<char>)
    ensures
        match spec_last_dep_index(deps, name) {
            Some(p) => 0 <= p < deps.len() && deps[p].name@ == name && (forall|k: int|
                p < k < deps.len() ==> (#[trigger] deps[k].name)@ != name),
            None => forall|k: int| 0 <= k < deps.len() ==> (#[trigger] deps[k].name)@ != name,
        },
    decreases deps.len(),
{
    if deps.len() > 0 {
        lemma_last_dep_index(deps.drop_last(), name);
        if deps.last().name@ == name {
        } else {
            match spec_last_dep_index(deps.drop_last(), name) {
                Some(p) => {
                    assert(deps.drop_last()[p] == deps[p]);
                    assert forall|k: int| p < k < deps.len() implies (#[trigger] deps[k].name)@
                        != name by {
                        if k < deps.len() - 1 {
                            assert(deps[k] == deps.drop_last()[k]);
                        }
                    }
                },
                None => {
                    assert forall|k: int| 0 <= k < deps.len() implies (#[trigger] deps[k].name)@
                        != name by {
                        if k < deps.len() - 1 {
                            assert(deps[k] == deps.drop_last()[k]);
                        }
                    }
                },
            }
        }
    }
}

/// The index of the last entry with the given name, if any.
fn find_dep_last(deps: &Vec<TrackedDependency>, name: &str) -> (r: Option<usize>)
    ensures
        match r {
            Some(p) => p < deps@.len() && spec_last_dep_index(deps@, name@) == Some(p as int),
            None => spec_last_dep_index(deps@, name@) is None,
        },
{
    let mut j: usize = deps.len();
    while j > 0
        invariant
            j <= deps@.len(),
            forall|k: int| j <= k < deps@.len() ==> (#[trigger] deps@[k].name)@ != name@,
        decreases j,
    {
        j = j - 1;
        if str_eq(deps[j].name.as_str(), name) {
            proof {
                lemma_last_dep_index(deps@, name@);
                match spec_last_dep_index(deps@, name@) {
                    Some(p) => {
                        if p < j {
                            assert(deps@[j as int].name@ != name@);
                            assert(false);
                        }
                        if p > j {
                            assert(deps@[p].name@ != name@);
                            assert(false);
                        }
                    },
                    None => {
                        assert(deps@[j as int].name@ != name@);
                        assert(false);
                    },
                }
            }
            return Some(j);
        }
    }
    proof {
        lemma_last_dep_index(deps@, name@);
        if let Some(p) = spec_last_dep_index(deps@, name@) {
            assert(deps@[p].name@ != name@);
            assert(false);
        }
    }
    None
}

/// The distinct names of a snapshot's entries, in order of first
/// appearance: the name set the comparison works over.
pub open spec fn spec_dep_keys(deps: Seq<TrackedDependency>) -> Seq<Seq<char>>
    decreases deps.len(),
{
    if deps.len() == 0 {
        Seq::empty()
    } else {
        let pre = spec_dep_keys(deps.drop_last());
        if pre.contains(deps.last().name@) {
            pre
        } else {
            pre.push(deps.last().name@)
        }
    }
}

/// Every key of a snapshot has an entry carrying it.
proof fn lemma_dep_key_has_entry(deps: Seq<TrackedDependency>, a: int)
    requires
        0 <= a < spec_dep_keys(deps).len(),
    ensures
        spec_last_dep_index(deps, spec_dep_keys(deps)[a]) is Some,
    decreases deps.len(),
{
    if deps.len() > 0 {
        let pre = spec_dep_keys(deps.drop_last());
        let k = spec_dep_keys(deps)[a];
        if deps.last().name@ == k {
        } else {
            assert(a < pre.len() && k == pre[a]) by {
                if !pre.contains(deps.last().name@) {
                    if a == pre.len() {
                        assert(k == deps.last().name@);
                        assert(false);
                    }
                }
            }
            lemma_dep_key_has_entry(deps.drop_last(), a);
        }
    }
}

/// The version a name-keyed map reports for `name`: that of the last
/// entry carrying it.
pub open spec fn spec_rep_version(deps: Seq<TrackedDependency>, name: Seq<char>) -> Seq<char> {
    match spec_last_dep_index(deps, name) {
        Some(p) => deps[p].version@,
        None => Seq::<char>::empty(),
    }
}

/// The distinct entry names, in order of first appearance.
fn dep_keys(deps: &Vec<TrackedDependency>) -> (keys: Vec<String>)
    ensures
        spec_views(keys@) == spec_dep_keys(deps@),
{
    let mut keys: Vec<String> = Vec::new();
    let mut i: usize = 0;
    proof {
        assert(deps@.take(0) =~= Seq::<TrackedDependency>::empty());
        assert(spec_views(keys@) =~= Seq::<Seq<char>>::empty());
    }
    while i < deps.len()
        invariant
            i <= deps@.len(),
            spec_views(keys@) == spec_dep_keys(deps@.take(i as int)),
        decreases deps@.len() - i,
    {
        proof {
            assert(deps@.take(i + 1).drop_last() =~= deps@.take(i as int));
            assert(deps@.take(i + 1).last() == deps@[i as int]);
        }
        let ghost pre = spec_dep_keys(deps@.take(i as int));
        let seen = crate::seqs::vec_contains_str(&keys, deps[i].name.as_str());
        proof {
            if seen {
                let w = choose|w: int|
                    0 <= w < keys@.len() && (#[trigger] keys@[w])@ == deps@[i as int].name@;
                assert(spec_views(keys@)[w] == deps@[i as int].name@);
                assert(pre.contains(deps@[i as int].name@));
            } else {
                if pre.contains(deps@[i as int].name@) {
                    let w = choose|w: int| 0 <= w < pre.len() && pre[w] == deps@[i as int].name@;
                    assert(keys@[w]@ == spec_views(keys@)[w]);
                    assert(false);
                }
            }
        }
        if !seen {
            keys.push(deps[i].name.clone());
            assert(spec_views(keys@) =~= pre.push(deps@[i as int].name@));
        }
        i = i + 1;
    }
    assert(deps@.take(deps@.len() as int) =~= deps@);
    keys
}

/// Correspondence of one snapshot entry to its graph node and the prior
/// snapshot: first-seen is inherited, last-changed refreshes exactly when
/// the version changed. The prior snapshot is read name-keyed, later
/// entries winning, as a map built from its list would be.
pub open spec fn spec_tracked_matches(
    td: TrackedDependency,
    node: DependencyNode,
    prior: Seq<TrackedDependency>,
    now: Seq<char>,
) -> bool {
    &&& td.name == node.name
    &&& td.version == node.version
    &&& td.dep_type == node.node_type
    &&& td.license == node.license
    &&& spec_opt_view(td.security_status) == Some("unknown"@)
    &&& match spec_last_dep_index(prior, node.name@) {
        Some(p) => {
            &&& (match prior[p].added_at {
                Some(a) => td.added_at == Some(a),
                None => spec_opt_view(td.added_at) == Some(now),
            })
            &&& (if prior[p].version@ != node.version@ {
                spec_opt_view(td.updated_at) == Some(now)
            } else {
                match prior[p].updated_at {
                    Some(u) => td.updated_at == Some(u),
                    None => spec_opt_view(td.updated_at) == Some(now),
                }
            })
        },
        None => spec_opt_view(td.added_at) == Some(now) && spec_opt_view(td.updated_at) == Some(
            now,
        ),
    }
}

/// Builds the snapshot for the current graph, inheriting timestamps from
/// the prior snapshot where the entry already existed; the checksum is
/// the order-independent digest of the name-at-version tokens.
pub fn create_dependency_snapshot(
    tree: &Vec<DependencyNode>,
    existing: Option<&DependencySnapshot>,
    now: &str,
    repo_path: &str,
) -> (r: DependencySnapshot)
    ensures
        ({
            let prior = match existing {
                Some(e) => e.dependencies@,
                None => Seq::<TrackedDependency>::empty(),
            };
            &&& r.timestamp@ == now@
            &&& r.dependencies@.len() == tree@.len()
            &&& forall|i: int|
                0 <= i < tree@.len() ==> spec_tracked_matches(
                    #[trigger] r.dependencies@[i],
                    tree@[i],
                    prior,
                    now@,
                )
            &&& r.checksum@ == spec_checksum(spec_node_tokens(tree@))
            &&& r.metadata.repo_path@ == repo_path@
            &&& r.metadata.package_manager@ == "composer"@
            &&& r.metadata.total_count == tree@.len()
        }),
{
    let empty_prior: Vec<TrackedDependency> = Vec::new();
    let prior: &Vec<TrackedDependency> = match existing {
        Some(e) => &e.dependencies,
        None => &empty_prior,
    };
    let ghost prior_seq = prior@;
    let mut entries: Vec<TrackedDependency> = Vec::new();
    let mut i: usize = 0;
    while i < tree.len()
        invariant
            i <= tree@.len(),
            prior@ == prior_seq,
            entries@.len() == i,
            forall|k: int|
                0 <= k < i ==> spec_tracked_matches(
                    #[trigger] entries@[k],
                    tree@[k],
                    prior_seq,
                    now@,
                ),
        decreases tree@.len() - i,
    {
        let node = &tree[i];
        let prev = find_dep_last(prior, node.name.as_str());
        let added_at: Option<String> = match prev {
            Some(p) => match &prior[p].added_at {
                Some(a) => Some(a.clone()),
                None => Some(String::from_str(now)),
            },
            None => Some(String::from_str(now)),
        };
        let updated_at: Option<String> = match prev {
            Some(p) => {
                if !str_eq(prior[p].version.as_str(), node.version.as_str()) {
                    Some(String::from_str(now))
                } else {
                    match &prior[p].updated_at {
                        Some(u) => Some(u.clone()),
                        None => Some(String::from_str(now)),
                    }
                }
            },
            None => Some(String::from_str(now)),
        };
        let td = TrackedDependency {
            name: node.name.clone(),
            version: node.version.clone(),
            dep_type: node.node_type.clone(),
            added_at,
            updated_at,
            license: match &node.license {
                Some(l) => Some(l.clone()),
                None => None,
            },
            security_status: Some(String::from_str("unknown")),
        };
        entries.push(td);
        i = i + 1;
    }
    let mut tokens: Vec<String> = Vec::new();
    let mut t: usize = 0;
    assert(spec_views(tokens@) =~= spec_node_tokens(tree@.take(0)));
    while t < tree.len()
        invariant
            t <= tree@.len(),
            spec_views(tokens@) == spec_node_tokens(tree@.take(t as int)),
        decreases tree@.len() - t,
    {
        let mut token = tree[t].name.clone();
        token.append("@");
        token.append(tree[t].version.as_str());
        tokens.push(token);
        proof {
            assert(spec_node_tokens(tree@.take(t + 1)) =~= spec_node_tokens(
                tree@.take(t as int),
            ).push(spec_token(tree@[t as int].name@, tree@[t as int].version@)));
            assert(spec_views(tokens@) =~= spec_views(tokens@.drop_last()).push(
                tokens@.last()@,
            ));
        }
        t = t + 1;
    }
    assert(tree@.take(tree@.len() as int) =~= tree@);
    let checksum = checksum_of_tokens(&tokens);
    let total = entries.len();
    DependencySnapshot {
        timestamp: String::from_str(now),
        checksum,
        dependencies: entries,
        metadata: SnapshotMetadata {
            repo_path: String::from_str(repo_path),
            package_manager: String::from_str("composer"),
            total_count: total,
        },
    }
}

/// What one change record says.
pub enum ChangeKind {
    Added,
    Updated,
    Removed,
}

/// The added/updated part of a comparison: one look at each of the
/// first `n` distinct names of the new snapshot.
pub open spec fn spec_added_updated(
    olds: Seq<TrackedDependency>,
    news: Seq<TrackedDependency>,
    n: int,
) -> Seq<(ChangeKind, int)>
    decreases n,
{
    if n <= 0 {
        Seq::empty()
    } else {
        let pre = spec_added_updated(olds, news, n - 1);
        let k = spec_dep_keys(news)[n - 1];
        match spec_last_dep_index(olds, k) {
            Some(p) => if spec_rep_version(olds, k) != spec_rep_version(news, k) {
                pre.push((ChangeKind::Updated, n - 1))
            } else {
                pre
            },
            None => pre.push((ChangeKind::Added, n - 1)),
        }
    }
}

/// The removed part: one look at each of the first `n` distinct names of
/// the old snapshot.
pub open spec fn spec_removed(
    olds: Seq<TrackedDependency>,
    news: Seq<TrackedDependency>,
    n: int,
) -> Seq<(ChangeKind, int)>
    decreases n,
{
    if n <= 0 {
        Seq::empty()
    } else {
        let pre = spec_removed(olds, news, n - 1);
        let k = spec_dep_keys(olds)[n - 1];
        match spec_last_dep_index(news, k) {
            Some(p) => pre,
            None => pre.push((ChangeKind::Removed, n - 1)),
        }
    }
}

/// Everything a comparison reports, in report order: added and updated
/// names first (in the new snapshot's name order), then removed names
/// (in the old snapshot's name order).
pub open spec fn spec_changes(olds: Seq<TrackedDependency>, news: Seq<TrackedDependency>) -> Seq<
    (ChangeKind, int),
> {
    spec_added_updated(olds, news, spec_dep_keys(news).len() as int) + spec_removed(
        olds,
        news,
        spec_dep_keys(olds).len() as int,
    )
}

/// Field-wise correspondence of one change record to its name.
pub open spec fn spec_change_matches(
    c: DependencyChange,
    old: DependencySnapshot,
    new: DependencySnapshot,
    e: (ChangeKind, int),
) -> bool {
    let olds = old.dependencies@;
    let news = new.dependencies@;
    &&& c.timestamp == new.timestamp
    &&& c.reason is None
    &&& match e.0 {
        ChangeKind::Added => {
            let k = spec_dep_keys(news)[e.1];
            &&& 0 <= e.1 < spec_dep_keys(news).len()
            &&& c.change_type@ == "added"@
            &&& c.name@ == k
            &&& c.old_version is None
            &&& spec_opt_view(c.new_version) == Some(spec_rep_version(news, k))
        },
        ChangeKind::Updated => {
            let k = spec_dep_keys(news)[e.1];
            &&& 0 <= e.1 < spec_dep_keys(news).len()
            &&& c.change_type@ == "updated"@
            &&& c.name@ == k
            &&& spec_last_dep_index(olds, k) is Some
            &&& spec_opt_view(c.old_version) == Some(spec_rep_version(olds, k))
            &&& spec_opt_view(c.new_version) == Some(spec_rep_version(news, k))
        },
        ChangeKind::Removed => {
            let k = spec_dep_keys(olds)[e.1];
            &&& 0 <= e.1 < spec_dep_keys(olds).len()
            &&& c.change_type@ == "removed"@
            &&& c.name@ == k
            &&& spec_opt_view(c.old_version) == Some(spec_rep_version(olds, k))
            &&& c.new_version is None
        },
    }
}

/// The pure set comparison of two snapshots, keyed by name: a name held
/// only by the new one is added, held by both at different versions is
/// updated, held only by the old one is removed. Each name is judged
/// once, however often the entry lists repeat it, and the version
/// compared is the one a name-keyed map holds: that of the last entry. Every
/// change carries the new snapshot's timestamp.
pub fn compare_snapshots(old_snap: &DependencySnapshot, new_snap: &DependencySnapshot) -> (changes:
    Vec<DependencyChange>)
    ensures
        changes@.len() == spec_changes(old_snap.dependencies@, new_snap.dependencies@).len(),
        forall|k: int|
            0 <= k < changes@.len() ==> spec_change_matches(
                #[trigger] changes@[k],
                *old_snap,
                *new_snap,
                spec_changes(old_snap.dependencies@, new_snap.dependencies@)[k],
            ),
{
    let ghost olds = old_snap.dependencies@;
    let ghost news = new_snap.dependencies@;
    let new_keys = dep_keys(&new_snap.dependencies);
    let old_keys = dep_keys(&old_snap.dependencies);
    let mut changes: Vec<DependencyChange> = Vec::new();
    let mut i: usize = 0;
    while i < new_keys.len()
        invariant
            i <= new_keys@.len(),
            olds == old_snap.dependencies@,
            news == new_snap.dependencies@,
            spec_views(new_keys@) == spec_dep_keys(news),
            changes@.len() == spec_added_updated(olds, news, i as int).len(),
            forall|k: int|
                0 <= k < changes@.len() ==> spec_change_matches(
                    #[trigger] changes@[k],
                    *old_snap,
                    *new_snap,
                    spec_added_updated(olds, news, i as int)[k],
                ),
        decreases new_keys@.len() - i,
    {
        let key = &new_keys[i];
        proof {
            assert(spec_views(new_keys@)[i as int] == new_keys@[i as int]@);
            assert(spec_dep_keys(news)[i as int] == key@);
        }
        let nfound = find_dep_last(&new_snap.dependencies, key.as_str());
        let nrep: usize = match nfound {
            Some(p) => p,
            None => {
                proof {
                    lemma_dep_key_has_entry(news, i as int);
                    assert(false);
                }
                0
            },
        };
        let ofound = find_dep_last(&old_snap.dependencies, key.as_str());
        let ghost au_old = spec_added_updated(olds, news, i as int);
        let ghost au_new = spec_added_updated(olds, news, i + 1);
        match ofound {
            Some(p) => {
                if !str_eq(
                    old_snap.dependencies[p].version.as_str(),
                    new_snap.dependencies[nrep].version.as_str(),
                ) {
                    changes.push(
                        DependencyChange {
                            change_type: String::from_str("updated"),
                            name: key.clone(),
                            old_version: Some(old_snap.dependencies[p].version.clone()),
                            new_version: Some(new_snap.dependencies[nrep].version.clone()),
                            timestamp: new_snap.timestamp.clone(),
                            reason: None,
                        },
                    );
                    proof {
                        assert(spec_rep_version(olds, key@) == olds[p as int].version@);
                        assert(spec_rep_version(news, key@) == news[nrep as int].version@);
                        assert(au_new == au_old.push((ChangeKind::Updated, i as int)));
                        assert forall|k: int| 0 <= k < changes@.len() implies spec_change_matches(
                            #[trigger] changes@[k],
                            *old_snap,
                            *new_snap,
                            au_new[k],
                        ) by {
                            if k < au_old.len() {
                                assert(changes@[k] == changes@.drop_last()[k]);
                                assert(au_new[k] == au_old[k]);
                            } else {
                                assert(au_new[k] == (ChangeKind::Updated, i as int));
                                assert(changes@[k] == changes@.last());
                            }
                        }
                    }
                } else {
                    proof {
                        assert(spec_rep_version(olds, key@) == olds[p as int].version@);
                        assert(spec_rep_version(news, key@) == news[nrep as int].version@);
                        assert(au_new == au_old);
                    }
                }
            },
            None => {
                changes.push(
                    DependencyChange {
                        change_type: String::from_str("added"),
                        name: key.clone(),
                        old_version: None,
                        new_version: Some(new_snap.dependencies[nrep].version.clone()),
                        timestamp: new_snap.timestamp.clone(),
                        reason: None,
                    },
                );
                proof {
                    assert(spec_rep_version(news, key@) == news[nrep as int].version@);
                    assert(au_new == au_old.push((ChangeKind::Added, i as int)));
                    assert forall|k: int| 0 <= k < changes@.len() implies spec_change_matches(
                        #[trigger] changes@[k],
                        *old_snap,
                        *new_snap,
                        au_new[k],
                    ) by {
                        if k < au_old.len() {
                            assert(changes@[k] == changes@.drop_last()[k]);
                            assert(au_new[k] == au_old[k]);
                        } else {
                            assert(au_new[k] == (ChangeKind::Added, i as int));
                            assert(changes@[k] == changes@.last());
                        }
                    }
                }
            },
        }
        i = i + 1;
    }
    proof {
        assert(new_keys@.len() == spec_dep_keys(news).len());
    }
    let ghost au = spec_added_updated(olds, news, spec_dep_keys(news).len() as int);
    let mut j: usize = 0;
    while j < old_keys.len()
        invariant
            j <= old_keys@.len(),
            olds == old_snap.dependencies@,
            news == new_snap.dependencies@,
            spec_views(old_keys@) == spec_dep_keys(olds),
            au == spec_added_updated(olds, news, spec_dep_keys(news).len() as int),
            changes@.len() == au.len() + spec_removed(olds, news, j as int).len(),
            forall|k: int|
                0 <= k < changes@.len() ==> spec_change_matches(
                    #[trigger] changes@[k],
                    *old_snap,
                    *new_snap,
                    (au + spec_removed(olds, news, j as int))[k],
                ),
        decreases old_keys@.len() - j,
    {
        let key = &old_keys[j];
        proof {
            assert(spec_views(old_keys@)[j as int] == old_keys@[j as int]@);
            assert(spec_dep_keys(olds)[j as int] == key@);
        }
        let found = find_dep_last(&new_snap.dependencies, key.as_str());
        let ghost r_old = spec_removed(olds, news, j as int);
        let ghost r_new = spec_removed(olds, news, j + 1);
        if found.is_none() {
            let orep: usize = match find_dep_last(&old_snap.dependencies, key.as_str()) {
                Some(p) => p,
                None => {
                    proof {
                        lemma_dep_key_has_entry(olds, j as int);
                        assert(false);
                    }
                    0
                },
            };
            changes.push(
                DependencyChange {
                    change_type: String::from_str("removed"),
                    name: key.clone(),
                    old_version: Some(old_snap.dependencies[orep].version.clone()),
                    new_version: None,
                    timestamp: new_snap.timestamp.clone(),
                    reason: None,
                },
            );
            proof {
                assert(spec_rep_version(olds, key@) == olds[orep as int].version@);
                assert(r_new == r_old.push((ChangeKind::Removed, j as int)));
            }
        } else {
            proof {
                assert(r_new == r_old);
            }
        }
        proof {
            assert forall|k: int| 0 <= k < changes@.len() implies spec_change_matches(
                #[trigger] changes@[k],
                *old_snap,
                *new_snap,
                (au + r_new)[k],
            ) by {
                if k < au.len() + r_old.len() {
                    assert((au + r_new)[k] == (au + r_old)[k]);
                } else {
                    assert((au + r_new)[k] == (ChangeKind::Removed, j as int));
                }
            }
        }
        j = j + 1;
    }
    changes
}

/// Comparing a snapshot with itself yields no changes at all, whatever
/// its entry list holds: the comparison is a set comparison over names.
pub proof fn lemma_compare_identical(deps: Seq<TrackedDependency>)
    ensures
        spec_changes(deps, deps).len() == 0,
{
    lemma_added_updated_identical(deps, spec_dep_keys(deps).len() as int);
    lemma_removed_identical(deps, spec_dep_keys(deps).len() as int);
}

proof fn lemma_added_updated_identical(deps: Seq<TrackedDependency>, n: int)
    requires
        n <= spec_dep_keys(deps).len(),
    ensures
        spec_added_updated(deps, deps, n).len() == 0,
    decreases n,
{
    if n > 0 {
        lemma_added_updated_identical(deps, n - 1);
        lemma_dep_key_has_entry(deps, n - 1);
    }
}

proof fn lemma_removed_identical(deps: Seq<TrackedDependency>, n: int)
    requires
        n <= spec_dep_keys(deps).len(),
    ensures
        spec_removed(deps, deps, n).len() == 0,
    decreases n,
{
    if n > 0 {
        lemma_removed_identical(deps, n - 1);
        lemma_dep_key_has_entry(deps, n - 1);
    }
}

/// The command that undoes one change.
pub open spec fn spec_revert_command(c: DependencyChange) -> Seq<char> {
    if c.change_type@ == "added"@ {
        "composer remove "@ + c.name@
    } else if c.change_type@ == "removed"@ || c.change_type@ == "updated"@ {
        "composer require "@ + c.name@ + ":"@ + (match c.old_version {
            Some(v) => v@,
            None => "*"@,
        })
    } else {
        Seq::<char>::empty()
    }
}

pub fn generate_revert_command(change: &DependencyChange) -> (r: String)
    ensures
        r@ == spec_revert_command(*change),
{
    if str_eq(change.change_type.as_str(), "added") {
        let mut r = String::from_str("composer remove ");
        r.append(change.name.as_str());
        r
    } else if str_eq(change.change_type.as_str(), "removed") || str_eq(
        change.change_type.as_str(),
        "updated",
    ) {
        let mut r = String::from_str("composer require ");
        r.append(change.name.as_str());
        r.append(":");
        match &change.old_version {
            Some(v) => r.append(v.as_str()),
            None => r.append("*"),
        }
        r
    } else {
        String::new()
    }
}


pub open spec fn spec_parse_opt(o: Option<String>) -> Option<i64> {
    match o {
        Some(s) => spec_rfc3339_millis(s@),
        None => None,
    }
}

/// First seen within the last thirty days.
pub open spec fn spec_recently_added(td: TrackedDependency, now_millis: i64) -> bool {
    match spec_parse_opt(td.added_at) {
        Some(t) => t > now_millis - THIRTY_DAYS_MILLIS,
        None => false,
    }
}

/// Last changed within the last thirty days, and changed at all since it
/// was first seen.
pub open spec fn spec_recently_updated(td: TrackedDependency, now_millis: i64) -> bool {
    match spec_parse_opt(td.updated_at) {
        Some(t) => t > now_millis - THIRTY_DAYS_MILLIS && spec_opt_view(td.updated_at)
            != spec_opt_view(td.added_at),
        None => false,
    }
}

/// Last changed more than a year ago.
pub open spec fn spec_stale_entry(td: TrackedDependency, now_millis: i64) -> bool {
    match spec_parse_opt(td.updated_at) {
        Some(t) => t < now_millis - ONE_YEAR_MILLIS,
        None => false,
    }
}

pub open spec fn recently_added_pred(now_millis: i64) -> spec_fn(TrackedDependency) -> bool {
    |td: TrackedDependency| spec_recently_added(td, now_millis)
}

pub open spec fn recently_updated_pred(now_millis: i64) -> spec_fn(TrackedDependency) -> bool {
    |td: TrackedDependency| spec_recently_updated(td, now_millis)
}

pub open spec fn stale_pred(now_millis: i64) -> spec_fn(TrackedDependency) -> bool {
    |td: TrackedDependency| spec_stale_entry(td, now_millis)
}

fn clone_opt_string(o: &Option<String>) -> (r: Option<String>)
    ensures
        r == *o,
{
    match o {
        Some(s) => Some(s.clone()),
        None => None,
    }
}

fn opt_str_eq(a: &Option<String>, b: &Option<String>) -> (r: bool)
    ensures
        r == (spec_opt_view(*a) == spec_opt_view(*b)),
{
    match (a, b) {
        (Some(x), Some(y)) => str_eq(x.as_str(), y.as_str()),
        (None, None) => true,
        _ => false,
    }
}

/// An element-wise copy of one snapshot entry.
fn duplicate_entry(td: &TrackedDependency) -> (r: TrackedDependency)
    ensures
        r == *td,
{
    TrackedDependency {
        name: td.name.clone(),
        version: td.version.clone(),
        dep_type: td.dep_type.clone(),
        added_at: clone_opt_string(&td.added_at),
        updated_at: clone_opt_string(&td.updated_at),
        license: clone_opt_string(&td.license),
        security_status: clone_opt_string(&td.security_status),
    }
}

/// Buckets the snapshot's entries into recently added (first seen within
/// thirty days), recently updated (changed within thirty days, and
/// changed at all), and stale (unchanged for over a year).
pub fn get_dependency_history(snapshot: &DependencySnapshot, now_millis: i64) -> (r:
    DependencyHistory)
    requires
        now_millis >= 0,
    ensures
        r.current_snapshot.timestamp == snapshot.timestamp,
        r.current_snapshot.checksum == snapshot.checksum,
        r.current_snapshot.dependencies@ == snapshot.dependencies@,
        r.current_snapshot.metadata == snapshot.metadata,
        r.recently_added@ == snapshot.dependencies@.filter(recently_added_pred(now_millis)),
        r.recently_updated@ == snapshot.dependencies@.filter(recently_updated_pred(now_millis)),
        r.stale@ == snapshot.dependencies@.filter(stale_pred(now_millis)),
{
    let ghost deps = snapshot.dependencies@;
    let mut copies: Vec<TrackedDependency> = Vec::new();
    let mut recently_added: Vec<TrackedDependency> = Vec::new();
    let mut recently_updated: Vec<TrackedDependency> = Vec::new();
    let mut stale: Vec<TrackedDependency> = Vec::new();
    let mut i: usize = 0;
    proof {
        reveal(Seq::filter);
        assert(deps.take(0) =~= Seq::<TrackedDependency>::empty());
    }
    while i < snapshot.dependencies.len()
        invariant
            now_millis >= 0,
            i <= deps.len(),
            deps == snapshot.dependencies@,
            copies@ == deps.take(i as int),
            recently_added@ == deps.take(i as int).filter(recently_added_pred(now_millis)),
            recently_updated@ == deps.take(i as int).filter(recently_updated_pred(now_millis)),
            stale@ == deps.take(i as int).filter(stale_pred(now_millis)),
        decreases deps.len() - i,
    {
        let td = &snapshot.dependencies[i];
        proof {
            lemma_filter_take_step(deps, i as int, recently_added_pred(now_millis));
            lemma_filter_take_step(deps, i as int, recently_updated_pred(now_millis));
            lemma_filter_take_step(deps, i as int, stale_pred(now_millis));
            assert(deps.take(i as int).push(deps[i as int]) =~= deps.take(i + 1));
        }
        copies.push(duplicate_entry(td));
        let added_ts = match &td.added_at {
            Some(s) => parse_rfc3339_millis(s.as_str()),
            None => None,
        };
        if let Some(t) = added_ts {
            if t > now_millis - THIRTY_DAYS_MILLIS {
                recently_added.push(duplicate_entry(td));
            }
        }
        let updated_ts = match &td.updated_at {
            Some(s) => parse_rfc3339_millis(s.as_str()),
            None => None,
        };
        if let Some(t) = updated_ts {
            if t > now_millis - THIRTY_DAYS_MILLIS && !opt_str_eq(&td.updated_at, &td.added_at) {
                recently_updated.push(duplicate_entry(td));
            }
            if t < now_millis - ONE_YEAR_MILLIS {
                stale.push(duplicate_entry(td));
            }
        }
        i = i + 1;
    }
    assert(deps.take(deps.len() as int) =~= deps);
    let current_snapshot = DependencySnapshot {
        timestamp: snapshot.timestamp.clone(),
        checksum: snapshot.checksum.clone(),
        dependencies: copies,
        metadata: SnapshotMetadata {
            repo_path: snapshot.metadata.repo_path.clone(),
            package_manager: snapshot.metadata.package_manager.clone(),
            total_count: snapshot.metadata.total_count,
        },
    };
    DependencyHistory { current_snapshot, recently_added, recently_updated, stale }
}

/// The strong-copyleft and source-available markers the compliance check
/// screens production licenses against.
pub open spec fn spec_restricted_marker(r: int) -> Seq<char> {
    if r == 0 {
        "GPL-3.0"@
    } else if r == 1 {
        "AGPL-3.0"@
    } else if r == 2 {
        "GPL-2.0"@
    } else {
        "SSPL"@
    }
}

/// A production entry whose license, compared case-insensitively,
/// contains the given restricted marker.
pub open spec fn spec_license_flagged(td: TrackedDependency, r: int) -> bool {
    &&& td.dep_type@ == "production"@
    &&& match td.license {
        Some(l) => spec_contains_sub(spec_str_upper(l@), spec_str_upper(spec_restricted_marker(r))),
        None => false,
    }
}

/// An entry whose last change lies more than two years back.
pub open spec fn spec_outdated_entry(td: TrackedDependency, now_millis: i64) -> bool {
    match spec_parse_opt(td.updated_at) {
        Some(t) => t < now_millis - TWO_YEARS_MILLIS,
        None => false,
    }
}

/// The issue codes one entry contributes: one per matching restricted
/// marker, then the staleness issue.
pub open spec fn spec_entry_issue_flags(i: int, td: TrackedDependency, now_millis: i64) -> Seq<(
    int,
    int,
)> {
    (if spec_license_flagged(td, 0) {
        seq![(i, 0int)]
    } else {
        Seq::empty()
    }) + (if spec_license_flagged(td, 1) {
        seq![(i, 1int)]
    } else {
        Seq::empty()
    }) + (if spec_license_flagged(td, 2) {
        seq![(i, 2int)]
    } else {
        Seq::empty()
    }) + (if spec_license_flagged(td, 3) {
        seq![(i, 3int)]
    } else {
        Seq::empty()
    }) + (if spec_outdated_entry(td, now_millis) {
        seq![(i, 4int)]
    } else {
        Seq::empty()
    })
}

pub open spec fn spec_compliance_flags(deps: Seq<TrackedDependency>, now_millis: i64) -> Seq<(
    int,
    int,
)>
    decreases deps.len(),
{
    if deps.len() == 0 {
        Seq::empty()
    } else {
        spec_compliance_flags(deps.drop_last(), now_millis) + spec_entry_issue_flags(
            deps.len() - 1,
            deps.last(),
            now_millis,
        )
    }
}

/// Field-wise correspondence of one reported issue to its entry and code.
pub open spec fn spec_issue_matches(c: ComplianceIssue, td: TrackedDependency, code: int) -> bool {
    &&& c.dependency == td.name
    &&& c.version == td.version
    &&& if code == 4 {
        &&& c.issue@ == "outdated"@
        &&& c.severity@ == "low"@
        &&& c.description@ == "Not updated in over 2 years"@
        &&& c.recommendation@ == "Check if a newer version is available"@
        &&& c.auto_fix_available
    } else {
        &&& c.issue@ == "license"@
        &&& c.severity@ == "high"@
        &&& (match td.license {
            Some(l) => c.description@ == "Uses restrictive license: "@ + l@,
            None => false,
        })
        &&& c.recommendation@ == "Consider replacing with an MIT/Apache-2.0 licensed alternative"@
        &&& !c.auto_fix_available
    }
}

proof fn lemma_compliance_flags_bounds(deps: Seq<TrackedDependency>, now_millis: i64)
    ensures
        forall|k: int|
            0 <= k < spec_compliance_flags(deps, now_millis).len() ==> 0 <= (
            #[trigger] spec_compliance_flags(deps, now_millis)[k]).0 < deps.len(),
    decreases deps.len(),
{
    if deps.len() > 0 {
        let pre = deps.drop_last();
        lemma_compliance_flags_bounds(pre, now_millis);
        let flags = spec_compliance_flags(deps, now_millis);
        let fpre = spec_compliance_flags(pre, now_millis);
        let pf = spec_entry_issue_flags(deps.len() - 1, deps.last(), now_millis);
        assert forall|k: int| 0 <= k < flags.len() implies 0 <= (#[trigger] flags[k]).0
            < deps.len() by {
            if k < fpre.len() {
                assert(flags[k] == fpre[k]);
            } else {
                assert(flags[k] == pf[k - fpre.len()]);
            }
        }
    }
}

/// Tests one restricted marker against a production entry's license.
fn license_flagged(td: &TrackedDependency, marker: &str, Ghost(r): Ghost<int>) -> (flagged: bool)
    requires
        marker@ == spec_restricted_marker(r),
    ensures
        flagged == spec_license_flagged(*td, r),
{
    if !str_eq(td.dep_type.as_str(), "production") {
        return false;
    }
    match &td.license {
        Some(l) => {
            let upper_license = str_to_uppercase(l.as_str());
            let upper_marker = str_to_uppercase(marker);
            str_contains(upper_license.as_str(), upper_marker.as_str())
        },
        None => false,
    }
}

/// Appends the compliance issues of one entry: one high-severity license
/// issue per matching restricted marker, then the low-severity staleness
/// issue.
fn push_entry_issues(
    td: &TrackedDependency,
    now_millis: i64,
    out: &mut Vec<ComplianceIssue>,
    Ghost(idx): Ghost<int>,
)
    requires
        now_millis >= 0,
    ensures
        final(out)@.len() == old(out)@.len() + spec_entry_issue_flags(idx, *td, now_millis).len(),
        forall|k: int| 0 <= k < old(out)@.len() ==> final(out)@[k] == old(out)@[k],
        forall|k: int|
            0 <= k < spec_entry_issue_flags(idx, *td, now_millis).len() ==> spec_issue_matches(
                #[trigger] final(out)@[old(out)@.len() + k],
                *td,
                spec_entry_issue_flags(idx, *td, now_millis)[k].1,
            ) && spec_entry_issue_flags(idx, *td, now_millis)[k].0 == idx,
{
    if license_flagged(td, "GPL-3.0", Ghost(0)) {
        out.push(license_issue(td));
    }
    if license_flagged(td, "AGPL-3.0", Ghost(1)) {
        out.push(license_issue(td));
    }
    if license_flagged(td, "GPL-2.0", Ghost(2)) {
        out.push(license_issue(td));
    }
    if license_flagged(td, "SSPL", Ghost(3)) {
        out.push(license_issue(td));
    }
    let outdated = match &td.updated_at {
        Some(s) => match parse_rfc3339_millis(s.as_str()) {
            Some(t) => t < now_millis - TWO_YEARS_MILLIS,
            None => false,
        },
        None => false,
    };
    if outdated {
        out.push(
            ComplianceIssue {
                dependency: td.name.clone(),
                version: td.version.clone(),
                issue: String::from_str("outdated"),
                severity: String::from_str("low"),
                description: String::from_str("Not updated in over 2 years"),
                recommendation: String::from_str("Check if a newer version is available"),
                auto_fix_available: true,
            },
        );
    }
}

/// One restrictive-license issue for an entry.
fn license_issue(td: &TrackedDependency) -> (c: ComplianceIssue)
    requires
        td.license is Some,
    ensures
        c.dependency == td.name,
        c.version == td.version,
        c.issue@ == "license"@,
        c.severity@ == "high"@,
        (match td.license {
            Some(l) => c.description@ == "Uses restrictive license: "@ + l@,
            None => false,
        }),
        c.recommendation@ == "Consider replacing with an MIT/Apache-2.0 licensed alternative"@,
        !c.auto_fix_available,
{
    let license = match &td.license {
        Some(l) => l.clone(),
        None => String::new(),
    };
    let mut description = String::from_str("Uses restrictive license: ");
    description.append(license.as_str());
    ComplianceIssue {
        dependency: td.name.clone(),
        version: td.version.clone(),
        issue: String::from_str("license"),
        severity: String::from_str("high"),
        description,
        recommendation: String::from_str(
            "Consider replacing with an MIT/Apache-2.0 licensed alternative",
        ),
        auto_fix_available: false,
    }
}

/// Flags production entries under restrictive licenses (high severity, no
/// automatic fix) and entries unchanged for over two years (low severity,
/// automatic fix available).
pub fn check_compliance(snapshot: &DependencySnapshot, now_millis: i64) -> (issues: Vec<
    ComplianceIssue,
>)
    requires
        now_millis >= 0,
    ensures
        issues@.len() == spec_compliance_flags(snapshot.dependencies@, now_millis).len(),
        forall|k: int|
            0 <= k < issues@.len() ==> {
                let deps = snapshot.dependencies@;
                let flags = spec_compliance_flags(deps, now_millis);
                0 <= flags[k].0 < deps.len() && spec_issue_matches(
                    #[trigger] issues@[k],
                    deps[flags[k].0],
                    flags[k].1,
                )
            },
{
    let ghost deps = snapshot.dependencies@;
    let mut issues: Vec<ComplianceIssue> = Vec::new();
    let mut i: usize = 0;
    assert(deps.take(0) =~= Seq::<TrackedDependency>::empty());
    while i < snapshot.dependencies.len()
        invariant
            now_millis >= 0,
            i <= deps.len(),
            deps == snapshot.dependencies@,
            issues@.len() == spec_compliance_flags(deps.take(i as int), now_millis).len(),
            forall|k: int|
                0 <= k < issues@.len() ==> {
                    let flags = spec_compliance_flags(deps.take(i as int), now_millis);
                    spec_issue_matches(#[trigger] issues@[k], deps[flags[k].0], flags[k].1)
                },
        decreases deps.len() - i,
    {
        proof {
            assert(deps.take(i + 1).drop_last() =~= deps.take(i as int));
            assert(deps.take(i + 1).last() == deps[i as int]);
            lemma_compliance_flags_bounds(deps.take(i as int), now_millis);
        }
        let ghost pre_issues = issues@;
        push_entry_issues(&snapshot.dependencies[i], now_millis, &mut issues, Ghost(i as int));
        proof {
            let flags_new = spec_compliance_flags(deps.take(i + 1), now_millis);
            let flags_old = spec_compliance_flags(deps.take(i as int), now_millis);
            let pf = spec_entry_issue_flags(i as int, deps[i as int], now_millis);
            assert(flags_new == flags_old + pf);
            assert(pre_issues.len() == flags_old.len());
            lemma_compliance_flags_bounds(deps.take(i + 1), now_millis);
            assert forall|k: int| 0 <= k < issues@.len() implies {
                let flags = spec_compliance_flags(deps.take(i + 1), now_millis);
                spec_issue_matches(#[trigger] issues@[k], deps[flags[k].0], flags[k].1)
            } by {
                if k < flags_old.len() {
                    assert(issues@[k] == pre_issues[k]);
                    assert(flags_new[k] == flags_old[k]);
                    assert(0 <= flags_old[k].0 < deps.take(i as int).len());
                    assert(deps.take(i as int)[flags_old[k].0] == deps[flags_old[k].0]);
                } else {
                    let kk = k - flags_old.len();
                    assert(flags_new[k] == pf[kk]);
                    assert(spec_issue_matches(
                        issues@[pre_issues.len() + kk],
                        deps[i as int],
                        pf[kk].1,
                    ));
                    assert(pf[kk].0 == i as int);
                }
            }
        }
        i = i + 1;
    }
    proof {
        assert(deps.take(deps.len() as int) =~= deps);
        lemma_compliance_flags_bounds(deps, now_millis);
    }
    issues
}

} // verus!
