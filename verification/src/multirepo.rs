//! Aggregation over several repositories' manifests: which packages are
//! required where, which of them are shared, which are pinned at
//! conflicting constraints, and how declared licenses are distributed.

use vstd::prelude::*;

use crate::composer::get_licenses;
use crate::composer::spec_manifest_licenses;
use crate::seqs::clone_strings;
use crate::seqs::group_pairs;
use crate::seqs::lemma_filter_take_step;
use crate::seqs::spec_group_keys;
use crate::seqs::spec_group_members;
use crate::seqs::spec_pair_views;
use crate::strings::spec_views;
use crate::strings::str_eq;
use crate::types::ComposerJson;
use crate::types::RepoConfig;
use crate::types::RepoVersion;
use crate::types::VersionConflict;

verus! {

/// Shared requirements, conflicts and license counts over a set of
/// repositories.
pub struct MultiRepoAnalysisResult {
    pub repositories: Vec<RepoConfig>,
    pub shared_dependencies: Vec<(String, Vec<String>)>,
    pub version_conflicts: Vec<VersionConflict>,
    pub total_packages: usize,
    pub common_licenses: Vec<(String, usize)>,
}

/// Requirement entries that are not the bare platform requirement.
pub open spec fn not_php() -> spec_fn((String, String)) -> bool {
    |p: (String, String)| p.0@ != "php"@
}

/// One requirement entry as a (package, repository) pair.
pub open spec fn usage_pair_fn(repo_name: String) -> spec_fn((String, String)) -> (
    Seq<char>,
    Seq<char>,
) {
    |p: (String, String)| (p.0@, repo_name@)
}

/// One license as a (license, repository) pair.
pub open spec fn license_pair_fn(repo_name: String) -> spec_fn(Seq<char>) -> (
    Seq<char>,
    Seq<char>,
) {
    |l: Seq<char>| (l, repo_name@)
}

/// One member as a (repository, constraint) record.
pub open spec fn member_record_fn(version: Seq<char>) -> spec_fn(Seq<char>) -> (
    Seq<char>,
    Seq<char>,
) {
    |u: Seq<char>| (u, version)
}

/// The (package, repository) pairs one repository contributes: its
/// production requirements except the platform itself, then all of its
/// development requirements.
pub open spec fn spec_repo_usage_pairs(repo_name: String, m: Option<ComposerJson>) -> Seq<(
    Seq<char>,
    Seq<char>,
)> {
    match m {
        Some(c) => {
            let prod = (match c.require {
                Some(r) => r@.filter(not_php()),
                None => Seq::<(String, String)>::empty(),
            });
            let dev = (match c.require_dev {
                Some(r) => r@,
                None => Seq::<(String, String)>::empty(),
            });
            (prod + dev).map_values(usage_pair_fn(repo_name))
        },
        None => Seq::empty(),
    }
}

pub open spec fn spec_usage_pairs_upto(
    repos: Seq<RepoConfig>,
    manifests: Seq<Option<ComposerJson>>,
    n: int,
) -> Seq<(Seq<char>, Seq<char>)>
    decreases n,
{
    if n <= 0 {
        Seq::empty()
    } else {
        spec_usage_pairs_upto(repos, manifests, n - 1) + spec_repo_usage_pairs(
            repos[n - 1].name,
            manifests[n - 1],
        )
    }
}

/// The (license, repository) pairs one repository contributes.
pub open spec fn spec_repo_license_pairs(repo_name: String, m: Option<ComposerJson>) -> Seq<(
    Seq<char>,
    Seq<char>,
)> {
    match m {
        Some(c) => spec_manifest_licenses(c.license).map_values(license_pair_fn(repo_name)),
        None => Seq::empty(),
    }
}

pub open spec fn spec_license_pairs_upto(
    repos: Seq<RepoConfig>,
    manifests: Seq<Option<ComposerJson>>,
    n: int,
) -> Seq<(Seq<char>, Seq<char>)>
    decreases n,
{
    if n <= 0 {
        Seq::empty()
    } else {
        spec_license_pairs_upto(repos, manifests, n - 1) + spec_repo_license_pairs(
            repos[n - 1].name,
            manifests[n - 1],
        )
    }
}

/// The version a requirement map pins a package at: the first entry under
/// that name.
pub open spec fn spec_lookup_req(reqs: Seq<(String, String)>, key: Seq<char>) -> Option<String>
    decreases reqs.len(),
{
    if reqs.len() == 0 {
        None
    } else if reqs.first().0@ == key {
        Some(reqs.first().1)
    } else {
        spec_lookup_req(reqs.drop_first(), key)
    }
}

/// The first repository with the given name.
pub open spec fn spec_repo_index(repos: Seq<RepoConfig>, name: Seq<char>) -> Option<int>
    decreases repos.len(),
{
    if repos.len() == 0 {
        None
    } else if repos.first().name@ == name {
        Some(0)
    } else {
        match spec_repo_index(repos.drop_first(), name) {
            Some(i) => Some(i + 1),
            None => None,
        }
    }
}

/// The constraint a repository declares for a package, production
/// requirements first.
pub open spec fn spec_version_of(
    repos: Seq<RepoConfig>,
    manifests: Seq<Option<ComposerJson>>,
    pkg: Seq<char>,
    user: Seq<char>,
) -> Option<String> {
    match spec_repo_index(repos, user) {
        Some(j) => match manifests[j] {
            Some(c) => match spec_lookup_req(
                match c.require {
                    Some(r) => r@,
                    None => Seq::<(String, String)>::empty(),
                },
                pkg,
            ) {
                Some(v) => Some(v),
                None => spec_lookup_req(
                    match c.require_dev {
                        Some(r) => r@,
                        None => Seq::<(String, String)>::empty(),
                    },
                    pkg,
                ),
            },
            None => None,
        },
        None => None,
    }
}

/// The (constraint, repository) pairs for one package over its users.
pub open spec fn spec_version_pairs(
    repos: Seq<RepoConfig>,
    manifests: Seq<Option<ComposerJson>>,
    pkg: Seq<char>,
    users: Seq<Seq<char>>,
) -> Seq<(Seq<char>, Seq<char>)>
    decreases users.len(),
{
    if users.len() == 0 {
        Seq::empty()
    } else {
        spec_version_pairs(repos, manifests, pkg, users.drop_last()) + (match spec_version_of(
            repos,
            manifests,
            pkg,
            users.last(),
        ) {
            Some(v) => seq![(v@, users.last())],
            None => Seq::empty(),
        })
    }
}

/// A package is shared when more than one usage entry names it.
pub open spec fn shared_pred(pairs: Seq<(Seq<char>, Seq<char>)>) -> spec_fn(Seq<char>) -> bool {
    |k: Seq<char>| spec_group_members(pairs, k).len() > 1
}

/// A package is conflicted when its users pin more than one distinct
/// constraint.
pub open spec fn conflict_pred(
    repos: Seq<RepoConfig>,
    manifests: Seq<Option<ComposerJson>>,
    pairs: Seq<(Seq<char>, Seq<char>)>,
) -> spec_fn(Seq<char>) -> bool {
    |k: Seq<char>|
        spec_group_keys(
            spec_version_pairs(repos, manifests, k, spec_group_members(pairs, k)),
        ).len() > 1
}

/// The flattened (repository, constraint) records of one conflict, one
/// block per distinct constraint in first-occurrence order.
pub open spec fn spec_conflict_records_upto(vp: Seq<(Seq<char>, Seq<char>)>, n: int) -> Seq<(
    Seq<char>,
    Seq<char>,
)>
    decreases n,
{
    if n <= 0 {
        Seq::empty()
    } else {
        spec_conflict_records_upto(vp, n - 1) + spec_group_members(
            vp,
            spec_group_keys(vp)[n - 1],
        ).map_values(member_record_fn(spec_group_keys(vp)[n - 1]))
    }
}

pub open spec fn spec_conflict_records(vp: Seq<(Seq<char>, Seq<char>)>) -> Seq<(
    Seq<char>,
    Seq<char>,
)> {
    spec_conflict_records_upto(vp, spec_group_keys(vp).len() as int)
}

/// Field-wise correspondence of one reported conflict to its package.
pub open spec fn spec_conflict_matches(
    c: VersionConflict,
    repos: Seq<RepoConfig>,
    manifests: Seq<Option<ComposerJson>>,
    pairs: Seq<(Seq<char>, Seq<char>)>,
    key: Seq<char>,
) -> bool {
    let vp = spec_version_pairs(repos, manifests, key, spec_group_members(pairs, key));
    let recs = spec_conflict_records(vp);
    &&& c.package@ == key
    &&& c.versions@.len() == recs.len()
    &&& forall|e: int|
        0 <= e < recs.len() ==> (#[trigger] c.versions@[e]).repo@ == recs[e].0
            && c.versions@[e].version@ == recs[e].1
}

/// The first repository with the given name, if any.
fn find_repo<'a>(repos: &'a Vec<RepoConfig>, name: &str) -> (r: Option<usize>)
    ensures
        match r {
            Some(j) => j < repos@.len() && spec_repo_index(repos@, name@) == Some(j as int),
            None => spec_repo_index(repos@, name@) is None,
        },
{
    let mut j: usize = 0;
    assert(repos@.skip(0) =~= repos@);
    while j < repos.len()
        invariant
            j <= repos@.len(),
            spec_repo_index(repos@, name@) == (match spec_repo_index(
                repos@.skip(j as int),
                name@,
            ) {
                Some(i) => Some(i + j),
                None => None::<int>,
            }),
        decreases repos@.len() - j,
    {
        proof {
            assert(repos@.skip(j as int).first() == repos@[j as int]);
            assert(repos@.skip(j as int).drop_first() =~= repos@.skip(j + 1));
        }
        if str_eq(repos[j].name.as_str(), name) {
            return Some(j);
        }
        j = j + 1;
    }
    assert(repos@.skip(repos@.len() as int).len() == 0);
    None
}

/// The first requirement entry under `key`, if any.
fn lookup_req<'a>(reqs: &'a Vec<(String, String)>, key: &str) -> (r: Option<&'a String>)
    ensures
        match r {
            Some(v) => spec_lookup_req(reqs@, key@) == Some(*v),
            None => spec_lookup_req(reqs@, key@) is None,
        },
{
    let mut j: usize = 0;
    assert(reqs@.skip(0) =~= reqs@);
    while j < reqs.len()
        invariant
            j <= reqs@.len(),
            spec_lookup_req(reqs@, key@) == spec_lookup_req(reqs@.skip(j as int), key@),
        decreases reqs@.len() - j,
    {
        proof {
            assert(reqs@.skip(j as int).first() == reqs@[j as int]);
            assert(reqs@.skip(j as int).drop_first() =~= reqs@.skip(j + 1));
        }
        if str_eq(reqs[j].0.as_str(), key) {
            return Some(&reqs[j].1);
        }
        j = j + 1;
    }
    assert(reqs@.skip(reqs@.len() as int).len() == 0);
    None
}

/// Appends the usage pairs of one repository.
fn push_usage_pairs(repo: &RepoConfig, m: &Option<ComposerJson>, out: &mut Vec<(String, String)>)
    ensures
        spec_pair_views(final(out)@) == spec_pair_views(old(out)@) + spec_repo_usage_pairs(
            repo.name,
            *m,
        ),
{
    let ghost base = spec_pair_views(out@);
    match m {
        Some(c) => {
            let prod = match &c.require {
                Some(r) => {
                    let mut kept: Vec<(String, String)> = Vec::new();
                    let mut i: usize = 0;
                    proof {
                        reveal(Seq::filter);
                        assert(r@.take(0).filter(not_php()) =~= Seq::<(String, String)>::empty());
                        assert(kept@ =~= Seq::<(String, String)>::empty());
                    }
                    while i < r.len()
                        invariant
                            i <= r@.len(),
                            kept@ == r@.take(i as int).filter(not_php()),
                        decreases r@.len() - i,
                    {
                        proof {
                            lemma_filter_take_step(r@, i as int, not_php());
                        }
                        if !str_eq(r[i].0.as_str(), "php") {
                            let p = (r[i].0.clone(), r[i].1.clone());
                            assert(p == r@[i as int]);
                            kept.push(p);
                        }
                        i = i + 1;
                    }
                    assert(r@.take(r@.len() as int) =~= r@);
                    kept
                },
                None => Vec::new(),
            };
            let ghost all = (match &c.require {
                Some(r) => r@.filter(not_php()),
                None => Seq::<(String, String)>::empty(),
            }) + (match &c.require_dev {
                Some(r) => r@,
                None => Seq::<(String, String)>::empty(),
            });
            let mut i: usize = 0;
            while i < prod.len()
                invariant
                    i <= prod@.len(),
                    prod@ == (match c.require {
                        Some(r) => r@.filter(not_php()),
                        None => Seq::<(String, String)>::empty(),
                    }),
                    m == Some(*c),
                    all == (match c.require {
                        Some(r) => r@.filter(not_php()),
                        None => Seq::<(String, String)>::empty(),
                    }) + (match c.require_dev {
                        Some(r) => r@,
                        None => Seq::<(String, String)>::empty(),
                    }),
                    base == spec_pair_views(old(out)@),
                    spec_pair_views(out@) == base + all.take(i as int).map_values(
                        usage_pair_fn(repo.name),
                    ),
                decreases prod@.len() - i,
            {
                let ghost pre_out = out@;
                out.push((prod[i].0.clone(), repo.name.clone()));
                proof {
                    assert(all[i as int] == prod@[i as int]);
                    assert(all.take(i + 1) =~= all.take(i as int).push(all[i as int]));
                    assert(all.take(i + 1).map_values(usage_pair_fn(repo.name))
                        =~= all.take(i as int).map_values(usage_pair_fn(repo.name)).push(
                        (all[i as int].0@, repo.name@),
                    ));
                    assert(spec_pair_views(out@) =~= spec_pair_views(pre_out).push(
                        (all[i as int].0@, repo.name@),
                    ));
                    assert(spec_pair_views(out@) =~= base + all.take(i + 1).map_values(
                        usage_pair_fn(repo.name),
                    ));
                }
                i = i + 1;
            }
            let plen = prod.len();
            if let Some(rd) = &c.require_dev {
                let mut k: usize = 0;
                while k < rd.len()
                    invariant
                        k <= rd@.len(),
                        plen == prod@.len(),
                        prod@ == (match c.require {
                            Some(r) => r@.filter(not_php()),
                            None => Seq::<(String, String)>::empty(),
                        }),
                        m == Some(*c),
                        c.require_dev == Some(*rd),
                        all == prod@ + rd@,
                        base == spec_pair_views(old(out)@),
                        spec_pair_views(out@) == base + all.take(plen + k).map_values(
                            usage_pair_fn(repo.name),
                        ),
                    decreases rd@.len() - k,
                {
                    let ghost pre_out = out@;
                    out.push((rd[k].0.clone(), repo.name.clone()));
                    proof {
                        assert(all[plen + k] == rd@[k as int]);
                        assert(all.take(plen + k + 1) =~= all.take(plen + k).push(all[plen + k]));
                        assert(all.take(plen + k + 1).map_values(
                            usage_pair_fn(repo.name),
                        ) =~= all.take(plen + k).map_values(usage_pair_fn(repo.name)).push(
                            (all[plen + k].0@, repo.name@),
                        ));
                        assert(spec_pair_views(out@) =~= spec_pair_views(pre_out).push(
                            (all[plen + k].0@, repo.name@),
                        ));
                        assert(spec_pair_views(out@) =~= base + all.take(plen + k + 1).map_values(
                            usage_pair_fn(repo.name),
                        ));
                    }
                    k = k + 1;
                }
                assert(all.take(all.len() as int) =~= all);
            } else {
                assert(all.take(plen as int) =~= all);
            }
            assert(spec_repo_usage_pairs(repo.name, *m) == all.map_values(
                usage_pair_fn(repo.name),
            ));
        },
        None => {
            assert(spec_pair_views(out@) =~= base + spec_repo_usage_pairs(repo.name, *m));
        },
    }
}

/// Appends the license pairs of one repository.
fn push_license_pairs(repo: &RepoConfig, m: &Option<ComposerJson>, out: &mut Vec<(String, String)>)
    ensures
        spec_pair_views(final(out)@) == spec_pair_views(old(out)@) + spec_repo_license_pairs(
            repo.name,
            *m,
        ),
{
    let ghost base = spec_pair_views(out@);
    match m {
        Some(c) => {
            let licenses = get_licenses(c);
            let ghost ls = spec_manifest_licenses(c.license);
            let mut i: usize = 0;
            while i < licenses.len()
                invariant
                    i <= licenses@.len(),
                    spec_views(licenses@) == ls,
                    base == spec_pair_views(old(out)@),
                    spec_pair_views(out@) == base + ls.take(i as int).map_values(
                        license_pair_fn(repo.name),
                    ),
                decreases licenses@.len() - i,
            {
                let ghost pre_out = out@;
                out.push((licenses[i].clone(), repo.name.clone()));
                proof {
                    assert(ls[i as int] == licenses@[i as int]@);
                    assert(ls.take(i + 1) =~= ls.take(i as int).push(ls[i as int]));
                    assert(ls.take(i + 1).map_values(license_pair_fn(repo.name)) =~= ls.take(
                        i as int,
                    ).map_values(license_pair_fn(repo.name)).push((ls[i as int], repo.name@)));
                    assert(spec_pair_views(out@) =~= spec_pair_views(pre_out).push(
                        (ls[i as int], repo.name@),
                    ));
                    assert(spec_pair_views(out@) =~= base + ls.take(i + 1).map_values(
                        license_pair_fn(repo.name),
                    ));
                }
                i = i + 1;
            }
            assert(ls.take(ls.len() as int) =~= ls);
            assert(spec_repo_license_pairs(repo.name, *m) == ls.map_values(
                license_pair_fn(repo.name),
            ));
        },
        None => {
            assert(spec_pair_views(out@) =~= base + spec_repo_license_pairs(repo.name, *m));
        },
    }
}

/// An element-wise copy of one repository entry.
fn duplicate_repo(r: &RepoConfig) -> (c: RepoConfig)
    ensures
        c == *r,
{
    RepoConfig {
        name: r.name.clone(),
        path: r.path.clone(),
        repo_type: r.repo_type.clone(),
        team: match &r.team {
            Some(t) => Some(t.clone()),
            None => None,
        },
        description: match &r.description {
            Some(d) => Some(d.clone()),
            None => None,
        },
    }
}

/// Collects, over the given repositories and their manifests (a missing
/// manifest contributes nothing), which packages are required where,
/// which are shared by more than one repository, which are pinned at more
/// than one distinct constraint, and how often each license is declared.
#[verifier::rlimit(100)]
pub fn analyze_multiple_repositories(
    repos: &Vec<RepoConfig>,
    manifests: &Vec<Option<ComposerJson>>,
) -> (r: MultiRepoAnalysisResult)
    requires
        repos@.len() == manifests@.len(),
    ensures
        ({
            let pairs = spec_usage_pairs_upto(repos@, manifests@, repos@.len() as int);
            let keys = spec_group_keys(pairs);
            let shared_keys = keys.filter(shared_pred(pairs));
            let ckeys = keys.filter(conflict_pred(repos@, manifests@, pairs));
            let lpairs = spec_license_pairs_upto(repos@, manifests@, repos@.len() as int);
            let lkeys = spec_group_keys(lpairs);
            &&& r.repositories@ == repos@
            &&& r.total_packages == keys.len()
            &&& r.shared_dependencies@.len() == shared_keys.len()
            &&& forall|s: int|
                0 <= s < shared_keys.len() ==> (#[trigger] r.shared_dependencies@[s]).0@
                    == shared_keys[s] && spec_views(r.shared_dependencies@[s].1@)
                    == spec_group_members(pairs, shared_keys[s])
            &&& r.version_conflicts@.len() == ckeys.len()
            &&& forall|s: int|
                0 <= s < ckeys.len() ==> spec_conflict_matches(
                    #[trigger] r.version_conflicts@[s],
                    repos@,
                    manifests@,
                    pairs,
                    ckeys[s],
                )
            &&& r.common_licenses@.len() == lkeys.len()
            &&& forall|s: int|
                0 <= s < lkeys.len() ==> (#[trigger] r.common_licenses@[s]).0@ == lkeys[s]
                    && r.common_licenses@[s].1 == spec_group_members(lpairs, lkeys[s]).len()
        }),
{
    let n = repos.len();
    let mut repositories: Vec<RepoConfig> = Vec::new();
    let mut i: usize = 0;
    while i < n
        invariant
            i <= n,
            n == repos@.len(),
            repositories@ == repos@.take(i as int),
        decreases n - i,
    {
        repositories.push(duplicate_repo(&repos[i]));
        assert(repos@.take(i as int).push(repos@[i as int]) =~= repos@.take(i + 1));
        i = i + 1;
    }
    assert(repos@.take(n as int) =~= repos@);

    let mut pairs: Vec<(String, String)> = Vec::new();
    let mut i: usize = 0;
    while i < n
        invariant
            i <= n,
            n == repos@.len(),
            n == manifests@.len(),
            spec_pair_views(pairs@) == spec_usage_pairs_upto(repos@, manifests@, i as int),
        decreases n - i,
    {
        push_usage_pairs(&repos[i], &manifests[i], &mut pairs);
        i = i + 1;
    }
    let ghost pview = spec_usage_pairs_upto(repos@, manifests@, n as int);
    let groups = group_pairs(&pairs);
    let ghost keys = spec_group_keys(pview);

    let mut shared: Vec<(String, Vec<String>)> = Vec::new();
    let mut g: usize = 0;
    proof {
        reveal(Seq::filter);
        assert(keys.take(0).filter(shared_pred(pview)) =~= Seq::<Seq<char>>::empty());
    }
    while g < groups.len()
        invariant
            g <= groups@.len(),
            pview == spec_pair_views(pairs@),
            keys == spec_group_keys(pview),
            groups@.map_values(|gg: (String, Vec<String>)| gg.0@) == keys,
            forall|h: int|
                0 <= h < groups@.len() ==> spec_views((#[trigger] groups@[h]).1@)
                    == spec_group_members(pview, groups@[h].0@),
            shared@.len() == keys.take(g as int).filter(shared_pred(pview)).len(),
            forall|s: int|
                0 <= s < shared@.len() ==> (#[trigger] shared@[s]).0@ == keys.take(
                    g as int,
                ).filter(shared_pred(pview))[s] && spec_views(shared@[s].1@)
                    == spec_group_members(pview, shared@[s].0@),
        decreases groups@.len() - g,
    {
        proof {
            lemma_filter_take_step(keys, g as int, shared_pred(pview));
            assert(keys[g as int] == groups@[g as int].0@);
        }
        if groups[g].1.len() > 1 {
            shared.push((groups[g].0.clone(), clone_strings(&groups[g].1)));
        }
        g = g + 1;
    }
    assert(keys.take(keys.len() as int) =~= keys);

    let mut conflicts: Vec<VersionConflict> = Vec::new();
    let mut g: usize = 0;
    proof {
        reveal(Seq::filter);
        assert(keys.take(0).filter(conflict_pred(repos@, manifests@, pview)) =~= Seq::<
            Seq<char>,
        >::empty());
    }
    while g < groups.len()
        invariant
            g <= groups@.len(),
            n == repos@.len(),
            n == manifests@.len(),
            pview == spec_pair_views(pairs@),
            keys == spec_group_keys(pview),
            groups@.map_values(|gg: (String, Vec<String>)| gg.0@) == keys,
            forall|h: int|
                0 <= h < groups@.len() ==> spec_views((#[trigger] groups@[h]).1@)
                    == spec_group_members(pview, groups@[h].0@),
            conflicts@.len() == keys.take(g as int).filter(
                conflict_pred(repos@, manifests@, pview),
            ).len(),
            forall|s: int|
                0 <= s < conflicts@.len() ==> spec_conflict_matches(
                    #[trigger] conflicts@[s],
                    repos@,
                    manifests@,
                    pview,
                    keys.take(g as int).filter(conflict_pred(repos@, manifests@, pview))[s],
                ),
        decreases groups@.len() - g,
    {
        proof {
            lemma_filter_take_step(keys, g as int, conflict_pred(repos@, manifests@, pview));
            assert(keys[g as int] == groups@[g as int].0@);
        }
        let key = &groups[g].0;
        let users = &groups[g].1;
        let ghost users_views = spec_views(users@);
        let mut vp: Vec<(String, String)> = Vec::new();
        let mut u: usize = 0;
        assert(users_views.take(0) =~= Seq::<Seq<char>>::empty());
        while u < users.len()
            invariant
                u <= users@.len(),
                n == repos@.len(),
                n == manifests@.len(),
                users_views == spec_views(users@),
                spec_pair_views(vp@) == spec_version_pairs(
                    repos@,
                    manifests@,
                    key@,
                    users_views.take(u as int),
                ),
            decreases users@.len() - u,
        {
            proof {
                assert(users_views.take(u + 1).drop_last() =~= users_views.take(u as int));
                assert(users_views.take(u + 1).last() == users_views[u as int]);
                assert(users_views[u as int] == users@[u as int]@);
            }
            let found = find_repo(repos, users[u].as_str());
            let version: Option<&String> = match found {
                Some(j) => match &manifests[j] {
                    Some(c) => {
                        let first = match &c.require {
                            Some(r) => lookup_req(r, key.as_str()),
                            None => None,
                        };
                        match first {
                            Some(v) => Some(v),
                            None => match &c.require_dev {
                                Some(r) => lookup_req(r, key.as_str()),
                                None => None,
                            },
                        }
                    },
                    None => None,
                },
                None => None,
            };
            proof {
                match version {
                    Some(v) => {
                        assert(spec_version_of(repos@, manifests@, key@, users@[u as int]@)
                            == Some(*v));
                    },
                    None => {
                        assert(spec_version_of(repos@, manifests@, key@, users@[u as int]@)
                            is None);
                    },
                }
            }
            if let Some(v) = version {
                vp.push((v.clone(), users[u].clone()));
                proof {
                    assert(spec_pair_views(vp@) =~= spec_pair_views(vp@.drop_last()).push(
                        (vp@.last().0@, vp@.last().1@),
                    ));
                }
            }
            u = u + 1;
        }
        assert(users_views.take(users_views.len() as int) =~= users_views);
        let ghost vpv = spec_version_pairs(repos@, manifests@, key@, users_views);
        let vgroups = group_pairs(&vp);
        let ghost vkeys = spec_group_keys(vpv);
        if vgroups.len() > 1 {
            let mut records: Vec<RepoVersion> = Vec::new();
            let mut w: usize = 0;
            assert(spec_conflict_records_upto(vpv, 0) =~= Seq::<(Seq<char>, Seq<char>)>::empty());
            while w < vgroups.len()
                invariant
                    w <= vgroups@.len(),
                    vpv == spec_pair_views(vp@),
                    vkeys == spec_group_keys(vpv),
                    vgroups@.map_values(|gg: (String, Vec<String>)| gg.0@) == vkeys,
                    forall|h: int|
                        0 <= h < vgroups@.len() ==> spec_views((#[trigger] vgroups@[h]).1@)
                            == spec_group_members(vpv, vgroups@[h].0@),
                    records@.len() == spec_conflict_records_upto(vpv, w as int).len(),
                    forall|e: int|
                        0 <= e < records@.len() ==> (#[trigger] records@[e]).repo@
                            == spec_conflict_records_upto(vpv, w as int)[e].0
                            && records@[e].version@ == spec_conflict_records_upto(
                            vpv,
                            w as int,
                        )[e].1,
                decreases vgroups@.len() - w,
            {
                proof {
                    assert(vkeys[w as int] == vgroups@[w as int].0@);
                }
                let ghost members = spec_group_members(vpv, vkeys[w as int]);
                let vmembers = &vgroups[w].1;
                let mut e: usize = 0;
                let ghost base_records = records@;
                while e < vmembers.len()
                    invariant
                        e <= vmembers@.len(),
                        vpv == spec_pair_views(vp@),
                        vkeys == spec_group_keys(vpv),
                        vgroups@.map_values(|gg: (String, Vec<String>)| gg.0@) == vkeys,
                        w < vgroups@.len(),
                        vkeys[w as int] == vgroups@[w as int].0@,
                        members == spec_group_members(vpv, vkeys[w as int]),
                        spec_views(vmembers@) == members,
                        base_records.len() == spec_conflict_records_upto(vpv, w as int).len(),
                        records@.len() == base_records.len() + e,
                        forall|k: int| 0 <= k < base_records.len() ==> records@[k]
                            == base_records[k],
                        forall|k: int|
                            0 <= k < e ==> (#[trigger] records@[base_records.len() + k]).repo@
                                == members[k] && records@[base_records.len() + k].version@
                                == vkeys[w as int],
                    decreases vmembers@.len() - e,
                {
                    records.push(
                        RepoVersion { repo: vmembers[e].clone(), version: vgroups[w].0.clone() },
                    );
                    proof {
                        assert(members[e as int] == vmembers@[e as int]@);
                    }
                    e = e + 1;
                }
                proof {
                    let upto_new = spec_conflict_records_upto(vpv, w + 1);
                    let upto_old = spec_conflict_records_upto(vpv, w as int);
                    let block = members.map_values(member_record_fn(vkeys[w as int]));
                    assert(upto_new == upto_old + block);
                    assert forall|k: int| 0 <= k < records@.len() implies (
                    #[trigger] records@[k]).repo@ == upto_new[k].0 && records@[k].version@
                        == upto_new[k].1 by {
                        if k < upto_old.len() {
                            assert(records@[k] == base_records[k]);
                            assert(upto_new[k] == upto_old[k]);
                        } else {
                            let kk = k - upto_old.len();
                            assert(upto_new[k] == block[kk]);
                            assert(block[kk] == (members[kk], vkeys[w as int]));
                            assert(records@[base_records.len() + kk].repo@ == members[kk]);
                        }
                    }
                }
                w = w + 1;
            }
            let conflict = VersionConflict { package: key.clone(), versions: records };
            conflicts.push(conflict);
            proof {
                assert(vgroups@.map_values(|gg: (String, Vec<String>)| gg.0@).len()
                    == vkeys.len());
                assert(conflict_pred(repos@, manifests@, pview)(key@));
                assert(spec_conflict_records(vpv) == spec_conflict_records_upto(
                    vpv,
                    vkeys.len() as int,
                ));
                assert(spec_group_members(pview, key@) == users_views);
            }
        } else {
            proof {
                assert(vgroups@.map_values(|gg: (String, Vec<String>)| gg.0@).len()
                    == vkeys.len());
                assert(!(conflict_pred(repos@, manifests@, pview)(key@)));
                assert(spec_group_members(pview, key@) == users_views);
            }
        }
        g = g + 1;
    }
    assert(keys.take(keys.len() as int) =~= keys);

    let mut lpairs: Vec<(String, String)> = Vec::new();
    let mut i: usize = 0;
    while i < n
        invariant
            i <= n,
            n == repos@.len(),
            n == manifests@.len(),
            spec_pair_views(lpairs@) == spec_license_pairs_upto(repos@, manifests@, i as int),
        decreases n - i,
    {
        push_license_pairs(&repos[i], &manifests[i], &mut lpairs);
        i = i + 1;
    }
    let ghost lview = spec_license_pairs_upto(repos@, manifests@, n as int);
    let lgroups = group_pairs(&lpairs);
    let ghost lkeys = spec_group_keys(lview);
    let mut common_licenses: Vec<(String, usize)> = Vec::new();
    let mut g2: usize = 0;
    while g2 < lgroups.len()
        invariant
            g2 <= lgroups@.len(),
            lview == spec_pair_views(lpairs@),
            lkeys == spec_group_keys(lview),
            lgroups@.map_values(|gg: (String, Vec<String>)| gg.0@) == lkeys,
            forall|h: int|
                0 <= h < lgroups@.len() ==> spec_views((#[trigger] lgroups@[h]).1@)
                    == spec_group_members(lview, lgroups@[h].0@),
            common_licenses@.len() == g2,
            forall|s: int|
                0 <= s < g2 ==> (#[trigger] common_licenses@[s]).0@ == lkeys[s]
                    && common_licenses@[s].1 == spec_group_members(lview, lkeys[s]).len(),
        decreases lgroups@.len() - g2,
    {
        proof {
            assert(lkeys[g2 as int] == lgroups@[g2 as int].0@);
        }
        let count = lgroups[g2].1.len();
        common_licenses.push((lgroups[g2].0.clone(), count));
        g2 = g2 + 1;
    }

    let total_packages = groups.len();
    MultiRepoAnalysisResult {
        repositories,
        shared_dependencies: shared,
        version_conflicts: conflicts,
        total_packages,
        common_licenses,
    }
}

} // verus!
