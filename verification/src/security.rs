//! Heuristic risk classification: security flags on resolved packages
//! (development builds, pre-stable versions, stale releases) and license
//! grouping with a fixed risk classification per license string.

use vstd::prelude::*;

use crate::graph::spec_all_packages;
use crate::seqs::clone_strings;
use crate::seqs::find_group;
use crate::seqs::lemma_group_keys_distinct;
use crate::seqs::lemma_group_unknown_key;
use crate::seqs::spec_group_keys;
use crate::seqs::spec_group_members;
use crate::seqs::spec_pair_views;
use crate::strings::spec_contains_sub;
use crate::strings::spec_starts_with;
use crate::strings::spec_views;
use crate::strings::str_contains;
use crate::strings::str_eq;
use crate::strings::str_starts_with;
use crate::types::ComposerLock;
use crate::types::LicenseDistribution;
use crate::types::PackageInfo;
use crate::types::SecurityVulnerability;
use crate::wrappers::parse_rfc3339_millis;
use crate::wrappers::spec_rfc3339_millis;
use vstd::string::StringExecFns;

verus! {

/// Five years, in milliseconds, for the stale-release cutoff.
pub const FIVE_YEARS_MILLIS: i64 = 157680000000;

pub struct SecurityAuditResult {
    pub vulnerabilities: Vec<SecurityVulnerability>,
    pub risk_level: String,
    pub summary: SecuritySummary,
}

pub struct SecuritySummary {
    pub critical: usize,
    pub high: usize,
    pub medium: usize,
    pub low: usize,
}

/// A development build not published as a plain dev-channel release.
pub open spec fn spec_is_dev_version(v: Seq<char>) -> bool {
    spec_contains_sub(v, "dev"@) && !spec_starts_with(v, "dev-"@)
}

/// A version still before the first stable release.
pub open spec fn spec_is_prestable_version(v: Seq<char>) -> bool {
    spec_starts_with(v, "0."@)
}

/// A release timestamp more than five years before `now_millis`.
pub open spec fn spec_is_stale_release(time: Option<String>, now_millis: i64) -> bool {
    match time {
        Some(t) => match spec_rfc3339_millis(t@) {
            Some(ts) => ts < now_millis - FIVE_YEARS_MILLIS,
            None => false,
        },
        None => false,
    }
}

/// The reason one finding was raised.
pub enum SecurityFlag {
    DevVersion,
    PreStable,
    StaleRelease,
}

/// The findings one package contributes, in report order.
pub open spec fn spec_pkg_flags(i: int, pkg: PackageInfo, now_millis: i64) -> Seq<(
    int,
    SecurityFlag,
)> {
    (if spec_is_dev_version(pkg.version@) {
        seq![(i, SecurityFlag::DevVersion)]
    } else {
        Seq::empty()
    }) + (if spec_is_prestable_version(pkg.version@) {
        seq![(i, SecurityFlag::PreStable)]
    } else {
        Seq::empty()
    }) + (if spec_is_stale_release(pkg.time, now_millis) {
        seq![(i, SecurityFlag::StaleRelease)]
    } else {
        Seq::empty()
    })
}

/// All findings over a package list, package by package.
pub open spec fn spec_security_flags(pkgs: Seq<PackageInfo>, now_millis: i64) -> Seq<(
    int,
    SecurityFlag,
)>
    decreases pkgs.len(),
{
    if pkgs.len() == 0 {
        Seq::empty()
    } else {
        spec_security_flags(pkgs.drop_last(), now_millis) + spec_pkg_flags(
            pkgs.len() - 1,
            pkgs.last(),
            now_millis,
        )
    }
}

pub open spec fn spec_medium_count(pkgs: Seq<PackageInfo>, now_millis: i64) -> int
    decreases pkgs.len(),
{
    if pkgs.len() == 0 {
        0
    } else {
        spec_medium_count(pkgs.drop_last(), now_millis) + (if spec_is_dev_version(
            pkgs.last().version@,
        ) {
            1int
        } else {
            0int
        }) + (if spec_is_stale_release(pkgs.last().time, now_millis) {
            1int
        } else {
            0int
        })
    }
}

pub open spec fn spec_low_count(pkgs: Seq<PackageInfo>, now_millis: i64) -> int
    decreases pkgs.len(),
{
    if pkgs.len() == 0 {
        0
    } else {
        spec_low_count(pkgs.drop_last(), now_millis) + (if spec_is_prestable_version(
            pkgs.last().version@,
        ) {
            1int
        } else {
            0int
        })
    }
}

/// Field-wise correspondence of one reported finding to its package and
/// reason.
pub open spec fn spec_vuln_matches(v: SecurityVulnerability, pkg: PackageInfo, flag: SecurityFlag) -> bool {
    &&& v.package == pkg.name
    &&& v.version == pkg.version
    &&& v.cve is None
    &&& match flag {
        SecurityFlag::DevVersion => v.severity@ == "medium"@ && v.description@
            == "Using development version in production"@ && v.recommendation@
            == "Pin to a stable release version"@,
        SecurityFlag::PreStable => v.severity@ == "low"@ && v.description@
            == "Using pre-1.0 version (potentially unstable)"@ && v.recommendation@
            == "Consider upgrading to a stable 1.x+ version if available"@,
        SecurityFlag::StaleRelease => v.severity@ == "medium"@ && v.description@
            == "Package has not been updated in over 5 years"@ && v.recommendation@
            == "Check for maintained alternatives or security advisories"@,
    }
}

/// Every finding's package index lies inside the list it was raised
/// over.
pub proof fn lemma_security_flags_bounds(pkgs: Seq<PackageInfo>, now_millis: i64)
    ensures
        forall|k: int|
            0 <= k < spec_security_flags(pkgs, now_millis).len() ==> 0 <= (
            #[trigger] spec_security_flags(pkgs, now_millis)[k]).0 < pkgs.len(),
    decreases pkgs.len(),
{
    if pkgs.len() > 0 {
        let pre = pkgs.drop_last();
        lemma_security_flags_bounds(pre, now_millis);
        let flags = spec_security_flags(pkgs, now_millis);
        let fpre = spec_security_flags(pre, now_millis);
        let pf = spec_pkg_flags(pkgs.len() - 1, pkgs.last(), now_millis);
        assert forall|k: int| 0 <= k < flags.len() implies 0 <= (#[trigger] flags[k]).0
            < pkgs.len() by {
            if k < fpre.len() {
                assert(flags[k] == fpre[k]);
            } else {
                assert(flags[k] == pf[k - fpre.len()]);
            }
        }
    }
}

/// Appends the findings of one package and adjusts the counters.
fn push_pkg_findings(
    pkg: &PackageInfo,
    now_millis: i64,
    vulns: &mut Vec<SecurityVulnerability>,
    medium: &mut usize,
    low: &mut usize,
    Ghost(idx): Ghost<int>,
)
    requires
        now_millis >= 0,
        *old(medium) + *old(low) == old(vulns)@.len(),
    ensures
        final(vulns)@.len() == old(vulns)@.len() + spec_pkg_flags(idx, *pkg, now_millis).len(),
        forall|k: int| 0 <= k < old(vulns)@.len() ==> final(vulns)@[k] == old(vulns)@[k],
        forall|k: int|
            0 <= k < spec_pkg_flags(idx, *pkg, now_millis).len() ==> spec_vuln_matches(
                #[trigger] final(vulns)@[old(vulns)@.len() + k],
                *pkg,
                spec_pkg_flags(idx, *pkg, now_millis)[k].1,
            ) && spec_pkg_flags(idx, *pkg, now_millis)[k].0 == idx,
        *final(medium) == *old(medium) + (if spec_is_dev_version(pkg.version@) {
            1int
        } else {
            0int
        }) + (if spec_is_stale_release(pkg.time, now_millis) {
            1int
        } else {
            0int
        }),
        *final(low) == *old(low) + (if spec_is_prestable_version(pkg.version@) {
            1int
        } else {
            0int
        }),
        *final(medium) + *final(low) == final(vulns)@.len(),
{
    if str_contains(pkg.version.as_str(), "dev") && !str_starts_with(pkg.version.as_str(), "dev-") {
        vulns.push(
            SecurityVulnerability {
                package: pkg.name.clone(),
                version: pkg.version.clone(),
                severity: String::from_str("medium"),
                cve: None,
                description: String::from_str("Using development version in production"),
                recommendation: String::from_str("Pin to a stable release version"),
            },
        );
        let recorded = vulns.len();
        assert(*medium + *low < recorded);
        *medium = *medium + 1;
    }
    if str_starts_with(pkg.version.as_str(), "0.") {
        vulns.push(
            SecurityVulnerability {
                package: pkg.name.clone(),
                version: pkg.version.clone(),
                severity: String::from_str("low"),
                cve: None,
                description: String::from_str("Using pre-1.0 version (potentially unstable)"),
                recommendation: String::from_str(
                    "Consider upgrading to a stable 1.x+ version if available",
                ),
            },
        );
        let recorded = vulns.len();
        assert(*medium + *low < recorded);
        *low = *low + 1;
    }
    let stale = match &pkg.time {
        Some(ts) => match parse_rfc3339_millis(ts.as_str()) {
            Some(t) => t < now_millis - FIVE_YEARS_MILLIS,
            None => false,
        },
        None => false,
    };
    if stale {
        vulns.push(
            SecurityVulnerability {
                package: pkg.name.clone(),
                version: pkg.version.clone(),
                severity: String::from_str("medium"),
                cve: None,
                description: String::from_str("Package has not been updated in over 5 years"),
                recommendation: String::from_str(
                    "Check for maintained alternatives or security advisories",
                ),
            },
        );
        let recorded = vulns.len();
        assert(*medium + *low < recorded);
        *medium = *medium + 1;
    }
}

/// Flags development builds (medium), pre-stable versions (low) and
/// releases older than five years (medium) over every resolved package;
/// the overall risk level is medium exactly when a medium finding exists.
pub fn audit_security(lock: &ComposerLock, now_millis: i64) -> (r: SecurityAuditResult)
    requires
        now_millis >= 0,
    ensures
        r.vulnerabilities@.len() == spec_security_flags(spec_all_packages(*lock), now_millis).len(),
        forall|k: int|
            0 <= k < r.vulnerabilities@.len() ==> {
                let all = spec_all_packages(*lock);
                let flags = spec_security_flags(all, now_millis);
                0 <= flags[k].0 < all.len() && spec_vuln_matches(
                    #[trigger] r.vulnerabilities@[k],
                    all[flags[k].0],
                    flags[k].1,
                )
            },
        r.summary.critical == 0,
        r.summary.high == 0,
        r.summary.medium == spec_medium_count(spec_all_packages(*lock), now_millis),
        r.summary.low == spec_low_count(spec_all_packages(*lock), now_millis),
        r.risk_level@ == (if spec_medium_count(spec_all_packages(*lock), now_millis) > 0 {
            "medium"@
        } else {
            "low"@
        }),
{
    let ghost all = spec_all_packages(*lock);
    let mut vulns: Vec<SecurityVulnerability> = Vec::new();
    let mut medium: usize = 0;
    let mut low: usize = 0;
    let plen = lock.packages.len();
    let mut i: usize = 0;
    assert(all.take(0) =~= Seq::<PackageInfo>::empty());
    while i < plen
        invariant
            now_millis >= 0,
            i <= plen,
            plen == lock.packages@.len(),
            all == spec_all_packages(*lock),
            medium + low == vulns@.len(),
            medium == spec_medium_count(all.take(i as int), now_millis),
            low == spec_low_count(all.take(i as int), now_millis),
            vulns@.len() == spec_security_flags(all.take(i as int), now_millis).len(),
            forall|k: int|
                0 <= k < vulns@.len() ==> {
                    let flags = spec_security_flags(all.take(i as int), now_millis);
                    spec_vuln_matches(#[trigger] vulns@[k], all[flags[k].0], flags[k].1)
                },
        decreases plen - i,
    {
        proof {
            assert(all.take(i + 1).drop_last() =~= all.take(i as int));
            assert(all.take(i + 1).last() == all[i as int]);
            assert(all[i as int] == lock.packages@[i as int]);
        }
        let ghost pre_vulns = vulns@;
        push_pkg_findings(
            &lock.packages[i],
            now_millis,
            &mut vulns,
            &mut medium,
            &mut low,
            Ghost(i as int),
        );
        proof {
            let flags_new = spec_security_flags(all.take(i + 1), now_millis);
            let flags_old = spec_security_flags(all.take(i as int), now_millis);
            let pf = spec_pkg_flags(i as int, all[i as int], now_millis);
            assert(flags_new == flags_old + pf);
            assert(pre_vulns.len() == flags_old.len());
            assert forall|k: int| 0 <= k < vulns@.len() implies {
                spec_vuln_matches(#[trigger] vulns@[k], all[flags_new[k].0], flags_new[k].1)
            } by {
                if k < flags_old.len() {
                    assert(vulns@[k] == pre_vulns[k]);
                    assert(flags_new[k] == flags_old[k]);
                } else {
                    let kk = k - flags_old.len();
                    assert(flags_new[k] == pf[kk]);
                    assert(spec_vuln_matches(
                        vulns@[pre_vulns.len() + kk],
                        lock.packages@[i as int],
                        pf[kk].1,
                    ));
                    assert(pf[kk].0 == i as int);
                }
            }
        }
        i = i + 1;
    }
    if let Some(dev) = &lock.packages_dev {
        let dlen = dev.len();
        let mut j: usize = 0;
        while j < dlen
            invariant
                now_millis >= 0,
                j <= dlen,
                dlen == dev@.len(),
                plen == lock.packages@.len(),
                lock.packages_dev == Some(*dev),
                all == spec_all_packages(*lock),
                medium + low == vulns@.len(),
                medium == spec_medium_count(all.take(plen + j), now_millis),
                low == spec_low_count(all.take(plen + j), now_millis),
                vulns@.len() == spec_security_flags(all.take(plen + j), now_millis).len(),
                forall|k: int|
                    0 <= k < vulns@.len() ==> {
                        let flags = spec_security_flags(all.take(plen + j), now_millis);
                        spec_vuln_matches(#[trigger] vulns@[k], all[flags[k].0], flags[k].1)
                    },
            decreases dlen - j,
        {
            proof {
                assert(all.take(plen + j + 1).drop_last() =~= all.take(plen + j));
                assert(all.take(plen + j + 1).last() == all[plen + j]);
                assert(all[plen + j] == dev@[j as int]);
            }
            let ghost pre_vulns = vulns@;
            push_pkg_findings(
                &dev[j],
                now_millis,
                &mut vulns,
                &mut medium,
                &mut low,
                Ghost(plen + j as int),
            );
            proof {
                let flags_new = spec_security_flags(all.take(plen + j + 1), now_millis);
                let flags_old = spec_security_flags(all.take(plen + j), now_millis);
                let pf = spec_pkg_flags(plen + j as int, all[plen + j], now_millis);
                assert(flags_new == flags_old + pf);
                assert(pre_vulns.len() == flags_old.len());
                assert forall|k: int| 0 <= k < vulns@.len() implies {
                    spec_vuln_matches(#[trigger] vulns@[k], all[flags_new[k].0], flags_new[k].1)
                } by {
                    if k < flags_old.len() {
                        assert(vulns@[k] == pre_vulns[k]);
                        assert(flags_new[k] == flags_old[k]);
                    } else {
                        let kk = k - flags_old.len();
                        assert(flags_new[k] == pf[kk]);
                        assert(spec_vuln_matches(
                            vulns@[pre_vulns.len() + kk],
                            dev@[j as int],
                            pf[kk].1,
                        ));
                        assert(pf[kk].0 == plen + j as int);
                    }
                }
            }
            j = j + 1;
        }
        assert(all.take(plen + dlen) =~= all);
    } else {
        assert(all.take(plen as int) =~= all);
    }
    proof {
        lemma_security_flags_bounds(all, now_millis);
    }
    let risk_level = if medium > 0 {
        String::from_str("medium")
    } else {
        String::from_str("low")
    };
    SecurityAuditResult {
        vulnerabilities: vulns,
        risk_level,
        summary: SecuritySummary { critical: 0, high: 0, medium, low },
    }
}

/// The fixed classification of one license string: safe on the permissive
/// allow-list, caution for weak copyleft (and anything unrecognized),
/// review-required for strong copyleft, unknown or proprietary markers.
pub open spec fn spec_license_risk(l: Seq<char>) -> Seq<char> {
    if l == "MIT"@ || l == "Apache-2.0"@ || l == "BSD-3-Clause"@ || l == "BSD-2-Clause"@ || l
        == "ISC"@ {
        "safe"@
    } else if spec_contains_sub(l, "LGPL"@) || spec_contains_sub(l, "MPL"@) || spec_contains_sub(
        l,
        "EPL"@,
    ) {
        "caution"@
    } else if spec_contains_sub(l, "GPL"@) || l == "Unknown"@ || spec_contains_sub(
        l,
        "Proprietary"@,
    ) {
        "review-required"@
    } else {
        "caution"@
    }
}

pub fn assess_license_risk(license: &str) -> (r: String)
    ensures
        r@ == spec_license_risk(license@),
{
    if str_eq(license, "MIT") || str_eq(license, "Apache-2.0") || str_eq(license, "BSD-3-Clause")
        || str_eq(license, "BSD-2-Clause") || str_eq(license, "ISC") {
        return String::from_str("safe");
    }
    if str_contains(license, "LGPL") || str_contains(license, "MPL") || str_contains(
        license,
        "EPL",
    ) {
        return String::from_str("caution");
    }
    if str_contains(license, "GPL") || str_eq(license, "Unknown") || str_contains(
        license,
        "Proprietary",
    ) {
        return String::from_str("review-required");
    }
    String::from_str("caution")
}


pub struct LicenseAnalysisResult {
    pub distribution: Vec<LicenseDistribution>,
    pub compatibility_issues: Vec<String>,
    pub summary: LicenseSummary,
}

pub struct LicenseSummary {
    pub total_packages: usize,
    pub unique_licenses: usize,
    pub unknown_licenses: usize,
}

/// The licenses one package declares; a package with none falls into the
/// explicit Unknown bucket.
pub open spec fn spec_pkg_licenses(pkg: PackageInfo) -> Seq<Seq<char>> {
    match pkg.license {
        Some(l) => spec_views(l@),
        None => seq!["Unknown"@],
    }
}

/// The (license, package name) pairs one package contributes.
pub open spec fn spec_pkg_pairs(pkg: PackageInfo) -> Seq<(Seq<char>, Seq<char>)> {
    spec_pkg_licenses(pkg).map_values(|l: Seq<char>| (l, pkg.name@))
}

/// All (license, package name) pairs over the resolved list, in order.
pub open spec fn spec_license_pairs(pkgs: Seq<PackageInfo>) -> Seq<(Seq<char>, Seq<char>)>
    decreases pkgs.len(),
{
    if pkgs.len() == 0 {
        Seq::empty()
    } else {
        spec_license_pairs(pkgs.drop_last()) + spec_pkg_pairs(pkgs.last())
    }
}

/// How many pairs carry the Unknown license.
pub open spec fn spec_unknown_count(pairs: Seq<(Seq<char>, Seq<char>)>) -> int
    decreases pairs.len(),
{
    if pairs.len() == 0 {
        0
    } else {
        spec_unknown_count(pairs.drop_last()) + if pairs.last().0 == "Unknown"@ {
            1int
        } else {
            0int
        }
    }
}

pub open spec fn spec_any_key_contains(keys: Seq<Seq<char>>, sub: Seq<char>) -> bool {
    exists|k: int| 0 <= k < keys.len() && spec_contains_sub(#[trigger] keys[k], sub)
}

proof fn lemma_any_key_step(keys: Seq<Seq<char>>, sub: Seq<char>, g: int)
    requires
        0 <= g < keys.len(),
    ensures
        spec_any_key_contains(keys.take(g + 1), sub) == (spec_any_key_contains(keys.take(g), sub)
            || spec_contains_sub(keys[g], sub)),
{
    if spec_any_key_contains(keys.take(g + 1), sub) {
        let k = choose|k: int|
            0 <= k < keys.take(g + 1).len() && spec_contains_sub(#[trigger] keys.take(g + 1)[k], sub);
        if k < g {
            assert(keys.take(g)[k] == keys.take(g + 1)[k]);
            assert(spec_any_key_contains(keys.take(g), sub));
        } else {
            assert(keys.take(g + 1)[k] == keys[g]);
        }
    }
    if spec_any_key_contains(keys.take(g), sub) {
        let k = choose|k: int|
            0 <= k < keys.take(g).len() && spec_contains_sub(#[trigger] keys.take(g)[k], sub);
        assert(keys.take(g + 1)[k] == keys.take(g)[k]);
        assert(spec_any_key_contains(keys.take(g + 1), sub));
    }
    if spec_contains_sub(keys[g], sub) {
        assert(keys.take(g + 1)[g] == keys[g]);
        assert(spec_any_key_contains(keys.take(g + 1), sub));
    }
}

/// Appends the (license, package) pairs of one package.
fn push_pkg_pairs(pkg: &PackageInfo, out: &mut Vec<(String, String)>)
    ensures
        spec_pair_views(final(out)@) == spec_pair_views(old(out)@) + spec_pkg_pairs(*pkg),
{
    match &pkg.license {
        Some(l) => {
            let mut t: usize = 0;
            let ghost base = out@;
            while t < l.len()
                invariant
                    t <= l@.len(),
                    pkg.license == Some(*l),
                    spec_pair_views(out@) == spec_pair_views(base) + spec_pkg_pairs(
                        *pkg,
                    ).take(t as int),
                decreases l@.len() - t,
            {
                let ghost prev = out@;
                out.push((l[t].clone(), pkg.name.clone()));
                proof {
                    let pp = spec_pkg_pairs(*pkg);
                    assert(pp.len() == l@.len());
                    assert(pp[t as int] == (l@[t as int]@, pkg.name@));
                    assert(spec_pair_views(out@) =~= spec_pair_views(prev).push(
                        (l@[t as int]@, pkg.name@),
                    ));
                    assert(pp.take(t + 1) =~= pp.take(t as int).push(pp[t as int]));
                    assert(spec_pair_views(out@) =~= spec_pair_views(base) + pp.take(t + 1));
                }
                t = t + 1;
            }
            assert(spec_pkg_pairs(*pkg).take(l@.len() as int) =~= spec_pkg_pairs(*pkg));
        },
        None => {
            out.push((String::from_str("Unknown"), pkg.name.clone()));
            proof {
                assert(spec_pkg_pairs(*pkg).len() == 1);
                assert(spec_pkg_pairs(*pkg)[0] == ("Unknown"@, pkg.name@));
                assert(spec_pair_views(out@) =~= spec_pair_views(old(out)@) + spec_pkg_pairs(
                    *pkg,
                ));
            }
        },
    }
}

/// Groups the resolved packages by declared license (missing licenses
/// under Unknown), classifies each license string, and reports a
/// compatibility warning when strong-copyleft and proprietary licenses
/// meet in one project.
pub fn analyze_licenses(lock: &ComposerLock) -> (r: LicenseAnalysisResult)
    requires
        spec_all_packages(*lock).len() <= usize::MAX,
    ensures
        ({
            let all = spec_all_packages(*lock);
            let pairs = spec_license_pairs(all);
            let keys = spec_group_keys(pairs);
            &&& r.distribution@.len() == keys.len()
            &&& forall|g: int|
                0 <= g < keys.len() ==> {
                    &&& (#[trigger] r.distribution@[g]).license@ == keys[g]
                    &&& spec_views(r.distribution@[g].packages@) == spec_group_members(
                        pairs,
                        keys[g],
                    )
                    &&& r.distribution@[g].count == spec_group_members(pairs, keys[g]).len()
                    &&& r.distribution@[g].risk_level@ == spec_license_risk(keys[g])
                }
            &&& spec_views(r.compatibility_issues@) == (if spec_any_key_contains(keys, "GPL"@)
                && spec_any_key_contains(keys, "Proprietary"@) {
                seq![
                    "Potential conflict: GPL and Proprietary licenses detected. Review compatibility."@,
                ]
            } else {
                Seq::<Seq<char>>::empty()
            })
            &&& r.summary.total_packages == all.len()
            &&& r.summary.unique_licenses == keys.len()
            &&& r.summary.unknown_licenses == spec_unknown_count(pairs)
        }),
{
    let ghost all = spec_all_packages(*lock);
    let mut pairs: Vec<(String, String)> = Vec::new();
    let plen = lock.packages.len();
    let mut i: usize = 0;
    assert(all.take(0) =~= Seq::<PackageInfo>::empty());
    assert(spec_pair_views(pairs@) =~= Seq::<(Seq<char>, Seq<char>)>::empty());
    while i < plen
        invariant
            i <= plen,
            plen == lock.packages@.len(),
            all == spec_all_packages(*lock),
            spec_pair_views(pairs@) == spec_license_pairs(all.take(i as int)),
        decreases plen - i,
    {
        proof {
            assert(all.take(i + 1).drop_last() =~= all.take(i as int));
            assert(all.take(i + 1).last() == all[i as int]);
            assert(all[i as int] == lock.packages@[i as int]);
        }
        push_pkg_pairs(&lock.packages[i], &mut pairs);
        i = i + 1;
    }
    let mut total: usize = plen;
    if let Some(dev) = &lock.packages_dev {
        let dlen = dev.len();
        proof {
            assert(all.len() == plen + dlen);
        }
        total = plen + dlen;
        let mut j: usize = 0;
        while j < dlen
            invariant
                j <= dlen,
                dlen == dev@.len(),
                plen == lock.packages@.len(),
                lock.packages_dev == Some(*dev),
                all == spec_all_packages(*lock),
                spec_pair_views(pairs@) == spec_license_pairs(all.take(plen + j)),
            decreases dlen - j,
        {
            proof {
                assert(all.take(plen + j + 1).drop_last() =~= all.take(plen + j));
                assert(all.take(plen + j + 1).last() == all[plen + j]);
                assert(all[plen + j] == dev@[j as int]);
            }
            push_pkg_pairs(&dev[j], &mut pairs);
            j = j + 1;
        }
        assert(all.take(plen + dlen) =~= all);
    } else {
        assert(all.take(plen as int) =~= all);
    }
    let ghost pview = spec_license_pairs(all);
    assert(spec_pair_views(pairs@) == pview);
    let ghost keys_all = spec_group_keys(pview);

    let mut groups: Vec<(String, Vec<String>)> = Vec::new();
    let mut t: usize = 0;
    proof {
        assert(pview.take(0) =~= Seq::<(Seq<char>, Seq<char>)>::empty());
        assert(groups@.map_values(|g: (String, Vec<String>)| g.0@) =~= Seq::<Seq<char>>::empty());
    }
    while t < pairs.len()
        invariant
            t <= pairs@.len(),
            pview == spec_pair_views(pairs@),
            groups@.map_values(|g: (String, Vec<String>)| g.0@) == spec_group_keys(
                pview.take(t as int),
            ),
            forall|g: int|
                0 <= g < groups@.len() ==> spec_views((#[trigger] groups@[g]).1@)
                    == spec_group_members(pview.take(t as int), groups@[g].0@),
        decreases pairs@.len() - t,
    {
        let ghost keys_pre = spec_group_keys(pview.take(t as int));
        proof {
            assert(pview.take(t + 1).drop_last() =~= pview.take(t as int));
            assert(pview.take(t + 1).last() == pview[t as int]);
            assert(pview[t as int] == (pairs@[t as int].0@, pairs@[t as int].1@));
        }
        let key = &pairs[t].0;
        let name = &pairs[t].1;
        let found = find_group(&groups, key.as_str());
        proof {
            match found {
                Some(f) => {
                    assert(groups@[f as int].0@ == key@);
                    assert(groups@.map_values(|gg: (String, Vec<String>)| gg.0@)[f as int]
                        == key@);
                    assert(keys_pre.contains(key@));
                },
                None => {
                    if keys_pre.contains(key@) {
                        let w = choose|w: int| 0 <= w < keys_pre.len() && keys_pre[w] == key@;
                        assert(groups@.map_values(|gg: (String, Vec<String>)| gg.0@)[w] == key@);
                        assert(groups@[w].0@ == key@);
                        assert(false);
                    }
                },
            }
        }
        if found.is_none() {
            let mut members: Vec<String> = Vec::new();
            members.push(name.clone());
            groups.push((key.clone(), members));
            proof {
                let keys_new = spec_group_keys(pview.take(t + 1));
                assert(keys_new == keys_pre.push(key@));
                assert(groups@.map_values(|gg: (String, Vec<String>)| gg.0@) =~= keys_new);
                assert forall|h: int| 0 <= h < groups@.len() implies spec_views(
                    (#[trigger] groups@[h]).1@,
                ) == spec_group_members(pview.take(t + 1), groups@[h].0@) by {
                    if h < groups@.len() - 1 {
                        assert(groups@[h] == groups@.drop_last()[h]);
                        assert(spec_views(groups@[h].1@) == spec_group_members(
                            pview.take(t as int),
                            groups@[h].0@,
                        ));
                        assert(groups@[h].0@ != key@) by {
                            assert(keys_new[h] == groups@[h].0@);
                            assert(keys_new[keys_new.len() - 1] == key@);
                            if groups@[h].0@ == key@ {
                                assert(keys_pre.contains(key@)) by {
                                    assert(keys_pre[h] == keys_new[h]);
                                }
                                assert(false);
                            }
                        }
                    } else {
                        assert(groups@[h].0@ == key@);
                        assert(spec_group_members(pview.take(t as int), key@) =~= Seq::<
                            Seq<char>,
                        >::empty()) by {
                            lemma_group_unknown_key(pview.take(t as int), key@);
                        }
                        assert(spec_views(groups@[h].1@) =~= seq![name@]);
                    }
                }
            }
        } else {
            let found = match found {
                Some(f) => f,
                None => 0,
            };
            let updated_members = {
                let mut m = clone_strings(&groups[found].1);
                m.push(name.clone());
                m
            };
            let updated = (groups[found].0.clone(), updated_members);
            let ghost pre_groups = groups@;
            groups.set(found, updated);
            proof {
                let keys_new = spec_group_keys(pview.take(t + 1));
                assert(keys_new == keys_pre);
                assert(groups@.map_values(|gg: (String, Vec<String>)| gg.0@) =~= keys_pre) by {
                    assert forall|h: int| 0 <= h < groups@.len() implies groups@[h].0@
                        == pre_groups[h].0@ by {}
                }
                assert forall|h: int| 0 <= h < groups@.len() implies spec_views(
                    (#[trigger] groups@[h]).1@,
                ) == spec_group_members(pview.take(t + 1), groups@[h].0@) by {
                    if h == found {
                        assert(groups@[h].0@ == key@);
                        assert(spec_views(groups@[h].1@) =~= spec_views(
                            pre_groups[h].1@,
                        ).push(name@));
                    } else {
                        assert(groups@[h] == pre_groups[h]);
                        assert(groups@[h].0@ != key@) by {
                            if groups@[h].0@ == key@ {
                                lemma_group_keys_distinct(pview.take(t as int));
                                assert(keys_pre[h] == groups@[h].0@);
                                assert(keys_pre[found as int] == key@);
                                assert(false);
                            }
                        }
                    }
                }
            }
        }
        t = t + 1;
    }
    assert(pview.take(pview.len() as int) =~= pview);

    let mut unknown: usize = 0;
    let mut t2: usize = 0;
    while t2 < pairs.len()
        invariant
            t2 <= pairs@.len(),
            pview == spec_pair_views(pairs@),
            unknown <= t2,
            unknown == spec_unknown_count(pview.take(t2 as int)),
        decreases pairs@.len() - t2,
    {
        proof {
            assert(pview.take(t2 + 1).drop_last() =~= pview.take(t2 as int));
            assert(pview.take(t2 + 1).last() == pview[t2 as int]);
            assert(pview[t2 as int] == (pairs@[t2 as int].0@, pairs@[t2 as int].1@));
        }
        if str_eq(pairs[t2].0.as_str(), "Unknown") {
            unknown = unknown + 1;
        }
        t2 = t2 + 1;
    }

    let mut has_gpl = false;
    let mut has_prop = false;
    let mut g2: usize = 0;
    proof {
        assert(keys_all.take(0) =~= Seq::<Seq<char>>::empty());
        assert(groups@.map_values(|gg: (String, Vec<String>)| gg.0@) == keys_all);
    }
    while g2 < groups.len()
        invariant
            g2 <= groups@.len(),
            keys_all == spec_group_keys(pview),
            groups@.map_values(|gg: (String, Vec<String>)| gg.0@) == keys_all,
            has_gpl == spec_any_key_contains(keys_all.take(g2 as int), "GPL"@),
            has_prop == spec_any_key_contains(keys_all.take(g2 as int), "Proprietary"@),
        decreases groups@.len() - g2,
    {
        proof {
            lemma_any_key_step(keys_all, "GPL"@, g2 as int);
            lemma_any_key_step(keys_all, "Proprietary"@, g2 as int);
            assert(keys_all[g2 as int] == groups@[g2 as int].0@);
        }
        if str_contains(groups[g2].0.as_str(), "GPL") {
            has_gpl = true;
        }
        if str_contains(groups[g2].0.as_str(), "Proprietary") {
            has_prop = true;
        }
        g2 = g2 + 1;
    }
    assert(keys_all.take(keys_all.len() as int) =~= keys_all);

    let mut distribution: Vec<LicenseDistribution> = Vec::new();
    let mut g3: usize = 0;
    while g3 < groups.len()
        invariant
            g3 <= groups@.len(),
            pview == spec_pair_views(pairs@),
            keys_all == spec_group_keys(pview),
            groups@.map_values(|gg: (String, Vec<String>)| gg.0@) == keys_all,
            forall|g: int|
                0 <= g < groups@.len() ==> spec_views((#[trigger] groups@[g]).1@)
                    == spec_group_members(pview, groups@[g].0@),
            distribution@.len() == g3,
            forall|g: int|
                0 <= g < g3 ==> {
                    &&& (#[trigger] distribution@[g]).license@ == keys_all[g]
                    &&& spec_views(distribution@[g].packages@) == spec_group_members(
                        pview,
                        keys_all[g],
                    )
                    &&& distribution@[g].count == spec_group_members(pview, keys_all[g]).len()
                    &&& distribution@[g].risk_level@ == spec_license_risk(keys_all[g])
                },
        decreases groups@.len() - g3,
    {
        proof {
            assert(keys_all[g3 as int] == groups@[g3 as int].0@);
        }
        let count = groups[g3].1.len();
        let entry = LicenseDistribution {
            license: groups[g3].0.clone(),
            count,
            packages: clone_strings(&groups[g3].1),
            risk_level: assess_license_risk(groups[g3].0.as_str()),
        };
        distribution.push(entry);
        g3 = g3 + 1;
    }

    let mut compatibility_issues: Vec<String> = Vec::new();
    if has_gpl && has_prop {
        compatibility_issues.push(
            String::from_str(
                "Potential conflict: GPL and Proprietary licenses detected. Review compatibility.",
            ),
        );
        assert(spec_views(compatibility_issues@) =~= seq![
            "Potential conflict: GPL and Proprietary licenses detected. Review compatibility."@,
        ]);
    } else {
        assert(spec_views(compatibility_issues@) =~= Seq::<Seq<char>>::empty());
    }
    let unique = groups.len();
    LicenseAnalysisResult {
        distribution,
        compatibility_issues,
        summary: LicenseSummary {
            total_packages: total,
            unique_licenses: unique,
            unknown_licenses: unknown,
        },
    }
}

} // verus!
