//! Mermaid rendering of the dependency graph: a bounded overview from a
//! synthetic root, or the immediate edges of one focused package.

use vstd::prelude::*;

use crate::composer::spec_filter_requirements;
use crate::types::ComposerLock;
use crate::types::PackageInfo;
use crate::strings::str_chars;
use crate::strings::chars_to_string;
use crate::strings::str_eq;
use vstd::string::StringExecFns;

verus! {

/// The characters mermaid node identifiers cannot carry, replaced by
/// underscores.
pub open spec fn spec_sanitize_char(c: char) -> char {
    if c == '/' || c == '-' || c == '.' || c == '@' {
        '_'
    } else {
        c
    }
}

pub open spec fn spec_sanitize(s: Seq<char>) -> Seq<char> {
    s.map_values(|c: char| spec_sanitize_char(c))
}

/// A package name as a mermaid node identifier.
pub fn sanitize_for_mermaid(name: &str) -> (r: String)
    ensures
        r@ == spec_sanitize(name@),
{
    let v = str_chars(name);
    let mut out: Vec<char> = Vec::new();
    let mut i: usize = 0;
    while i < v.len()
        invariant
            i <= v@.len(),
            v@ == name@,
            out@ == spec_sanitize(name@.take(i as int)),
        decreases v@.len() - i,
    {
        let c = v[i];
        if c == '/' || c == '-' || c == '.' || c == '@' {
            out.push('_');
        } else {
            out.push(c);
        }
        assert(out@ =~= spec_sanitize(name@.take(i + 1)));
        i = i + 1;
    }
    assert(name@.take(name@.len() as int) =~= name@);
    chars_to_string(&out)
}

/// One labelled edge: the label repeats the dependency's name and
/// version on two lines.
pub open spec fn spec_edge_line(from_san: Seq<char>, dep: Seq<char>, version: Seq<char>) -> Seq<
    char,
> {
    "  "@ + from_san + " --> "@ + spec_sanitize(dep) + "[\""@ + dep + "..."@ + "\n"@ + version
        + "\"]"@ + "\n"@
}

/// The edge lines of a list of requirement entries, in order.
pub open spec fn spec_edge_lines(from_san: Seq<char>, reqs: Seq<(String, String)>) -> Seq<char>
    decreases reqs.len(),
{
    if reqs.len() == 0 {
        Seq::empty()
    } else {
        spec_edge_lines(from_san, reqs.drop_last()) + spec_edge_line(
            from_san,
            reqs.last().0@,
            reqs.last().1@,
        )
    }
}

/// The requirement entries of one package that become edges in the full
/// overview: real packages only, at most three.
pub open spec fn spec_overview_deps(pkg: PackageInfo) -> Seq<(String, String)> {
    let kept = spec_filter_requirements(
        match pkg.require {
            Some(r) => r@,
            None => Seq::<(String, String)>::empty(),
        },
    );
    if kept.len() <= 3 {
        kept
    } else {
        kept.take(3)
    }
}

/// What one package contributes to the full overview.
pub open spec fn spec_overview_entry(pkg: PackageInfo, deep: bool) -> Seq<char> {
    spec_edge_line("Root"@, pkg.name@, pkg.version@) + (if deep {
        spec_edge_lines(spec_sanitize(pkg.name@), spec_overview_deps(pkg))
    } else {
        Seq::<char>::empty()
    })
}

/// The full overview over the first `n` packages.
pub open spec fn spec_full_graph_upto(pkgs: Seq<PackageInfo>, n: int, deep: bool) -> Seq<char>
    decreases n,
{
    if n <= 0 {
        Seq::<char>::empty()
    } else {
        spec_full_graph_upto(pkgs, n - 1, deep) + spec_overview_entry(pkgs[n - 1], deep)
    }
}

/// The full overview: a synthetic root, the first fifteen packages, and
/// their first edges when depth allows.
pub open spec fn spec_full_graph(pkgs: Seq<PackageInfo>, max_depth: int) -> Seq<char> {
    let limit = if pkgs.len() <= 15 {
        pkgs.len() as int
    } else {
        15
    };
    "  Root[Your Application]\n"@ + spec_full_graph_upto(pkgs, limit, max_depth > 1)
}

/// The first package carrying the focused name.
pub open spec fn spec_pkg_index(pkgs: Seq<PackageInfo>, name: Seq<char>) -> Option<int>
    decreases pkgs.len(),
{
    if pkgs.len() == 0 {
        None
    } else if pkgs.first().name@ == name {
        Some(0)
    } else {
        match spec_pkg_index(pkgs.drop_first(), name) {
            Some(i) => Some(i + 1),
            None => None,
        }
    }
}

/// The focused view: the package's node and every real edge out of it.
pub open spec fn spec_focused_graph(pkgs: Seq<PackageInfo>, focus: Seq<char>) -> Seq<char> {
    "  "@ + spec_sanitize(focus) + "["@ + focus + "]"@ + "\n"@ + (match spec_pkg_index(
        pkgs,
        focus,
    ) {
        Some(j) => spec_edge_lines(
            spec_sanitize(focus),
            spec_filter_requirements(
                match pkgs[j].require {
                    Some(r) => r@,
                    None => Seq::<(String, String)>::empty(),
                },
            ),
        ),
        None => Seq::<char>::empty(),
    })
}

/// Renders the edge lines for `reqs` after `out`.
fn append_edge_lines(out: &mut String, from_san: &str, reqs: &Vec<(String, String)>, upto: usize)
    requires
        upto <= reqs@.len(),
    ensures
        final(out)@ == old(out)@ + spec_edge_lines(from_san@, reqs@.take(upto as int)),
{
    let mut k: usize = 0;
    assert(out@ + spec_edge_lines(from_san@, reqs@.take(0)) =~= out@);
    while k < upto
        invariant
            k <= upto <= reqs@.len(),
            out@ == old(out)@ + spec_edge_lines(from_san@, reqs@.take(k as int)),
        decreases upto - k,
    {
        proof {
            assert(reqs@.take(k + 1).drop_last() =~= reqs@.take(k as int));
            assert(reqs@.take(k + 1).last() == reqs@[k as int]);
        }
        let san = sanitize_for_mermaid(reqs[k].0.as_str());
        out.append("  ");
        out.append(from_san);
        out.append(" --> ");
        out.append(san.as_str());
        out.append("[\"");
        out.append(reqs[k].0.as_str());
        out.append("...");
        out.append("\n");
        out.append(reqs[k].1.as_str());
        out.append("\"]");
        out.append("\n");
        k = k + 1;
    }
}

/// Renders what one package contributes to the full overview.
fn render_overview_entry(out: &mut String, pkg: &PackageInfo, deep: bool)
    ensures
        final(out)@ == old(out)@ + spec_overview_entry(*pkg, deep),
{
    let san = sanitize_for_mermaid(pkg.name.as_str());
    out.append("  ");
    out.append("Root");
    out.append(" --> ");
    out.append(san.as_str());
    out.append("[\"");
    out.append(pkg.name.as_str());
    out.append("...");
    out.append("\n");
    out.append(pkg.version.as_str());
    out.append("\"]");
    out.append("\n");
    if deep {
        let kept = match &pkg.require {
            Some(r) => crate::composer::filter_php_dependencies(r),
            None => Vec::new(),
        };
        let upto = if kept.len() <= 3 {
            kept.len()
        } else {
            3
        };
        proof {
            assert(kept@.take(upto as int) =~= spec_overview_deps(*pkg));
        }
        append_edge_lines(out, san.as_str(), &kept, upto);
    }
}

/// The full overview of the first fifteen packages.
pub fn generate_full_graph(packages: &Vec<PackageInfo>, max_depth: usize) -> (r: String)
    ensures
        r@ == spec_full_graph(packages@, max_depth as int),
{
    let mut result = String::from_str("  Root[Your Application]\n");
    let limit = if packages.len() <= 15 {
        packages.len()
    } else {
        15
    };
    let deep = max_depth > 1;
    let mut i: usize = 0;
    while i < limit
        invariant
            i <= limit <= packages@.len(),
            limit == (if packages@.len() <= 15 {
                packages@.len() as int
            } else {
                15int
            }),
            deep == (max_depth > 1),
            result@ == "  Root[Your Application]\n"@ + spec_full_graph_upto(
                packages@,
                i as int,
                deep,
            ),
        decreases limit - i,
    {
        render_overview_entry(&mut result, &packages[i], deep);
        i = i + 1;
    }
    result
}

/// The index of the first package with the focused name.
fn find_pkg(packages: &Vec<PackageInfo>, name: &str) -> (r: Option<usize>)
    ensures
        match r {
            Some(j) => j < packages@.len() && spec_pkg_index(packages@, name@) == Some(j as int),
            None => spec_pkg_index(packages@, name@) is None,
        },
{
    proof {
        lemma_pkg_index(packages@, name@);
    }
    let mut j: usize = 0;
    while j < packages.len()
        invariant
            j <= packages@.len(),
            forall|k: int| 0 <= k < j ==> (#[trigger] packages@[k].name)@ != name@,
        decreases packages@.len() - j,
    {
        if str_eq(packages[j].name.as_str(), name) {
            proof {
                lemma_pkg_index(packages@, name@);
                match spec_pkg_index(packages@, name@) {
                    Some(p) => {
                        if p < j {
                            assert(packages@[p].name@ != name@);
                            assert(false);
                        }
                        if p > j {
                            assert(packages@[j as int].name@ != name@);
                            assert(false);
                        }
                    },
                    None => {
                        assert(packages@[j as int].name@ != name@);
                        assert(false);
                    },
                }
            }
            return Some(j);
        }
        j = j + 1;
    }
    proof {
        lemma_pkg_index(packages@, name@);
        if let Some(p) = spec_pkg_index(packages@, name@) {
            assert(packages@[p].name@ != name@);
            assert(false);
        }
    }
    None
}

proof fn lemma_pkg_index(pkgs: Seq<PackageInfo>, name: Seq<char>)
    ensures
        match spec_pkg_index(pkgs, name) {
            Some(p) => 0 <= p < pkgs.len() && pkgs[p].name@ == name && (forall|k: int|
                0 <= k < p ==> (#[trigger] pkgs[k].name)@ != name),
            None => forall|k: int| 0 <= k < pkgs.len() ==> (#[trigger] pkgs[k].name)@ != name,
        },
    decreases pkgs.len(),
{
    if pkgs.len() > 0 {
        lemma_pkg_index(pkgs.drop_first(), name);
        if pkgs.first().name@ == name {
        } else {
            match spec_pkg_index(pkgs.drop_first(), name) {
                Some(i) => {
                    assert(pkgs.drop_first()[i] == pkgs[i + 1]);
                    assert forall|k: int| 0 <= k < i + 1 implies (#[trigger] pkgs[k].name)@
                        != name by {
                        if k > 0 {
                            assert(pkgs[k] == pkgs.drop_first()[k - 1]);
                        }
                    }
                },
                None => {
                    assert forall|k: int| 0 <= k < pkgs.len() implies (#[trigger] pkgs[k].name)@
                        != name by {
                        if k > 0 {
                            assert(pkgs[k] == pkgs.drop_first()[k - 1]);
                        }
                    }
                },
            }
        }
    }
}

/// Renders the edges out of the focused package.
fn render_focus_edges(out: &mut String, pkg: &PackageInfo, focus_san: &str)
    ensures
        final(out)@ == old(out)@ + spec_edge_lines(
            focus_san@,
            spec_filter_requirements(
                match pkg.require {
                    Some(r) => r@,
                    None => Seq::<(String, String)>::empty(),
                },
            ),
        ),
{
    let kept = match &pkg.require {
        Some(r) => crate::composer::filter_php_dependencies(r),
        None => Vec::new(),
    };
    let upto = kept.len();
    proof {
        assert(kept@.take(upto as int) =~= kept@);
    }
    append_edge_lines(out, focus_san, &kept, upto);
}

/// The focused view of one package's immediate dependencies.
pub fn generate_focused_graph(packages: &Vec<PackageInfo>, focus_package: &str, max_depth: usize) -> (r: String)
    ensures
        r@ == spec_focused_graph(packages@, focus_package@),
{
    let focus_san = sanitize_for_mermaid(focus_package);
    let mut result = String::from_str("  ");
    result.append(focus_san.as_str());
    result.append("[");
    result.append(focus_package);
    result.append("]");
    result.append("\n");
    let found = find_pkg(packages, focus_package);
    if let Some(j) = found {
        render_focus_edges(&mut result, &packages[j], focus_san.as_str());
    }
    result
}

/// The first match over a concatenation is the match in the first part,
/// or the offset match in the second.
proof fn lemma_pkg_index_concat(a: Seq<PackageInfo>, b: Seq<PackageInfo>, name: Seq<char>)
    ensures
        spec_pkg_index(a + b, name) == (match spec_pkg_index(a, name) {
            Some(j) => Some(j),
            None => match spec_pkg_index(b, name) {
                Some(k) => Some(a.len() + k),
                None => None::<int>,
            },
        }),
    decreases a.len(),
{
    if a.len() == 0 {
        assert(a + b =~= b);
    } else {
        lemma_pkg_index_concat(a.drop_first(), b, name);
        assert((a + b).first() == a.first());
        assert((a + b).drop_first() =~= a.drop_first() + b);
    }
}

/// The full overview over a concatenation, rendered part by part.
proof fn lemma_full_upto_concat(a: Seq<PackageInfo>, b: Seq<PackageInfo>, n: int, deep: bool)
    requires
        0 <= n <= a.len(),
    ensures
        spec_full_graph_upto(a + b, n, deep) == spec_full_graph_upto(a, n, deep),
    decreases n,
{
    if n > 0 {
        lemma_full_upto_concat(a, b, n - 1, deep);
        assert((a + b)[n - 1] == a[n - 1]);
    }
}

/// Renders the dependency graph of a lock file as mermaid text: a
/// focused view when a package is named, otherwise the bounded overview;
/// a missing lock file yields a placeholder graph. A depth of zero means
/// the default depth of two.
#[verifier::rlimit(100)]
pub fn generate_dependency_graph(
    lock: Option<&ComposerLock>,
    max_depth: usize,
    include_dev: bool,
    focus_package: Option<&str>,
) -> (r: String)
    ensures
        ({
            match lock {
                None => r@ == "graph TD\n  NoLock[composer.lock not found]"@,
                Some(l) => {
                    let sel = if include_dev {
                        crate::graph::spec_all_packages(*l)
                    } else {
                        l.packages@
                    };
                    let depth = if max_depth == 0 {
                        2int
                    } else {
                        max_depth as int
                    };
                    r@ == "graph TD\n"@ + (match focus_package {
                        Some(f) => spec_focused_graph(sel, f@),
                        None => spec_full_graph(sel, depth),
                    })
                },
            }
        }),
{
    let l = match lock {
        Some(l) => l,
        None => {
            return String::from_str("graph TD\n  NoLock[composer.lock not found]");
        },
    };
    let depth = if max_depth == 0 {
        2
    } else {
        max_depth
    };
    let ghost sel = if include_dev {
        crate::graph::spec_all_packages(*l)
    } else {
        l.packages@
    };
    let ghost devpart = (match &l.packages_dev {
        Some(d) => d@,
        None => Seq::<PackageInfo>::empty(),
    });
    proof {
        if !include_dev {
            assert(sel =~= l.packages@ + Seq::<PackageInfo>::empty());
        }
    }
    let mut out = String::from_str("graph TD\n");
    match focus_package {
        Some(f) => {
            let focus_san = sanitize_for_mermaid(f);
            out.append("  ");
            out.append(focus_san.as_str());
            out.append("[");
            out.append(f);
            out.append("]");
            out.append("\n");
            let found_prod = find_pkg(&l.packages, f);
            proof {
                if include_dev {
                    lemma_pkg_index_concat(l.packages@, devpart, f@);
                } else {
                    lemma_pkg_index_concat(l.packages@, Seq::<PackageInfo>::empty(), f@);
                }
            }
            match found_prod {
                Some(j) => {
                    render_focus_edges(&mut out, &l.packages[j], focus_san.as_str());
                    proof {
                        assert(sel[spec_pkg_index(sel, f@).unwrap()] == l.packages@[j as int]);
                    }
                },
                None => {
                    if include_dev {
                        if let Some(dev) = &l.packages_dev {
                            let found_dev = find_pkg(dev, f);
                            if let Some(k) = found_dev {
                                render_focus_edges(&mut out, &dev[k], focus_san.as_str());
                                proof {
                                    assert(sel[spec_pkg_index(sel, f@).unwrap()] == dev@[
                                        k as int]);
                                }
                            }
                        }
                    }
                },
            }
        },
        None => {
            out.append("  Root[Your Application]\n");
            let deep = depth > 1;
            let plen = l.packages.len();
            let lim1 = if plen <= 15 {
                plen
            } else {
                15
            };
            let mut i: usize = 0;
            while i < lim1
                invariant
                    i <= lim1 <= l.packages@.len(),
                    lim1 == (if l.packages@.len() <= 15 {
                        l.packages@.len() as int
                    } else {
                        15int
                    }),
                    deep == (depth > 1),
                    sel.len() >= l.packages@.len(),
                    forall|k: int| 0 <= k < l.packages@.len() ==> sel[k] == l.packages@[k],
                    out@ == "graph TD\n"@ + "  Root[Your Application]\n"@
                        + spec_full_graph_upto(sel, i as int, deep),
                decreases lim1 - i,
            {
                render_overview_entry(&mut out, &l.packages[i], deep);
                i = i + 1;
            }
            if include_dev && lim1 < 15 {
                if let Some(dev) = &l.packages_dev {
                    let dlen = dev.len();
                    let room = 15 - lim1;
                    let lim2 = if dlen <= room {
                        dlen
                    } else {
                        room
                    };
                    let mut j: usize = 0;
                    while j < lim2
                        invariant
                            j <= lim2,
                            lim1 == l.packages@.len(),
                            lim1 < 15,
                            lim2 <= dev@.len(),
                            lim2 == (if dev@.len() <= 15 - lim1 {
                                dev@.len() as int
                            } else {
                                15 - lim1
                            }),
                            deep == (depth > 1),
                            sel.len() == lim1 + dev@.len(),
                            forall|k: int| 0 <= k < dev@.len() ==> sel[lim1 + k] == dev@[k],
                            out@ == "graph TD\n"@ + "  Root[Your Application]\n"@
                                + spec_full_graph_upto(sel, lim1 + j, deep),
                        decreases lim2 - j,
                    {
                        render_overview_entry(&mut out, &dev[j], deep);
                        j = j + 1;
                    }
                }
            }
            proof {
                let limit = if sel.len() <= 15 {
                    sel.len() as int
                } else {
                    15int
                };
                assert(out@ == "graph TD\n"@ + "  Root[Your Application]\n"@
                    + spec_full_graph_upto(sel, limit, deep));
            }
        },
    }
    out
}

} // verus!
