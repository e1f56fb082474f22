//! Dependency graph construction: one node per resolved package, forward
//! edges from the declared requirements (platform pseudo-packages
//! excluded), and the derived reverse index ("used by"). Also the
//! depth-first cycle detector over that graph.

use vstd::prelude::*;

use crate::composer::filter_php_dependencies;
use crate::composer::spec_filter_requirements;
use crate::seqs::clone_strings;
use crate::seqs::spec_contains_str;
use crate::seqs::vec_contains_str;
use crate::types::ComposerJson;
use crate::types::ComposerLock;
use crate::types::DependencyNode;
use crate::types::PackageInfo;
use vstd::string::StringExecFns;

verus! {

/// Requirement maps, graph and counts for one project.
pub struct DependencyAnalysisResult {
    pub production: Vec<(String, String)>,
    pub development: Vec<(String, String)>,
    pub tree: Vec<DependencyNode>,
    pub stats: DependencyStats,
}

pub struct DependencyStats {
    pub total_production: usize,
    pub total_development: usize,
    pub outdated: usize,
    pub up_to_date: usize,
}

/// The resolved packages in graph order: the production list, then the
/// development list.
pub open spec fn spec_all_packages(lock: ComposerLock) -> Seq<PackageInfo> {
    lock.packages@ + match lock.packages_dev {
        Some(d) => d@,
        None => Seq::<PackageInfo>::empty(),
    }
}

/// Projection of a requirement entry onto the package name.
pub open spec fn req_name() -> spec_fn((String, String)) -> String {
    |p: (String, String)| p.0
}

/// The forward-edge names of a package: its requirement names with
/// platform and extension pseudo-dependencies excluded, in declaration
/// order.
pub open spec fn spec_dep_names(require: Option<Vec<(String, String)>>) -> Seq<String> {
    match require {
        Some(r) => spec_filter_requirements(r@).map_values(req_name()),
        None => Seq::<String>::empty(),
    }
}

/// The first declared license of a package, if any.
pub open spec fn spec_primary_license(license: Option<Vec<String>>) -> Option<String> {
    match license {
        Some(l) => if l@.len() > 0 {
            Some(l@[0])
        } else {
            None
        },
        None => None,
    }
}

/// Field-wise correspondence of a graph node to its package.
pub open spec fn spec_node_matches(node: DependencyNode, pkg: PackageInfo, production: bool) -> bool {
    &&& node.name == pkg.name
    &&& node.version == pkg.version
    &&& node.node_type@ == (if production {
        "production"@
    } else {
        "development"@
    })
    &&& node.dependencies@ == spec_dep_names(pkg.require)
    &&& node.license == spec_primary_license(pkg.license)
}

/// Whether a package's forward edges include `target`.
pub open spec fn spec_depends_on(pkg: PackageInfo, target: Seq<char>) -> bool {
    spec_contains_str(spec_dep_names(pkg.require), target)
}

/// The names of the packages that depend on `target`, in graph order: the
/// reverse-index entry for `target`.
pub open spec fn spec_used_by(all: Seq<PackageInfo>, target: Seq<char>) -> Seq<String>
    decreases all.len(),
{
    if all.len() == 0 {
        Seq::<String>::empty()
    } else {
        let rest = spec_used_by(all.drop_last(), target);
        if spec_depends_on(all.last(), target) {
            rest.push(all.last().name)
        } else {
            rest
        }
    }
}

/// The whole contract of the graph builder: each node mirrors its package,
/// kind is assigned by position, and each node's "used by" list is the
/// reverse index for its name.
pub open spec fn spec_tree_of(lock: ComposerLock, tree: Seq<DependencyNode>) -> bool {
    let all = spec_all_packages(lock);
    &&& tree.len() == all.len()
    &&& forall|i: int|
        0 <= i < all.len() ==> spec_node_matches(
            #[trigger] tree[i],
            all[i],
            i < lock.packages@.len(),
        )
    &&& forall|i: int|
        0 <= i < all.len() ==> #[trigger] tree[i].used_by@ == spec_used_by(all, all[i].name@)
}

/// The filtered requirement names of one requirement map.
fn dep_names(require: &Option<Vec<(String, String)>>) -> (r: Vec<String>)
    ensures
        r@ == spec_dep_names(*require),
{
    match require {
        Some(reqs) => {
            let f = filter_php_dependencies(reqs);
            let mut names: Vec<String> = Vec::new();
            let mut i: usize = 0;
            assert(f@.take(0).map_values(req_name()) =~= Seq::<String>::empty());
            while i < f.len()
                invariant
                    i <= f@.len(),
                    names@ == f@.take(i as int).map_values(req_name()),
                decreases f@.len() - i,
            {
                names.push(f[i].0.clone());
                assert(f@.take(i + 1).map_values(req_name()) =~= f@.take(i as int).map_values(
                    req_name(),
                ).push(f@[i as int].0));
                i = i + 1;
            }
            assert(f@.take(f@.len() as int) =~= f@);
            names
        },
        None => Vec::new(),
    }
}

fn primary_license(license: &Option<Vec<String>>) -> (r: Option<String>)
    ensures
        r == spec_primary_license(*license),
{
    match license {
        Some(l) => if l.len() > 0 {
            Some(l[0].clone())
        } else {
            None
        },
        None => None,
    }
}

/// Builds the nodes for one package list, appending to `out`.
fn append_nodes(pkgs: &Vec<PackageInfo>, production: bool, out: &mut Vec<DependencyNode>)
    ensures
        final(out)@.len() == old(out)@.len() + pkgs@.len(),
        forall|k: int| 0 <= k < old(out)@.len() ==> final(out)@[k] == old(out)@[k],
        forall|k: int|
            0 <= k < pkgs@.len() ==> spec_node_matches(
                #[trigger] final(out)@[old(out)@.len() + k],
                pkgs@[k],
                production,
            ) && final(out)@[old(out)@.len() + k].used_by@ == Seq::<String>::empty(),
{
    let kind = if production {
        String::from_str("production")
    } else {
        String::from_str("development")
    };
    let mut i: usize = 0;
    while i < pkgs.len()
        invariant
            i <= pkgs@.len(),
            kind@ == (if production {
                "production"@
            } else {
                "development"@
            }),
            out@.len() == old(out)@.len() + i,
            forall|k: int| 0 <= k < old(out)@.len() ==> out@[k] == old(out)@[k],
            forall|k: int|
                0 <= k < i ==> spec_node_matches(
                    #[trigger] out@[old(out)@.len() + k],
                    pkgs@[k],
                    production,
                ) && out@[old(out)@.len() + k].used_by@ == Seq::<String>::empty(),
        decreases pkgs@.len() - i,
    {
        let node = DependencyNode {
            name: pkgs[i].name.clone(),
            version: pkgs[i].version.clone(),
            node_type: kind.clone(),
            dependencies: dep_names(&pkgs[i].require),
            used_by: Vec::new(),
            license: primary_license(&pkgs[i].license),
        };
        out.push(node);
        i = i + 1;
    }
}

/// Builds the dependency graph of a lock file: nodes in list order
/// (production first), forward edges filtered of pseudo-packages, and the
/// reverse index derived from them.
pub fn build_dependency_tree(lock: &ComposerLock) -> (tree: Vec<DependencyNode>)
    ensures
        spec_tree_of(*lock, tree@),
{
    let ghost all = spec_all_packages(*lock);
    let mut nodes: Vec<DependencyNode> = Vec::new();
    append_nodes(&lock.packages, true, &mut nodes);
    let ghost mid = nodes@;
    let ghost plen = lock.packages@.len() as int;
    if let Some(dev) = &lock.packages_dev {
        append_nodes(dev, false, &mut nodes);
        proof {
            assert forall|i: int| 0 <= i < all.len() implies spec_node_matches(
                #[trigger] nodes@[i],
                all[i],
                i < plen,
            ) by {
                if i < plen {
                    assert(nodes@[i] == mid[i]);
                    assert(mid[0 + i] == mid[i]);
                    assert(spec_node_matches(mid[0 + i], lock.packages@[i], true));
                    assert(all[i] == lock.packages@[i]);
                } else {
                    assert(spec_node_matches(nodes@[plen + (i - plen)], dev@[i - plen], false));
                    assert(all[i] == dev@[i - plen]);
                }
            }
        }
    } else {
        proof {
            assert forall|i: int| 0 <= i < all.len() implies spec_node_matches(
                #[trigger] nodes@[i],
                all[i],
                i < plen,
            ) by {
                assert(nodes@[0 + i] == nodes@[i]);
                assert(spec_node_matches(nodes@[0 + i], lock.packages@[i], true));
                assert(all[i] == lock.packages@[i]);
            }
        }
    }
    assert(nodes@.len() == all.len());
    let n = nodes.len();
    let mut ubs: Vec<Vec<String>> = Vec::new();
    let mut i: usize = 0;
    while i < n
        invariant
            i <= n,
            n == nodes@.len(),
            n == all.len(),
            forall|k: int|
                0 <= k < all.len() ==> spec_node_matches(
                    #[trigger] nodes@[k],
                    all[k],
                    k < lock.packages@.len(),
                ),
            ubs@.len() == i,
            forall|k: int| 0 <= k < i ==> #[trigger] ubs@[k]@ == spec_used_by(all, all[k].name@),
        decreases n - i,
    {
        let mut acc: Vec<String> = Vec::new();
        let mut j: usize = 0;
        assert(all.take(0) =~= Seq::<PackageInfo>::empty());
        while j < n
            invariant
                j <= n,
                i < n,
                n == nodes@.len(),
                n == all.len(),
                forall|k: int|
                    0 <= k < all.len() ==> spec_node_matches(
                        #[trigger] nodes@[k],
                        all[k],
                        k < lock.packages@.len(),
                    ),
                acc@ == spec_used_by(all.take(j as int), all[i as int].name@),
            decreases n - j,
        {
            proof {
                assert(all.take(j + 1).drop_last() =~= all.take(j as int));
                assert(all.take(j + 1).last() == all[j as int]);
            }
            if vec_contains_str(&nodes[j].dependencies, nodes[i].name.as_str()) {
                acc.push(nodes[j].name.clone());
                proof {
                    assert(nodes@[j as int].name == all[j as int].name);
                    assert(spec_depends_on(all[j as int], all[i as int].name@));
                }
            } else {
                proof {
                    assert(!spec_depends_on(all[j as int], all[i as int].name@));
                }
            }
            j = j + 1;
        }
        assert(all.take(n as int) =~= all);
        ubs.push(acc);
        i = i + 1;
    }
    let mut tree: Vec<DependencyNode> = Vec::new();
    let mut i: usize = 0;
    while i < n
        invariant
            i <= n,
            n == nodes@.len(),
            n == all.len(),
            ubs@.len() == n,
            forall|k: int|
                0 <= k < all.len() ==> spec_node_matches(
                    #[trigger] nodes@[k],
                    all[k],
                    k < lock.packages@.len(),
                ),
            forall|k: int| 0 <= k < n ==> #[trigger] ubs@[k]@ == spec_used_by(all, all[k].name@),
            tree@.len() == i,
            forall|k: int|
                0 <= k < i ==> spec_node_matches(
                    #[trigger] tree@[k],
                    all[k],
                    k < lock.packages@.len(),
                ) && tree@[k].used_by@ == spec_used_by(all, all[k].name@),
        decreases n - i,
    {
        let node = DependencyNode {
            name: nodes[i].name.clone(),
            version: nodes[i].version.clone(),
            node_type: nodes[i].node_type.clone(),
            dependencies: clone_strings(&nodes[i].dependencies),
            used_by: clone_strings(&ubs[i]),
            license: match &nodes[i].license {
                Some(s) => Some(s.clone()),
                None => None,
            },
        };
        tree.push(node);
        i = i + 1;
    }
    tree
}

/// Filtered production requirements, raw development requirements, graph
/// and counts — the manifest-and-lock analysis entry point. A missing
/// lock file yields an empty graph, not an error.
pub fn analyze_dependencies_raw(composer: &ComposerJson, lock: Option<&ComposerLock>) -> (r:
    DependencyAnalysisResult)
    ensures
        r.production@ == (match composer.require {
            Some(req) => spec_filter_requirements(req@),
            None => Seq::<(String, String)>::empty(),
        }),
        r.development@ == (match composer.require_dev {
            Some(d) => d@,
            None => Seq::<(String, String)>::empty(),
        }),
        match lock {
            Some(l) => spec_tree_of(*l, r.tree@),
            None => r.tree@.len() == 0,
        },
        r.stats.total_production == r.production@.len(),
        r.stats.total_development == r.development@.len(),
        r.stats.outdated == 0,
        r.stats.up_to_date == 0,
{
    let production = match &composer.require {
        Some(req) => filter_php_dependencies(req),
        None => Vec::new(),
    };
    let development = match &composer.require_dev {
        Some(d) => crate::seqs::clone_pairs(d),
        None => Vec::new(),
    };
    let tree = match lock {
        Some(l) => build_dependency_tree(l),
        None => Vec::new(),
    };
    let total_production = production.len();
    let total_development = development.len();
    DependencyAnalysisResult {
        production,
        development,
        tree,
        stats: DependencyStats { total_production, total_development, outdated: 0, up_to_date: 0 },
    }
}

/// Cycles found in a dependency graph, and how many.
pub struct CircularDependenciesResult {
    pub cycles: Vec<Vec<String>>,
    pub count: usize,
}

/// An edge of the graph as the detector walks it: the first node named
/// `from` lists `to` among its dependencies.
pub open spec fn spec_has_edge(tree: Seq<DependencyNode>, from: Seq<char>, to: Seq<char>) -> bool {
    exists|j: int|
        0 <= j < tree.len() && (#[trigger] tree[j].name)@ == from && (forall|k: int|
            0 <= k < j ==> (#[trigger] tree[k].name)@ != from) && spec_contains_str(
            tree[j].dependencies@,
            to,
        )
}

/// A closed walk: at least one edge, consecutive names connected, and the
/// last name repeating the first.
pub open spec fn spec_is_cycle(tree: Seq<DependencyNode>, c: Seq<String>) -> bool {
    &&& c.len() >= 2
    &&& c.first()@ == c.last()@
    &&& forall|k: int|
        0 <= k < c.len() - 1 ==> spec_has_edge(tree, (#[trigger] c[k])@, c[k + 1]@)
}

pub open spec fn spec_mem_index(path: Seq<usize>, j: int) -> bool {
    exists|k: int| 0 <= k < path.len() && (#[trigger] path[k]) as int == j
}

/// The index of the first node carrying the given name: the node the
/// detector's edges go through.
pub open spec fn spec_node_index(tree: Seq<DependencyNode>, name: Seq<char>) -> Option<int>
    decreases tree.len(),
{
    if tree.len() == 0 {
        None
    } else if tree.first().name@ == name {
        Some(0)
    } else {
        match spec_node_index(tree.drop_first(), name) {
            Some(i) => Some(i + 1),
            None => None,
        }
    }
}

pub proof fn lemma_node_index(tree: Seq<DependencyNode>, name: Seq<char>)
    ensures
        match spec_node_index(tree, name) {
            Some(p) => 0 <= p < tree.len() && tree[p].name@ == name && (forall|k: int|
                0 <= k < p ==> (#[trigger] tree[k].name)@ != name),
            None => forall|k: int| 0 <= k < tree.len() ==> (#[trigger] tree[k].name)@ != name,
        },
    decreases tree.len(),
{
    if tree.len() > 0 {
        lemma_node_index(tree.drop_first(), name);
        if tree.first().name@ == name {
        } else {
            match spec_node_index(tree.drop_first(), name) {
                Some(i) => {
                    assert(tree.drop_first()[i] == tree[i + 1]);
                    assert forall|k: int| 0 <= k < i + 1 implies (#[trigger] tree[k].name)@
                        != name by {
                        if k > 0 {
                            assert(tree[k] == tree.drop_first()[k - 1]);
                        }
                    }
                },
                None => {
                    assert forall|k: int| 0 <= k < tree.len() implies (#[trigger] tree[k].name)@
                        != name by {
                        if k > 0 {
                            assert(tree[k] == tree.drop_first()[k - 1]);
                        }
                    }
                },
            }
        }
    }
}

/// An edge's source resolves, and the target stands among its
/// dependencies.
proof fn lemma_edge_gives_index(tree: Seq<DependencyNode>, from: Seq<char>, to: Seq<char>)
    requires
        spec_has_edge(tree, from, to),
    ensures
        spec_node_index(tree, from) is Some,
        0 <= spec_opt_int(spec_node_index(tree, from)) < tree.len(),
        tree[spec_opt_int(spec_node_index(tree, from))].name@ == from,
        spec_contains_str(tree[spec_opt_int(spec_node_index(tree, from))].dependencies@, to),
{
    let j = choose|j: int|
        0 <= j < tree.len() && (#[trigger] tree[j].name)@ == from && (forall|k: int|
            0 <= k < j ==> (#[trigger] tree[k].name)@ != from) && spec_contains_str(
            tree[j].dependencies@,
            to,
        );
    lemma_node_index(tree, from);
    match spec_node_index(tree, from) {
        Some(p) => {
            if p < j {
                assert(tree[p].name@ != from);
                assert(false);
            }
            if j < p {
                assert(tree[j].name@ != from);
                assert(false);
            }
        },
        None => {
            assert(tree[j].name@ != from);
            assert(false);
        },
    }
}

pub open spec fn spec_opt_int(o: Option<int>) -> int {
    match o {
        Some(v) => v,
        None => 0,
    }
}

/// One finished node: every dependency of it that resolves to a node
/// leads to a node that finished earlier.
pub open spec fn spec_fin_entry_ok(tree: Seq<DependencyNode>, fin: Seq<int>, a: int) -> bool {
    forall|d: int|
        0 <= d < tree[fin[a]].dependencies@.len() ==> (match spec_node_index(
            tree,
            (#[trigger] tree[fin[a]].dependencies@[d])@,
        ) {
            Some(j) => exists|b: int| 0 <= b < a && #[trigger] fin[b] == j,
            None => true,
        })
}

/// What the search maintains for the completeness argument: either a
/// cycle is already recorded, or `fin` lists, in finishing order, exactly
/// the nodes that are visited and off the recursion stack — distinct
/// first indices whose resolvable edges all lead to earlier entries.
pub open spec fn spec_search_ok(
    tree: Seq<DependencyNode>,
    visited: Seq<bool>,
    rec: Seq<bool>,
    fin: Seq<int>,
    found: bool,
) -> bool {
    found || {
        &&& forall|a: int|
            0 <= a < fin.len() ==> 0 <= #[trigger] fin[a] < tree.len() && visited[fin[a]]
                && !rec[fin[a]] && spec_node_index(tree, tree[fin[a]].name@) == Some(fin[a])
        &&& forall|a: int, b: int|
            0 <= a < b < fin.len() ==> #[trigger] fin[a] != #[trigger] fin[b]
        &&& forall|a: int| 0 <= a < fin.len() ==> #[trigger] spec_fin_entry_ok(tree, fin, a)
        &&& forall|j: int|
            0 <= j < tree.len() && visited[j] && !rec[j] && spec_node_index(tree, tree[j].name@)
                == Some(j) ==> #[trigger] fin.contains(j)
    }
}

/// The position of a finished node in the finish order.
pub open spec fn spec_fin_pos(fin: Seq<int>, j: int) -> int {
    choose|b: int| 0 <= b < fin.len() && fin[b] == j
}

proof fn lemma_fin_pos(fin: Seq<int>, j: int)
    requires
        fin.contains(j),
        forall|a: int, b: int| 0 <= a < b < fin.len() ==> #[trigger] fin[a] != #[trigger] fin[b],
    ensures
        0 <= spec_fin_pos(fin, j) < fin.len(),
        fin[spec_fin_pos(fin, j)] == j,
        forall|b: int| 0 <= b < fin.len() && fin[b] == j ==> b == spec_fin_pos(fin, j),
{
    assert(exists|b: int| 0 <= b < fin.len() && fin[b] == j);
    let p = spec_fin_pos(fin, j);
    assert(0 <= p < fin.len() && fin[p] == j);
    assert forall|b: int| 0 <= b < fin.len() && fin[b] == j implies b == p by {
        if b < p {
            assert(fin[b] != fin[p]);
        }
        if p < b {
            assert(fin[p] != fin[b]);
        }
    }
}

/// Following a cycle through the finish order strictly decreases the
/// position at every step.
proof fn lemma_cycle_chain(tree: Seq<DependencyNode>, fin: Seq<int>, c: Seq<String>, k: int)
    requires
        spec_is_cycle(tree, c),
        forall|a: int| 0 <= a < fin.len() ==> 0 <= #[trigger] fin[a] < tree.len(),
        forall|a: int, b: int| 0 <= a < b < fin.len() ==> #[trigger] fin[a] != #[trigger] fin[b],
        forall|a: int| 0 <= a < fin.len() ==> #[trigger] spec_fin_entry_ok(tree, fin, a),
        forall|p: int|
            0 <= p < tree.len() && spec_node_index(tree, tree[p].name@) == Some(p)
                ==> #[trigger] fin.contains(p),
        1 <= k <= c.len() - 1,
    ensures
        spec_node_index(tree, c[0]@) is Some,
        spec_node_index(tree, c[k]@) is Some,
        fin.contains(spec_opt_int(spec_node_index(tree, c[0]@))),
        fin.contains(spec_opt_int(spec_node_index(tree, c[k]@))),
        spec_fin_pos(fin, spec_opt_int(spec_node_index(tree, c[k]@))) < spec_fin_pos(
            fin,
            spec_opt_int(spec_node_index(tree, c[0]@)),
        ),
    decreases k,
{
    if k > 1 {
        lemma_cycle_chain(tree, fin, c, k - 1);
    }
    assert(spec_has_edge(tree, c[k - 1]@, c[k]@));
    lemma_edge_gives_index(tree, c[k - 1]@, c[k]@);
    let jprev = spec_opt_int(spec_node_index(tree, c[k - 1]@));
    assert(spec_node_index(tree, tree[jprev].name@) == Some(jprev));
    assert(fin.contains(jprev));
    lemma_fin_pos(fin, jprev);
    let a = spec_fin_pos(fin, jprev);
    assert(fin[a] == jprev);
    assert(spec_node_index(tree, c[k]@) is Some) by {
        if k < c.len() - 1 {
            assert(spec_has_edge(tree, c[k]@, c[k + 1]@));
            lemma_edge_gives_index(tree, c[k]@, c[k + 1]@);
        } else {
            assert(c[k]@ == c[0]@);
        }
    }
    let jk = spec_opt_int(spec_node_index(tree, c[k]@));
    assert(spec_fin_entry_ok(tree, fin, a));
    let dd = choose|dd: int|
        0 <= dd < tree[jprev].dependencies@.len() && (#[trigger] tree[jprev].dependencies@[dd])@
            == c[k]@;
    assert(exists|b: int| 0 <= b < a && #[trigger] fin[b] == jk) by {
        assert(spec_node_index(tree, (tree[fin[a]].dependencies@[dd])@) == Some(jk));
    }
    let b = choose|b: int| 0 <= b < a && #[trigger] fin[b] == jk;
    assert(fin.contains(jk));
    lemma_fin_pos(fin, jk);
    assert(spec_fin_pos(fin, jk) == b);
    if k > 1 {
        assert(spec_fin_pos(fin, jprev) < spec_fin_pos(
            fin,
            spec_opt_int(spec_node_index(tree, c[0]@)),
        ));
    }
}

/// When every first-index node has finished under the invariant above,
/// the graph holds no cycle: walking one would decrease the finish
/// position forever.
proof fn lemma_no_cycle_when_finished(tree: Seq<DependencyNode>, fin: Seq<int>, c: Seq<String>)
    requires
        forall|a: int| 0 <= a < fin.len() ==> 0 <= #[trigger] fin[a] < tree.len(),
        forall|a: int, b: int| 0 <= a < b < fin.len() ==> #[trigger] fin[a] != #[trigger] fin[b],
        forall|a: int| 0 <= a < fin.len() ==> #[trigger] spec_fin_entry_ok(tree, fin, a),
        forall|p: int|
            0 <= p < tree.len() && spec_node_index(tree, tree[p].name@) == Some(p)
                ==> #[trigger] fin.contains(p),
    ensures
        !spec_is_cycle(tree, c),
{
    if spec_is_cycle(tree, c) {
        let m = c.len() - 1;
        lemma_cycle_chain(tree, fin, c, m);
        assert(c[m]@ == c[0]@);
        assert(spec_node_index(tree, c[m]@) == spec_node_index(tree, c[0]@));
        assert(false);
    }
}

/// The index of the first node with the given name, if any.
fn find_first_index(tree: &Vec<DependencyNode>, name: &str) -> (r: Option<usize>)
    ensures
        match r {
            Some(j) => j < tree@.len() && tree@[j as int].name@ == name@ && (forall|k: int|
                0 <= k < j ==> (#[trigger] tree@[k].name)@ != name@) && spec_node_index(
                tree@,
                name@,
            ) == Some(j as int),
            None => (forall|k: int|
                0 <= k < tree@.len() ==> (#[trigger] tree@[k].name)@ != name@) && spec_node_index(
                tree@,
                name@,
            ) is None,
        },
{
    let mut j: usize = 0;
    while j < tree.len()
        invariant
            j <= tree@.len(),
            forall|k: int| 0 <= k < j ==> (#[trigger] tree@[k].name)@ != name@,
        decreases tree@.len() - j,
    {
        if crate::strings::str_eq(tree[j].name.as_str(), name) {
            proof {
                lemma_node_index(tree@, name@);
                match spec_node_index(tree@, name@) {
                    Some(p) => {
                        if p < j {
                            assert(tree@[p].name@ != name@);
                            assert(false);
                        }
                        if p > j {
                            assert(tree@[j as int].name@ != name@);
                            assert(false);
                        }
                    },
                    None => {
                        assert(tree@[j as int].name@ != name@);
                        assert(false);
                    },
                }
            }
            return Some(j);
        }
        j = j + 1;
    }
    proof {
        lemma_node_index(tree@, name@);
        if let Some(p) = spec_node_index(tree@, name@) {
            assert(tree@[p].name@ != name@);
            assert(false);
        }
    }
    None
}

/// The first position of `j` on the recursion path.
fn find_position(path: &Vec<usize>, j: usize) -> (s: usize)
    requires
        spec_mem_index(path@, j as int),
    ensures
        s < path@.len(),
        path@[s as int] == j,
{
    let ghost jpos = choose|k: int| 0 <= k < path@.len() && (#[trigger] path@[k]) as int == j as int;
    let n = path.len();
    let mut s: usize = 0;
    while path[s] != j
        invariant
            0 <= jpos < path@.len(),
            n == path@.len(),
            path@[jpos] as int == j as int,
            s <= jpos,
        decreases path@.len() - s,
    {
        s = s + 1;
        proof {
            if s > jpos {
                assert(path@[jpos] == j);
                assert(false);
            }
        }
    }
    s
}

/// The recorded form of a cycle: the names along the path from `s`, then
/// the dependency name that closed the walk.
fn build_cycle(tree: &Vec<DependencyNode>, path: &Vec<usize>, s: usize, dep: &String) -> (cyc: Vec<
    String,
>)
    requires
        s < path@.len(),
        forall|k: int| 0 <= k < path@.len() ==> (#[trigger] path@[k]) < tree@.len(),
        forall|k: int|
            0 <= k < path@.len() - 1 ==> spec_has_edge(
                tree@,
                tree@[(#[trigger] path@[k]) as int].name@,
                tree@[path@[k + 1] as int].name@,
            ),
        tree@[path@[s as int] as int].name@ == dep@,
        spec_has_edge(tree@, tree@[path@.last() as int].name@, dep@),
    ensures
        spec_is_cycle(tree@, cyc@),
{
    let mut cyc: Vec<String> = Vec::new();
    let mut t = s;
    while t < path.len()
        invariant
            s <= t <= path@.len(),
            s < path@.len(),
            forall|k: int| 0 <= k < path@.len() ==> (#[trigger] path@[k]) < tree@.len(),
            cyc@.len() == t - s,
            forall|k: int|
                0 <= k < cyc@.len() ==> (#[trigger] cyc@[k]) == tree@[path@[s + k] as int].name,
        decreases path@.len() - t,
    {
        cyc.push(tree[path[t]].name.clone());
        t = t + 1;
    }
    cyc.push(dep.clone());
    proof {
        let c = cyc@;
        let plen = path@.len() as int;
        assert(c.len() == plen - s + 1);
        assert(c.first() == tree@[path@[s as int] as int].name);
        assert(c.first()@ == c.last()@);
        assert forall|k: int| 0 <= k < c.len() - 1 implies spec_has_edge(
            tree@,
            (#[trigger] c[k])@,
            c[k + 1]@,
        ) by {
            if k < c.len() - 2 {
                assert(c[k] == tree@[path@[s + k] as int].name);
                assert(c[k + 1] == tree@[path@[s + k + 1] as int].name);
                assert(spec_has_edge(
                    tree@,
                    tree@[path@[s + k] as int].name@,
                    tree@[path@[s + k + 1] as int].name@,
                ));
            } else {
                assert(c[k] == tree@[path@[plen - 1] as int].name);
                assert(path@[plen - 1] == path@.last());
            }
        }
    }
    cyc
}

/// One depth-first visit of the three-state search. `visited` marks
/// nodes ever entered, `rec` marks those on the current recursion stack
/// (always exactly the members of `path`), every walk recorded into
/// `cycles` is a real cycle of the graph, and `fin` carries the finish
/// order that witnesses nothing was missed whenever no cycle has been
/// recorded.
#[verifier::rlimit(100)]
fn dfs(
    tree: &Vec<DependencyNode>,
    i: usize,
    visited: &mut Vec<bool>,
    rec: &mut Vec<bool>,
    path: &mut Vec<usize>,
    cycles: &mut Vec<Vec<String>>,
    fuel: usize,
    Ghost(fin): Ghost<Seq<int>>,
) -> (fin_out: Ghost<Seq<int>>)
    requires
        tree@.len() - crate::seqs::spec_count_true(old(visited)@) <= fuel as int,
        tree@.len() == old(visited)@.len(),
        tree@.len() == old(rec)@.len(),
        i < tree@.len(),
        !old(visited)@[i as int],
        forall|k: int| 0 <= k < i ==> (#[trigger] tree@[k].name)@ != tree@[i as int].name@,
        forall|t: int|
            0 <= t < tree@.len() ==> ((#[trigger] old(rec)@[t]) <==> spec_mem_index(
                old(path)@,
                t,
            )),
        forall|k: int|
            0 <= k < old(path)@.len() ==> (#[trigger] old(path)@[k]) < tree@.len() && old(
                visited,
            )@[old(path)@[k] as int],
        forall|k: int|
            0 <= k < old(path)@.len() - 1 ==> spec_has_edge(
                tree@,
                tree@[(#[trigger] old(path)@[k]) as int].name@,
                tree@[old(path)@[k + 1] as int].name@,
            ),
        old(path)@.len() > 0 ==> spec_has_edge(
            tree@,
            tree@[old(path)@.last() as int].name@,
            tree@[i as int].name@,
        ),
        forall|k: int|
            0 <= k < old(cycles)@.len() ==> spec_is_cycle(tree@, (#[trigger] old(cycles)@[k])@),
        spec_search_ok(tree@, old(visited)@, old(rec)@, fin, old(cycles)@.len() > 0),
    ensures
        final(visited)@.len() == old(visited)@.len(),
        final(rec)@ == old(rec)@,
        final(path)@ == old(path)@,
        forall|t: int|
            0 <= t < tree@.len() && old(visited)@[t] ==> #[trigger] final(visited)@[t],
        final(visited)@[i as int],
        forall|k: int|
            0 <= k < final(cycles)@.len() ==> spec_is_cycle(tree@, (#[trigger] final(cycles)@[k])@),
        final(cycles)@.len() >= old(cycles)@.len(),
        forall|k: int| 0 <= k < old(cycles)@.len() ==> final(cycles)@[k] == old(cycles)@[k],
        spec_search_ok(tree@, final(visited)@, final(rec)@, fin_out@, final(cycles)@.len() > 0),
        forall|x: int| fin.contains(x) ==> #[trigger] fin_out@.contains(x),
        fin_out@.contains(i as int),
    decreases fuel,
{
    let ghost n = tree@.len() as int;
    let ghost entry_visited = old(visited)@;
    visited.set(i, true);
    rec.set(i, true);
    path.push(i);
    let ghost mut cur_fin = fin;
    proof {
        crate::seqs::lemma_count_true_update(entry_visited, i as int);
        assert forall|t: int| 0 <= t < n implies ((#[trigger] rec@[t]) <==> spec_mem_index(
            path@,
            t,
        )) by {
            if t == i {
                assert(path@[path@.len() - 1] as int == t);
            } else {
                if spec_mem_index(path@, t) {
                    let k = choose|k: int|
                        0 <= k < path@.len() && (#[trigger] path@[k]) as int == t;
                    assert(old(path)@[k] as int == t);
                }
                if spec_mem_index(old(path)@, t) {
                    let k = choose|k: int|
                        0 <= k < old(path)@.len() && (#[trigger] old(path)@[k]) as int == t;
                    assert(path@[k] as int == t);
                }
            }
        }
        if old(cycles)@.len() == 0 {
            assert forall|a: int| 0 <= a < cur_fin.len() implies 0 <= #[trigger] cur_fin[a]
                < tree@.len() && visited@[cur_fin[a]] && !rec@[cur_fin[a]] && spec_node_index(
                tree@,
                tree@[cur_fin[a]].name@,
            ) == Some(cur_fin[a]) by {
                assert(entry_visited[cur_fin[a]]);
                assert(cur_fin[a] != i as int);
            }
            assert forall|j: int|
                0 <= j < tree@.len() && visited@[j] && !rec@[j] && spec_node_index(
                    tree@,
                    tree@[j].name@,
                ) == Some(j) implies #[trigger] cur_fin.contains(j) by {
                assert(j != i as int);
                assert(entry_visited[j]);
                assert(!old(rec)@[j]);
            }
            assert(spec_search_ok(tree@, visited@, rec@, cur_fin, false));
        }
    }
    let num_deps = tree[i].dependencies.len();
    let mut d: usize = 0;
    while d < num_deps
        invariant
            num_deps == tree@[i as int].dependencies@.len(),
            i < tree@.len(),
            tree@.len() - crate::seqs::spec_count_true(entry_visited) <= fuel as int,
            tree@.len() == visited@.len(),
            tree@.len() == rec@.len(),
            forall|k: int| 0 <= k < i ==> (#[trigger] tree@[k].name)@ != tree@[i as int].name@,
            forall|t: int|
                0 <= t < tree@.len() && entry_visited[t] ==> #[trigger] visited@[t],
            visited@[i as int],
            entry_visited.len() == tree@.len(),
            !entry_visited[i as int],
            rec@ == old(rec)@.update(i as int, true),
            path@ == old(path)@.push(i),
            forall|t: int|
                0 <= t < tree@.len() ==> ((#[trigger] rec@[t]) <==> spec_mem_index(path@, t)),
            forall|k: int|
                0 <= k < path@.len() ==> (#[trigger] path@[k]) < tree@.len()
                    && visited@[path@[k] as int],
            forall|k: int|
                0 <= k < path@.len() - 1 ==> spec_has_edge(
                    tree@,
                    tree@[(#[trigger] path@[k]) as int].name@,
                    tree@[path@[k + 1] as int].name@,
                ),
            forall|k: int|
                0 <= k < cycles@.len() ==> spec_is_cycle(tree@, (#[trigger] cycles@[k])@),
            cycles@.len() >= old(cycles)@.len(),
            forall|k: int| 0 <= k < old(cycles)@.len() ==> #[trigger] cycles@[k] == old(
                cycles,
            )@[k],
            spec_search_ok(tree@, visited@, rec@, cur_fin, cycles@.len() > 0),
            forall|x: int| fin.contains(x) ==> #[trigger] cur_fin.contains(x),
            cycles@.len() == 0 ==> (forall|d2: int|
                0 <= d2 < d ==> (match spec_node_index(
                    tree@,
                    (#[trigger] tree@[i as int].dependencies@[d2])@,
                ) {
                    Some(jj) => cur_fin.contains(jj),
                    None => true,
                })),
        decreases num_deps - d,
    {
        let dep = &tree[i].dependencies[d];
        let found = find_first_index(tree, dep.as_str());
        match found {
            Some(j) => {
                if !visited[j] {
                    proof {
                        assert(spec_has_edge(
                            tree@,
                            tree@[path@.last() as int].name@,
                            tree@[j as int].name@,
                        )) by {
                            assert(tree@[i as int].name@ == tree@[i as int].name@
                                && spec_contains_str(
                                tree@[i as int].dependencies@,
                                tree@[j as int].name@,
                            )) by {
                                assert(tree@[i as int].dependencies@[d as int]@ == tree@[j
                                    as int].name@);
                            }
                        }
                        crate::seqs::lemma_count_true_update(entry_visited, i as int);
                        crate::seqs::lemma_count_true_mono(
                            entry_visited.update(i as int, true),
                            visited@,
                        );
                        crate::seqs::lemma_count_true_bounds(visited@);
                    }
                    let ghost pre_visited = visited@;
                    let ghost pre_fin = cur_fin;
                    let ghost pre_cycles = cycles@;
                    proof {
                        assert(crate::seqs::spec_count_true(visited@) >= crate::seqs::spec_count_true(
                            entry_visited,
                        ) + 1);
                    }
                    let fin_next = dfs(tree, j, visited, rec, path, cycles, fuel - 1, Ghost(cur_fin));
                    proof {
                        cur_fin = fin_next@;
                        crate::seqs::lemma_count_true_mono(pre_visited, visited@);
                        assert forall|x: int| fin.contains(x) implies #[trigger] cur_fin.contains(
                            x,
                        ) by {
                            assert(pre_fin.contains(x));
                        }
                        if cycles@.len() == 0 {
                            assert(pre_cycles.len() == 0);
                            assert forall|d2: int| 0 <= d2 < d + 1 implies (match spec_node_index(
                                tree@,
                                (#[trigger] tree@[i as int].dependencies@[d2])@,
                            ) {
                                Some(jj) => cur_fin.contains(jj),
                                None => true,
                            }) by {
                                if d2 < d {
                                    match spec_node_index(
                                        tree@,
                                        (tree@[i as int].dependencies@[d2])@,
                                    ) {
                                        Some(jj) => {
                                            assert(pre_fin.contains(jj));
                                        },
                                        None => {},
                                    }
                                } else {
                                    assert(tree@[i as int].dependencies@[d as int]@ == dep@);
                                    assert(spec_node_index(tree@, dep@) == Some(j as int));
                                    assert(cur_fin.contains(j as int));
                                }
                            }
                        }
                    }
                } else {
                    let on_stack = rec[j];
                    if on_stack {
                        let s = find_position(path, j);
                        proof {
                            assert(tree@[path@[s as int] as int].name@ == dep@);
                            assert(path@.last() == i);
                            assert(spec_has_edge(tree@, tree@[i as int].name@, dep@)) by {
                                assert(tree@[i as int].dependencies@[d as int]@ == dep@);
                            }
                        }
                        let cyc = build_cycle(tree, path, s, dep);
                        cycles.push(cyc);
                    } else {
                        proof {
                            if cycles@.len() == 0 {
                                assert(cur_fin.contains(j as int)) by {
                                    assert(visited@[j as int] && !rec@[j as int]);
                                    assert(spec_node_index(tree@, tree@[j as int].name@) == Some(
                                        j as int,
                                    )) by {
                                        assert(tree@[j as int].name@ == dep@);
                                        assert(spec_node_index(tree@, dep@) == Some(j as int));
                                    }
                                }
                                assert forall|d2: int| 0 <= d2 < d + 1 implies (match spec_node_index(
                                    tree@,
                                    (#[trigger] tree@[i as int].dependencies@[d2])@,
                                ) {
                                    Some(jj) => cur_fin.contains(jj),
                                    None => true,
                                }) by {
                                    if d2 == d {
                                        assert(tree@[i as int].dependencies@[d as int]@ == dep@);
                                    }
                                }
                            }
                        }
                    }
                }
            },
            None => {
                proof {
                    if cycles@.len() == 0 {
                        assert forall|d2: int| 0 <= d2 < d + 1 implies (match spec_node_index(
                            tree@,
                            (#[trigger] tree@[i as int].dependencies@[d2])@,
                        ) {
                            Some(jj) => cur_fin.contains(jj),
                            None => true,
                        }) by {
                            if d2 == d {
                                assert(tree@[i as int].dependencies@[d as int]@ == dep@);
                                assert(spec_node_index(tree@, dep@) is None);
                            }
                        }
                    }
                }
            },
        }
        d = d + 1;
    }
    rec.set(i, false);
    path.pop();
    let ghost fin_final = cur_fin.push(i as int);
    proof {
        assert(rec@ =~= old(rec)@) by {
            assert(!old(rec)@[i as int]) by {
                if spec_mem_index(old(path)@, i as int) {
                    let k = choose|k: int|
                        0 <= k < old(path)@.len() && (#[trigger] old(path)@[k]) as int == i as int;
                    assert(old(visited)@[old(path)@[k] as int]);
                    assert(false);
                }
            }
        }
        assert(path@ =~= old(path)@);
        assert(fin_final[fin_final.len() - 1] == i as int);
        assert(fin_final.contains(i as int));
        assert forall|x: int| fin.contains(x) implies #[trigger] fin_final.contains(x) by {
            assert(cur_fin.contains(x));
            let w = choose|w: int| 0 <= w < cur_fin.len() && cur_fin[w] == x;
            assert(fin_final[w] == x);
        }
        if cycles@.len() == 0 {
            let ghost loop_rec = old(rec)@.update(i as int, true);
            assert(spec_node_index(tree@, tree@[i as int].name@) == Some(i as int)) by {
                lemma_node_index(tree@, tree@[i as int].name@);
                match spec_node_index(tree@, tree@[i as int].name@) {
                    Some(p) => {
                        if p < i {
                            assert(tree@[p].name@ != tree@[i as int].name@);
                            assert(false);
                        }
                        if p > i {
                            assert(tree@[i as int].name@ != tree@[i as int].name@);
                            assert(false);
                        }
                    },
                    None => {
                        assert(tree@[i as int].name@ != tree@[i as int].name@);
                        assert(false);
                    },
                }
            }
            assert forall|a: int| 0 <= a < cur_fin.len() implies #[trigger] cur_fin[a]
                != i as int by {
                assert(!loop_rec[cur_fin[a]]);
                assert(loop_rec[i as int]);
            }
            assert forall|a: int| 0 <= a < fin_final.len() implies 0 <= #[trigger] fin_final[a]
                < tree@.len() && visited@[fin_final[a]] && !rec@[fin_final[a]]
                && spec_node_index(tree@, tree@[fin_final[a]].name@) == Some(fin_final[a]) by {
                if a < cur_fin.len() {
                    assert(fin_final[a] == cur_fin[a]);
                    assert(!loop_rec[cur_fin[a]]);
                    assert(cur_fin[a] != i as int);
                } else {
                    assert(fin_final[a] == i as int);
                }
            }
            assert forall|a: int, b: int| 0 <= a < b < fin_final.len() implies #[trigger] fin_final[a]
                != #[trigger] fin_final[b] by {
                if b < cur_fin.len() {
                    assert(fin_final[a] == cur_fin[a] && fin_final[b] == cur_fin[b]);
                } else {
                    assert(fin_final[b] == i as int);
                    assert(fin_final[a] == cur_fin[a]);
                }
            }
            assert forall|a: int| 0 <= a < fin_final.len() implies #[trigger] spec_fin_entry_ok(
                tree@,
                fin_final,
                a,
            ) by {
                if a < cur_fin.len() {
                    assert(spec_fin_entry_ok(tree@, cur_fin, a));
                    assert(fin_final[a] == cur_fin[a]);
                    assert forall|dd: int|
                        0 <= dd < tree@[fin_final[a]].dependencies@.len() implies (
                    match spec_node_index(
                        tree@,
                        (#[trigger] tree@[fin_final[a]].dependencies@[dd])@,
                    ) {
                        Some(jj) => exists|b: int| 0 <= b < a && #[trigger] fin_final[b] == jj,
                        None => true,
                    }) by {
                        match spec_node_index(
                            tree@,
                            (tree@[fin_final[a]].dependencies@[dd])@,
                        ) {
                            Some(jj) => {
                                assert(exists|b: int|
                                    0 <= b < a && #[trigger] cur_fin[b] == jj);
                                let b = choose|b: int|
                                    0 <= b < a && #[trigger] cur_fin[b] == jj;
                                assert(fin_final[b] == jj);
                            },
                            None => {},
                        }
                    }
                } else {
                    assert(fin_final[a] == i as int);
                    assert forall|dd: int|
                        0 <= dd < tree@[fin_final[a]].dependencies@.len() implies (
                    match spec_node_index(
                        tree@,
                        (#[trigger] tree@[fin_final[a]].dependencies@[dd])@,
                    ) {
                        Some(jj) => exists|b: int| 0 <= b < a && #[trigger] fin_final[b] == jj,
                        None => true,
                    }) by {
                        match spec_node_index(
                            tree@,
                            (tree@[fin_final[a]].dependencies@[dd])@,
                        ) {
                            Some(jj) => {
                                assert(cur_fin.contains(jj));
                                let b = choose|b: int|
                                    0 <= b < cur_fin.len() && cur_fin[b] == jj;
                                assert(fin_final[b] == jj);
                            },
                            None => {},
                        }
                    }
                }
            }
            assert forall|j: int|
                0 <= j < tree@.len() && visited@[j] && !rec@[j] && spec_node_index(
                    tree@,
                    tree@[j].name@,
                ) == Some(j) implies #[trigger] fin_final.contains(j) by {
                if j == i as int {
                } else {
                    assert(!loop_rec[j]);
                    assert(cur_fin.contains(j));
                    let w = choose|w: int| 0 <= w < cur_fin.len() && cur_fin[w] == j;
                    assert(fin_final[w] == j);
                }
            }
            assert(spec_search_ok(tree@, visited@, rec@, fin_final, false));
        }
    }
    Ghost(fin_final)
}

/// Depth-first search over every node: each recorded walk is a cycle of
/// the graph, and a cycle is recorded whenever the graph has one. The
/// same cycle may be reported more than once when it is reachable
/// through several entry points.
pub fn detect_cycles(tree: &Vec<DependencyNode>) -> (cycles: Vec<Vec<String>>)
    ensures
        forall|k: int|
            0 <= k < cycles@.len() ==> spec_is_cycle(tree@, (#[trigger] cycles@[k])@),
        (exists|c: Seq<String>| spec_is_cycle(tree@, c)) ==> cycles@.len() > 0,
{
    let n = tree.len();
    let mut visited: Vec<bool> = vec![false; n];
    let mut rec: Vec<bool> = vec![false; n];
    let mut path: Vec<usize> = Vec::new();
    let mut cycles: Vec<Vec<String>> = Vec::new();
    let ghost mut fin: Seq<int> = Seq::empty();
    proof {
        assert(spec_search_ok(tree@, visited@, rec@, fin, false)) by {
            assert forall|j: int|
                0 <= j < tree@.len() && visited@[j] && !rec@[j] && spec_node_index(
                    tree@,
                    tree@[j].name@,
                ) == Some(j) implies #[trigger] fin.contains(j) by {
                assert(!visited@[j]);
            }
        }
    }
    let mut k: usize = 0;
    while k < n
        invariant
            k <= n,
            n == tree@.len(),
            visited@.len() == n,
            rec@.len() == n,
            path@.len() == 0,
            forall|t: int| 0 <= t < n ==> !(#[trigger] rec@[t]),
            forall|c: int|
                0 <= c < cycles@.len() ==> spec_is_cycle(tree@, (#[trigger] cycles@[c])@),
            spec_search_ok(tree@, visited@, rec@, fin, cycles@.len() > 0),
            forall|t: int|
                0 <= t < k ==> (match spec_node_index(tree@, (#[trigger] tree@[t].name)@) {
                    Some(p) => visited@[p],
                    None => false,
                }),
        decreases n - k,
    {
        let first = find_first_index(tree, tree[k].name.as_str());
        match first {
            Some(j) => {
                let ghost pre_visited = visited@;
                if !visited[j] {
                    proof {
                        assert forall|t: int| 0 <= t < n implies ((#[trigger] rec@[t])
                            <==> spec_mem_index(path@, t)) by {
                            if spec_mem_index(path@, t) {
                                let w = choose|w: int|
                                    0 <= w < path@.len() && (#[trigger] path@[w]) as int == t;
                                assert(false);
                            }
                        }
                    }
                    proof {
                        crate::seqs::lemma_count_true_bounds(visited@);
                    }
                    let fin_next = dfs(
                        tree,
                        j,
                        &mut visited,
                        &mut rec,
                        &mut path,
                        &mut cycles,
                        n,
                        Ghost(fin),
                    );
                    proof {
                        fin = fin_next@;
                    }
                }
                proof {
                    assert(visited@[j as int]);
                    assert forall|t: int| 0 <= t < k + 1 implies (match spec_node_index(
                        tree@,
                        (#[trigger] tree@[t].name)@,
                    ) {
                        Some(p) => visited@[p],
                        None => false,
                    }) by {
                        if t < k {
                            lemma_node_index(tree@, tree@[t].name@);
                            match spec_node_index(tree@, tree@[t].name@) {
                                Some(p) => {
                                    assert(0 <= p < tree@.len());
                                    assert(pre_visited[p]);
                                    assert(visited@[p]);
                                },
                                None => {},
                            }
                        } else {
                            assert(spec_node_index(tree@, tree@[k as int].name@) == Some(
                                j as int,
                            ));
                        }
                    }
                }
            },
            None => {
                proof {
                    assert(tree@[k as int].name@ == tree@[k as int].name@);
                    assert(false);
                }
            },
        }
        k = k + 1;
    }
    proof {
        if cycles@.len() == 0 {
            assert forall|p: int|
                0 <= p < tree@.len() && spec_node_index(tree@, tree@[p].name@) == Some(p)
                implies #[trigger] fin.contains(p) by {
                assert(visited@[p]) by {
                    assert(match spec_node_index(tree@, tree@[p].name@) {
                        Some(q) => visited@[q],
                        None => false,
                    });
                }
                assert(!rec@[p]);
            }
            assert forall|c: Seq<String>| !#[trigger] spec_is_cycle(tree@, c) by {
                lemma_no_cycle_when_finished(tree@, fin, c);
            }
            if exists|c: Seq<String>| spec_is_cycle(tree@, c) {
                let c = choose|c: Seq<String>| spec_is_cycle(tree@, c);
                assert(!spec_is_cycle(tree@, c));
                assert(false);
            }
        }
    }
    cycles
}

/// The package-level reading of a graph edge, so that callers can state
/// cycles without building the graph themselves.
pub open spec fn spec_pkg_edge(all: Seq<PackageInfo>, from: Seq<char>, to: Seq<char>) -> bool {
    exists|j: int|
        0 <= j < all.len() && (#[trigger] all[j].name)@ == from && (forall|k: int|
            0 <= k < j ==> (#[trigger] all[k].name)@ != from) && spec_contains_str(
            spec_dep_names(all[j].require),
            to,
        )
}

pub open spec fn spec_is_pkg_cycle(all: Seq<PackageInfo>, c: Seq<String>) -> bool {
    &&& c.len() >= 2
    &&& c.first()@ == c.last()@
    &&& forall|k: int|
        0 <= k < c.len() - 1 ==> spec_pkg_edge(all, (#[trigger] c[k])@, c[k + 1]@)
}

proof fn lemma_edges_correspond(lock: ComposerLock, tree: Seq<DependencyNode>)
    requires
        spec_tree_of(lock, tree),
    ensures
        forall|f: Seq<char>, t: Seq<char>|
            #[trigger] spec_has_edge(tree, f, t) <==> #[trigger] spec_pkg_edge(
                spec_all_packages(lock),
                f,
                t,
            ),
{
    let all = spec_all_packages(lock);
    assert forall|f: Seq<char>, t: Seq<char>|
        #[trigger] spec_has_edge(tree, f, t) <==> #[trigger] spec_pkg_edge(all, f, t) by {
        if spec_has_edge(tree, f, t) {
            let j = choose|j: int|
                0 <= j < tree.len() && (#[trigger] tree[j].name)@ == f && (forall|k: int|
                    0 <= k < j ==> (#[trigger] tree[k].name)@ != f) && spec_contains_str(
                    tree[j].dependencies@,
                    t,
                );
            assert(all[j].name@ == f && (forall|k: int|
                0 <= k < j ==> (#[trigger] all[k].name)@ != f) && spec_contains_str(
                spec_dep_names(all[j].require),
                t,
            )) by {
                assert(tree[j].name == all[j].name);
                assert(tree[j].dependencies@ == spec_dep_names(all[j].require));
                assert forall|k: int| 0 <= k < j implies (#[trigger] all[k].name)@ != f by {
                    assert(tree[k].name == all[k].name);
                }
            }
        }
        if spec_pkg_edge(all, f, t) {
            let j = choose|j: int|
                0 <= j < all.len() && (#[trigger] all[j].name)@ == f && (forall|k: int|
                    0 <= k < j ==> (#[trigger] all[k].name)@ != f) && spec_contains_str(
                    spec_dep_names(all[j].require),
                    t,
                );
            assert(tree[j].name@ == f && (forall|k: int|
                0 <= k < j ==> (#[trigger] tree[k].name)@ != f) && spec_contains_str(
                tree[j].dependencies@,
                t,
            )) by {
                assert(tree[j].name == all[j].name);
                assert(tree[j].dependencies@ == spec_dep_names(all[j].require));
                assert forall|k: int| 0 <= k < j implies (#[trigger] tree[k].name)@ != f by {
                    assert(tree[k].name == all[k].name);
                }
            }
        }
    }
}

/// Builds the graph of a lock file and reports its dependency cycles:
/// every reported walk is a real cycle over the packages' requirement
/// relation, a cycle is reported whenever the relation has one, and the
/// count is the number of reports.
pub fn find_circular_dependencies(lock: &ComposerLock) -> (r: CircularDependenciesResult)
    ensures
        r.count == r.cycles@.len(),
        forall|k: int|
            0 <= k < r.cycles@.len() ==> spec_is_pkg_cycle(
                spec_all_packages(*lock),
                (#[trigger] r.cycles@[k])@,
            ),
        (exists|c: Seq<String>| spec_is_pkg_cycle(spec_all_packages(*lock), c)) ==> r.count > 0,
{
    let tree = build_dependency_tree(lock);
    let cycles = detect_cycles(&tree);
    proof {
        lemma_edges_correspond(*lock, tree@);
        assert forall|k: int| 0 <= k < cycles@.len() implies spec_is_pkg_cycle(
            spec_all_packages(*lock),
            (#[trigger] cycles@[k])@,
        ) by {
            assert(spec_is_cycle(tree@, cycles@[k]@));
        }
        if exists|c: Seq<String>| spec_is_pkg_cycle(spec_all_packages(*lock), c) {
            let c = choose|c: Seq<String>| spec_is_pkg_cycle(spec_all_packages(*lock), c);
            assert(spec_is_cycle(tree@, c)) by {
                assert forall|k: int| 0 <= k < c.len() - 1 implies spec_has_edge(
                    tree@,
                    (#[trigger] c[k])@,
                    c[k + 1]@,
                ) by {
                    assert(spec_pkg_edge(spec_all_packages(*lock), c[k]@, c[k + 1]@));
                }
            }
            assert(cycles@.len() > 0);
        }
    }
    let count = cycles.len();
    CircularDependenciesResult { cycles, count }
}

proof fn lemma_contains_str_push(s: Seq<String>, x: String, t: Seq<char>)
    ensures
        spec_contains_str(s.push(x), t) <==> (x@ == t || spec_contains_str(s, t)),
{
    if spec_contains_str(s.push(x), t) {
        let k = choose|k: int| 0 <= k < s.push(x).len() && #[trigger] s.push(x)[k]@ == t;
        if k < s.len() {
            assert(s[k]@ == t);
        } else {
            assert(s.push(x)[k] == x);
        }
    }
    if x@ == t {
        assert(s.push(x)[s.len() as int]@ == t);
    }
    if spec_contains_str(s, t) {
        let k = choose|k: int| 0 <= k < s.len() && #[trigger] s[k]@ == t;
        assert(s.push(x)[k]@ == t);
    }
}

/// Membership in a reverse-index entry: a name stands in `usedBy(target)`
/// exactly when some package of that name depends on `target`.
proof fn lemma_used_by_membership(all: Seq<PackageInfo>, target: Seq<char>, u: Seq<char>)
    ensures
        spec_contains_str(spec_used_by(all, target), u) <==> exists|j: int|
            0 <= j < all.len() && #[trigger] all[j].name@ == u && spec_depends_on(all[j], target),
    decreases all.len(),
{
    if all.len() == 0 {
        assert(!spec_contains_str(spec_used_by(all, target), u));
    } else {
        let pre = all.drop_last();
        lemma_used_by_membership(pre, target, u);
        if spec_depends_on(all.last(), target) {
            lemma_contains_str_push(spec_used_by(pre, target), all.last().name, u);
        }
        assert forall|j: int|
            0 <= j < pre.len() implies all[j] == pre[j] by {}
        if spec_contains_str(spec_used_by(all, target), u) {
            if spec_depends_on(all.last(), target) && all.last().name@ == u {
                assert(all[all.len() - 1].name@ == u && spec_depends_on(
                    all[all.len() - 1],
                    target,
                ));
            } else {
                let j = choose|j: int|
                    0 <= j < pre.len() && #[trigger] pre[j].name@ == u && spec_depends_on(
                        pre[j],
                        target,
                    );
                assert(all[j].name@ == u && spec_depends_on(all[j], target));
            }
        }
        if exists|j: int|
            0 <= j < all.len() && #[trigger] all[j].name@ == u && spec_depends_on(all[j], target) {
            let j = choose|j: int|
                0 <= j < all.len() && #[trigger] all[j].name@ == u && spec_depends_on(
                    all[j],
                    target,
                );
            if j == all.len() - 1 {
                assert(spec_depends_on(all.last(), target) && all.last().name@ == u);
            } else {
                assert(pre[j].name@ == u && spec_depends_on(pre[j], target));
            }
        }
    }
}

/// The reverse-index law: for any graph built over packages with pairwise
/// distinct names, node B stands in A's "used by" list exactly when A
/// stands in B's dependency list.
pub proof fn lemma_used_by_reverse_index(lock: ComposerLock, tree: Seq<DependencyNode>)
    requires
        spec_tree_of(lock, tree),
        forall|i: int, j: int|
            0 <= i < j < tree.len() ==> #[trigger] tree[i].name@ != #[trigger] tree[j].name@,
    ensures
        forall|i: int, j: int|
            0 <= i < tree.len() && 0 <= j < tree.len() ==> (spec_contains_str(
                #[trigger] tree[i].used_by@,
                tree[j].name@,
            ) <==> spec_contains_str(#[trigger] tree[j].dependencies@, tree[i].name@)),
{
    let all = spec_all_packages(lock);
    assert forall|i: int, j: int|
        0 <= i < tree.len() && 0 <= j < tree.len() implies (spec_contains_str(
        #[trigger] tree[i].used_by@,
        tree[j].name@,
    ) <==> spec_contains_str(#[trigger] tree[j].dependencies@, tree[i].name@)) by {
        lemma_used_by_membership(all, all[i].name@, all[j].name@);
        assert(tree[i].used_by@ == spec_used_by(all, all[i].name@));
        assert(tree[j].dependencies@ == spec_dep_names(all[j].require));
        if spec_contains_str(tree[i].used_by@, tree[j].name@) {
            let w = choose|w: int|
                0 <= w < all.len() && #[trigger] all[w].name@ == all[j].name@ && spec_depends_on(
                    all[w],
                    all[i].name@,
                );
            assert(tree[w].name == all[w].name);
            assert(tree[j].name == all[j].name);
            if w < j {
                assert(tree[w].name@ != tree[j].name@);
                assert(false);
            } else if j < w {
                assert(tree[j].name@ != tree[w].name@);
                assert(false);
            }
            assert(w == j);
        }
        if spec_contains_str(tree[j].dependencies@, tree[i].name@) {
            assert(all[j].name@ == all[j].name@ && spec_depends_on(all[j], all[i].name@));
        }
    }
}

} // verus!
