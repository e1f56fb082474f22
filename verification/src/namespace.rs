//! Namespace inventory over a set of source files: grouping files,
//! classes, interfaces and traits under the namespace each file declares,
//! and tracing where one namespace is defined and imported.

use vstd::prelude::*;

use crate::scan::analyze_file;
use crate::scan::spec_file_namespace;
use crate::scan::spec_kw_captures;
use crate::scan::spec_lines;
use crate::scan::spec_use_captures;
use crate::seqs::clone_strings;
use crate::strings::spec_starts_with;
use crate::strings::spec_views;
use crate::strings::str_eq;
use crate::strings::str_starts_with;
use crate::types::NamespaceInfo;
use vstd::string::StrSliceExecFns;

verus! {

/// One source file handed in by the caller: its path relative to the
/// project root, and its text.
pub struct SourceFile {
    pub path: String,
    pub contents: String,
}

pub struct NamespaceDetectionResult {
    pub namespaces: Vec<NamespaceInfo>,
    pub total_files: usize,
    pub files_without_namespace: Vec<String>,
}

pub struct ImportInfo {
    pub file: String,
    pub imports: Vec<String>,
}

pub struct NamespaceUsageResult {
    pub defined_in: Vec<String>,
    pub imported_by: Vec<ImportInfo>,
    pub total_usages: usize,
}

/// The namespace one file declares (its last declaration), or empty.
pub open spec fn spec_source_namespace(f: SourceFile) -> Seq<char> {
    spec_file_namespace(spec_lines(f.contents@))
}

/// The distinct nonempty namespaces, in order of first appearance.
pub open spec fn spec_ns_keys(files: Seq<SourceFile>) -> Seq<Seq<char>>
    decreases files.len(),
{
    if files.len() == 0 {
        Seq::empty()
    } else {
        let pre = spec_ns_keys(files.drop_last());
        let ns = spec_source_namespace(files.last());
        if ns.len() > 0 && !pre.contains(ns) {
            pre.push(ns)
        } else {
            pre
        }
    }
}

/// The paths of the files declaring `ns`, in scan order.
pub open spec fn spec_ns_files(files: Seq<SourceFile>, ns: Seq<char>) -> Seq<String>
    decreases files.len(),
{
    if files.len() == 0 {
        Seq::empty()
    } else {
        let pre = spec_ns_files(files.drop_last(), ns);
        if spec_source_namespace(files.last()) == ns {
            pre.push(files.last().path)
        } else {
            pre
        }
    }
}

/// The keyword captures collected under `ns`, file by file.
pub open spec fn spec_ns_kw(files: Seq<SourceFile>, ns: Seq<char>, kw: Seq<char>) -> Seq<Seq<char>>
    decreases files.len(),
{
    if files.len() == 0 {
        Seq::empty()
    } else {
        let pre = spec_ns_kw(files.drop_last(), ns, kw);
        if spec_source_namespace(files.last()) == ns {
            pre + spec_kw_captures(spec_lines(files.last().contents@), kw)
        } else {
            pre
        }
    }
}

/// The paths of the files declaring no namespace, in scan order.
pub open spec fn spec_files_without(files: Seq<SourceFile>) -> Seq<String>
    decreases files.len(),
{
    if files.len() == 0 {
        Seq::empty()
    } else {
        let pre = spec_files_without(files.drop_last());
        if spec_source_namespace(files.last()).len() == 0 {
            pre.push(files.last().path)
        } else {
            pre
        }
    }
}

/// A namespace never seen among the keys groups no files.
proof fn lemma_ns_unknown_key(files: Seq<SourceFile>, ns: Seq<char>, kw: Seq<char>)
    requires
        ns.len() > 0,
        !spec_ns_keys(files).contains(ns),
    ensures
        spec_ns_files(files, ns).len() == 0,
        spec_ns_kw(files, ns, kw).len() == 0,
    decreases files.len(),
{
    if files.len() > 0 {
        let pre_keys = spec_ns_keys(files.drop_last());
        assert forall|k: int| 0 <= k < pre_keys.len() implies spec_ns_keys(files)[k]
            == pre_keys[k] by {}
        assert(!pre_keys.contains(ns)) by {
            if pre_keys.contains(ns) {
                let w = choose|w: int| 0 <= w < pre_keys.len() && pre_keys[w] == ns;
                assert(spec_ns_keys(files)[w] == ns);
                assert(spec_ns_keys(files).contains(ns));
            }
        }
        lemma_ns_unknown_key(files.drop_last(), ns, kw);
        assert(spec_source_namespace(files.last()) != ns) by {
            if spec_source_namespace(files.last()) == ns {
                if !pre_keys.contains(ns) {
                    assert(spec_ns_keys(files).last() == ns);
                    assert(spec_ns_keys(files).contains(ns));
                }
            }
        }
    }
}

/// The keys of the namespace grouping are pairwise distinct.
proof fn lemma_ns_keys_distinct(files: Seq<SourceFile>)
    ensures
        forall|a: int, b: int|
            0 <= a < b < spec_ns_keys(files).len() ==> #[trigger] spec_ns_keys(files)[a]
                != #[trigger] spec_ns_keys(files)[b],
    decreases files.len(),
{
    if files.len() > 0 {
        lemma_ns_keys_distinct(files.drop_last());
        let pre = spec_ns_keys(files.drop_last());
        let keys = spec_ns_keys(files);
        let ns = spec_source_namespace(files.last());
        assert forall|a: int, b: int| 0 <= a < b < keys.len() implies #[trigger] keys[a]
            != #[trigger] keys[b] by {
            if ns.len() > 0 && !pre.contains(ns) {
                if b < pre.len() {
                    assert(keys[a] == pre[a] && keys[b] == pre[b]);
                } else {
                    assert(keys[b] == ns);
                    assert(keys[a] == pre[a]);
                    if keys[a] == keys[b] {
                        assert(pre.contains(ns));
                        assert(false);
                    }
                }
            } else {
                assert(keys[a] == pre[a] && keys[b] == pre[b]);
            }
        }
    }
}

/// The index of the group for `ns`, if one exists.
fn find_ns_group(groups: &Vec<NamespaceInfo>, ns: &str) -> (r: Option<usize>)
    ensures
        match r {
            Some(f) => f < groups@.len() && groups@[f as int].namespace@ == ns@,
            None => forall|h: int|
                0 <= h < groups@.len() ==> (#[trigger] groups@[h]).namespace@ != ns@,
        },
{
    let mut g: usize = 0;
    while g < groups.len()
        invariant
            g <= groups@.len(),
            forall|h: int| 0 <= h < g ==> (#[trigger] groups@[h]).namespace@ != ns@,
        decreases groups@.len() - g,
    {
        if str_eq(groups[g].namespace.as_str(), ns) {
            return Some(g);
        }
        g = g + 1;
    }
    None
}

/// Appends clones of `src` to `dst`.
fn extend_strings(dst: &mut Vec<String>, src: &Vec<String>)
    ensures
        final(dst)@ == old(dst)@ + src@,
{
    let mut i: usize = 0;
    while i < src.len()
        invariant
            i <= src@.len(),
            dst@ == old(dst)@ + src@.take(i as int),
        decreases src@.len() - i,
    {
        dst.push(src[i].clone());
        assert(old(dst)@ + src@.take(i as int).push(src@[i as int]) =~= old(dst)@ + src@.take(
            i + 1,
        ));
        i = i + 1;
    }
    assert(old(dst)@ + src@.take(src@.len() as int) =~= old(dst)@ + src@);
}

/// What one grouping invariant says of one group.
pub open spec fn spec_group_matches(g: NamespaceInfo, files: Seq<SourceFile>, ns: Seq<char>) -> bool {
    &&& g.namespace@ == ns
    &&& g.files@ == spec_ns_files(files, ns)
    &&& spec_views(g.classes@) == spec_ns_kw(files, ns, "class"@)
    &&& spec_views(g.interfaces@) == spec_ns_kw(files, ns, "interface"@)
    &&& spec_views(g.traits@) == spec_ns_kw(files, ns, "trait"@)
}

/// Groups every file under the namespace it declares: one entry per
/// distinct nonempty namespace, carrying the files and the classes,
/// interfaces and traits they declare; files declaring no namespace are
/// listed apart.
pub fn detect_namespaces(files: &Vec<SourceFile>) -> (r: NamespaceDetectionResult)
    ensures
        r.total_files == files@.len(),
        r.files_without_namespace@ == spec_files_without(files@),
        r.namespaces@.len() == spec_ns_keys(files@).len(),
        forall|g: int|
            0 <= g < r.namespaces@.len() ==> spec_group_matches(
                #[trigger] r.namespaces@[g],
                files@,
                spec_ns_keys(files@)[g],
            ),
{
    let ghost fs = files@;
    let mut groups: Vec<NamespaceInfo> = Vec::new();
    let mut without: Vec<String> = Vec::new();
    let mut i: usize = 0;
    proof {
        assert(fs.take(0) =~= Seq::<SourceFile>::empty());
        assert(groups@.map_values(|g: NamespaceInfo| g.namespace@) =~= Seq::<Seq<char>>::empty());
    }
    while i < files.len()
        invariant
            i <= fs.len(),
            fs == files@,
            without@ == spec_files_without(fs.take(i as int)),
            groups@.map_values(|g: NamespaceInfo| g.namespace@) == spec_ns_keys(fs.take(i as int)),
            forall|g: int|
                0 <= g < groups@.len() ==> spec_group_matches(
                    #[trigger] groups@[g],
                    fs.take(i as int),
                    groups@[g].namespace@,
                ),
        decreases fs.len() - i,
    {
        let ghost keys_pre = spec_ns_keys(fs.take(i as int));
        proof {
            assert(fs.take(i + 1).drop_last() =~= fs.take(i as int));
            assert(fs.take(i + 1).last() == fs[i as int]);
        }
        let f = &files[i];
        let info = analyze_file(f.contents.as_str());
        let ghost ns = spec_source_namespace(fs[i as int]);
        if info.namespace.as_str().unicode_len() > 0 {
            let found = find_ns_group(&groups, info.namespace.as_str());
            proof {
                match found {
                    Some(h) => {
                        assert(groups@[h as int].namespace@ == ns);
                        assert(groups@.map_values(|g: NamespaceInfo| g.namespace@)[h as int]
                            == ns);
                        assert(keys_pre.contains(ns));
                    },
                    None => {
                        if keys_pre.contains(ns) {
                            let w = choose|w: int| 0 <= w < keys_pre.len() && keys_pre[w] == ns;
                            assert(groups@.map_values(|g: NamespaceInfo| g.namespace@)[w] == ns);
                            assert(groups@[w].namespace@ == ns);
                            assert(false);
                        }
                    },
                }
            }
            match found {
                Some(h) => {
                    let mut upd_files = clone_strings(&groups[h].files);
                    upd_files.push(f.path.clone());
                    let mut upd_classes = clone_strings(&groups[h].classes);
                    extend_strings(&mut upd_classes, &info.classes);
                    let mut upd_interfaces = clone_strings(&groups[h].interfaces);
                    extend_strings(&mut upd_interfaces, &info.interfaces);
                    let mut upd_traits = clone_strings(&groups[h].traits);
                    extend_strings(&mut upd_traits, &info.traits);
                    let upd = NamespaceInfo {
                        namespace: groups[h].namespace.clone(),
                        files: upd_files,
                        classes: upd_classes,
                        interfaces: upd_interfaces,
                        traits: upd_traits,
                    };
                    let ghost pre_groups = groups@;
                    groups.set(h, upd);
                    proof {
                        assert(spec_ns_keys(fs.take(i + 1)) == keys_pre);
                        assert(groups@.map_values(|g: NamespaceInfo| g.namespace@)
                            =~= keys_pre) by {
                            assert forall|w: int| 0 <= w < groups@.len() implies groups@[w].namespace@
                                == pre_groups[w].namespace@ by {}
                        }
                        assert forall|g: int| 0 <= g < groups@.len() implies spec_group_matches(
                            #[trigger] groups@[g],
                            fs.take(i + 1),
                            groups@[g].namespace@,
                        ) by {
                            if g == h {
                                assert(spec_views(groups@[g].classes@) =~= spec_views(
                                    pre_groups[g].classes@,
                                ) + spec_kw_captures(spec_lines(fs[i as int].contents@), "class"@));
                                assert(spec_views(groups@[g].interfaces@) =~= spec_views(
                                    pre_groups[g].interfaces@,
                                ) + spec_kw_captures(
                                    spec_lines(fs[i as int].contents@),
                                    "interface"@,
                                ));
                                assert(spec_views(groups@[g].traits@) =~= spec_views(
                                    pre_groups[g].traits@,
                                ) + spec_kw_captures(spec_lines(fs[i as int].contents@), "trait"@));
                            } else {
                                assert(groups@[g] == pre_groups[g]);
                                assert(groups@[g].namespace@ != ns) by {
                                    if groups@[g].namespace@ == ns {
                                        lemma_ns_keys_distinct(fs.take(i as int));
                                        assert(keys_pre[g] == groups@[g].namespace@);
                                        assert(keys_pre[h as int] == ns);
                                        assert(false);
                                    }
                                }
                            }
                        }
                    }
                },
                None => {
                    let mut first_files: Vec<String> = Vec::new();
                    first_files.push(f.path.clone());
                    let entry = NamespaceInfo {
                        namespace: info.namespace,
                        files: first_files,
                        classes: info.classes,
                        interfaces: info.interfaces,
                        traits: info.traits,
                    };
                    groups.push(entry);
                    proof {
                        assert(spec_ns_keys(fs.take(i + 1)) == keys_pre.push(ns));
                        assert(groups@.map_values(|g: NamespaceInfo| g.namespace@)
                            =~= keys_pre.push(ns));
                        assert forall|g: int| 0 <= g < groups@.len() implies spec_group_matches(
                            #[trigger] groups@[g],
                            fs.take(i + 1),
                            groups@[g].namespace@,
                        ) by {
                            if g < groups@.len() - 1 {
                                assert(groups@[g] == groups@.drop_last()[g]);
                                assert(groups@[g].namespace@ != ns) by {
                                    if groups@[g].namespace@ == ns {
                                        assert(keys_pre[g] == groups@[g].namespace@);
                                        assert(keys_pre.contains(ns));
                                        assert(false);
                                    }
                                }
                            } else {
                                assert(groups@[g].namespace@ == ns);
                                lemma_ns_unknown_key(fs.take(i as int), ns, "class"@);
                                lemma_ns_unknown_key(fs.take(i as int), ns, "interface"@);
                                lemma_ns_unknown_key(fs.take(i as int), ns, "trait"@);
                                assert(spec_ns_files(fs.take(i + 1), ns) =~= seq![
                                    fs[i as int].path,
                                ]);
                                assert(groups@[g].files@ =~= seq![fs[i as int].path]);
                                assert(spec_views(groups@[g].classes@) =~= spec_ns_kw(
                                    fs.take(i + 1),
                                    ns,
                                    "class"@,
                                ));
                                assert(spec_views(groups@[g].interfaces@) =~= spec_ns_kw(
                                    fs.take(i + 1),
                                    ns,
                                    "interface"@,
                                ));
                                assert(spec_views(groups@[g].traits@) =~= spec_ns_kw(
                                    fs.take(i + 1),
                                    ns,
                                    "trait"@,
                                ));
                            }
                        }
                    }
                },
            }
        } else {
            without.push(f.path.clone());
            proof {
                assert(ns.len() == 0);
                assert(spec_files_without(fs.take(i + 1)) == spec_files_without(
                    fs.take(i as int),
                ).push(fs[i as int].path));
                assert(spec_ns_keys(fs.take(i + 1)) == keys_pre);
                assert forall|g: int| 0 <= g < groups@.len() implies spec_group_matches(
                    #[trigger] groups@[g],
                    fs.take(i + 1),
                    groups@[g].namespace@,
                ) by {
                    assert(groups@[g].namespace@ != ns) by {
                        if groups@[g].namespace@ == ns {
                            assert(keys_pre[g] == groups@[g].namespace@);
                            lemma_ns_keys_nonempty(fs.take(i as int));
                        }
                    }
                }
            }
        }
        i = i + 1;
    }
    assert(fs.take(fs.len() as int) =~= fs);
    let total_files = files.len();
    NamespaceDetectionResult {
        namespaces: groups,
        total_files,
        files_without_namespace: without,
    }
}

/// Every key of the grouping is a nonempty namespace.
proof fn lemma_ns_keys_nonempty(files: Seq<SourceFile>)
    ensures
        forall|k: int|
            0 <= k < spec_ns_keys(files).len() ==> (#[trigger] spec_ns_keys(files)[k]).len() > 0,
    decreases files.len(),
{
    if files.len() > 0 {
        lemma_ns_keys_nonempty(files.drop_last());
        let keys = spec_ns_keys(files);
        let pre = spec_ns_keys(files.drop_last());
        assert forall|k: int| 0 <= k < keys.len() implies (#[trigger] keys[k]).len() > 0 by {
            if k < pre.len() {
                assert(keys[k] == pre[k]);
            }
        }
    }
}

/// The imports of one file that lead into `target`.
pub open spec fn starts_pred(target: Seq<char>) -> spec_fn(Seq<char>) -> bool {
    |u: Seq<char>| spec_starts_with(u, target)
}

pub open spec fn spec_relevant_imports(f: SourceFile, target: Seq<char>) -> Seq<Seq<char>> {
    spec_use_captures(spec_lines(f.contents@)).filter(starts_pred(target))
}

/// The paths of the files defining `target`, in scan order.
pub open spec fn spec_defined_in(files: Seq<SourceFile>, target: Seq<char>) -> Seq<String>
    decreases files.len(),
{
    if files.len() == 0 {
        Seq::empty()
    } else {
        let pre = spec_defined_in(files.drop_last(), target);
        if spec_source_namespace(files.last()) == target {
            pre.push(files.last().path)
        } else {
            pre
        }
    }
}

/// The indices of the files importing from `target`, in scan order.
pub open spec fn spec_importer_indices(files: Seq<SourceFile>, target: Seq<char>) -> Seq<int>
    decreases files.len(),
{
    if files.len() == 0 {
        Seq::empty()
    } else {
        let pre = spec_importer_indices(files.drop_last(), target);
        if spec_relevant_imports(files.last(), target).len() > 0 {
            pre.push(files.len() - 1)
        } else {
            pre
        }
    }
}

proof fn lemma_importer_indices_bounds(files: Seq<SourceFile>, target: Seq<char>)
    ensures
        forall|k: int|
            0 <= k < spec_importer_indices(files, target).len() ==> 0
                <= #[trigger] spec_importer_indices(files, target)[k] < files.len(),
    decreases files.len(),
{
    if files.len() > 0 {
        lemma_importer_indices_bounds(files.drop_last(), target);
        let idxs = spec_importer_indices(files, target);
        let pre = spec_importer_indices(files.drop_last(), target);
        assert forall|k: int| 0 <= k < idxs.len() implies 0 <= #[trigger] idxs[k]
            < files.len() by {
            if k < pre.len() {
                assert(idxs[k] == pre[k]);
            }
        }
    }
}

/// Where one namespace is defined and which files import from it; the
/// usage count is the number of defining files plus the number of
/// importing files.
pub fn analyze_namespace_usage(files: &Vec<SourceFile>, target_namespace: &str) -> (r:
    NamespaceUsageResult)
    requires
        2 * files@.len() <= usize::MAX,
    ensures
        r.defined_in@ == spec_defined_in(files@, target_namespace@),
        r.imported_by@.len() == spec_importer_indices(files@, target_namespace@).len(),
        forall|k: int|
            0 <= k < r.imported_by@.len() ==> {
                let idxs = spec_importer_indices(files@, target_namespace@);
                0 <= idxs[k] < files@.len() && (#[trigger] r.imported_by@[k]).file@
                    == files@[idxs[k]].path@ && spec_views(r.imported_by@[k].imports@)
                    == spec_relevant_imports(files@[idxs[k]], target_namespace@)
            },
        r.total_usages == r.defined_in@.len() + r.imported_by@.len(),
{
    let ghost fs = files@;
    let ghost target = target_namespace@;
    let mut defined_in: Vec<String> = Vec::new();
    let mut imported_by: Vec<ImportInfo> = Vec::new();
    let mut i: usize = 0;
    proof {
        assert(fs.take(0) =~= Seq::<SourceFile>::empty());
        reveal(Seq::filter);
    }
    while i < files.len()
        invariant
            i <= fs.len(),
            fs == files@,
            target == target_namespace@,
            defined_in@ == spec_defined_in(fs.take(i as int), target),
            defined_in@.len() <= i,
            imported_by@.len() <= i,
            imported_by@.len() == spec_importer_indices(fs.take(i as int), target).len(),
            forall|k: int|
                0 <= k < imported_by@.len() ==> {
                    let idxs = spec_importer_indices(fs.take(i as int), target);
                    (#[trigger] imported_by@[k]).file@ == fs[idxs[k]].path@ && spec_views(
                        imported_by@[k].imports@,
                    ) == spec_relevant_imports(fs[idxs[k]], target)
                },
        decreases fs.len() - i,
    {
        proof {
            assert(fs.take(i + 1).drop_last() =~= fs.take(i as int));
            assert(fs.take(i + 1).last() == fs[i as int]);
            lemma_importer_indices_bounds(fs.take(i as int), target);
        }
        let f = &files[i];
        let info = analyze_file(f.contents.as_str());
        if str_eq(info.namespace.as_str(), target_namespace) {
            defined_in.push(f.path.clone());
        }
        let ghost uses_views = spec_views(info.uses@);
        let mut relevant: Vec<String> = Vec::new();
        let mut u: usize = 0;
        proof {
            assert(uses_views.take(0) =~= Seq::<Seq<char>>::empty());
        }
        while u < info.uses.len()
            invariant
                u <= info.uses@.len(),
                uses_views == spec_views(info.uses@),
                target == target_namespace@,
                spec_views(relevant@) == uses_views.take(u as int).filter(starts_pred(target)),
            decreases info.uses@.len() - u,
        {
            proof {
                crate::seqs::lemma_filter_take_step(uses_views, u as int, starts_pred(target));
                assert(uses_views[u as int] == info.uses@[u as int]@);
            }
            if str_starts_with(info.uses[u].as_str(), target_namespace) {
                relevant.push(info.uses[u].clone());
                assert(spec_views(relevant@) =~= spec_views(relevant@.drop_last()).push(
                    relevant@.last()@,
                ));
            }
            u = u + 1;
        }
        proof {
            assert(uses_views.take(uses_views.len() as int) =~= uses_views);
            assert(spec_views(relevant@) == spec_relevant_imports(fs[i as int], target));
        }
        let ghost idxs_old = spec_importer_indices(fs.take(i as int), target);
        let ghost idxs_new = spec_importer_indices(fs.take(i + 1), target);
        if relevant.len() > 0 {
            let entry = ImportInfo { file: f.path.clone(), imports: relevant };
            imported_by.push(entry);
            proof {
                assert(idxs_new == idxs_old.push(i as int));
                assert forall|k: int| 0 <= k < imported_by@.len() implies {
                    (#[trigger] imported_by@[k]).file@ == fs[idxs_new[k]].path@ && spec_views(
                        imported_by@[k].imports@,
                    ) == spec_relevant_imports(fs[idxs_new[k]], target)
                } by {
                    if k < idxs_old.len() {
                        assert(imported_by@[k] == imported_by@.drop_last()[k]);
                        assert(idxs_new[k] == idxs_old[k]);
                    } else {
                        assert(idxs_new[k] == i as int);
                        assert(imported_by@[k] == imported_by@.last());
                    }
                }
            }
        } else {
            proof {
                assert(spec_relevant_imports(fs[i as int], target).len() == 0);
                assert(idxs_new == idxs_old);
            }
        }
        i = i + 1;
    }
    proof {
        assert(fs.take(fs.len() as int) =~= fs);
        lemma_importer_indices_bounds(fs, target);
    }
    let total_usages = defined_in.len() + imported_by.len();
    NamespaceUsageResult { defined_in, imported_by, total_usages }
}

} // verus!
