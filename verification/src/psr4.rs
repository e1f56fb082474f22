//! Namespace placement validation: for each scanned source file, the
//! namespace it declares first is held against the namespace its path
//! demands under the mapping it was found through.

use vstd::prelude::*;

use crate::composer::calculate_expected_namespace;
use crate::composer::spec_expected_namespace;
use crate::scan::extract_namespace;
use crate::scan::spec_first_namespace;
use crate::scan::spec_lines;
use crate::seqs::clone_strings;
use crate::strings::str_eq;
use crate::types::Psr4Mapping;
use crate::types::Psr4Violation;
use vstd::string::StrSliceExecFns;
use vstd::string::StringExecFns;

verus! {

/// One source file as the directory walk hands it over: the mapping's
/// namespace prefix and base directory it was found under, its path
/// relative to that directory, and its text.
pub struct Psr4SourceFile {
    pub base_namespace: String,
    pub mapping_path: String,
    pub rel_path: String,
    pub contents: String,
}

pub struct Psr4AnalysisResult {
    pub mappings: Vec<Psr4Mapping>,
    pub violations: Vec<Psr4Violation>,
    pub stats: Psr4Stats,
}

pub struct Psr4Stats {
    pub total_mappings: usize,
    pub total_files: usize,
    pub valid_files: usize,
    pub violation_count: usize,
}

/// The namespace the file actually declares first, or empty.
pub open spec fn spec_actual_namespace(f: Psr4SourceFile) -> Seq<char> {
    spec_first_namespace(spec_lines(f.contents@))
}

/// The namespace the file's placement demands.
pub open spec fn spec_demanded_namespace(f: Psr4SourceFile) -> Seq<char> {
    spec_expected_namespace(f.base_namespace@, f.rel_path@)
}

pub open spec fn spec_file_valid(f: Psr4SourceFile) -> bool {
    spec_actual_namespace(f) == spec_demanded_namespace(f)
}

/// A path under the mapping's directory, joined the way the report shows
/// it.
pub open spec fn spec_join_path(a: Seq<char>, b: Seq<char>) -> Seq<char> {
    if a.len() == 0 {
        b
    } else if a.last() == '/' {
        a + b
    } else {
        a + "/"@ + b
    }
}

/// Field-wise correspondence of one reported violation to its file: the
/// actual namespace is absent exactly when the file declares none.
pub open spec fn spec_violation_matches(v: Psr4Violation, f: Psr4SourceFile) -> bool {
    &&& v.file@ == spec_join_path(f.mapping_path@, f.rel_path@)
    &&& v.expected_namespace@ == spec_demanded_namespace(f)
    &&& (match v.actual_namespace {
        Some(a) => spec_actual_namespace(f).len() > 0 && a@ == spec_actual_namespace(f),
        None => spec_actual_namespace(f).len() == 0,
    })
    &&& v.issue@ == (if spec_actual_namespace(f).len() == 0 {
        "Missing namespace declaration"@
    } else {
        "Namespace mismatch"@
    })
}

/// The indices of the files that violate their mapping, in scan order.
pub open spec fn spec_violation_indices(files: Seq<Psr4SourceFile>) -> Seq<int>
    decreases files.len(),
{
    if files.len() == 0 {
        Seq::empty()
    } else {
        let pre = spec_violation_indices(files.drop_last());
        if spec_file_valid(files.last()) {
            pre
        } else {
            pre.push(files.len() - 1)
        }
    }
}

pub open spec fn spec_valid_count(files: Seq<Psr4SourceFile>) -> int
    decreases files.len(),
{
    if files.len() == 0 {
        0
    } else {
        spec_valid_count(files.drop_last()) + if spec_file_valid(files.last()) {
            1int
        } else {
            0int
        }
    }
}

proof fn lemma_violation_indices_bounds(files: Seq<Psr4SourceFile>)
    ensures
        forall|k: int|
            0 <= k < spec_violation_indices(files).len() ==> 0 <= #[trigger] spec_violation_indices(
                files,
            )[k] < files.len(),
    decreases files.len(),
{
    if files.len() > 0 {
        lemma_violation_indices_bounds(files.drop_last());
        let idxs = spec_violation_indices(files);
        let pre = spec_violation_indices(files.drop_last());
        assert forall|k: int| 0 <= k < idxs.len() implies 0 <= #[trigger] idxs[k]
            < files.len() by {
            if k < pre.len() {
                assert(idxs[k] == pre[k]);
            }
        }
    }
}

/// The path of one file as the report shows it.
fn join_path(a: &str, b: &str) -> (r: String)
    ensures
        r@ == spec_join_path(a@, b@),
{
    let n = a.unicode_len();
    if n == 0 {
        return String::from_str(b);
    }
    let mut r = String::from_str(a);
    if a.get_char(n - 1) != '/' {
        r.append("/");
    }
    r.append(b);
    r
}

/// An element-wise copy of one mapping.
fn duplicate_mapping(m: &Psr4Mapping) -> (r: Psr4Mapping)
    ensures
        r.namespace@ == m.namespace@,
        r.paths@ == m.paths@,
        r.mapping_type@ == m.mapping_type@,
        r.is_dev == m.is_dev,
{
    Psr4Mapping {
        namespace: m.namespace.clone(),
        paths: clone_strings(&m.paths),
        mapping_type: m.mapping_type.clone(),
        is_dev: m.is_dev,
    }
}

/// Validates every scanned file against its mapping: a file declaring
/// exactly the demanded namespace counts as valid; otherwise a violation
/// records the expected and actual namespaces, as a missing declaration
/// or a mismatch. Unreadable files never reach this point: the caller
/// skips them, and they count nowhere.
pub fn analyze_psr4_autoloading(mappings: &Vec<Psr4Mapping>, files: &Vec<Psr4SourceFile>) -> (r:
    Psr4AnalysisResult)
    ensures
        r.mappings@.len() == mappings@.len(),
        forall|m: int|
            0 <= m < mappings@.len() ==> {
                &&& (#[trigger] r.mappings@[m]).namespace@ == mappings@[m].namespace@
                &&& r.mappings@[m].paths@ == mappings@[m].paths@
                &&& r.mappings@[m].mapping_type@ == mappings@[m].mapping_type@
                &&& r.mappings@[m].is_dev == mappings@[m].is_dev
            },
        r.violations@.len() == spec_violation_indices(files@).len(),
        forall|k: int|
            0 <= k < r.violations@.len() ==> {
                let idxs = spec_violation_indices(files@);
                0 <= idxs[k] < files@.len() && spec_violation_matches(
                    #[trigger] r.violations@[k],
                    files@[idxs[k]],
                )
            },
        r.stats.total_mappings == mappings@.len(),
        r.stats.total_files == files@.len(),
        r.stats.valid_files == spec_valid_count(files@),
        r.stats.violation_count == r.violations@.len(),
{
    let mut echoed: Vec<Psr4Mapping> = Vec::new();
    let mut m: usize = 0;
    while m < mappings.len()
        invariant
            m <= mappings@.len(),
            echoed@.len() == m,
            forall|h: int|
                0 <= h < m ==> {
                    &&& (#[trigger] echoed@[h]).namespace@ == mappings@[h].namespace@
                    &&& echoed@[h].paths@ == mappings@[h].paths@
                    &&& echoed@[h].mapping_type@ == mappings@[h].mapping_type@
                    &&& echoed@[h].is_dev == mappings@[h].is_dev
                },
        decreases mappings@.len() - m,
    {
        echoed.push(duplicate_mapping(&mappings[m]));
        m = m + 1;
    }
    let mut violations: Vec<Psr4Violation> = Vec::new();
    let mut valid: usize = 0;
    let mut i: usize = 0;
    assert(files@.take(0) =~= Seq::<Psr4SourceFile>::empty());
    while i < files.len()
        invariant
            i <= files@.len(),
            valid == spec_valid_count(files@.take(i as int)),
            valid <= i,
            violations@.len() == spec_violation_indices(files@.take(i as int)).len(),
            forall|k: int|
                0 <= k < violations@.len() ==> {
                    let idxs = spec_violation_indices(files@.take(i as int));
                    spec_violation_matches(#[trigger] violations@[k], files@[idxs[k]])
                },
        decreases files@.len() - i,
    {
        proof {
            assert(files@.take(i + 1).drop_last() =~= files@.take(i as int));
            assert(files@.take(i + 1).last() == files@[i as int]);
            lemma_violation_indices_bounds(files@.take(i as int));
        }
        let f = &files[i];
        let actual = extract_namespace(f.contents.as_str());
        let expected = calculate_expected_namespace(
            f.base_namespace.as_str(),
            f.rel_path.as_str(),
        );
        let ghost idxs_old = spec_violation_indices(files@.take(i as int));
        let ghost idxs_new = spec_violation_indices(files@.take(i + 1));
        if str_eq(actual.as_str(), expected.as_str()) {
            valid = valid + 1;
            proof {
                assert(spec_file_valid(files@[i as int]));
                assert(idxs_new == idxs_old);
            }
        } else {
            let missing = actual.as_str().unicode_len() == 0;
            let v = Psr4Violation {
                file: join_path(f.mapping_path.as_str(), f.rel_path.as_str()),
                expected_namespace: expected,
                actual_namespace: if missing {
                    None
                } else {
                    Some(actual)
                },
                issue: if missing {
                    String::from_str("Missing namespace declaration")
                } else {
                    String::from_str("Namespace mismatch")
                },
            };
            violations.push(v);
            proof {
                assert(!spec_file_valid(files@[i as int]));
                assert(idxs_new == idxs_old.push(i as int));
                assert forall|k: int| 0 <= k < violations@.len() implies {
                    spec_violation_matches(#[trigger] violations@[k], files@[idxs_new[k]])
                } by {
                    if k < idxs_old.len() {
                        assert(violations@[k] == violations@.drop_last()[k]);
                        assert(idxs_new[k] == idxs_old[k]);
                    } else {
                        assert(idxs_new[k] == i as int);
                        assert(violations@[k] == violations@.last());
                    }
                }
            }
        }
        i = i + 1;
    }
    proof {
        assert(files@.take(files@.len() as int) =~= files@);
        lemma_violation_indices_bounds(files@);
    }
    let total_mappings = mappings.len();
    let total_files = files.len();
    let violation_count = violations.len();
    Psr4AnalysisResult {
        mappings: echoed,
        violations,
        stats: Psr4Stats { total_mappings, total_files, valid_files: valid, violation_count },
    }
}

} // verus!
