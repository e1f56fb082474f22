//! Manifest-level helpers: platform pseudo-dependency filtering, license
//! extraction, namespace-mapping tables, and the namespace a source file is
//! expected to declare given its path.

use vstd::prelude::*;

use crate::seqs::clone_strings;
use crate::seqs::lemma_filter_take_step;
use crate::strings::spec_starts_with;
use crate::strings::spec_views;
use crate::strings::str_starts_with;
use crate::types::AutoloadConfig;
use crate::types::ComposerJson;
use crate::types::LicenseField;
use crate::types::Psr4Mapping;
use crate::types::Psr4Path;
use crate::strings::chars_to_string;
use crate::strings::spec_join_sep;
use crate::strings::spec_split;
use crate::strings::spec_trim_end_char;
use crate::strings::split_chars;
use crate::strings::str_chars;
use crate::strings::trim_end_char;
use vstd::string::StringExecFns;

verus! {

/// True when `name` begins with the platform prefix or the extension
/// prefix, which mark pseudo-packages that never become graph nodes.
pub open spec fn spec_is_platform_dependency(name: Seq<char>) -> bool {
    spec_starts_with(name, "php"@) || spec_starts_with(name, "ext-"@)
}

pub fn is_platform_dependency(name: &str) -> (r: bool)
    ensures
        r == spec_is_platform_dependency(name@),
{
    str_starts_with(name, "php") || str_starts_with(name, "ext-")
}

/// Requirement entries that name real packages rather than the platform or
/// an extension.
pub open spec fn keep_requirement() -> spec_fn((String, String)) -> bool {
    |p: (String, String)| !spec_is_platform_dependency(p.0@)
}

pub open spec fn spec_filter_requirements(reqs: Seq<(String, String)>) -> Seq<(String, String)> {
    reqs.filter(keep_requirement())
}

/// Drops platform and extension pseudo-dependencies from a requirement map,
/// keeping declaration order.
pub fn filter_php_dependencies(deps: &Vec<(String, String)>) -> (r: Vec<(String, String)>)
    ensures
        r@ == spec_filter_requirements(deps@),
{
    let mut r: Vec<(String, String)> = Vec::new();
    let mut i: usize = 0;
    proof {
        reveal(Seq::filter);
        assert(deps@.take(0) =~= Seq::<(String, String)>::empty());
    }
    while i < deps.len()
        invariant
            i <= deps@.len(),
            r@ == spec_filter_requirements(deps@.take(i as int)),
        decreases deps@.len() - i,
    {
        proof {
            lemma_filter_take_step(deps@, i as int, keep_requirement());
        }
        if !is_platform_dependency(deps[i].0.as_str()) {
            let p = (deps[i].0.clone(), deps[i].1.clone());
            assert(p == deps@[i as int]);
            r.push(p);
        }
        i = i + 1;
    }
    assert(deps@.take(deps@.len() as int) =~= deps@);
    r
}

/// The licenses a manifest declares, as a list.
pub open spec fn spec_manifest_licenses(l: Option<LicenseField>) -> Seq<Seq<char>> {
    match l {
        Some(LicenseField::Single(s)) => seq![s@],
        Some(LicenseField::Multiple(v)) => spec_views(v@),
        None => Seq::empty(),
    }
}

pub fn get_licenses(composer: &ComposerJson) -> (r: Vec<String>)
    ensures
        spec_views(r@) == spec_manifest_licenses(composer.license),
{
    match &composer.license {
        Some(LicenseField::Single(s)) => {
            let r = vec![s.clone()];
            assert(spec_views(r@) =~= seq![s@]);
            r
        },
        Some(LicenseField::Multiple(v)) => {
            let r = clone_strings(v);
            r
        },
        None => {
            let r: Vec<String> = Vec::new();
            assert(spec_views(r@) =~= Seq::<Seq<char>>::empty());
            r
        },
    }
}

/// The directories a namespace prefix maps to, as a list.
pub open spec fn spec_normalize_paths(p: Psr4Path) -> Seq<Seq<char>> {
    match p {
        Psr4Path::Single(s) => seq![s@],
        Psr4Path::Multiple(v) => spec_views(v@),
    }
}

pub fn normalize_paths(paths: &Psr4Path) -> (r: Vec<String>)
    ensures
        spec_views(r@) == spec_normalize_paths(*paths),
{
    match paths {
        Psr4Path::Single(s) => {
            let r = vec![s.clone()];
            assert(spec_views(r@) =~= seq![s@]);
            r
        },
        Psr4Path::Multiple(v) => clone_strings(v),
    }
}

/// The namespace-prefix entries of an autoload section, in declaration
/// order.
pub open spec fn spec_psr4_entries(a: Option<AutoloadConfig>) -> Seq<(String, Psr4Path)> {
    match a {
        Some(cfg) => match cfg.psr4 {
            Some(v) => v@,
            None => Seq::empty(),
        },
        None => Seq::empty(),
    }
}

/// Field-wise correspondence of a built mapping to its manifest entry.
pub open spec fn spec_mapping_matches(m: Psr4Mapping, e: (String, Psr4Path), is_dev: bool) -> bool {
    &&& m.namespace@ == e.0@
    &&& spec_views(m.paths@) == spec_normalize_paths(e.1)
    &&& m.mapping_type@ == "psr-4"@
    &&& m.is_dev == is_dev
}

/// All namespace mappings of a manifest: the production autoload table
/// first, then the development one.
pub fn get_psr4_mappings(composer: &ComposerJson) -> (r: Vec<Psr4Mapping>)
    ensures
        r@.len() == spec_psr4_entries(composer.autoload).len() + spec_psr4_entries(
            composer.autoload_dev,
        ).len(),
        forall|i: int|
            0 <= i < spec_psr4_entries(composer.autoload).len() ==> spec_mapping_matches(
                #[trigger] r@[i],
                spec_psr4_entries(composer.autoload)[i],
                false,
            ),
        forall|i: int|
            spec_psr4_entries(composer.autoload).len() <= i < r@.len() ==> spec_mapping_matches(
                #[trigger] r@[i],
                spec_psr4_entries(composer.autoload_dev)[i - spec_psr4_entries(
                    composer.autoload,
                ).len()],
                true,
            ),
{
    let mut r: Vec<Psr4Mapping> = Vec::new();
    if let Some(autoload) = &composer.autoload {
        if let Some(psr4) = &autoload.psr4 {
            let mut i: usize = 0;
            while i < psr4.len()
                invariant
                    i <= psr4@.len(),
                    psr4@ == spec_psr4_entries(composer.autoload),
                    r@.len() == i,
                    forall|k: int|
                        0 <= k < i ==> spec_mapping_matches(
                            #[trigger] r@[k],
                            psr4@[k],
                            false,
                        ),
                decreases psr4@.len() - i,
            {
                let m = Psr4Mapping {
                    namespace: psr4[i].0.clone(),
                    paths: normalize_paths(&psr4[i].1),
                    mapping_type: String::from_str("psr-4"),
                    is_dev: false,
                };
                r.push(m);
                i = i + 1;
            }
        }
    }
    let ghost prod_len = r@.len() as int;
    if let Some(autoload_dev) = &composer.autoload_dev {
        if let Some(psr4) = &autoload_dev.psr4 {
            let mut i: usize = 0;
            while i < psr4.len()
                invariant
                    i <= psr4@.len(),
                    psr4@ == spec_psr4_entries(composer.autoload_dev),
                    r@.len() == prod_len + i,
                    prod_len == spec_psr4_entries(composer.autoload).len(),
                    forall|k: int|
                        0 <= k < prod_len ==> spec_mapping_matches(
                            #[trigger] r@[k],
                            spec_psr4_entries(composer.autoload)[k],
                            false,
                        ),
                    forall|k: int|
                        prod_len <= k < r@.len() ==> spec_mapping_matches(
                            #[trigger] r@[k],
                            psr4@[k - prod_len],
                            true,
                        ),
                decreases psr4@.len() - i,
            {
                let m = Psr4Mapping {
                    namespace: psr4[i].0.clone(),
                    paths: normalize_paths(&psr4[i].1),
                    mapping_type: String::from_str("psr-4"),
                    is_dev: true,
                };
                r.push(m);
                i = i + 1;
            }
        }
    }
    r
}

/// The file path with every trailing source-file extension removed.
pub open spec fn spec_trim_php_ext(s: Seq<char>) -> Seq<char>
    decreases s.len(),
{
    if s.len() >= 4 && s.subrange(s.len() - 4, s.len() as int) == ".php"@ {
        spec_trim_php_ext(s.take(s.len() - 4))
    } else {
        s
    }
}

/// The namespace a file at `rel` (relative to a mapping's base directory)
/// is expected to declare under the prefix `base`: the prefix, stripped of
/// trailing separators, extended by the file's directory segments.
pub open spec fn spec_expected_namespace(base: Seq<char>, rel: Seq<char>) -> Seq<char> {
    let parts = spec_split(spec_trim_php_ext(rel), '/');
    let dirs = if parts.len() > 1 {
        parts.drop_last()
    } else {
        Seq::<Seq<char>>::empty()
    };
    let ns = spec_trim_end_char(base, '\\');
    if dirs.len() == 0 {
        ns
    } else {
        ns + "\\"@ + spec_join_sep(dirs, "\\"@)
    }
}

pub fn calculate_expected_namespace(base_namespace: &str, relative_file_path: &str) -> (r: String)
    ensures
        r@ == spec_expected_namespace(base_namespace@, relative_file_path@),
{
    proof {
        reveal_strlit(".php");
    }
    let mut path = str_chars(relative_file_path);
    loop
        invariant_except_break
            spec_trim_php_ext(path@) == spec_trim_php_ext(relative_file_path@),
        ensures
            path@ == spec_trim_php_ext(relative_file_path@),
        decreases path@.len(),
    {
        let n = path.len();
        if n >= 4 && path[n - 4] == '.' && path[n - 3] == 'p' && path[n - 2] == 'h' && path[n - 1]
            == 'p' {
            let ghost pre = path@;
            proof {
                reveal_strlit(".php");
                assert(".php"@ =~= seq!['.', 'p', 'h', 'p']);
                assert(pre.subrange(pre.len() - 4, pre.len() as int) =~= ".php"@);
            }
            path.truncate(n - 4);
            proof {
                assert(path@ =~= pre.take(pre.len() - 4));
            }
        } else {
            proof {
                reveal_strlit(".php");
                assert(".php"@ =~= seq!['.', 'p', 'h', 'p']);
                if path@.len() >= 4 && path@.subrange(path@.len() - 4, path@.len() as int)
                    == ".php"@ {
                    assert(path@[path@.len() - 4] == '.');
                    assert(path@[path@.len() - 3] == 'p');
                    assert(path@[path@.len() - 2] == 'h');
                    assert(path@[path@.len() - 1] == 'p');
                    assert(false);
                }
                assert(spec_trim_php_ext(path@) == path@);
            }
            break;
        }
    }
    let mut parts = split_chars(&path, '/');
    let ghost all_parts = spec_split(spec_trim_php_ext(relative_file_path@), '/');
    if parts.len() > 1 {
        let ghost old_parts = parts@;
        parts.pop();
        proof {
            assert(parts@ =~= old_parts.drop_last());
            assert(crate::strings::spec_views(parts@) =~= all_parts.drop_last());
        }
    } else {
        parts = Vec::new();
        proof {
            assert(crate::strings::spec_views(parts@) =~= Seq::<Seq<char>>::empty());
        }
    }
    let mut base = str_chars(base_namespace);
    trim_end_char(&mut base, '\\');
    let ns = chars_to_string(&base);
    if parts.len() == 0 {
        ns
    } else {
        let joined = crate::strings::join_with(&parts, "\\");
        let mut r = ns;
        r.append("\\");
        r.append(joined.as_str());
        r
    }
}

} // verus!
