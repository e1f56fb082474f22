//! Line-level source scanning: recognizing namespace, class, interface,
//! trait and import declarations by lightweight pattern matching, and the
//! per-file extraction built on them.
//!
//! A declaration is matched at the leftmost position where its shape fits:
//! the keyword, at least one whitespace character, the captured name (word
//! characters, plus the namespace separator where one is allowed), and for
//! namespace and import lines a closing semicolon.
//!
//! The word and whitespace classes here are the ASCII ones, and that is a
//! deliberate narrowing: a declared name written with characters beyond
//! ASCII is not recognized. Stating the full Unicode word class exactly
//! is not possible here, and naming it would say nothing a reader could
//! check.

use vstd::prelude::*;

use vstd::string::StrSliceExecFns;

use crate::strings::chars_to_string;
use crate::strings::match_at;
use crate::strings::str_chars;

verus! {

pub open spec fn spec_is_ws(c: char) -> bool {
    c == ' ' || c == '\t' || c == '\n' || c == '\r' || c == '\u{000B}' || c == '\u{000C}'
}

/// Word characters: ASCII letters, digits and the underscore.
pub open spec fn spec_is_word(c: char) -> bool {
    (97 <= c as int && c as int <= 122) || (65 <= c as int && c as int <= 90) || (48 <= c as int
        && c as int <= 57) || c == '_'
}

/// Characters allowed in a namespace name: word characters and the
/// namespace separator.
pub open spec fn spec_is_ns_char(c: char) -> bool {
    spec_is_word(c) || c == '\\'
}

pub open spec fn ws_pred() -> spec_fn(char) -> bool {
    |c: char| spec_is_ws(c)
}

pub open spec fn word_pred() -> spec_fn(char) -> bool {
    |c: char| spec_is_word(c)
}

pub open spec fn ns_pred() -> spec_fn(char) -> bool {
    |c: char| spec_is_ns_char(c)
}

pub fn is_ws(c: char) -> (r: bool)
    ensures
        r == spec_is_ws(c),
{
    c == ' ' || c == '\t' || c == '\n' || c == '\r' || c == '\u{000B}' || c == '\u{000C}'
}

pub fn is_word(c: char) -> (r: bool)
    ensures
        r == spec_is_word(c),
{
    let u = c as u32;
    let r = (97 <= u && u <= 122) || (65 <= u && u <= 90) || (48 <= u && u <= 57) || c == '_';
    assert(r == spec_is_word(c));
    r
}

pub fn is_ns_char(c: char) -> (r: bool)
    ensures
        r == spec_is_ns_char(c),
{
    is_word(c) || c == '\\'
}

/// The end of the run of characters satisfying `pred` that starts at `i`.
pub open spec fn spec_run_end(s: Seq<char>, i: int, pred: spec_fn(char) -> bool) -> int
    decreases s.len() - i,
{
    if 0 <= i < s.len() && pred(s[i]) {
        spec_run_end(s, i + 1, pred)
    } else {
        i
    }
}

pub proof fn lemma_run_end_bounds(s: Seq<char>, i: int, pred: spec_fn(char) -> bool)
    requires
        0 <= i <= s.len(),
    ensures
        i <= spec_run_end(s, i, pred) <= s.len(),
    decreases s.len() - i,
{
    if i < s.len() && pred(s[i]) {
        lemma_run_end_bounds(s, i + 1, pred);
    }
}

fn ws_run_end(v: &Vec<char>, from: usize) -> (r: usize)
    requires
        from <= v@.len(),
    ensures
        r == spec_run_end(v@, from as int, ws_pred()),
        from <= r <= v@.len(),
{
    let mut j = from;
    while j < v.len() && is_ws(v[j])
        invariant
            from <= j <= v@.len(),
            spec_run_end(v@, from as int, ws_pred()) == spec_run_end(v@, j as int, ws_pred()),
        decreases v@.len() - j,
    {
        j = j + 1;
    }
    j
}

fn word_run_end(v: &Vec<char>, from: usize) -> (r: usize)
    requires
        from <= v@.len(),
    ensures
        r == spec_run_end(v@, from as int, word_pred()),
        from <= r <= v@.len(),
{
    let mut j = from;
    while j < v.len() && is_word(v[j])
        invariant
            from <= j <= v@.len(),
            spec_run_end(v@, from as int, word_pred()) == spec_run_end(v@, j as int, word_pred()),
        decreases v@.len() - j,
    {
        j = j + 1;
    }
    j
}

fn ns_run_end(v: &Vec<char>, from: usize) -> (r: usize)
    requires
        from <= v@.len(),
    ensures
        r == spec_run_end(v@, from as int, ns_pred()),
        from <= r <= v@.len(),
{
    let mut j = from;
    while j < v.len() && is_ns_char(v[j])
        invariant
            from <= j <= v@.len(),
            spec_run_end(v@, from as int, ns_pred()) == spec_run_end(v@, j as int, ns_pred()),
        decreases v@.len() - j,
    {
        j = j + 1;
    }
    j
}

/// The characters of `v` between `a` and `b`.
pub fn sub_chars(v: &Vec<char>, a: usize, b: usize) -> (r: Vec<char>)
    requires
        a <= b <= v@.len(),
    ensures
        r@ == v@.subrange(a as int, b as int),
{
    let mut r: Vec<char> = Vec::new();
    let mut j = a;
    while j < b
        invariant
            a <= j <= b <= v@.len(),
            r@ == v@.subrange(a as int, j as int),
        decreases b - j,
    {
        r.push(v[j]);
        assert(v@.subrange(a as int, j as int).push(v@[j as int]) =~= v@.subrange(
            a as int,
            j + 1,
        ));
        j = j + 1;
    }
    r
}

/// A namespace declaration matched at position `i`: the keyword, at least
/// one whitespace, the captured name, optional whitespace, a semicolon.
pub open spec fn spec_ns_capture_at(line: Seq<char>, i: int) -> Option<Seq<char>> {
    if 0 <= i && i + 9 <= line.len() && line.subrange(i, i + 9) == "namespace"@ {
        let j = spec_run_end(line, i + 9, ws_pred());
        let k = spec_run_end(line, j, ns_pred());
        let m = spec_run_end(line, k, ws_pred());
        if j > i + 9 && k > j && m < line.len() && line[m] == ';' {
            Some(line.subrange(j, k))
        } else {
            None
        }
    } else {
        None
    }
}

/// The leftmost namespace declaration at or after `i`.
pub open spec fn spec_ns_match_from(line: Seq<char>, i: int) -> Option<Seq<char>>
    decreases line.len() - i,
{
    if i < 0 || i >= line.len() {
        None
    } else {
        match spec_ns_capture_at(line, i) {
            Some(c) => Some(c),
            None => spec_ns_match_from(line, i + 1),
        }
    }
}

pub open spec fn spec_ns_match(line: Seq<char>) -> Option<Seq<char>> {
    spec_ns_match_from(line, 0)
}

fn ns_capture_at(v: &Vec<char>, i: usize) -> (r: Option<String>)
    requires
        i <= v@.len(),
    ensures
        match r {
            Some(s) => spec_ns_capture_at(v@, i as int) == Some(s@),
            None => spec_ns_capture_at(v@, i as int) is None,
        },
{
    let kw = str_chars("namespace");
    assert(kw@.len() == 9) by {
        reveal_strlit("namespace");
    }
    let n = v.len();
    if n < 9 || i > n - 9 {
        return None;
    }
    if !match_at(v, &kw, i) {
        return None;
    }
    let j = ws_run_end(v, i + 9);
    let k = ns_run_end(v, j);
    let m = ws_run_end(v, k);
    if j > i + 9 && k > j && m < v.len() && v[m] == ';' {
        let cap = sub_chars(v, j, k);
        Some(chars_to_string(&cap))
    } else {
        None
    }
}

/// The captured name of the leftmost namespace declaration on the line,
/// if the line holds one.
pub fn ns_match_line(v: &Vec<char>) -> (r: Option<String>)
    ensures
        match r {
            Some(s) => spec_ns_match(v@) == Some(s@),
            None => spec_ns_match(v@) is None,
        },
{
    let mut i: usize = 0;
    while i < v.len()
        invariant
            i <= v@.len(),
            spec_ns_match_from(v@, 0) == spec_ns_match_from(v@, i as int),
        decreases v@.len() - i,
    {
        let c = ns_capture_at(v, i);
        if let Some(s) = c {
            return Some(s);
        }
        i = i + 1;
    }
    None
}

/// A keyword declaration (`class`, `interface`, `trait`) matched at
/// position `i`: the keyword, at least one whitespace, the captured word.
pub open spec fn spec_kw_capture_at(line: Seq<char>, i: int, kw: Seq<char>) -> Option<Seq<char>> {
    if 0 <= i && i + kw.len() <= line.len() && line.subrange(i, i + kw.len() as int) == kw {
        let j = spec_run_end(line, i + kw.len(), ws_pred());
        let k = spec_run_end(line, j, word_pred());
        if j > i + kw.len() && k > j {
            Some(line.subrange(j, k))
        } else {
            None
        }
    } else {
        None
    }
}

pub open spec fn spec_kw_match_from(line: Seq<char>, i: int, kw: Seq<char>) -> Option<Seq<char>>
    decreases line.len() - i,
{
    if i < 0 || i >= line.len() {
        None
    } else {
        match spec_kw_capture_at(line, i, kw) {
            Some(c) => Some(c),
            None => spec_kw_match_from(line, i + 1, kw),
        }
    }
}

pub open spec fn spec_kw_match(line: Seq<char>, kw: Seq<char>) -> Option<Seq<char>> {
    spec_kw_match_from(line, 0, kw)
}

fn kw_capture_at(v: &Vec<char>, i: usize, kw: &Vec<char>) -> (r: Option<String>)
    requires
        i <= v@.len(),
        kw@.len() >= 1,
    ensures
        match r {
            Some(s) => spec_kw_capture_at(v@, i as int, kw@) == Some(s@),
            None => spec_kw_capture_at(v@, i as int, kw@) is None,
        },
{
    let klen = kw.len();
    let n = v.len();
    if n < klen || i > n - klen {
        return None;
    }
    if !match_at(v, kw, i) {
        return None;
    }
    let j = ws_run_end(v, i + klen);
    let k = word_run_end(v, j);
    if j > i + klen && k > j {
        let cap = sub_chars(v, j, k);
        Some(chars_to_string(&cap))
    } else {
        None
    }
}

/// The captured name of the leftmost keyword declaration on the line.
pub fn kw_match_line(v: &Vec<char>, kw: &Vec<char>) -> (r: Option<String>)
    requires
        kw@.len() >= 1,
    ensures
        match r {
            Some(s) => spec_kw_match(v@, kw@) == Some(s@),
            None => spec_kw_match(v@, kw@) is None,
        },
{
    let mut i: usize = 0;
    while i < v.len()
        invariant
            i <= v@.len(),
            kw@.len() >= 1,
            spec_kw_match_from(v@, 0, kw@) == spec_kw_match_from(v@, i as int, kw@),
        decreases v@.len() - i,
    {
        let c = kw_capture_at(v, i, kw);
        if let Some(s) = c {
            return Some(s);
        }
        i = i + 1;
    }
    None
}

/// An import matched at position `i`: the keyword `use`, whitespace, the
/// captured name, then either the semicolon at once or an alias clause
/// (`as` and a word) followed by the semicolon.
pub open spec fn spec_use_capture_at(line: Seq<char>, i: int) -> Option<Seq<char>> {
    if 0 <= i && i + 3 <= line.len() && line.subrange(i, i + 3) == "use"@ {
        let j = spec_run_end(line, i + 3, ws_pred());
        let k = spec_run_end(line, j, ns_pred());
        if j > i + 3 && k > j {
            if k < line.len() && line[k] == ';' {
                Some(line.subrange(j, k))
            } else {
                let m = spec_run_end(line, k, ws_pred());
                let m2 = spec_run_end(line, m + 2, ws_pred());
                let k2 = spec_run_end(line, m2, word_pred());
                if m > k && m + 2 <= line.len() && line.subrange(m, m + 2) == "as"@ && m2 > m + 2
                    && k2 > m2 && k2 < line.len() && line[k2] == ';' {
                    Some(line.subrange(j, k))
                } else {
                    None
                }
            }
        } else {
            None
        }
    } else {
        None
    }
}

pub open spec fn spec_use_match_from(line: Seq<char>, i: int) -> Option<Seq<char>>
    decreases line.len() - i,
{
    if i < 0 || i >= line.len() {
        None
    } else {
        match spec_use_capture_at(line, i) {
            Some(c) => Some(c),
            None => spec_use_match_from(line, i + 1),
        }
    }
}

pub open spec fn spec_use_match(line: Seq<char>) -> Option<Seq<char>> {
    spec_use_match_from(line, 0)
}

fn use_capture_at(v: &Vec<char>, i: usize) -> (r: Option<String>)
    requires
        i <= v@.len(),
    ensures
        match r {
            Some(s) => spec_use_capture_at(v@, i as int) == Some(s@),
            None => spec_use_capture_at(v@, i as int) is None,
        },
{
    let kw = str_chars("use");
    assert(kw@.len() == 3) by {
        reveal_strlit("use");
    }
    let n = v.len();
    if n < 3 || i > n - 3 {
        return None;
    }
    if !match_at(v, &kw, i) {
        return None;
    }
    let j = ws_run_end(v, i + 3);
    let k = ns_run_end(v, j);
    if !(j > i + 3 && k > j) {
        return None;
    }
    if k < v.len() && v[k] == ';' {
        let cap = sub_chars(v, j, k);
        return Some(chars_to_string(&cap));
    }
    let m = ws_run_end(v, k);
    let askw = str_chars("as");
    assert(askw@.len() == 2) by {
        reveal_strlit("as");
    }
    if !(m > k && n >= 2 && m <= n - 2) {
        return None;
    }
    if !match_at(v, &askw, m) {
        return None;
    }
    let m2 = ws_run_end(v, m + 2);
    let k2 = word_run_end(v, m2);
    if m2 > m + 2 && k2 > m2 && k2 < v.len() && v[k2] == ';' {
        let cap = sub_chars(v, j, k);
        Some(chars_to_string(&cap))
    } else {
        None
    }
}

/// The captured name of the leftmost import on the line.
pub fn use_match_line(v: &Vec<char>) -> (r: Option<String>)
    ensures
        match r {
            Some(s) => spec_use_match(v@) == Some(s@),
            None => spec_use_match(v@) is None,
        },
{
    let mut i: usize = 0;
    while i < v.len()
        invariant
            i <= v@.len(),
            spec_use_match_from(v@, 0) == spec_use_match_from(v@, i as int),
        decreases v@.len() - i,
    {
        let c = use_capture_at(v, i);
        if let Some(s) = c {
            return Some(s);
        }
        i = i + 1;
    }
    None
}


/// One line as the line iterator yields it: a trailing carriage return is
/// dropped.
pub open spec fn spec_chomp_cr(p: Seq<char>) -> Seq<char> {
    if p.len() > 0 && p.last() == '\r' {
        p.drop_last()
    } else {
        p
    }
}

pub open spec fn chomp_pred() -> spec_fn(Seq<char>) -> Seq<char> {
    |p: Seq<char>| spec_chomp_cr(p)
}

/// The lines of a text: split at every newline, the final empty piece of a
/// trailing newline dropped, each line stripped of a trailing carriage
/// return. An empty text has no lines.
pub open spec fn spec_lines(s: Seq<char>) -> Seq<Seq<char>> {
    if s.len() == 0 {
        Seq::<Seq<char>>::empty()
    } else {
        let parts = crate::strings::spec_split(s, '\n');
        let kept = if parts.len() > 0 && parts.last().len() == 0 {
            parts.drop_last()
        } else {
            parts
        };
        kept.map_values(chomp_pred())
    }
}

pub fn split_lines(s: &str) -> (r: Vec<String>)
    ensures
        crate::strings::spec_views(r@) == spec_lines(s@),
{
    let v = str_chars(s);
    if v.len() == 0 {
        let r: Vec<String> = Vec::new();
        assert(crate::strings::spec_views(r@) =~= spec_lines(s@));
        return r;
    }
    let mut parts = crate::strings::split_chars(&v, '\n');
    proof {
        crate::strings::lemma_split_nonempty(s@, '\n');
    }
    let ghost split_all = crate::strings::spec_split(s@, '\n');
    if parts[parts.len() - 1].as_str().unicode_len() == 0 {
        let ghost pre = parts@;
        parts.pop();
        proof {
            assert(parts@ =~= pre.drop_last());
            assert(crate::strings::spec_views(parts@) =~= split_all.drop_last());
        }
    }
    let ghost kept = if split_all.len() > 0 && split_all.last().len() == 0 {
        split_all.drop_last()
    } else {
        split_all
    };
    assert(crate::strings::spec_views(parts@) == kept);
    let mut out: Vec<String> = Vec::new();
    let mut i: usize = 0;
    assert(crate::strings::spec_views(out@) =~= kept.take(0).map_values(chomp_pred()));
    while i < parts.len()
        invariant
            i <= parts@.len(),
            crate::strings::spec_views(parts@) == kept,
            crate::strings::spec_views(out@) == kept.take(i as int).map_values(chomp_pred()),
        decreases parts@.len() - i,
    {
        let mut pv = str_chars(parts[i].as_str());
        if pv.len() > 0 && pv[pv.len() - 1] == '\r' {
            let ghost before = pv@;
            pv.pop();
            proof {
                assert(pv@ =~= before.drop_last());
            }
        }
        assert(pv@ == spec_chomp_cr(kept[i as int]));
        let ghost prev_out = out@;
        out.push(chars_to_string(&pv));
        proof {
            assert(crate::strings::spec_views(out@) =~= crate::strings::spec_views(
                prev_out,
            ).push(pv@));
            assert(kept.take(i + 1).map_values(chomp_pred()) =~= kept.take(
                i as int,
            ).map_values(chomp_pred()).push(spec_chomp_cr(kept[i as int])));
        }
        i = i + 1;
    }
    assert(kept.take(kept.len() as int) =~= kept);
    out
}

/// What one source file declares.
pub struct FileInfo {
    pub namespace: String,
    pub classes: Vec<String>,
    pub interfaces: Vec<String>,
    pub traits: Vec<String>,
    pub uses: Vec<String>,
}

/// The namespace a file carries: the capture of the last line that holds a
/// namespace declaration, or empty.
pub open spec fn spec_file_namespace(lines: Seq<Seq<char>>) -> Seq<char>
    decreases lines.len(),
{
    if lines.len() == 0 {
        Seq::<char>::empty()
    } else {
        match spec_ns_match(lines.last()) {
            Some(ns) => ns,
            None => spec_file_namespace(lines.drop_last()),
        }
    }
}

/// The capture of the first line that holds a namespace declaration, or
/// empty.
pub open spec fn spec_first_namespace(lines: Seq<Seq<char>>) -> Seq<char>
    decreases lines.len(),
{
    if lines.len() == 0 {
        Seq::<char>::empty()
    } else {
        match spec_ns_match(lines.first()) {
            Some(ns) => ns,
            None => spec_first_namespace(lines.drop_first()),
        }
    }
}

/// One keyword capture per matching line, in line order.
pub open spec fn spec_kw_captures(lines: Seq<Seq<char>>, kw: Seq<char>) -> Seq<Seq<char>>
    decreases lines.len(),
{
    if lines.len() == 0 {
        Seq::<Seq<char>>::empty()
    } else {
        let pre = spec_kw_captures(lines.drop_last(), kw);
        match spec_kw_match(lines.last(), kw) {
            Some(c) => pre.push(c),
            None => pre,
        }
    }
}

/// One import capture per matching line, in line order.
pub open spec fn spec_use_captures(lines: Seq<Seq<char>>) -> Seq<Seq<char>>
    decreases lines.len(),
{
    if lines.len() == 0 {
        Seq::<Seq<char>>::empty()
    } else {
        let pre = spec_use_captures(lines.drop_last());
        match spec_use_match(lines.last()) {
            Some(c) => pre.push(c),
            None => pre,
        }
    }
}

/// Scans a file's text line by line and collects its declared namespace
/// (last declaration wins), classes, interfaces, traits and imports.
pub fn analyze_file(contents: &str) -> (r: FileInfo)
    ensures
        r.namespace@ == spec_file_namespace(spec_lines(contents@)),
        crate::strings::spec_views(r.classes@) == spec_kw_captures(spec_lines(contents@), "class"@),
        crate::strings::spec_views(r.interfaces@) == spec_kw_captures(
            spec_lines(contents@),
            "interface"@,
        ),
        crate::strings::spec_views(r.traits@) == spec_kw_captures(spec_lines(contents@), "trait"@),
        crate::strings::spec_views(r.uses@) == spec_use_captures(spec_lines(contents@)),
{
    let lines = split_lines(contents);
    let ghost ls = spec_lines(contents@);
    let class_kw = str_chars("class");
    let interface_kw = str_chars("interface");
    let trait_kw = str_chars("trait");
    proof {
        reveal_strlit("class");
        reveal_strlit("interface");
        reveal_strlit("trait");
    }
    let mut namespace = String::new();
    let mut classes: Vec<String> = Vec::new();
    let mut interfaces: Vec<String> = Vec::new();
    let mut traits: Vec<String> = Vec::new();
    let mut uses: Vec<String> = Vec::new();
    let mut i: usize = 0;
    proof {
        assert(ls.take(0) =~= Seq::<Seq<char>>::empty());
        assert(crate::strings::spec_views(classes@) =~= Seq::<Seq<char>>::empty());
    }
    while i < lines.len()
        invariant
            i <= lines@.len(),
            crate::strings::spec_views(lines@) == ls,
            class_kw@ == "class"@,
            interface_kw@ == "interface"@,
            trait_kw@ == "trait"@,
            class_kw@.len() >= 1,
            interface_kw@.len() >= 1,
            trait_kw@.len() >= 1,
            namespace@ == spec_file_namespace(ls.take(i as int)),
            crate::strings::spec_views(classes@) == spec_kw_captures(ls.take(i as int), "class"@),
            crate::strings::spec_views(interfaces@) == spec_kw_captures(
                ls.take(i as int),
                "interface"@,
            ),
            crate::strings::spec_views(traits@) == spec_kw_captures(ls.take(i as int), "trait"@),
            crate::strings::spec_views(uses@) == spec_use_captures(ls.take(i as int)),
        decreases lines@.len() - i,
    {
        let lv = str_chars(lines[i].as_str());
        assert(lv@ == ls[i as int]);
        proof {
            assert(ls.take(i + 1).drop_last() =~= ls.take(i as int));
            assert(ls.take(i + 1).last() == ls[i as int]);
        }
        if let Some(ns) = ns_match_line(&lv) {
            namespace = ns;
        }
        if let Some(c) = kw_match_line(&lv, &class_kw) {
            classes.push(c);
            assert(crate::strings::spec_views(classes@) =~= crate::strings::spec_views(
                classes@.drop_last(),
            ).push(classes@.last()@));
        }
        if let Some(c) = kw_match_line(&lv, &interface_kw) {
            interfaces.push(c);
            assert(crate::strings::spec_views(interfaces@) =~= crate::strings::spec_views(
                interfaces@.drop_last(),
            ).push(interfaces@.last()@));
        }
        if let Some(c) = kw_match_line(&lv, &trait_kw) {
            traits.push(c);
            assert(crate::strings::spec_views(traits@) =~= crate::strings::spec_views(
                traits@.drop_last(),
            ).push(traits@.last()@));
        }
        if let Some(c) = use_match_line(&lv) {
            uses.push(c);
            assert(crate::strings::spec_views(uses@) =~= crate::strings::spec_views(
                uses@.drop_last(),
            ).push(uses@.last()@));
        }
        i = i + 1;
    }
    assert(ls.take(ls.len() as int) =~= ls);
    FileInfo { namespace, classes, interfaces, traits, uses }
}

/// The first namespace a file declares, or the empty string: what the
/// placement validator compares against the expected namespace.
pub fn extract_namespace(contents: &str) -> (r: String)
    ensures
        r@ == spec_first_namespace(spec_lines(contents@)),
{
    let lines = split_lines(contents);
    let ghost ls = spec_lines(contents@);
    let mut i: usize = 0;
    assert(ls.skip(0) =~= ls);
    while i < lines.len()
        invariant
            i <= lines@.len(),
            ls == spec_lines(contents@),
            crate::strings::spec_views(lines@) == ls,
            spec_first_namespace(ls) == spec_first_namespace(ls.skip(i as int)),
        decreases lines@.len() - i,
    {
        let lv = str_chars(lines[i].as_str());
        assert(lv@ == ls[i as int]);
        proof {
            assert(ls.skip(i as int).first() == ls[i as int]);
            assert(ls.skip(i as int).drop_first() =~= ls.skip(i + 1));
        }
        if let Some(ns) = ns_match_line(&lv) {
            assert(spec_first_namespace(ls.skip(i as int)) == ns@);
            return ns;
        }
        i = i + 1;
    }
    assert(ls.skip(ls.len() as int).len() == 0);
    String::new()
}

} // verus!
