//! Finding the CMake package and targets of a vcpkg port: matching a
//! dependency name against the packages found in the share directory, and
//! reading the targets that its `*Targets.cmake` files export.
//!
//! Listing directories and reading files is the caller's part.

use vstd::prelude::*;
use crate::models::lex_lt;
use crate::text::{
    views, lower, replace_char, contains, ends_with, starts_with, trim, is_ws, text_lines,
    to_lower, replace_char_str, str_eq, str_contains, str_ends_with, str_starts_with, trim_str,
    chars_of, string_from_range, text_lines_of, push_line, is_whitespace,
};
use crate::commands::edit::str_lt;

verus! {

// ---------------------------------------------------------------------------
// Matching a dependency to packages
// ---------------------------------------------------------------------------

/// A name for matching: ASCII lower case with `-` made `_`.
pub open spec fn match_key(s: Seq<char>) -> Seq<char> {
    replace_char(lower(s), '-', '_')
}

fn match_key_exec(s: &str) -> (res: String)
    ensures
        res@ == match_key(s@),
{
    replace_char_str(to_lower(s).as_str(), '-', '_')
}

/// The packages among the first `k` whose key equals the dependency's.
pub open spec fn exact_upto(dep: Seq<char>, pkgs: Seq<(String, String)>, k: int) -> Seq<(Seq<char>, Seq<char>)>
    decreases k,
{
    if k <= 0 {
        Seq::empty()
    } else if match_key(pkgs[k - 1].0@) == match_key(dep) {
        exact_upto(dep, pkgs, k - 1).push((pkgs[k - 1].0@, pkgs[k - 1].1@))
    } else {
        exact_upto(dep, pkgs, k - 1)
    }
}

/// The packages among the first `k` whose key holds the dependency's key or
/// is held in it, without being equal to it.
pub open spec fn partial_upto(dep: Seq<char>, pkgs: Seq<(String, String)>, k: int) -> Seq<(Seq<char>, Seq<char>)>
    decreases k,
{
    if k <= 0 {
        Seq::empty()
    } else {
        let p = match_key(pkgs[k - 1].0@);
        let d = match_key(dep);
        if p != d && (contains(p, d) || contains(d, p)) {
            partial_upto(dep, pkgs, k - 1).push((pkgs[k - 1].0@, pkgs[k - 1].1@))
        } else {
            partial_upto(dep, pkgs, k - 1)
        }
    }
}

/// The packages (name, config path) that match a dependency, best first:
/// those whose name equals it ignoring ASCII case and `-`/`_`, then those
/// whose name holds it or is held in it, each group in the given order.
pub open spec fn spec_match_packages(dep: Seq<char>, pkgs: Seq<(String, String)>) -> Seq<(Seq<char>, Seq<char>)> {
    exact_upto(dep, pkgs, pkgs.len() as int) + partial_upto(dep, pkgs, pkgs.len() as int)
}

/// The view of a list of named paths.
pub open spec fn pairs_view(s: Seq<(String, String)>) -> Seq<(Seq<char>, Seq<char>)> {
    s.map_values(|p: (String, String)| (p.0@, p.1@))
}

/// Matches a dependency name against the packages found (see
/// `spec_match_packages`).
pub fn match_dep_to_packages(dep_name: &str, packages: &Vec<(String, String)>) -> (res: Vec<(String, String)>)
    ensures
        pairs_view(res@) == spec_match_packages(dep_name@, packages@),
{
    let d = match_key_exec(dep_name);
    let mut exact: Vec<(String, String)> = Vec::new();
    let mut partial: Vec<(String, String)> = Vec::new();
    let mut k: usize = 0;
    while k < packages.len()
        invariant
            k <= packages@.len(),
            d@ == match_key(dep_name@),
            pairs_view(exact@) == exact_upto(dep_name@, packages@, k as int),
            pairs_view(partial@) == partial_upto(dep_name@, packages@, k as int),
        decreases packages.len() - k,
    {
        let p = match_key_exec(packages[k].0.as_str());
        let ghost pe = exact@;
        let ghost pp = partial@;
        if str_eq(p.as_str(), d.as_str()) {
            exact.push((packages[k].0.clone(), packages[k].1.clone()));
            assert(pairs_view(exact@) =~= pairs_view(pe).push((packages@[k as int].0@, packages@[k as int].1@)));
        } else if str_contains(p.as_str(), d.as_str()) || str_contains(d.as_str(), p.as_str()) {
            partial.push((packages[k].0.clone(), packages[k].1.clone()));
            assert(pairs_view(partial@) =~= pairs_view(pp).push((packages@[k as int].0@, packages@[k as int].1@)));
        }
        k += 1;
    }
    let ghost pe = exact@;
    let mut q: usize = 0;
    while q < partial.len()
        invariant
            q <= partial@.len(),
            pairs_view(exact@) == pairs_view(pe) + pairs_view(partial@).take(q as int),
        decreases partial.len() - q,
    {
        let ghost before = exact@;
        exact.push((partial[q].0.clone(), partial[q].1.clone()));
        assert(pairs_view(exact@) =~= pairs_view(before).push((partial@[q as int].0@, partial@[q as int].1@)));
        assert(pairs_view(partial@).take(q + 1) =~= pairs_view(partial@).take(q as int).push(
            (partial@[q as int].0@, partial@[q as int].1@),
        ));
        q += 1;
    }
    assert(pairs_view(partial@).take(partial@.len() as int) =~= pairs_view(partial@));
    exact
}

/// A package whose key equals the dependency's.
pub open spec fn exact_match(dep: Seq<char>) -> spec_fn((Seq<char>, Seq<char>)) -> bool {
    |p: (Seq<char>, Seq<char>)| match_key(p.0) == match_key(dep)
}

/// A package whose key holds the dependency's key or is held in it, without
/// being equal to it.
pub open spec fn partial_match(dep: Seq<char>) -> spec_fn((Seq<char>, Seq<char>)) -> bool {
    |p: (Seq<char>, Seq<char>)| {
        let k = match_key(p.0);
        let d = match_key(dep);
        k != d && (contains(k, d) || contains(d, k))
    }
}

proof fn lemma_match_upto(dep: Seq<char>, pkgs: Seq<(String, String)>, k: int)
    requires
        0 <= k <= pkgs.len(),
    ensures
        exact_upto(dep, pkgs, k) == pairs_view(pkgs).take(k).filter(exact_match(dep)),
        partial_upto(dep, pkgs, k) == pairs_view(pkgs).take(k).filter(partial_match(dep)),
        exact_upto(dep, pkgs, k).len() + partial_upto(dep, pkgs, k).len() <= k,
    decreases k,
{
    let v = pairs_view(pkgs);
    if k == 0 {
        reveal(Seq::filter);
        assert(v.take(0) =~= Seq::<(Seq<char>, Seq<char>)>::empty());
    } else {
        lemma_match_upto(dep, pkgs, k - 1);
        assert(v.take(k) =~= v.take(k - 1).push(v[k - 1]));
        assert(v[k - 1] == (pkgs[k - 1].0@, pkgs[k - 1].1@));
        v.take(k - 1).lemma_filter_push(v[k - 1], exact_match(dep));
        v.take(k - 1).lemma_filter_push(v[k - 1], partial_match(dep));
    }
}

/// Matching picks packages in their given order: first those whose name
/// equals the dependency's (ignoring ASCII case and `-`/`_`), then those
/// whose name holds it or is held in it; so it never gives more entries than
/// there are packages.
pub proof fn lemma_match_is_two_filters(dep: Seq<char>, pkgs: Seq<(String, String)>)
    ensures
        spec_match_packages(dep, pkgs) == pairs_view(pkgs).filter(exact_match(dep)) + pairs_view(pkgs).filter(
            partial_match(dep),
        ),
        spec_match_packages(dep, pkgs).len() <= pkgs.len(),
{
    lemma_match_upto(dep, pkgs, pkgs.len() as int);
    assert(pairs_view(pkgs).take(pkgs.len() as int) =~= pairs_view(pkgs));
}

// ---------------------------------------------------------------------------
// Exported targets
// ---------------------------------------------------------------------------

/// A file that lists exported targets: `*Targets.cmake` or
/// `*-targets.cmake`, but not a per-configuration one.
pub open spec fn is_targets_file(f: Seq<char>) -> bool {
    &&& (ends_with(f, "Targets.cmake"@) || ends_with(f, "-targets.cmake"@))
    &&& !contains(f, "-targets-debug"@)
    &&& !contains(f, "-targets-release"@)
    &&& !contains(f, "-targets-relwithdebinfo"@)
    &&& !contains(f, "-targets-minsizerel"@)
}

/// Whether a file name lists exported targets (see `is_targets_file`).
pub fn targets_file(f: &str) -> (res: bool)
    ensures
        res == is_targets_file(f@),
{
    (str_ends_with(f, "Targets.cmake") || str_ends_with(f, "-targets.cmake")) && !str_contains(f, "-targets-debug")
        && !str_contains(f, "-targets-release") && !str_contains(f, "-targets-relwithdebinfo")
        && !str_contains(f, "-targets-minsizerel")
}

/// Index of the first white-space or `)` character at or after `i`.
pub open spec fn name_end(s: Seq<char>, i: int) -> Option<int>
    decreases s.len() - i,
{
    if i < 0 || i >= s.len() {
        None
    } else if is_ws(s[i]) || s[i] == ')' {
        Some(i)
    } else {
        name_end(s, i + 1)
    }
}

/// The target that a line declares with `add_library(Ns::Name ...)`: the
/// name up to white space or `)`, when it holds `::`.
pub open spec fn line_target(line: Seq<char>) -> Option<Seq<char>> {
    let t = trim(line);
    let pre = "add_library("@;
    if starts_with(t, pre) {
        let rest = t.skip(pre.len() as int);
        match name_end(rest, 0) {
            Some(e) => if contains(rest.take(e), "::"@) {
                Some(rest.take(e))
            } else {
                None
            },
            None => None,
        }
    } else {
        None
    }
}

/// The target a line declares (see `line_target`).
pub fn parse_line_target(line: &str) -> (res: Option<String>)
    ensures
        crate::text::opt_view_s(res) == line_target(line@),
{
    let t = trim_str(line);
    if !str_starts_with(t.as_str(), "add_library(") {
        return None;
    }
    proof {
        reveal_strlit("add_library(");
    }
    let v = chars_of(t.as_str());
    let mut i: usize = 12;
    assert(v@.skip(12).len() == v@.len() - 12);
    while i < v.len() && !(is_whitespace(v[i]) || v[i] == ')')
        invariant
            12 <= i <= v@.len(),
            v@ == t@,
            name_end(t@.skip(12), 0) == name_end(t@.skip(12), i - 12),
        decreases v.len() - i,
    {
        assert(t@.skip(12)[i - 12] == v@[i as int]);
        i += 1;
    }
    if i == v.len() {
        assert(name_end(t@.skip(12), i - 12) is None);
        return None;
    }
    assert(t@.skip(12)[i - 12] == v@[i as int]);
    let name = string_from_range(&v, 12, i);
    assert(name@ =~= t@.skip(12).take(i - 12));
    if str_contains(name.as_str(), "::") {
        Some(name)
    } else {
        None
    }
}

/// The targets declared in the listed files (name and contents): every
/// line of a targets file that declares one, across the files in order.
pub open spec fn declared_in_lines(ls: Seq<Seq<char>>, t: Seq<char>) -> bool {
    exists|i: int| 0 <= i < ls.len() && line_target(ls[i]) == Some(t)
}

pub open spec fn declared(files: Seq<(String, String)>, t: Seq<char>) -> bool {
    exists|f: int| 0 <= f < files.len() && is_targets_file(files[f].0@) && declared_in_lines(text_lines(files[f].1@), t)
}

/// One of the first `i` lines declares `t`.
pub open spec fn found_in(ls: Seq<Seq<char>>, i: int, t: Seq<char>) -> bool {
    exists|q: int| 0 <= q < i && #[trigger] line_target(ls[q]) == Some(t)
}

/// Strictly ascending, so each target once.
pub open spec fn ascending(s: Seq<Seq<char>>) -> bool {
    forall|i: int, j: int| 0 <= i < j < s.len() ==> lex_lt(s[i], s[j])
}

fn insert_sorted(v: &mut Vec<String>, x: String)
    requires
        ascending(views(old(v)@)),
    ensures
        ascending(views(final(v)@)),
        forall|t: Seq<char>| views(final(v)@).contains(t) <==> (views(old(v)@).contains(t) || t == x@),
{
    let ghost o = views(v@);
    let mut i: usize = 0;
    while i < v.len() && str_lt(v[i].as_str(), x.as_str())
        invariant
            i <= v@.len(),
            views(v@) == o,
            forall|k: int| 0 <= k < i ==> lex_lt(o[k], x@),
        decreases v.len() - i,
    {
        assert(o[i as int] == v@[i as int]@);
        i += 1;
    }
    if i < v.len() && str_eq(v[i].as_str(), x.as_str()) {
        assert(o[i as int] == x@);
        return;
    }
    proof {
        if i < o.len() {
            assert(o[i as int] == v@[i as int]@);
            assert(!lex_lt(o[i as int], x@));
            crate::models::lemma_lex_total(o[i as int], x@);
        }
    }
    let ghost xv = x@;
    v.insert(i, x);
    proof {
        let n = views(v@);
        assert(n =~= o.insert(i as int, xv));
        assert forall|a: int, b: int| 0 <= a < b < n.len() implies lex_lt(n[a], n[b]) by {
            if b < i {
            } else if a > i {
                assert(n[a] == o[a - 1] && n[b] == o[b - 1]);
            } else if a == i {
                if b - 1 > i {
                    crate::models::lemma_lex_trans(xv, o[i as int], o[b - 1]);
                }
            } else {
                if b == i {
                } else {
                    if b - 1 > i {
                        crate::models::lemma_lex_trans(xv, o[i as int], o[b - 1]);
                    }
                    crate::models::lemma_lex_trans(o[a], xv, o[b - 1]);
                }
            }
        }
        assert forall|t: Seq<char>| n.contains(t) <==> (o.contains(t) || t == xv) by {
            if n.contains(t) {
                let k = choose|k: int| 0 <= k < n.len() && n[k] == t;
                if k < i {
                    assert(o[k] == t);
                } else if k > i {
                    assert(o[k - 1] == t);
                }
            }
            if o.contains(t) {
                let k = choose|k: int| 0 <= k < o.len() && o[k] == t;
                if k < i {
                    assert(n[k] == t);
                } else {
                    assert(n[k + 1] == t);
                }
            }
            if t == xv {
                assert(n[i as int] == t);
            }
        }
    }
}

/// The exported targets of a package, each once and in ascending order,
/// from the files of its share directory (name and contents).
pub fn discover_cmake_targets(files: &Vec<(String, String)>) -> (res: Vec<String>)
    ensures
        ascending(views(res@)),
        forall|t: Seq<char>| views(res@).contains(t) <==> declared(files@, t),
{
    let mut targets: Vec<String> = Vec::new();
    let mut f: usize = 0;
    while f < files.len()
        invariant
            f <= files@.len(),
            ascending(views(targets@)),
            forall|t: Seq<char>| views(targets@).contains(t) <==> declared(files@.take(f as int), t),
        decreases files.len() - f,
    {
        let ghost before = views(targets@);
        if targets_file(files[f].0.as_str()) {
            let ls = text_lines_of(files[f].1.as_str());
            let mut i: usize = 0;
            while i < ls.len()
                invariant
                    i <= ls@.len(),
                    views(ls@) == text_lines(files@[f as int].1@),
                    ascending(views(targets@)),
                    forall|t: Seq<char>| #[trigger] views(targets@).contains(t) <==> (before.contains(t) || found_in(views(ls@), i as int, t)),
                decreases ls.len() - i,
            {
                assert(views(ls@)[i as int] == ls@[i as int]@);
                let ghost pre = views(targets@);
                let ghost lt = line_target(views(ls@)[i as int]);
                match parse_line_target(ls[i].as_str()) {
                    Some(t) => insert_sorted(&mut targets, t),
                    None => {},
                }
                proof {
                    assert forall|t: Seq<char>| #[trigger] views(targets@).contains(t) <==> (before.contains(t) || found_in(views(ls@), i + 1, t)) by {
                        if found_in(views(ls@), i + 1, t) {
                            let q = choose|q: int| 0 <= q < i + 1 && #[trigger] line_target(views(ls@)[q]) == Some(t);
                            if q < i {
                                assert(found_in(views(ls@), i as int, t));
                            } else {
                                assert(lt == Some(t));
                            }
                        }
                        if found_in(views(ls@), i as int, t) {
                            let q = choose|q: int| 0 <= q < i && #[trigger] line_target(views(ls@)[q]) == Some(t);
                            assert(found_in(views(ls@), i + 1, t));
                        }
                        if pre.contains(t) != views(targets@).contains(t) {
                            assert(lt == Some(t));
                            assert(found_in(views(ls@), i + 1, t));
                        }
                    }
                }
                i += 1;
            }
        }
        proof {
            assert forall|t: Seq<char>| views(targets@).contains(t) <==> declared(files@.take(f + 1), t) by {
                let fs = files@.take(f + 1);
                assert(fs[f as int] == files@[f as int]);
                if is_targets_file(files@[f as int].0@) {
                    if declared_in_lines(text_lines(files@[f as int].1@), t) {
                        let q = choose|q: int| 0 <= q < text_lines(files@[f as int].1@).len() && line_target(text_lines(files@[f as int].1@)[q]) == Some(t);
                        assert(declared(fs, t));
                    }
                }
                if declared(fs, t) {
                    let g = choose|g: int| 0 <= g < fs.len() && is_targets_file(fs[g].0@) && declared_in_lines(text_lines(fs[g].1@), t);
                    if g < f {
                        assert(files@.take(f as int)[g] == fs[g]);
                        assert(declared(files@.take(f as int), t));
                    }
                }
                if declared(files@.take(f as int), t) {
                    let g = choose|g: int| 0 <= g < f && is_targets_file(files@.take(f as int)[g].0@) && declared_in_lines(text_lines(files@.take(f as int)[g].1@), t);
                    assert(fs[g] == files@.take(f as int)[g]);
                }
            }
        }
        f += 1;
    }
    assert(files@.take(files@.len() as int) =~= files@);
    targets
}

} // verus!
