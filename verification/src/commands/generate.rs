//! `triton generate` on the model: repairs of malformed entries, merging of
//! duplicate dependencies, validation, and the entries of the vcpkg manifest.

use vstd::prelude::*;
use crate::models::{
    TritonRoot, TritonComponent, DepSpec, GitDep, DepDetailed, CMakeOverride, CMakeCacheEntry,
    LinkEntry, dep_name, entry_name, opt_view, clone_opt, clone_strings, root_wf,
};
use crate::text::{
    views, trim, find_char, split_char, lower, replace_char, opt_view_s, to_owned, trim_str,
    chars_of, string_from_range, find_char_in, split_str, str_eq, push_line, is_blank, to_lower,
    replace_char_str,
};
use crate::util::validation::{ValidationError, validation_ok, validate_triton_root};
use crate::cmake::platform::{spec_dep_is_active, dep_active_defined, dep_is_active};
use crate::commands::link::same_but_links;

verus! {

// ---------------------------------------------------------------------------
// Views of dependencies
// ---------------------------------------------------------------------------

/// A cache override as plain values.
pub enum OverrideV {
    Entry(Seq<char>, Seq<char>, Seq<char>),
    KV(Seq<char>),
}

/// A dependency as plain values.
pub enum DepV {
    Simple(Seq<char>),
    Git { repo: Seq<char>, name: Seq<char>, branch: Option<Seq<char>>, cmake: Seq<OverrideV> },
    Detailed {
        name: Seq<char>,
        os: Seq<Seq<char>>,
        package: Option<Seq<char>>,
        triplet: Seq<Seq<char>>,
        features: Seq<Seq<char>>,
    },
}

pub open spec fn override_view(o: CMakeOverride) -> OverrideV {
    match o {
        CMakeOverride::Entry(e) => OverrideV::Entry(e.var@, e.val@, e.typ@),
        CMakeOverride::KV(s) => OverrideV::KV(s@),
    }
}

pub open spec fn dep_view(d: DepSpec) -> DepV {
    match d {
        DepSpec::Simple(n) => DepV::Simple(n@),
        DepSpec::Git(g) => DepV::Git {
            repo: g.repo@,
            name: g.name@,
            branch: opt_view(g.branch),
            cmake: g.cmake@.map_values(|o: CMakeOverride| override_view(o)),
        },
        DepSpec::Detailed(x) => DepV::Detailed {
            name: x.name@,
            os: views(x.os@),
            package: opt_view(x.package),
            triplet: views(x.triplet@),
            features: views(x.features@),
        },
    }
}

pub open spec fn deps_view(s: Seq<DepSpec>) -> Seq<DepV> {
    s.map_values(|d: DepSpec| dep_view(d))
}

pub open spec fn depv_name(d: DepV) -> Seq<char> {
    match d {
        DepV::Simple(n) => n,
        DepV::Git { name, .. } => name,
        DepV::Detailed { name, .. } => name,
    }
}

fn clone_override(o: &CMakeOverride) -> (res: CMakeOverride)
    ensures
        override_view(res) == override_view(*o),
{
    match o {
        CMakeOverride::Entry(e) => CMakeOverride::Entry(
            CMakeCacheEntry { var: e.var.clone(), val: e.val.clone(), typ: e.typ.clone() },
        ),
        CMakeOverride::KV(s) => CMakeOverride::KV(s.clone()),
    }
}

/// A copy of a dependency.
pub fn clone_dep(d: &DepSpec) -> (res: DepSpec)
    ensures
        dep_view(res) == dep_view(*d),
{
    match d {
        DepSpec::Simple(n) => DepSpec::Simple(n.clone()),
        DepSpec::Git(g) => {
            let mut cm: Vec<CMakeOverride> = Vec::new();
            let mut i: usize = 0;
            while i < g.cmake.len()
                invariant
                    i <= g.cmake@.len(),
                    cm@.len() == i,
                    forall|q: int| 0 <= q < i ==> override_view(#[trigger] cm@[q]) == override_view(g.cmake@[q]),
                decreases g.cmake.len() - i,
            {
                cm.push(clone_override(&g.cmake[i]));
                i += 1;
            }
            assert(cm@.map_values(|o: CMakeOverride| override_view(o)) =~= g.cmake@.map_values(|o: CMakeOverride| override_view(o)));
            DepSpec::Git(GitDep { repo: g.repo.clone(), name: g.name.clone(), branch: clone_opt(&g.branch), cmake: cm })
        },
        DepSpec::Detailed(x) => DepSpec::Detailed(
            DepDetailed {
                name: x.name.clone(),
                os: clone_strings(&x.os),
                package: clone_opt(&x.package),
                triplet: clone_strings(&x.triplet),
                features: clone_strings(&x.features),
            },
        ),
    }
}

// ---------------------------------------------------------------------------
// Malformed dependencies
// ---------------------------------------------------------------------------

/// The features of `pkg[a,b]`: what follows `[` without trailing `]`,
/// split at `,`, trimmed, empty ones dropped.
pub open spec fn bracket_features(rest: Seq<char>) -> Seq<Seq<char>> {
    nonempty_pieces(split_char(strip_closing(rest), ','), split_char(strip_closing(rest), ',').len() as int)
}

/// The text without trailing `]`.
pub open spec fn strip_closing(s: Seq<char>) -> Seq<char>
    decreases s.len(),
{
    if s.len() > 0 && s.last() == ']' {
        strip_closing(s.drop_last())
    } else {
        s
    }
}

/// The trimmed non-empty pieces among the first `k`.
pub open spec fn nonempty_pieces(p: Seq<Seq<char>>, k: int) -> Seq<Seq<char>>
    decreases k,
{
    if k <= 0 {
        Seq::empty()
    } else if trim(p[k - 1]).len() > 0 {
        nonempty_pieces(p, k - 1).push(trim(p[k - 1]))
    } else {
        nonempty_pieces(p, k - 1)
    }
}

/// A dependency after the repair of `pkg[features]` written as a plain
/// name: it becomes a detailed dependency with those features.
pub open spec fn fixed_dep(d: DepV) -> DepV {
    match d {
        DepV::Simple(s) => match find_char(s, '[') {
            Some(b) => DepV::Detailed {
                name: trim(s.take(b)),
                os: Seq::empty(),
                package: None,
                triplet: Seq::empty(),
                features: bracket_features(s.skip(b + 1)),
            },
            None => d,
        },
        _ => d,
    }
}

/// Every dependency after the bracket repair.
pub open spec fn fixed_deps(s: Seq<DepV>) -> Seq<DepV> {
    s.map_values(|d: DepV| fixed_dep(d))
}

/// A plain dependency written with brackets.
pub open spec fn is_malformed_dep(d: DepV) -> bool {
    d matches DepV::Simple(s) && find_char(s, '[') is Some
}

/// The trimmed, non-empty pieces of a comma-separated list.
pub open spec fn comma_list(s: Seq<char>) -> Seq<Seq<char>> {
    nonempty_pieces(split_char(s, ','), split_char(s, ',').len() as int)
}

/// The trimmed, non-empty pieces of a comma-separated list, in order.
pub fn comma_list_exec(s: &str) -> (res: Vec<String>)
    ensures
        views(res@) == comma_list(s@),
{
    let pieces = split_str(s, ',');
    let mut out: Vec<String> = Vec::new();
    let mut k: usize = 0;
    while k < pieces.len()
        invariant
            k <= pieces@.len(),
            views(pieces@) == split_char(s@, ','),
            views(out@) == nonempty_pieces(views(pieces@), k as int),
        decreases pieces.len() - k,
    {
        assert(views(pieces@)[k as int] == pieces@[k as int]@);
        if !is_blank(pieces[k].as_str()) {
            push_line(&mut out, trim_str(pieces[k].as_str()));
        }
        k += 1;
    }
    out
}

fn bracket_features_exec(rest: &str) -> (res: Vec<String>)
    ensures
        views(res@) == bracket_features(rest@),
{
    let v = chars_of(rest);
    let mut n = v.len();
    assert(v@.take(n as int) =~= rest@);
    while n > 0 && v[n - 1] == ']'
        invariant
            n <= v@.len(),
            v@ == rest@,
            strip_closing(rest@) == strip_closing(v@.take(n as int)),
        decreases n,
    {
        assert(v@.take(n as int).drop_last() =~= v@.take(n - 1));
        n -= 1;
    }
    let body = string_from_range(&v, 0, n);
    assert(body@ =~= strip_closing(rest@));
    comma_list_exec(body.as_str())
}

/// Rewrites `pkg[features]` plain dependencies as detailed ones; tells
/// whether any was rewritten.
pub fn fix_malformed_deps(root: &mut TritonRoot) -> (fixed: bool)
    ensures
        final(root).app_name == old(root).app_name,
        final(root).generator == old(root).generator,
        final(root).cxx_std == old(root).cxx_std,
        final(root).c_std == old(root).c_std,
        final(root).components == old(root).components,
        final(root).scripts == old(root).scripts,
        deps_view(final(root).deps@) == fixed_deps(deps_view(old(root).deps@)),
        fixed == exists|i: int| 0 <= i < old(root).deps@.len() && is_malformed_dep(dep_view(#[trigger] old(root).deps@[i])),
{
    let ghost o = root.deps@;
    let mut fixed = false;
    let mut i: usize = 0;
    while i < root.deps.len()
        invariant
            i <= root.deps@.len(),
            root.deps@.len() == o.len(),
            root.app_name == old(root).app_name,
            root.components == old(root).components,
            root.scripts == old(root).scripts,
            root.generator == old(root).generator,
            root.cxx_std == old(root).cxx_std,
            root.c_std == old(root).c_std,
            o == old(root).deps@,
            forall|k: int| i <= k < o.len() ==> root.deps@[k] == o[k],
            forall|k: int| 0 <= k < i ==> dep_view(#[trigger] root.deps@[k]) == fixed_dep(dep_view(o[k])),
            fixed == exists|k: int| 0 <= k < i && is_malformed_dep(dep_view(#[trigger] o[k])),
        decreases root.deps.len() - i,
    {
        let mut replacement: Option<DepSpec> = None;
        assert(root.deps@[i as int] == o[i as int]);
        match &root.deps[i] {
            DepSpec::Simple(s) => {
                let v = chars_of(s.as_str());
                match find_char_in(&v, '[') {
                    Some(b) => {
                        let name = trim_str(string_from_range(&v, 0, b).as_str());
                        let rest = string_from_range(&v, b + 1, v.len());
                        assert(v@.subrange(0, b as int) =~= s@.take(b as int));
                        assert(v@.subrange(b + 1, v@.len() as int) =~= s@.skip(b + 1));
                        let features = bracket_features_exec(rest.as_str());
                        let os: Vec<String> = Vec::new();
                        let triplet: Vec<String> = Vec::new();
                        assert(views(os@) =~= Seq::<Seq<char>>::empty());
                        assert(views(triplet@) =~= Seq::<Seq<char>>::empty());
                        let nd = DepSpec::Detailed(DepDetailed { name, os, package: None, triplet, features });
                        assert(dep_view(nd) == fixed_dep(dep_view(root.deps@[i as int])));
                        replacement = Some(nd);
                    },
                    None => {},
                }
            },
            _ => {},
        }
        assert(replacement is None ==> fixed_dep(dep_view(o[i as int])) == dep_view(o[i as int]));
        match replacement {
            Some(d) => {
                let ghost before = root.deps@;
                root.deps.set(i, d);
                fixed = true;
            },
            None => {},
        }
        assert(forall|k: int| 0 <= k < i + 1 ==> dep_view(#[trigger] root.deps@[k]) == fixed_dep(dep_view(o[k])));
        i += 1;
    }
    assert(deps_view(root.deps@) =~= fixed_deps(deps_view(o)));
    fixed
}

// ---------------------------------------------------------------------------
// Malformed links
// ---------------------------------------------------------------------------

/// A plain link entry written with brackets loses them (the name is what
/// precedes `[`, trimmed).
pub open spec fn fixed_link_name(e: LinkEntry) -> Seq<char> {
    match e {
        LinkEntry::Name(s) => match find_char(s@, '[') {
            Some(b) => trim(s@.take(b)),
            None => s@,
        },
        _ => entry_name(e),
    }
}

/// A plain link entry written with brackets.
pub open spec fn is_malformed_link(e: LinkEntry) -> bool {
    e matches LinkEntry::Name(s) && find_char(s@, '[') is Some
}

/// The entries, by their names after the repair, of which only the first of
/// each name stays; `seen` holds the names of earlier entries.
pub open spec fn first_of_names(names: Seq<Seq<char>>, k: int) -> Seq<int>
    decreases k,
{
    if k <= 0 {
        Seq::empty()
    } else {
        let prev = first_of_names(names, k - 1);
        if exists|j: int| 0 <= j < k - 1 && #[trigger] names[j] == names[k - 1] {
            prev
        } else {
            prev.push(k - 1)
        }
    }
}


/// The names of the entries after the bracket repair.
pub open spec fn fixed_names(l: Seq<LinkEntry>) -> Seq<Seq<char>> {
    l.map_values(|e: LinkEntry| fixed_link_name(e))
}

/// `after` holds, in order, the repaired entries of `before` that are the
/// first of their name.
pub open spec fn links_repaired(before: Seq<LinkEntry>, after: Seq<LinkEntry>) -> bool {
    let firsts = first_of_names(fixed_names(before), before.len() as int);
    &&& after.len() == firsts.len()
    &&& forall|q: int| 0 <= q < after.len() ==> {
        let j = firsts[q];
        if is_malformed_link(before[j]) {
            (#[trigger] after[q]) matches LinkEntry::Name(s) && s@ == fixed_link_name(before[j])
        } else {
            after[q] == before[j]
        }
    }
}

proof fn lemma_first_of_names_bounds(names: Seq<Seq<char>>, k: int)
    requires
        0 <= k <= names.len(),
    ensures
        forall|q: int| 0 <= q < first_of_names(names, k).len() ==> 0 <= #[trigger] first_of_names(names, k)[q] < k,
    decreases k,
{
    if k > 0 {
        lemma_first_of_names_bounds(names, k - 1);
        let prev = first_of_names(names, k - 1);
        assert forall|q: int| 0 <= q < first_of_names(names, k).len() implies 0 <= #[trigger] first_of_names(names, k)[q] < k by {
            if q < prev.len() {
                assert(first_of_names(names, k)[q] == prev[q]);
            }
        }
    }
}

/// `after` holds the repaired first-of-name entries among the first `k` of
/// `before`.
pub open spec fn links_repaired_upto(before: Seq<LinkEntry>, after: Seq<LinkEntry>, k: int) -> bool {
    let firsts = first_of_names(fixed_names(before), k);
    &&& after.len() == firsts.len()
    &&& forall|q: int| 0 <= q < after.len() ==> {
        let j = firsts[q];
        if is_malformed_link(before[j]) {
            (#[trigger] after[q]) matches LinkEntry::Name(s) && s@ == fixed_link_name(before[j])
        } else {
            after[q] == before[j]
        }
    }
}

fn fixed_name_of(e: &LinkEntry) -> (res: (String, bool))
    ensures
        res.0@ == fixed_link_name(*e),
        res.1 == is_malformed_link(*e),
{
    match e {
        LinkEntry::Name(s) => {
            let v = chars_of(s.as_str());
            match find_char_in(&v, '[') {
                Some(b) => {
                    let t = trim_str(string_from_range(&v, 0, b).as_str());
                    assert(v@.subrange(0, b as int) =~= s@.take(b as int));
                    (t, true)
                },
                None => (s.clone(), false),
            }
        },
        _ => {
            let (n, _) = e.normalize();
            (n, false)
        },
    }
}

/// Some seen name is `x`.
pub open spec fn seen_has(seen: Seq<String>, x: Seq<char>) -> bool {
    exists|q: int| 0 <= q < seen.len() && (#[trigger] seen[q])@ == x
}

/// One of the first `j` names is `x`.
pub open spec fn names_has(names: Seq<Seq<char>>, j: int, x: Seq<char>) -> bool {
    exists|p: int| 0 <= p < j && #[trigger] names[p] == x
}

fn repair_links(links: &mut Vec<LinkEntry>) -> (fixed: bool)
    ensures
        links_repaired(old(links)@, final(links)@),
        fixed == exists|i: int| 0 <= i < old(links)@.len() && is_malformed_link(#[trigger] old(links)@[i]),
{
    let ghost o = links@;
    let ghost names = fixed_names(o);
    let mut src: Vec<LinkEntry> = Vec::new();
    std::mem::swap(&mut src, links);
    assert(src@ == o);
    assert(links@.len() == 0);
    let n = src.len();
    let mut seen: Vec<String> = Vec::new();
    let mut fixed = false;
    let mut j: usize = 0;
    assert(o.skip(0) =~= o);
    while j < n
        invariant
            j <= n,
            n == o.len(),
            names == fixed_names(o),
            src@ == o.skip(j as int),
            forall|x: Seq<char>| #[trigger] seen_has(seen@, x) <==> names_has(names, j as int, x),
            links_repaired_upto(o, links@, j as int),
            fixed == exists|i: int| 0 <= i < j && is_malformed_link(#[trigger] o[i]),
        decreases n - j,
    {
        assert(src@[0] == o[j as int]);
        let e = src.remove(0);
        assert(src@ =~= o.skip(j + 1));
        let (name, bad) = fixed_name_of(&e);
        assert(names[j as int] == name@);
        let mut dup = false;
        let mut q: usize = 0;
        while q < seen.len()
            invariant
                q <= seen@.len(),
                dup == exists|r: int| 0 <= r < q && seen@[r]@ == name@,
            decreases seen.len() - q,
        {
            if str_eq(seen[q].as_str(), name.as_str()) {
                dup = true;
            }
            q += 1;
        }
        let ghost before_links = links@;
        let ghost before_seen = seen@;
        if !dup {
            if bad {
                links.push(LinkEntry::Name(name.clone()));
            } else {
                links.push(e);
            }
            seen.push(name);
        }
        if bad {
            fixed = true;
        }
        proof {
            let f0 = first_of_names(names, j as int);
            lemma_first_of_names_bounds(names, j as int);
            if dup {
                let r = choose|r: int| 0 <= r < before_seen.len() && before_seen[r]@ == name@;
                assert(before_seen[r]@ == name@);
                assert(seen_has(before_seen, name@));
                assert(names_has(names, j as int, name@));
                assert(exists|p: int| 0 <= p < j && names[p] == names[j as int]);
                assert(first_of_names(names, j + 1) == f0);
                assert forall|x: Seq<char>| #[trigger] seen_has(seen@, x) <==> names_has(names, j + 1, x) by {
                    assert(seen@ == before_seen);
                    if names_has(names, j + 1, x) {
                        let p = choose|p: int| 0 <= p < j + 1 && #[trigger] names[p] == x;
                        if p == j {
                            assert(names_has(names, j as int, x));
                        } else {
                            assert(names_has(names, j as int, x));
                        }
                    }
                    if names_has(names, j as int, x) {
                        let p = choose|p: int| 0 <= p < j && #[trigger] names[p] == x;
                        assert(names[p] == x && p < j + 1);
                    }
                }
            } else {
                assert(!(exists|p: int| 0 <= p < j && names[p] == names[j as int])) by {
                    if exists|p: int| 0 <= p < j && names[p] == names[j as int] {
                        assert(names_has(names, j as int, name@));
                        assert(seen_has(before_seen, name@));
                    }
                }
                assert(first_of_names(names, j + 1) == f0.push(j as int));
                assert forall|x: Seq<char>| #[trigger] seen_has(seen@, x) <==> names_has(names, j + 1, x) by {
                    if seen_has(seen@, x) {
                        let q = choose|q: int| 0 <= q < seen@.len() && (#[trigger] seen@[q])@ == x;
                        if q < before_seen.len() {
                            assert(before_seen[q] == seen@[q]);
                            assert(seen_has(before_seen, x));
                            let p = choose|p: int| 0 <= p < j && #[trigger] names[p] == x;
                            assert(names[p] == x && p < j + 1);
                        } else {
                            assert(names[j as int] == x);
                        }
                    }
                    if names_has(names, j + 1, x) {
                        let p = choose|p: int| 0 <= p < j + 1 && #[trigger] names[p] == x;
                        if p < j {
                            assert(names_has(names, j as int, x));
                            assert(seen_has(before_seen, x));
                            let q = choose|q: int| 0 <= q < before_seen.len() && (#[trigger] before_seen[q])@ == x;
                            assert(seen@[q] == before_seen[q]);
                        } else {
                            assert(seen@[before_seen.len() as int]@ == x);
                        }
                    }
                }
            }
        }
        j += 1;
    }
    assert(o.take(n as int) =~= o);
    fixed
}

/// Every component's link list after the bracket repair and the removal of
/// later entries of a name already linked.
pub open spec fn components_repaired(before: Seq<(String, TritonComponent)>, after: Seq<(String, TritonComponent)>) -> bool {
    &&& after.len() == before.len()
    &&& forall|k: int| 0 <= k < before.len() ==> {
        &&& (#[trigger] after[k]).0 == before[k].0
        &&& same_but_links(after[k].1, before[k].1)
        &&& links_repaired(before[k].1.link@, after[k].1.link@)
    }
}

/// Repairs the link lists of all components: a plain entry written with
/// brackets keeps only the name before `[`, and of entries with the same
/// name only the first stays. Tells whether any bracket was repaired.
pub fn fix_malformed_links(root: &mut TritonRoot) -> (fixed: bool)
    ensures
        final(root).app_name == old(root).app_name,
        final(root).generator == old(root).generator,
        final(root).cxx_std == old(root).cxx_std,
        final(root).c_std == old(root).c_std,
        final(root).deps == old(root).deps,
        final(root).scripts == old(root).scripts,
        components_repaired(old(root).components@, final(root).components@),
        fixed == exists|k: int, i: int|
            0 <= k < old(root).components@.len() && 0 <= i < old(root).components@[k].1.link@.len()
                && is_malformed_link(#[trigger] old(root).components@[k].1.link@[i]),
{
    let ghost o = root.components@;
    let mut fixed = false;
    let mut k: usize = 0;
    while k < root.components.len()
        invariant
            k <= root.components@.len(),
            root.components@.len() == o.len(),
            o == old(root).components@,
            root.app_name == old(root).app_name,
            root.deps == old(root).deps,
            root.scripts == old(root).scripts,
            root.generator == old(root).generator,
            root.cxx_std == old(root).cxx_std,
            root.c_std == old(root).c_std,
            forall|q: int| k <= q < o.len() ==> root.components@[q] == o[q],
            forall|q: int| 0 <= q < k ==> {
                &&& (#[trigger] root.components@[q]).0 == o[q].0
                &&& same_but_links(root.components@[q].1, o[q].1)
                &&& links_repaired(o[q].1.link@, root.components@[q].1.link@)
            },
            fixed == exists|q: int, i: int| 0 <= q < k && 0 <= i < o[q].1.link@.len() && is_malformed_link(#[trigger] o[q].1.link@[i]),
        decreases root.components.len() - k,
    {
        let ghost before = root.components@;
        let (key, mut comp) = root.components.remove(k);
        let f = repair_links(&mut comp.link);
        root.components.insert(k, (key, comp));
        assert(root.components@ =~= before.update(k as int, (key, comp)));
        if f {
            fixed = true;
        }
        k += 1;
    }
    fixed
}

// ---------------------------------------------------------------------------
// Duplicate dependencies
// ---------------------------------------------------------------------------

/// The features of `a` followed by those of `b` it lacks, each once more
/// at most.
pub open spec fn merge_features(a: Seq<Seq<char>>, b: Seq<Seq<char>>) -> Seq<Seq<char>>
    decreases b.len(),
{
    if b.len() == 0 {
        a
    } else {
        let m = merge_features(a, b.drop_last());
        if m.contains(b.last()) {
            m
        } else {
            m.push(b.last())
        }
    }
}

/// A detailed dependency merged with a later one of its name: the features
/// are united, and a missing package comes from the later one.
pub open spec fn merge_detailed(old: DepV, new: DepV) -> DepV {
    match (old, new) {
        (DepV::Detailed { name, os, package, triplet, features }, DepV::Detailed { package: p2, features: f2, .. }) =>
            DepV::Detailed {
                name,
                os,
                package: if package is None && p2 is Some { p2 } else { package },
                triplet,
                features: merge_features(features, f2),
            },
        _ => old,
    }
}

/// What the best entry of a name becomes when a later entry of that name
/// comes: a detailed one replaces a plain one and merges into a detailed
/// one, a git one replaces anything, and otherwise the best stays.
pub open spec fn combine(best: DepV, d: DepV) -> DepV {
    match (best, d) {
        (DepV::Simple(_), DepV::Detailed { .. }) => d,
        (DepV::Detailed { .. }, DepV::Detailed { .. }) => merge_detailed(best, d),
        (_, DepV::Git { .. }) => d,
        _ => best,
    }
}

/// Index of the entry with this name, if any.
pub open spec fn index_of_name(s: Seq<DepV>, n: Seq<char>) -> Option<int> {
    if exists|i: int| 0 <= i < s.len() && depv_name(s[i]) == n {
        Some(choose|i: int| 0 <= i < s.len() && depv_name(s[i]) == n)
    } else {
        None
    }
}

/// The dependencies merged by name over the first `k`: one entry per name,
/// in the order the names first come.
pub open spec fn dedup_upto(deps: Seq<DepV>, k: int) -> Seq<DepV>
    decreases k,
{
    if k <= 0 {
        Seq::empty()
    } else {
        let prev = dedup_upto(deps, k - 1);
        let d = deps[k - 1];
        match index_of_name(prev, depv_name(d)) {
            Some(i) => prev.update(i, combine(prev[i], d)),
            None => prev.push(d),
        }
    }
}

/// Names in a list of dependencies are pairwise distinct.
pub open spec fn distinct_names(s: Seq<DepV>) -> bool {
    forall|i: int, j: int| 0 <= i < s.len() && 0 <= j < s.len() && i != j ==> depv_name(s[i]) != depv_name(s[j])
}

proof fn lemma_combine_name(best: DepV, d: DepV)
    requires
        depv_name(best) == depv_name(d),
    ensures
        depv_name(combine(best, d)) == depv_name(d),
{
}

/// After merging, no two dependencies share a name.
pub proof fn lemma_dedup_distinct(deps: Seq<DepV>, k: int)
    requires
        0 <= k <= deps.len(),
    ensures
        distinct_names(dedup_upto(deps, k)),
    decreases k,
{
    if k > 0 {
        lemma_dedup_distinct(deps, k - 1);
        let prev = dedup_upto(deps, k - 1);
        let d = deps[k - 1];
        match index_of_name(prev, depv_name(d)) {
            Some(i) => {
                lemma_combine_name(prev[i], d);
            },
            None => {},
        }
    }
}

pub fn features_union(a: &Vec<String>, b: &Vec<String>) -> (res: Vec<String>)
    ensures
        views(res@) == merge_features(views(a@), views(b@)),
{
    let mut out = clone_strings(a);
    let mut i: usize = 0;
    while i < b.len()
        invariant
            i <= b@.len(),
            views(out@) == merge_features(views(a@), views(b@).take(i as int)),
        decreases b.len() - i,
    {
        assert(views(b@).take(i + 1).drop_last() =~= views(b@).take(i as int));
        assert(views(b@).take(i + 1).last() == b@[i as int]@);
        let mut present = false;
        let mut q: usize = 0;
        while q < out.len()
            invariant
                q <= out@.len(),
                i < b@.len(),
                present == exists|r: int| 0 <= r < q && out@[r]@ == b@[i as int]@,
            decreases out.len() - q,
        {
            if str_eq(out[q].as_str(), b[i].as_str()) {
                present = true;
            }
            q += 1;
        }
        proof {
            let m = views(out@);
            if present {
                let r = choose|r: int| 0 <= r < out@.len() && out@[r]@ == b@[i as int]@;
                assert(m[r] == b@[i as int]@);
                assert(m.contains(b@[i as int]@));
            } else {
                assert(!m.contains(b@[i as int]@)) by {
                    if m.contains(b@[i as int]@) {
                        let r = choose|r: int| 0 <= r < m.len() && m[r] == b@[i as int]@;
                        assert(out@[r]@ == b@[i as int]@);
                    }
                }
            }
        }
        if !present {
            push_line(&mut out, b[i].clone());
        }
        i += 1;
    }
    assert(views(b@).take(b@.len() as int) =~= views(b@));
    out
}

fn combine_exec(best: DepSpec, d: &DepSpec) -> (res: DepSpec)
    ensures
        dep_view(res) == combine(dep_view(best), dep_view(*d)),
{
    match (&best, d) {
        (DepSpec::Simple(_), DepSpec::Detailed(_)) => clone_dep(d),
        (DepSpec::Detailed(o), DepSpec::Detailed(n)) => {
            let features = features_union(&o.features, &n.features);
            let package = if o.package.is_none() && n.package.is_some() {
                clone_opt(&n.package)
            } else {
                clone_opt(&o.package)
            };
            DepSpec::Detailed(
                DepDetailed {
                    name: o.name.clone(),
                    os: clone_strings(&o.os),
                    package,
                    triplet: clone_strings(&o.triplet),
                    features,
                },
            )
        },
        (_, DepSpec::Git(_)) => clone_dep(d),
        _ => best,
    }
}

/// Merges dependencies of the same name (see `dedup_upto`); tells whether
/// the list became shorter.
pub fn dedup_deps(root: &mut TritonRoot) -> (deduped: bool)
    ensures
        final(root).app_name == old(root).app_name,
        final(root).generator == old(root).generator,
        final(root).cxx_std == old(root).cxx_std,
        final(root).c_std == old(root).c_std,
        final(root).components == old(root).components,
        final(root).scripts == old(root).scripts,
        deps_view(final(root).deps@) == dedup_upto(deps_view(old(root).deps@), old(root).deps@.len() as int),
        distinct_names(deps_view(final(root).deps@)),
        deduped == (final(root).deps@.len() < old(root).deps@.len()),
{
    let ghost dv = deps_view(root.deps@);
    let n0 = root.deps.len();
    let mut out: Vec<DepSpec> = Vec::new();
    let mut k: usize = 0;
    while k < root.deps.len()
        invariant
            k <= root.deps@.len(),
            n0 == root.deps@.len(),
            root.deps == old(root).deps,
            dv == deps_view(root.deps@),
            deps_view(out@) == dedup_upto(dv, k as int),
            out@.len() <= k,
        decreases root.deps.len() - k,
    {
        let d = &root.deps[k];
        let ghost prev = deps_view(out@);
        proof {
            lemma_dedup_distinct(dv, k as int);
        }
        let mut found: Option<usize> = None;
        let mut q: usize = 0;
        while q < out.len()
            invariant
                q <= out@.len(),
                prev == deps_view(out@),
                match found {
                    Some(i) => i < q && depv_name(prev[i as int]) == dep_name(*d),
                    None => forall|r: int| 0 <= r < q ==> depv_name(prev[r]) != dep_name(*d),
                },
            decreases out.len() - q,
        {
            if found.is_none() && str_eq(out[q].name().as_str(), d.name().as_str()) {
                found = Some(q);
            }
            q += 1;
        }
        assert(dv[k as int] == dep_view(*d));
        assert(depv_name(dep_view(*d)) == dep_name(*d));
        match found {
            Some(i) => {
                proof {
                    lemma_dedup_distinct(dv, k as int);
                    let c = choose|c: int| 0 <= c < prev.len() && depv_name(prev[c]) == depv_name(dv[k as int]);
                    assert(c == i as int);
                }
                let mut tmp = DepSpec::Simple(String::new());
                std::mem::swap(&mut tmp, &mut out[i]);
                let merged = combine_exec(tmp, d);
                out.set(i, merged);
                assert(deps_view(out@) =~= prev.update(i as int, combine(prev[i as int], dv[k as int])));
            },
            None => {
                out.push(clone_dep(d));
                assert(deps_view(out@) =~= prev.push(dv[k as int]));
            },
        }
        k += 1;
    }
    proof {
        lemma_dedup_distinct(dv, n0 as int);
    }
    let shorter = out.len() < n0;
    root.deps = out;
    shorter
}

// ---------------------------------------------------------------------------
// The generation step on the model
// ---------------------------------------------------------------------------

/// Some plain dependency is written `pkg[features]`.
pub open spec fn has_malformed_dep(deps: Seq<DepSpec>) -> bool {
    exists|i: int| 0 <= i < deps.len() && is_malformed_dep(dep_view(#[trigger] deps[i]))
}

/// Some component links a plain entry written with brackets.
pub open spec fn has_malformed_link(comps: Seq<(String, TritonComponent)>) -> bool {
    exists|k: int, i: int|
        0 <= k < comps.len() && 0 <= i < comps[k].1.link@.len() && is_malformed_link(#[trigger] comps[k].1.link@[i])
}

/// What `triton generate` does to the model before writing files: it
/// repairs malformed dependencies and links, merges duplicate dependencies,
/// and validates the result. `Ok(true)` asks for the model to be saved:
/// exactly when a repair was made or dependencies were merged.
pub fn handle_generate(root: &mut TritonRoot) -> (res: Result<bool, ValidationError>)
    requires
        root_wf(*old(root)),
    ensures
        root_wf(*final(root)),
        final(root).app_name == old(root).app_name,
        final(root).generator == old(root).generator,
        final(root).cxx_std == old(root).cxx_std,
        final(root).c_std == old(root).c_std,
        final(root).scripts == old(root).scripts,
        res matches Ok(b) ==> b == (has_malformed_dep(old(root).deps@) || has_malformed_link(old(root).components@)
            || final(root).deps@.len() < old(root).deps@.len()),
        deps_view(final(root).deps@) == dedup_upto(fixed_deps(deps_view(old(root).deps@)), old(root).deps@.len() as int),
        components_repaired(old(root).components@, final(root).components@),
        validation_ok(*final(root), match res {
            Ok(_) => Ok(()),
            Err(e) => Err(e),
        }),
{
    let a = fix_malformed_deps(root);
    let ghost d1 = root.deps@;
    assert(deps_view(d1).len() == d1.len());
    assert(fixed_deps(deps_view(old(root).deps@)).len() == old(root).deps@.len());
    let b = fix_malformed_links(root);
    let c = dedup_deps(root);
    assert(d1.len() == old(root).deps@.len());
    assert(root_wf(*root)) by {
        let o = old(root).components@;
        let m = root.components@;
        assert forall|i: int, j: int| 0 <= i < j < m.len() implies crate::models::lex_lt(m[i].0@, m[j].0@) by {
            assert(m[i].0 == o[i].0 && m[j].0 == o[j].0);
        }
    }
    match validate_triton_root(root) {
        Ok(()) => Ok(a || b || c),
        Err(e) => Err(e),
    }
}

// ---------------------------------------------------------------------------
// The vcpkg manifest
// ---------------------------------------------------------------------------

/// One dependency of the vcpkg manifest: a name, with features when it has
/// any (then written as an object).
#[derive(Debug)]
pub struct ManifestEntry {
    pub name: String,
    pub features: Vec<String>,
}

/// The manifest entries for the first `k` dependencies: plain and detailed
/// dependencies active on the host and triplet, git ones never.
pub open spec fn manifest_upto(deps: Seq<DepSpec>, host_os: Seq<char>, triplet: Seq<char>, k: int) -> Seq<(Seq<char>, Seq<Seq<char>>)>
    decreases k,
{
    if k <= 0 {
        Seq::empty()
    } else {
        let prev = manifest_upto(deps, host_os, triplet, k - 1);
        let d = deps[k - 1];
        match d {
            DepSpec::Simple(s) => if spec_dep_is_active(d, s@, host_os, triplet) {
                prev.push((s@, Seq::empty()))
            } else {
                prev
            },
            DepSpec::Git(_) => prev,
            DepSpec::Detailed(x) => if spec_dep_is_active(d, x.name@, host_os, triplet) {
                prev.push((x.name@, views(x.features@)))
            } else {
                prev
            },
        }
    }
}

/// The entries as plain values.
pub open spec fn manifest_view(s: Seq<ManifestEntry>) -> Seq<(Seq<char>, Seq<Seq<char>>)> {
    s.map_values(|e: ManifestEntry| (e.name@, views(e.features@)))
}

/// The dependencies of the vcpkg manifest for the host OS and triplet.
pub fn vcpkg_manifest_entries(root: &TritonRoot, host_os: &str, triplet: &str) -> (res: Vec<ManifestEntry>)
    requires
        forall|i: int| 0 <= i < root.deps@.len() ==> dep_active_defined(#[trigger] root.deps@[i], dep_name(root.deps@[i]), host_os@),
    ensures
        manifest_view(res@) == manifest_upto(root.deps@, host_os@, triplet@, root.deps@.len() as int),
{
    let mut out: Vec<ManifestEntry> = Vec::new();
    let mut k: usize = 0;
    while k < root.deps.len()
        invariant
            k <= root.deps@.len(),
            forall|i: int| 0 <= i < root.deps@.len() ==> dep_active_defined(#[trigger] root.deps@[i], dep_name(root.deps@[i]), host_os@),
            manifest_view(out@) == manifest_upto(root.deps@, host_os@, triplet@, k as int),
        decreases root.deps.len() - k,
    {
        let d = &root.deps[k];
        let ghost prev = out@;
        assert(dep_active_defined(root.deps@[k as int], dep_name(root.deps@[k as int]), host_os@));
        match d {
            DepSpec::Simple(s) => {
                if dep_is_active(d, s.as_str(), host_os, triplet) {
                    let e = ManifestEntry { name: s.clone(), features: Vec::new() };
                    assert(views(e.features@) =~= Seq::<Seq<char>>::empty());
                    out.push(e);
                    assert(manifest_view(out@) =~= manifest_view(prev).push((s@, Seq::<Seq<char>>::empty())));
                }
            },
            DepSpec::Git(_) => {},
            DepSpec::Detailed(x) => {
                if dep_is_active(d, x.name.as_str(), host_os, triplet) {
                    let e = ManifestEntry { name: x.name.clone(), features: clone_strings(&x.features) };
                    out.push(e);
                    assert(manifest_view(out@) =~= manifest_view(prev).push((x.name@, views(x.features@))));
                }
            },
        }
        assert(manifest_view(out@) == manifest_upto(root.deps@, host_os@, triplet@, k + 1));
        k += 1;
    }
    out
}

/// The manifest's name: the application name in lower case with `_` made `-`.
pub fn vcpkg_manifest_name(app_name: &str) -> (res: String)
    ensures
        res@ == replace_char(lower(app_name@), '_', '-'),
{
    replace_char_str(to_lower(app_name).as_str(), '_', '-')
}

} // verus!
