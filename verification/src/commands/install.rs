//! After `vcpkg install`: recording the CMake package names detected for
//! plain dependencies, checking that requested features were installed, and
//! the advice of `triton find-target`.

use vstd::prelude::*;
use crate::models::{TritonRoot, DepSpec, DepDetailed, dep_name, opt_view};
use crate::text::{
    views, lower, starts_with, text_lines, opt_view_s, to_owned, to_lower, str_eq,
    str_starts_with, text_lines_of, cat3, cat5, concat2, push_str, eq_ic, eq_ignore_case,
    join, join_strings, push_line, push_lit, decimal, usize_to_string,
};
use crate::util::vcpkg::{spec_match_packages, match_dep_to_packages, pairs_view};
use crate::commands::generate::{dep_view, deps_view, DepV};

verus! {

// ---------------------------------------------------------------------------
// Package names
// ---------------------------------------------------------------------------

/// Whether a name is among the given ones.
pub open spec fn listed(names: Seq<Seq<char>>, n: Seq<char>) -> bool {
    names.contains(n)
}

/// The matches whose package directory was not there before the install.
pub open spec fn new_matches(m: Seq<(Seq<char>, Seq<char>)>, before: Seq<Seq<char>>, k: int) -> Seq<Seq<char>>
    decreases k,
{
    if k <= 0 {
        Seq::empty()
    } else if listed(before, m[k - 1].0) {
        new_matches(m, before, k - 1)
    } else {
        new_matches(m, before, k - 1).push(m[k - 1].0)
    }
}

/// The package detected for a dependency: the only match, else the only
/// match that is new since the install; it is recorded when it differs
/// from the dependency's name.
pub open spec fn detected_package(dep: Seq<char>, m: Seq<(Seq<char>, Seq<char>)>, before: Seq<Seq<char>>) -> Option<Seq<char>> {
    let nm = new_matches(m, before, m.len() as int);
    let pick = if m.len() == 1 {
        Some(m[0].0)
    } else if m.len() > 1 && nm.len() == 1 {
        Some(nm[0])
    } else {
        None
    };
    match pick {
        Some(p) => if p != dep { Some(p) } else { None },
        None => None,
    }
}

/// Several new packages match a dependency: their names, for a warning.
pub open spec fn ambiguous_packages(m: Seq<(Seq<char>, Seq<char>)>, before: Seq<Seq<char>>) -> Seq<Seq<char>> {
    let nm = new_matches(m, before, m.len() as int);
    if m.len() > 1 && nm.len() > 1 {
        nm
    } else {
        Seq::empty()
    }
}

/// A dependency after detection: a plain one with a detected package becomes
/// a detailed one naming that package.
pub open spec fn detected_dep(d: DepV, pkgs: Seq<(String, String)>, before: Seq<Seq<char>>) -> DepV {
    match d {
        DepV::Simple(n) => match detected_package(n, spec_match_packages(n, pkgs), before) {
            Some(p) => DepV::Detailed {
                name: n,
                os: Seq::empty(),
                package: Some(p),
                triplet: Seq::empty(),
                features: Seq::empty(),
            },
            None => d,
        },
        _ => d,
    }
}

pub(crate) fn contains_name(v: &Vec<String>, n: &str) -> (res: bool)
    ensures
        res == listed(views(v@), n@),
{
    let mut i: usize = 0;
    while i < v.len()
        invariant
            i <= v@.len(),
            forall|k: int| 0 <= k < i ==> v@[k]@ != n@,
        decreases v.len() - i,
    {
        if str_eq(v[i].as_str(), n) {
            assert(views(v@)[i as int] == n@);
            return true;
        }
        i += 1;
    }
    proof {
        if views(v@).contains(n@) {
            let k = choose|k: int| 0 <= k < views(v@).len() && views(v@)[k] == n@;
            assert(v@[k]@ == n@);
        }
    }
    false
}

/// What detection decides for one dependency name.
#[derive(Debug)]
pub struct Detection {
    /// The package to record, if any.
    pub package: Option<String>,
    /// The new packages that all match, when there are several.
    pub ambiguous: Vec<String>,
}

/// Decides the package of a dependency from the packages found and the
/// package directories that existed before the install.
pub fn detect_package(dep: &str, packages: &Vec<(String, String)>, dirs_before: &Vec<String>) -> (res: Detection)
    ensures
        opt_view_s(res.package) == detected_package(dep@, spec_match_packages(dep@, packages@), views(dirs_before@)),
        views(res.ambiguous@) == ambiguous_packages(spec_match_packages(dep@, packages@), views(dirs_before@)),
{
    let m = match_dep_to_packages(dep, packages);
    let ghost mv = pairs_view(m@);
    let mut nm: Vec<String> = Vec::new();
    let mut k: usize = 0;
    while k < m.len()
        invariant
            k <= m@.len(),
            mv == pairs_view(m@),
            views(nm@) == new_matches(mv, views(dirs_before@), k as int),
        decreases m.len() - k,
    {
        assert(mv[k as int] == (m@[k as int].0@, m@[k as int].1@));
        if !contains_name(dirs_before, m[k].0.as_str()) {
            push_line(&mut nm, m[k].0.clone());
        }
        k += 1;
    }
    let pick: Option<String> = if m.len() == 1 {
        assert(mv[0] == (m@[0].0@, m@[0].1@));
        Some(m[0].0.clone())
    } else if m.len() > 1 && nm.len() == 1 {
        assert(views(nm@)[0] == nm@[0]@);
        Some(nm[0].clone())
    } else {
        None
    };
    let package = match pick {
        Some(p) => {
            if !str_eq(p.as_str(), dep) {
                Some(p)
            } else {
                None
            }
        },
        None => None,
    };
    let ambiguous = if m.len() > 1 && nm.len() > 1 {
        nm
    } else {
        let e: Vec<String> = Vec::new();
        assert(views(e@) =~= Seq::<Seq<char>>::empty());
        e
    };
    Detection { package, ambiguous }
}

/// Records the detected CMake package of every plain dependency (see
/// `detected_dep`); tells whether any was recorded.
pub fn auto_detect_package_names(root: &mut TritonRoot, packages: &Vec<(String, String)>, dirs_before: &Vec<String>) -> (changed: bool)
    ensures
        final(root).app_name == old(root).app_name,
        final(root).components == old(root).components,
        final(root).scripts == old(root).scripts,
        deps_view(final(root).deps@) == deps_view(old(root).deps@).map_values(
            |d: DepV| detected_dep(d, packages@, views(dirs_before@)),
        ),
        changed == (deps_view(final(root).deps@) != deps_view(old(root).deps@)),
{
    let ghost o = root.deps@;
    let mut changed = false;
    let mut i: usize = 0;
    while i < root.deps.len()
        invariant
            i <= root.deps@.len(),
            root.deps@.len() == o.len(),
            o == old(root).deps@,
            root.app_name == old(root).app_name,
            root.components == old(root).components,
            root.scripts == old(root).scripts,
            forall|k: int| i <= k < o.len() ==> root.deps@[k] == o[k],
            forall|k: int| 0 <= k < i ==> dep_view(#[trigger] root.deps@[k]) == detected_dep(dep_view(o[k]), packages@, views(dirs_before@)),
            changed == exists|k: int| 0 <= k < i && dep_view(#[trigger] root.deps@[k]) != dep_view(o[k]),
        decreases root.deps.len() - i,
    {
        assert(root.deps@[i as int] == o[i as int]);
        let mut replacement: Option<DepSpec> = None;
        match &root.deps[i] {
            DepSpec::Simple(n) => {
                let det = detect_package(n.as_str(), packages, dirs_before);
                match det.package {
                    Some(p) => {
                        let os: Vec<String> = Vec::new();
                        let triplet: Vec<String> = Vec::new();
                        let features: Vec<String> = Vec::new();
                        assert(views(os@) =~= Seq::<Seq<char>>::empty());
                        assert(views(triplet@) =~= Seq::<Seq<char>>::empty());
                        assert(views(features@) =~= Seq::<Seq<char>>::empty());
                        let nd = DepSpec::Detailed(DepDetailed { name: n.clone(), os, package: Some(p), triplet, features });
                        assert(dep_view(nd) == detected_dep(dep_view(o[i as int]), packages@, views(dirs_before@)));
                        replacement = Some(nd);
                    },
                    None => {},
                }
            },
            _ => {},
        }
        let ghost was = changed;
        let ghost before = root.deps@;
        match replacement {
            Some(d) => {
                root.deps.set(i, d);
                assert(dep_view(root.deps@[i as int]) != dep_view(o[i as int]));
                changed = true;
            },
            None => {
                assert(dep_view(root.deps@[i as int]) == dep_view(o[i as int]));
            },
        }
        assert(changed == exists|k: int| 0 <= k < i + 1 && dep_view(#[trigger] root.deps@[k]) != dep_view(o[k])) by {
            if exists|k: int| 0 <= k < i + 1 && dep_view(#[trigger] root.deps@[k]) != dep_view(o[k]) {
                let k = choose|k: int| 0 <= k < i + 1 && dep_view(#[trigger] root.deps@[k]) != dep_view(o[k]);
                if k < i {
                    assert(root.deps@[k] == before[k]);
                }
            }
            if was {
                let k = choose|k: int| 0 <= k < i && dep_view(#[trigger] before[k]) != dep_view(o[k]);
                assert(root.deps@[k] == before[k]);
            }
        }
        i += 1;
    }
    proof {
        assert(deps_view(root.deps@) =~= deps_view(o).map_values(|d: DepV| detected_dep(d, packages@, views(dirs_before@))));
        if deps_view(root.deps@) != deps_view(o) {
            assert(!(deps_view(root.deps@) =~= deps_view(o)));
            let k = choose|k: int| 0 <= k < o.len() && deps_view(root.deps@)[k] != deps_view(o)[k];
            assert(dep_view(root.deps@[k]) != dep_view(o[k]));
        }
        if changed {
            let k = choose|k: int| 0 <= k < o.len() && dep_view(#[trigger] root.deps@[k]) != dep_view(o[k]);
            assert(deps_view(root.deps@)[k] != deps_view(o)[k]);
        }
    }
    changed
}

// ---------------------------------------------------------------------------
// Installed features
// ---------------------------------------------------------------------------

/// The line prefix by which `vcpkg list` shows an installed feature:
/// `name[feature]:triplet`, compared in ASCII lower case.
pub open spec fn feature_pattern(name: Seq<char>, feature: Seq<char>, triplet: Seq<char>) -> Seq<char> {
    lower(name + "["@ + feature + "]:"@ + triplet)
}

/// A line of the listing shows the feature.
pub open spec fn feature_listed(listing: Seq<char>, name: Seq<char>, feature: Seq<char>, triplet: Seq<char>) -> bool {
    exists|i: int| 0 <= i < text_lines(listing).len() && starts_with(lower(text_lines(listing)[i]), feature_pattern(name, feature, triplet))
}

/// A requested feature that the listing lacks: the first, in the order of
/// dependencies and then of their features.
#[derive(Debug)]
pub struct MissingFeature {
    pub dep: String,
    pub feature: String,
}

impl MissingFeature {
    /// The message shown for the missing feature.
    pub fn message(&self) -> (res: String)
        ensures
            res@ == "vcpkg feature '"@ + self.feature@ + "' was requested for '"@ + self.dep@
                + "' but was not installed.\nCheck that the feature name is correct: vcpkg search "@ + self.dep@,
    {
        let mut s = cat5("vcpkg feature '", self.feature.as_str(), "' was requested for '", self.dep.as_str(), "' but was not installed.\nCheck that the feature name is correct: vcpkg search ");
        push_str(&mut s, self.dep.as_str());
        s
    }
}

/// Every feature a dependency requests shows in the listing.
pub open spec fn dep_features_ok(d: DepSpec, listing: Seq<char>, triplet: Seq<char>) -> bool {
    match d {
        DepSpec::Detailed(x) => forall|f: int| 0 <= f < x.features@.len() ==> feature_listed(listing, x.name@, #[trigger] x.features@[f]@, triplet),
        _ => true,
    }
}

/// The dependency requests this feature and the listing lacks it.
pub open spec fn dep_misses(d: DepSpec, dep: Seq<char>, feature: Seq<char>, listing: Seq<char>, triplet: Seq<char>) -> bool {
    match d {
        DepSpec::Detailed(x) => x.name@ == dep && (exists|f: int| 0 <= f < x.features@.len() && #[trigger] x.features@[f]@ == feature)
            && !feature_listed(listing, dep, feature, triplet),
        _ => false,
    }
}

fn feature_listed_exec(lines: &Vec<String>, pattern: &str) -> (res: bool)
    ensures
        res == exists|i: int| 0 <= i < lines@.len() && starts_with(lower(lines@[i]@), pattern@),
{
    let mut i: usize = 0;
    while i < lines.len()
        invariant
            i <= lines@.len(),
            forall|k: int| 0 <= k < i ==> !starts_with(lower(lines@[k]@), pattern@),
        decreases lines.len() - i,
    {
        if str_starts_with(to_lower(lines[i].as_str()).as_str(), pattern) {
            return true;
        }
        i += 1;
    }
    false
}

/// Checks the output of `vcpkg list --triplet=...` for every feature that a
/// detailed dependency requests; the first one missing is the error.
pub fn verify_vcpkg_features(root: &TritonRoot, listing: &str, triplet: &str) -> (res: Result<(), MissingFeature>)
    ensures
        res is Ok <==> forall|d: int| 0 <= d < root.deps@.len() ==> dep_features_ok(#[trigger] root.deps@[d], listing@, triplet@),
        res matches Err(m) ==> exists|d: int| 0 <= d < root.deps@.len() && dep_misses(#[trigger] root.deps@[d], m.dep@, m.feature@, listing@, triplet@),
{
    let lines = text_lines_of(listing);
    let mut d: usize = 0;
    while d < root.deps.len()
        invariant
            d <= root.deps@.len(),
            views(lines@) == text_lines(listing@),
            forall|dd: int| 0 <= dd < d ==> dep_features_ok(#[trigger] root.deps@[dd], listing@, triplet@),
        decreases root.deps.len() - d,
    {
        match &root.deps[d] {
            DepSpec::Detailed(x) => {
                let mut f: usize = 0;
                while f < x.features.len()
                    invariant
                        f <= x.features@.len(),
                        d < root.deps@.len(),
                        root.deps@[d as int] == DepSpec::Detailed(*x),
                        views(lines@) == text_lines(listing@),
                        forall|g: int| 0 <= g < f ==> feature_listed(listing@, x.name@, x.features@[g]@, triplet@),
                    decreases x.features.len() - f,
                {
                    let mut p = cat3(x.name.as_str(), "[", x.features[f].as_str());
                    push_str(&mut p, "]:");
                    push_str(&mut p, triplet);
                    let pat = to_lower(p.as_str());
                    assert(pat@ == feature_pattern(x.name@, x.features@[f as int]@, triplet@));
                    let ok = feature_listed_exec(&lines, pat.as_str());
                    proof {
                        if ok {
                            let i = choose|i: int| 0 <= i < lines@.len() && starts_with(lower(lines@[i]@), pat@);
                            assert(text_lines(listing@)[i] == lines@[i]@);
                        } else {
                            assert forall|i: int| 0 <= i < text_lines(listing@).len() implies !starts_with(lower(text_lines(listing@)[i]), feature_pattern(x.name@, x.features@[f as int]@, triplet@)) by {
                                assert(text_lines(listing@)[i] == lines@[i]@);
                            }
                        }
                    }
                    if !ok {
                        let m = MissingFeature { dep: x.name.clone(), feature: x.features[f].clone() };
                        assert(x.features@[f as int]@ == m.feature@);
                        assert(!feature_listed(listing@, x.name@, x.features@[f as int]@, triplet@));
                        assert(dep_misses(root.deps@[d as int], m.dep@, m.feature@, listing@, triplet@));
                        assert(!dep_features_ok(root.deps@[d as int], listing@, triplet@));
                        return Err(m);
                    }
                    f += 1;
                }
            },
            _ => {},
        }
        d += 1;
    }
    Ok(())
}

// ---------------------------------------------------------------------------
// find-target advice
// ---------------------------------------------------------------------------

/// Each target quoted, joined with `, `.
pub open spec fn quoted_targets(ts: Seq<Seq<char>>) -> Seq<char> {
    join(ts.map_values(|t: Seq<char>| "\""@ + t + "\""@), ", "@)
}

/// What `triton find-target` advises when exactly one package matches: the
/// entry to use with its targets, the entry with its package when its name
/// differs from the dependency (ignoring ASCII case), else that nothing is
/// needed.
pub open spec fn spec_find_target_advice(dep: Seq<char>, pkg: Seq<char>, targets: Seq<Seq<char>>) -> Seq<char> {
    if targets.len() > 0 {
        "Use in triton.json:\n  { \"name\": \""@ + dep + "\", \"package\": \""@ + pkg + "\", \"targets\": ["@
            + quoted_targets(targets) + "] }"@
    } else if lower(pkg) != lower(dep) {
        "Use in triton.json:\n  { \"name\": \""@ + dep + "\", \"package\": \""@ + pkg + "\" }"@
    } else {
        "Package name matches dep name — no override needed.\nIf linking fails, check the targets file manually and add a \"targets\" field."@
    }
}

/// The advice for a single matching package (see `spec_find_target_advice`).
pub fn find_target_advice(dep: &str, pkg: &str, targets: &Vec<String>) -> (res: String)
    ensures
        res@ == spec_find_target_advice(dep@, pkg@, views(targets@)),
{
    if targets.len() > 0 {
        let mut q: Vec<String> = Vec::new();
        let mut i: usize = 0;
        while i < targets.len()
            invariant
                i <= targets@.len(),
                views(q@) == views(targets@).take(i as int).map_values(|t: Seq<char>| "\""@ + t + "\""@),
            decreases targets.len() - i,
        {
            push_line(&mut q, cat3("\"", targets[i].as_str(), "\""));
            assert(views(targets@).take(i + 1).map_values(|t: Seq<char>| "\""@ + t + "\""@) =~= views(targets@).take(
                i as int,
            ).map_values(|t: Seq<char>| "\""@ + t + "\""@).push("\""@ + targets@[i as int]@ + "\""@));
            i += 1;
        }
        assert(views(targets@).take(targets@.len() as int) =~= views(targets@));
        let joined = join_strings(&q, ", ");
        let mut s = cat5("Use in triton.json:\n  { \"name\": \"", dep, "\", \"package\": \"", pkg, "\", \"targets\": [");
        push_str(&mut s, joined.as_str());
        push_str(&mut s, "] }");
        s
    } else if !str_eq(to_lower(pkg).as_str(), to_lower(dep).as_str()) {
        cat5("Use in triton.json:\n  { \"name\": \"", dep, "\", \"package\": \"", pkg, "\" }")
    } else {
        to_owned("Package name matches dep name — no override needed.\nIf linking fails, check the targets file manually and add a \"targets\" field.")
    }
}

// ---------------------------------------------------------------------------
// find-target report
// ---------------------------------------------------------------------------

/// The views of a list of string lists.
pub open spec fn nested_views(v: Seq<Vec<String>>) -> Seq<Seq<Seq<char>>> {
    v.map_values(|x: Vec<String>| views(x@))
}

/// The line for candidate `i` (counted from one) among several, with its
/// targets where it has any.
pub open spec fn candidate_line(i: int, pkg: Seq<char>, targets: Seq<Seq<char>>) -> Seq<char> {
    if targets.len() == 0 {
        "  "@ + decimal((i + 1) as nat) + ". "@ + pkg
    } else {
        "  "@ + decimal((i + 1) as nat) + ". "@ + pkg + "  targets: ["@ + join(targets, ", "@) + "]"@
    }
}

/// What `triton find-target` reports for a dependency, given all packages
/// found, the matching ones and the targets of each match: the available
/// packages when none matches; the package, its config file, its targets
/// and the advice when one does; a numbered list when several do.
pub open spec fn spec_find_target_report(
    dep: Seq<char>,
    all: Seq<(Seq<char>, Seq<char>)>,
    matches: Seq<(Seq<char>, Seq<char>)>,
    targets: Seq<Seq<Seq<char>>>,
) -> Seq<Seq<char>> {
    if matches.len() == 0 {
        seq!["No CMake package found matching '"@ + dep + "'."@, ""@, "Available packages:"@]
            + all.map_values(|p: (Seq<char>, Seq<char>)| "  "@ + p.0)
            + seq![""@, "Specify the correct one in triton.json:\n  { \"name\": \""@ + dep
                + "\", \"package\": \"<PackageName>\" }"@]
    } else if matches.len() == 1 {
        seq!["Found: "@ + matches[0].0, "  Config: "@ + matches[0].1]
            + (if targets[0].len() > 0 {
                seq!["  Targets:"@] + targets[0].map_values(|t: Seq<char>| "    "@ + t)
            } else {
                Seq::empty()
            })
            + seq![""@, spec_find_target_advice(dep, matches[0].0, targets[0])]
    } else {
        seq!["Found multiple candidates:"@]
            + Seq::new(matches.len(), |i: int| candidate_line(i, matches[i].0, targets[i]))
            + seq![""@, "Specify the correct one in triton.json:\n  { \"name\": \""@ + dep
                + "\", \"package\": \"<PackageName>\", \"targets\": [\"<Target>\"] }"@]
    }
}

fn push_indented(out: &mut Vec<String>, indent: &str, items: &Vec<String>)
    ensures
        views(final(out)@) == views(old(out)@) + views(items@).map_values(|t: Seq<char>| indent@ + t),
{
    let ghost head = views(out@);
    let mut i: usize = 0;
    while i < items.len()
        invariant
            i <= items@.len(),
            views(out@) == head + views(items@).take(i as int).map_values(|t: Seq<char>| indent@ + t),
        decreases items.len() - i,
    {
        push_line(out, concat2(indent, items[i].as_str()));
        assert(views(items@).take(i + 1).map_values(|t: Seq<char>| indent@ + t) =~= views(items@).take(
            i as int,
        ).map_values(|t: Seq<char>| indent@ + t).push(indent@ + items@[i as int]@));
        i += 1;
    }
    assert(views(items@).take(items@.len() as int) =~= views(items@));
}

fn candidate_line_exec(i: usize, pkg: &str, targets: &Vec<String>) -> (res: String)
    requires
        i < usize::MAX,
    ensures
        res@ == candidate_line(i as int, pkg@, views(targets@)),
{
    let num = usize_to_string(i + 1);
    let mut s = cat3("  ", num.as_str(), ". ");
    push_str(&mut s, pkg);
    let ghost base = s@;
    if targets.len() > 0 {
        let j = join_strings(targets, ", ");
        push_str(&mut s, "  targets: [");
        push_str(&mut s, j.as_str());
        push_str(&mut s, "]");
        assert(s@ =~= base + "  targets: ["@ + join(views(targets@), ", "@) + "]"@);
    }
    s
}

/// The report of `triton find-target` (see `spec_find_target_report`);
/// `targets` holds the targets of each match.
pub fn find_target_report(
    dep: &str,
    all: &Vec<(String, String)>,
    matches: &Vec<(String, String)>,
    targets: &Vec<Vec<String>>,
) -> (res: Vec<String>)
    requires
        targets@.len() == matches@.len(),
    ensures
        views(res@) == spec_find_target_report(dep@, pairs_view(all@), pairs_view(matches@), nested_views(targets@)),
{
    let mut out: Vec<String> = Vec::new();
    if matches.len() == 0 {
        push_line(&mut out, cat3("No CMake package found matching '", dep, "'."));
        push_lit(&mut out, "");
        push_lit(&mut out, "Available packages:");
        let ghost head = views(out@);
        let mut i: usize = 0;
        while i < all.len()
            invariant
                i <= all@.len(),
                views(out@) == head + pairs_view(all@).take(i as int).map_values(
                    |p: (Seq<char>, Seq<char>)| "  "@ + p.0,
                ),
            decreases all.len() - i,
        {
            push_line(&mut out, concat2("  ", all[i].0.as_str()));
            assert(pairs_view(all@).take(i + 1).map_values(|p: (Seq<char>, Seq<char>)| "  "@ + p.0)
                =~= pairs_view(all@).take(i as int).map_values(|p: (Seq<char>, Seq<char>)| "  "@ + p.0).push(
                "  "@ + all@[i as int].0@,
            ));
            i += 1;
        }
        assert(pairs_view(all@).take(all@.len() as int) =~= pairs_view(all@));
        push_lit(&mut out, "");
        push_line(
            &mut out,
            cat3("Specify the correct one in triton.json:\n  { \"name\": \"", dep, "\", \"package\": \"<PackageName>\" }"),
        );
        assert(views(out@) =~= spec_find_target_report(dep@, pairs_view(all@), pairs_view(matches@), nested_views(targets@)));
        out
    } else if matches.len() == 1 {
        let pkg = matches[0].0.as_str();
        push_line(&mut out, concat2("Found: ", pkg));
        push_line(&mut out, concat2("  Config: ", matches[0].1.as_str()));
        let ghost head = views(out@);
        let t = &targets[0];
        assert(nested_views(targets@)[0] == views(t@));
        if t.len() > 0 {
            push_lit(&mut out, "  Targets:");
            push_indented(&mut out, "    ", t);
        }
        assert(views(out@) =~= head + (if views(t@).len() > 0 {
            seq!["  Targets:"@] + views(t@).map_values(|x: Seq<char>| "    "@ + x)
        } else {
            Seq::empty()
        }));
        push_lit(&mut out, "");
        push_line(&mut out, find_target_advice(dep, pkg, t));
        assert(views(out@) =~= spec_find_target_report(dep@, pairs_view(all@), pairs_view(matches@), nested_views(targets@)));
        out
    } else {
        push_lit(&mut out, "Found multiple candidates:");
        let ghost head = views(out@);
        let ghost f = |i: int| candidate_line(i, pairs_view(matches@)[i].0, nested_views(targets@)[i]);
        let mut i: usize = 0;
        while i < matches.len()
            invariant
                i <= matches@.len(),
                targets@.len() == matches@.len(),
                f == (|i: int| candidate_line(i, pairs_view(matches@)[i].0, nested_views(targets@)[i])),
                views(out@) == head + Seq::new(i as nat, f),
            decreases matches.len() - i,
        {
            let line = candidate_line_exec(i, matches[i].0.as_str(), &targets[i]);
            assert(line@ == f(i as int));
            push_line(&mut out, line);
            assert(Seq::new((i + 1) as nat, f) =~= Seq::new(i as nat, f).push(f(i as int)));
            i += 1;
        }
        push_lit(&mut out, "");
        push_line(
            &mut out,
            cat3(
                "Specify the correct one in triton.json:\n  { \"name\": \"",
                dep,
                "\", \"package\": \"<PackageName>\", \"targets\": [\"<Target>\"] }",
            ),
        );
        assert(views(out@) =~= spec_find_target_report(dep@, pairs_view(all@), pairs_view(matches@), nested_views(targets@)));
        out
    }
}

} // verus!
