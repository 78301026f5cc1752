//! `triton remove` (a dependency) and `triton remove-component` on the model.

use vstd::prelude::*;
use crate::models::{TritonRoot, TritonComponent, DepSpec, dep_name, root_wf, has_component, sorted_keys, clone_strings};
use crate::commands::generate::{ManifestEntry, manifest_view};
use crate::text::{eq_ic, views, to_owned, cat3, eq_ignore_case, str_eq, push_line};
use crate::commands::edit::{
    same_but_components, component_index, drop_links, drop_exports, links_without, exports_without,
    lemma_links_without, entry_matches,
};
use crate::commands::link::{same_but_links, links_updated, all_unlinked};

verus! {

/// Why a removal is refused.
#[derive(Debug)]
pub enum RemoveError {
    /// The named component does not exist.
    NoSuchComponent(String),
}

impl RemoveError {
    /// The message shown for the error.
    pub fn message(&self) -> (res: String)
        ensures
            res@ == match self {
                RemoveError::NoSuchComponent(n) => "No such component '"@ + n@ + "'"@,
            },
    {
        match self {
            RemoveError::NoSuchComponent(n) => cat3("No such component '", n.as_str(), "'"),
        }
    }
}

/// A dependency that `triton remove pkg` drops: its name, or for a git
/// dependency its name or repository, equals `pkg` ignoring ASCII case.
pub open spec fn dep_removed(d: DepSpec, pkg: Seq<char>) -> bool {
    match d {
        DepSpec::Simple(n) => eq_ic(n@, pkg),
        DepSpec::Git(g) => eq_ic(g.name@, pkg) || eq_ic(g.repo@, pkg),
        DepSpec::Detailed(x) => eq_ic(x.name@, pkg),
    }
}

/// The dependencies that stay, in order.
pub open spec fn deps_without(s: Seq<DepSpec>, pkg: Seq<char>) -> Seq<DepSpec>
    decreases s.len(),
{
    if s.len() == 0 {
        s
    } else if dep_removed(s.last(), pkg) {
        deps_without(s.drop_last(), pkg)
    } else {
        deps_without(s.drop_last(), pkg).push(s.last())
    }
}

/// No dependency left is one that `pkg` removes.
pub proof fn lemma_deps_without(s: Seq<DepSpec>, pkg: Seq<char>)
    ensures
        forall|i: int| 0 <= i < deps_without(s, pkg).len() ==> !dep_removed(#[trigger] deps_without(s, pkg)[i], pkg),
    decreases s.len(),
{
    if s.len() > 0 {
        lemma_deps_without(s.drop_last(), pkg);
        let r = deps_without(s.drop_last(), pkg);
        if !dep_removed(s.last(), pkg) {
            assert forall|i: int| 0 <= i < r.push(s.last()).len() implies !dep_removed(#[trigger] r.push(s.last())[i], pkg) by {
                if i < r.len() {
                    assert(r.push(s.last())[i] == r[i]);
                }
            }
        }
    }
}

/// No dependency of the list is named `pkg` ignoring ASCII case, and no
/// git dependency has `pkg` as its repository either.
pub open spec fn none_named(s: Seq<DepSpec>, pkg: Seq<char>) -> bool {
    forall|i: int| 0 <= i < s.len() ==> match #[trigger] s[i] {
        DepSpec::Simple(n) => !eq_ic(n@, pkg),
        DepSpec::Git(g) => !eq_ic(g.name@, pkg) && !eq_ic(g.repo@, pkg),
        DepSpec::Detailed(x) => !eq_ic(x.name@, pkg),
    }
}

/// A dependency other than `pkg`: its name differs from `pkg` ignoring ASCII
/// case, and for a git dependency so does its repository.
pub open spec fn other_than(d: DepSpec, pkg: Seq<char>) -> bool {
    match d {
        DepSpec::Simple(n) => !eq_ic(n@, pkg),
        DepSpec::Git(g) => !eq_ic(g.name@, pkg) && !eq_ic(g.repo@, pkg),
        DepSpec::Detailed(x) => !eq_ic(x.name@, pkg),
    }
}

/// Removing `pkg` from the dependencies leaves none named `pkg` (a git
/// dependency neither by name nor by repository), keeps every other one in
/// its order, and keeps nothing that was not there.
pub proof fn lemma_remove_drops_pkg(s: Seq<DepSpec>, pkg: Seq<char>)
    ensures
        deps_without(s, pkg) == s.filter(|d: DepSpec| other_than(d, pkg)),
        none_named(deps_without(s, pkg), pkg),
        forall|j: int| 0 <= j < s.len() && other_than(#[trigger] s[j], pkg) ==> deps_without(s, pkg).contains(s[j]),
        forall|i: int| 0 <= i < deps_without(s, pkg).len() ==> s.contains(#[trigger] deps_without(s, pkg)[i]),
    decreases s.len(),
{
    let keep = |d: DepSpec| other_than(d, pkg);
    if s.len() == 0 {
        reveal(Seq::filter);
    }
    if s.len() > 0 {
        lemma_remove_drops_pkg(s.drop_last(), pkg);
        assert(s =~= s.drop_last().push(s.last()));
        s.drop_last().lemma_filter_push(s.last(), keep);
        let r = deps_without(s.drop_last(), pkg);
        let res = deps_without(s, pkg);
        assert forall|j: int| 0 <= j < s.len() && other_than(#[trigger] s[j], pkg) implies res.contains(s[j]) by {
            if j < s.len() - 1 {
                assert(s.drop_last()[j] == s[j]);
                assert(r.contains(s[j]));
                if !dep_removed(s.last(), pkg) {
                    let q = choose|q: int| 0 <= q < r.len() && r[q] == s[j];
                    assert(res[q] == s[j]);
                }
            } else {
                assert(res[res.len() - 1] == s[j]);
            }
        }
        assert forall|i: int| 0 <= i < res.len() implies s.contains(#[trigger] res[i]) by {
            if i < r.len() {
                assert(res[i] == r[i]);
                let q = choose|q: int| 0 <= q < s.drop_last().len() && s.drop_last()[q] == r[i];
                assert(s[q] == r[i]);
            } else {
                assert(s[s.len() - 1] == res[i]);
            }
        }
        assert forall|i: int| 0 <= i < res.len() implies match #[trigger] res[i] {
            DepSpec::Simple(n) => !eq_ic(n@, pkg),
            DepSpec::Git(g) => !eq_ic(g.name@, pkg) && !eq_ic(g.repo@, pkg),
            DepSpec::Detailed(x) => !eq_ic(x.name@, pkg),
        } by {
            if i < r.len() {
                assert(res[i] == r[i]);
            }
        }
    }
}

fn is_removed(d: &DepSpec, pkg: &str) -> (res: bool)
    ensures
        res == dep_removed(*d, pkg@),
{
    match d {
        DepSpec::Simple(n) => eq_ignore_case(n.as_str(), pkg),
        DepSpec::Git(g) => eq_ignore_case(g.name.as_str(), pkg) || eq_ignore_case(g.repo.as_str(), pkg),
        DepSpec::Detailed(x) => eq_ignore_case(x.name.as_str(), pkg),
    }
}

fn drop_deps(deps: &mut Vec<DepSpec>, pkg: &str)
    ensures
        final(deps)@ == deps_without(old(deps)@, pkg@),
{
    let ghost o = deps@;
    let n0 = deps.len();
    let mut i: usize = 0;
    let mut j: usize = 0;
    assert(o.take(0) =~= Seq::<DepSpec>::empty());
    assert(o.skip(0) =~= o);
    while j < n0
        invariant
            j <= o.len(),
            n0 == o.len(),
            i <= j,
            deps@ == deps_without(o.take(j as int), pkg@) + o.skip(j as int),
            i == deps_without(o.take(j as int), pkg@).len(),
        decreases o.len() - j,
    {
        proof {
            assert(o.take(j + 1).drop_last() =~= o.take(j as int));
            assert(o.take(j + 1).last() == o[j as int]);
        }
        assert(deps@[i as int] == o[j as int]);
        if is_removed(&deps[i], pkg) {
            deps.remove(i);
            assert(deps@ =~= deps_without(o.take(j + 1), pkg@) + o.skip(j + 1));
        } else {
            assert(deps@ =~= deps_without(o.take(j + 1), pkg@) + o.skip(j + 1));
            i += 1;
        }
        j += 1;
    }
    assert(o.take(o.len() as int) =~= o);
    assert(o.skip(o.len() as int) =~= Seq::<DepSpec>::empty());
}

fn drop_links_all(comps: &mut Vec<(String, TritonComponent)>, n: &str, ci: bool)
    ensures
        final(comps)@.len() == old(comps)@.len(),
        forall|k: int| 0 <= k < old(comps)@.len() ==> {
            &&& (#[trigger] final(comps)@[k]).0 == old(comps)@[k].0
            &&& same_but_links(final(comps)@[k].1, old(comps)@[k].1)
            &&& final(comps)@[k].1.link@ == links_without(old(comps)@[k].1.link@, n@, ci)
        },
{
    let ghost o = comps@;
    let mut k: usize = 0;
    while k < comps.len()
        invariant
            k <= comps@.len(),
            comps@.len() == o.len(),
            forall|q: int| k <= q < o.len() ==> comps@[q] == o[q],
            forall|q: int| 0 <= q < k ==> {
                &&& (#[trigger] comps@[q]).0 == o[q].0
                &&& same_but_links(comps@[q].1, o[q].1)
                &&& comps@[q].1.link@ == links_without(o[q].1.link@, n@, ci)
            },
        decreases comps.len() - k,
    {
        let ghost before = comps@;
        let (key, mut comp) = comps.remove(k);
        drop_links(&mut comp.link, n, ci);
        comps.insert(k, (key, comp));
        assert(comps@ =~= before.update(k as int, (key, comp)));
        k += 1;
    }
}

/// `triton remove pkg [component]` on the model. With a component, that
/// component stops linking `pkg`. Without one, the dependencies that `pkg`
/// names go, and no component links `pkg` any more. Names are matched
/// ignoring ASCII case.
pub fn remove_dependency(root: &mut TritonRoot, pkg: &str, component: Option<&str>) -> (res: Result<(), RemoveError>)
    ensures
        final(root).app_name == old(root).app_name,
        final(root).scripts == old(root).scripts,
        match component {
            Some(c) => {
                &&& res is Err <==> !has_component(*old(root), c@)
                &&& res is Err ==> *final(root) == *old(root)
                &&& res is Ok ==> final(root).deps == old(root).deps && exists|t: int|
                    old(root).components@[t].0@ == c@ && links_updated(
                        old(root).components@,
                        final(root).components@,
                        t,
                        links_without(old(root).components@[t].1.link@, pkg@, true),
                    )
            },
            None => {
                &&& res is Ok
                &&& final(root).deps@ == deps_without(old(root).deps@, pkg@)
                &&& none_named(final(root).deps@, pkg@)
                &&& all_unlinked(old(root).components@, final(root).components@, pkg@)
            },
        },
{
    match component {
        Some(c) => {
            let t = match component_index(root, c) {
                Some(t) => t,
                None => return Err(RemoveError::NoSuchComponent(to_owned(c))),
            };
            let ghost o = root.components@;
            let (key, mut comp) = root.components.remove(t);
            drop_links(&mut comp.link, pkg, true);
            root.components.insert(t, (key, comp));
            assert(root.components@ =~= o.update(t as int, (key, comp)));
            assert(links_updated(o, root.components@, t as int, links_without(o[t as int].1.link@, pkg@, true)));
            Ok(())
        },
        None => {
            proof {
                lemma_remove_drops_pkg(root.deps@, pkg@);
            }
            drop_deps(&mut root.deps, pkg);
            drop_links_all(&mut root.components, pkg, true);
            Ok(())
        },
    }
}

/// After a global removal no dependency is one that `pkg` names and no
/// component links `pkg` (ignoring ASCII case).
pub proof fn lemma_remove_dependency_complete(old_root: TritonRoot, new_root: TritonRoot, pkg: Seq<char>)
    requires
        new_root.deps@ == deps_without(old_root.deps@, pkg),
        all_unlinked(old_root.components@, new_root.components@, pkg),
    ensures
        forall|i: int| 0 <= i < new_root.deps@.len() ==> !dep_removed(#[trigger] new_root.deps@[i], pkg),
        forall|k: int, i: int|
            0 <= k < new_root.components@.len() && 0 <= i < new_root.components@[k].1.link@.len()
                ==> !entry_matches(#[trigger] new_root.components@[k].1.link@[i], pkg, true),
{
    lemma_deps_without(old_root.deps@, pkg);
    assert forall|k: int, i: int|
        0 <= k < new_root.components@.len() && 0 <= i < new_root.components@[k].1.link@.len()
            implies !entry_matches(#[trigger] new_root.components@[k].1.link@[i], pkg, true) by {
        assert(new_root.components@[k].1.link@ == links_without(old_root.components@[k].1.link@, pkg, true));
        lemma_links_without(old_root.components@[k].1.link@, pkg, true);
    }
}

/// The vcpkg manifest entries that stay after a removal, for the first `k`
/// dependencies: plain ones by name, detailed ones without OS or triplet
/// filters with their features, git ones never.
pub open spec fn manifest_names(deps: Seq<DepSpec>, k: int) -> Seq<(Seq<char>, Seq<Seq<char>>)>
    decreases k,
{
    if k <= 0 {
        Seq::empty()
    } else {
        manifest_names(deps, k - 1) + match deps[k - 1] {
            DepSpec::Simple(n) => seq![(n@, Seq::<Seq<char>>::empty())],
            DepSpec::Detailed(d) => if d.os@.len() == 0 && d.triplet@.len() == 0 {
                seq![(d.name@, views(d.features@))]
            } else {
                Seq::empty()
            },
            DepSpec::Git(_) => Seq::empty(),
        }
    }
}

/// The entries of the vcpkg manifest after a removal (see `manifest_names`);
/// an entry with features is written as an object.
pub fn vcpkg_manifest_deps(root: &TritonRoot) -> (res: Vec<ManifestEntry>)
    ensures
        manifest_view(res@) == manifest_names(root.deps@, root.deps@.len() as int),
{
    let mut out: Vec<ManifestEntry> = Vec::new();
    let mut k: usize = 0;
    while k < root.deps.len()
        invariant
            k <= root.deps@.len(),
            manifest_view(out@) == manifest_names(root.deps@, k as int),
        decreases root.deps.len() - k,
    {
        let ghost before = out@;
        match &root.deps[k] {
            DepSpec::Simple(n) => {
                let e = ManifestEntry { name: n.clone(), features: Vec::new() };
                assert(views(e.features@) =~= Seq::<Seq<char>>::empty());
                out.push(e);
            },
            DepSpec::Detailed(d) => {
                if d.os.len() == 0 && d.triplet.len() == 0 {
                    out.push(ManifestEntry { name: d.name.clone(), features: clone_strings(&d.features) });
                }
            },
            DepSpec::Git(_) => {},
        }
        assert(manifest_view(out@) =~= manifest_names(root.deps@, k + 1));
        k += 1;
    }
    out
}

/// Some git dependency is still named exactly `pkg` (its vendored sources
/// are then kept).
pub fn vendored_still_used(root: &TritonRoot, pkg: &str) -> (res: bool)
    ensures
        res == exists|i: int| 0 <= i < root.deps@.len() && (#[trigger] root.deps@[i] matches DepSpec::Git(g) && g.name@ == pkg@),
{
    let mut k: usize = 0;
    while k < root.deps.len()
        invariant
            k <= root.deps@.len(),
            forall|i: int| 0 <= i < k ==> !(#[trigger] root.deps@[i] matches DepSpec::Git(g) && g.name@ == pkg@),
        decreases root.deps.len() - k,
    {
        match &root.deps[k] {
            DepSpec::Git(g) => {
                if str_eq(g.name.as_str(), pkg) {
                    return true;
                }
            },
            _ => {},
        }
        k += 1;
    }
    false
}

// ---------------------------------------------------------------------------
// Removing a component
// ---------------------------------------------------------------------------

/// `after` is `before` without component `t`, and with the links and exports
/// that name it dropped from every other component.
pub open spec fn component_removed(
    before: Seq<(String, TritonComponent)>,
    after: Seq<(String, TritonComponent)>,
    t: int,
) -> bool {
    let rest = before.remove(t);
    let n = before[t].0@;
    &&& after.len() == rest.len()
    &&& forall|k: int| 0 <= k < rest.len() ==> {
        &&& (#[trigger] after[k]).0 == rest[k].0
        &&& after[k].1.link@ == links_without(rest[k].1.link@, n, false)
        &&& after[k].1.exports@ == exports_without(rest[k].1.exports@, n)
        &&& after[k].1.kind == rest[k].1.kind
        &&& after[k].1.defines == rest[k].1.defines
        &&& after[k].1.resources == rest[k].1.resources
        &&& after[k].1.assets == rest[k].1.assets
        &&& after[k].1.vendor_libs == rest[k].1.vendor_libs
        &&& after[k].1.link_options == rest[k].1.link_options
    }
}

/// `triton remove-component name` on the model: the component goes, and so
/// does every link to it and every export of its name.
pub fn remove_component(root: &mut TritonRoot, name: &str) -> (res: Result<(), RemoveError>)
    requires
        root_wf(*old(root)),
    ensures
        same_but_components(*old(root), *final(root)),
        res is Err <==> !has_component(*old(root), name@),
        res is Err ==> *final(root) == *old(root),
        res is Ok ==> exists|t: int|
            0 <= t < old(root).components@.len() && old(root).components@[t].0@ == name@ && component_removed(
                old(root).components@,
                final(root).components@,
                t,
            ),
        res is Ok ==> root_wf(*final(root)) && !has_component(*final(root), name@),
{
    let t = match component_index(root, name) {
        Some(t) => t,
        None => return Err(RemoveError::NoSuchComponent(to_owned(name))),
    };
    let ghost o = root.components@;
    let _gone = root.components.remove(t);
    let ghost rest = root.components@;
    assert(rest == o.remove(t as int));
    let mut k: usize = 0;
    while k < root.components.len()
        invariant
            k <= root.components@.len(),
            root.components@.len() == rest.len(),
            same_but_components(*old(root), *root),
            forall|q: int| k <= q < rest.len() ==> root.components@[q] == rest[q],
            forall|q: int| 0 <= q < k ==> {
                &&& (#[trigger] root.components@[q]).0 == rest[q].0
                &&& root.components@[q].1.link@ == links_without(rest[q].1.link@, name@, false)
                &&& root.components@[q].1.exports@ == exports_without(rest[q].1.exports@, name@)
                &&& root.components@[q].1.kind == rest[q].1.kind
                &&& root.components@[q].1.defines == rest[q].1.defines
                &&& root.components@[q].1.resources == rest[q].1.resources
                &&& root.components@[q].1.assets == rest[q].1.assets
                &&& root.components@[q].1.vendor_libs == rest[q].1.vendor_libs
                &&& root.components@[q].1.link_options == rest[q].1.link_options
            },
        decreases root.components.len() - k,
    {
        let ghost before = root.components@;
        let (key, mut comp) = root.components.remove(k);
        drop_links(&mut comp.link, name, false);
        drop_exports(&mut comp.exports, name);
        root.components.insert(k, (key, comp));
        assert(root.components@ =~= before.update(k as int, (key, comp)));
        k += 1;
    }
    proof {
        let c = root.components@;
        assert(o[t as int].0@ == name@);
        assert forall|a: int, b: int| 0 <= a < b < c.len() implies crate::models::lex_lt(c[a].0@, c[b].0@) by {
            assert(c[a].0 == rest[a].0 && c[b].0 == rest[b].0);
            if b < t {
                assert(rest[a] == o[a] && rest[b] == o[b]);
            } else if a >= t {
                assert(rest[a] == o[a + 1] && rest[b] == o[b + 1]);
            } else {
                assert(rest[a] == o[a] && rest[b] == o[b + 1]);
            }
        }
        crate::models::lemma_sorted_distinct(o);
        assert forall|k: int| 0 <= k < c.len() implies c[k].0@ != name@ by {
            assert(c[k].0 == rest[k].0);
            if k < t {
                assert(rest[k] == o[k]);
            } else {
                assert(rest[k] == o[k + 1]);
            }
        }
        assert(component_removed(o, c, t as int));
    }
    Ok(())
}

/// After removing a component, no remaining component links it or exports
/// its name.
pub proof fn lemma_remove_component_no_refs(
    before: Seq<(String, TritonComponent)>,
    after: Seq<(String, TritonComponent)>,
    t: int,
)
    requires
        0 <= t < before.len(),
        component_removed(before, after, t),
    ensures
        forall|k: int, i: int| 0 <= k < after.len() && 0 <= i < after[k].1.link@.len()
            ==> !entry_matches(#[trigger] after[k].1.link@[i], before[t].0@, false),
        forall|k: int, i: int| 0 <= k < after.len() && 0 <= i < after[k].1.exports@.len()
            ==> (#[trigger] after[k].1.exports@[i])@ != before[t].0@,
{
    let rest = before.remove(t);
    let n = before[t].0@;
    assert forall|k: int, i: int| 0 <= k < after.len() && 0 <= i < after[k].1.link@.len()
        implies !entry_matches(#[trigger] after[k].1.link@[i], n, false) by {
        lemma_links_without(rest[k].1.link@, n, false);
    }
    assert forall|k: int, i: int| 0 <= k < after.len() && 0 <= i < after[k].1.exports@.len()
        implies (#[trigger] after[k].1.exports@[i])@ != n by {
        lemma_exports_without(rest[k].1.exports@, n);
    }
}

proof fn lemma_exports_without(s: Seq<String>, n: Seq<char>)
    ensures
        forall|i: int| 0 <= i < exports_without(s, n).len() ==> (#[trigger] exports_without(s, n)[i])@ != n,
    decreases s.len(),
{
    if s.len() > 0 {
        lemma_exports_without(s.drop_last(), n);
        let r = exports_without(s.drop_last(), n);
        if s.last()@ != n {
            assert forall|i: int| 0 <= i < r.push(s.last()).len() implies (#[trigger] r.push(s.last())[i])@ != n by {
                if i < r.len() {
                    assert(r.push(s.last())[i] == r[i]);
                }
            }
        }
    }
}

} // verus!
