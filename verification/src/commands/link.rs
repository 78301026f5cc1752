//! `triton link A:B` (B depends on A) and `triton unlink A[:B]` on the model.

use vstd::prelude::*;
use crate::models::{TritonRoot, TritonComponent, LinkEntry, entry_name, root_wf, has_component};
use crate::text::{to_owned, cat3, concat2, push_str, str_eq, join, join_strings, views};
use crate::util::validation::{
    spec_is_dep, spec_has_link, is_dep, has_link_to_name, has_cycle, is_cycle, spec_first_cycle,
    names_at, detect_cycles,
};
use crate::cmake::platform::{spec_dep_is_active, dep_active_defined, dep_is_active};
use crate::commands::edit::{
    ensure_component, with_component, same_but_components, component_index, drop_links,
    links_without,
};

verus! {

/// Two components that differ at most in their link lists.
pub open spec fn same_but_links(a: TritonComponent, b: TritonComponent) -> bool {
    &&& a.kind == b.kind
    &&& a.cxx_std == b.cxx_std
    &&& a.c_std == b.c_std
    &&& a.system_libs == b.system_libs
    &&& a.defines == b.defines
    &&& a.exports == b.exports
    &&& a.resources == b.resources
    &&& a.include_dirs == b.include_dirs
    &&& a.sources == b.sources
    &&& a.arch == b.arch
    &&& a.link_options == b.link_options
    &&& a.vendor_libs == b.vendor_libs
    &&& a.assets == b.assets
}

/// `after` is `before` with component `t`'s link list replaced as `links`
/// says and everything else kept.
pub open spec fn links_updated(
    before: Seq<(String, TritonComponent)>,
    after: Seq<(String, TritonComponent)>,
    t: int,
    links: Seq<LinkEntry>,
) -> bool {
    &&& 0 <= t < before.len()
    &&& after.len() == before.len()
    &&& forall|k: int| 0 <= k < before.len() && k != t ==> after[k] == before[k]
    &&& after[t].0 == before[t].0
    &&& same_but_links(after[t].1, before[t].1)
    &&& after[t].1.link@ == links
}

/// The link list after linking `from`: unchanged when it already names
/// `from`, else with a plain entry for `from` appended.
pub open spec fn link_added(before: Seq<LinkEntry>, after: Seq<LinkEntry>, from: Seq<char>) -> bool {
    if exists|i: int| 0 <= i < before.len() && entry_name(before[i]) == from {
        after == before
    } else {
        &&& after.len() == before.len() + 1
        &&& after.take(before.len() as int) == before
        &&& after.last() matches LinkEntry::Name(s) && s@ == from
    }
}

/// Some dependency named `name` is active for the host and triplet.
pub open spec fn dep_active_any(r: TritonRoot, name: Seq<char>, host_os: Seq<char>, triplet: Seq<char>) -> bool {
    exists|i: int| 0 <= i < r.deps@.len() && spec_dep_is_active(#[trigger] r.deps@[i], name, host_os, triplet)
}

/// Every dependency can be judged for `name` on this host (a dependency of
/// that name names only known operating systems).
pub open spec fn deps_judgeable(r: TritonRoot, name: Seq<char>, host_os: Seq<char>) -> bool {
    forall|i: int| 0 <= i < r.deps@.len() ==> dep_active_defined(#[trigger] r.deps@[i], name, host_os)
}

/// Why a link is refused.
#[derive(Debug)]
pub enum LinkError {
    /// The right-hand side is a dependency, not a component.
    TargetIsDep(String),
    /// A component cannot depend on itself.
    SelfLink(String),
    /// With the new link the components depend on each other in a circle;
    /// the names along it, the first repeated at the end.
    Circular(Vec<String>),
}

impl LinkError {
    /// The message shown for the error.
    pub fn message(&self) -> (res: String)
        ensures
            res@ == match self {
                LinkError::TargetIsDep(n) => "Right-hand side '"@ + n@
                    + "' is a dep. `triton link A:B` means 'B depends on A'. The right-hand side must be a component."@,
                LinkError::SelfLink(n) => "Component '"@ + n@ + "' cannot link to itself."@,
                LinkError::Circular(c) => "Circular dependency detected: "@ + join(views(c@), " -> "@),
            },
    {
        match self {
            LinkError::TargetIsDep(n) => cat3(
                "Right-hand side '",
                n.as_str(),
                "' is a dep. `triton link A:B` means 'B depends on A'. The right-hand side must be a component.",
            ),
            LinkError::SelfLink(n) => cat3("Component '", n.as_str(), "' cannot link to itself."),
            LinkError::Circular(c) => {
                let j = join_strings(c, " -> ");
                concat2("Circular dependency detected: ", j.as_str())
            },
        }
    }
}

/// What a link did.
#[derive(Debug)]
pub enum LinkOutcome {
    /// The left-hand side is a dependency that is not active on this
    /// platform and triplet; nothing is linked (and nothing is to be saved).
    DepInactive,
    /// The right-hand side now depends on the left-hand side.
    Linked,
}

/// `c` names the cycle that cycle detection finds first in `r`, on which no
/// component occurs twice before it closes.
pub open spec fn first_cycle_is(r: TritonRoot, c: Seq<String>) -> bool {
    &&& has_cycle(r)
    &&& is_cycle(r, views(c))
    &&& crate::util::validation::simple_cycle(views(c))
    &&& spec_first_cycle(r) matches Some(ic) && views(c) == names_at(r, ic)
}

/// The components after `to`, and then `from` unless it is a dependency,
/// were made sure of are `mid` and `mid2`; an inactive dependency leaves them
/// so, otherwise `from` is added to the links of `to`. That link is kept when
/// the components stay free of cycles, and refused with the first cycle
/// found when they do not (the model then holds the refused link and is not
/// to be saved).
pub open spec fn link_result(
    old_root: TritonRoot,
    new_root: TritonRoot,
    from: Seq<char>,
    to: Seq<char>,
    host_os: Seq<char>,
    triplet: Seq<char>,
    res: Result<LinkOutcome, LinkError>,
    mid: Seq<(String, TritonComponent)>,
    mid2: Seq<(String, TritonComponent)>,
) -> bool {
    &&& with_component(old_root.components@, mid, to)
    &&& (if spec_is_dep(old_root, from) { mid2 == mid } else { with_component(mid, mid2, from) })
    &&& (res matches Ok(LinkOutcome::DepInactive)) <==> (spec_is_dep(old_root, from) && !dep_active_any(old_root, from, host_os, triplet))
    &&& (res matches Ok(LinkOutcome::DepInactive)) ==> new_root.components@ == mid2
    &&& (res matches Ok(LinkOutcome::Linked) || res matches Err(LinkError::Circular(_))) ==> exists|t: int, l: Seq<LinkEntry>| {
        &&& mid2[t].0@ == to
        &&& links_updated(mid2, new_root.components@, t, l)
        &&& link_added(mid2[t].1.link@, l, from)
        &&& spec_has_link(new_root.components@[t].1, from)
    }
    &&& (res matches Ok(LinkOutcome::Linked)) ==> !has_cycle(new_root)
    &&& res matches Err(LinkError::Circular(c)) ==> first_cycle_is(new_root, c@)
    &&& res is Ok || res matches Err(LinkError::Circular(_))
}

fn add_link_at(comps: &mut Vec<(String, TritonComponent)>, t: usize, from: &str)
    requires
        t < old(comps)@.len(),
    ensures
        exists|l: Seq<LinkEntry>|
            links_updated(old(comps)@, final(comps)@, t as int, l) && link_added(old(comps)@[t as int].1.link@, l, from@),
{
    let ghost o = comps@;
    let (key, mut comp) = comps.remove(t);
    let ghost oc = comp;
    if !has_link_to_name(&comp, from) {
        comp.link.push(LinkEntry::Name(to_owned(from)));
        assert(comp.link@.take(oc.link@.len() as int) =~= oc.link@);
    }
    comps.insert(t, (key, comp));
    assert(comps@ =~= o.update(t as int, (key, comp)));
    assert(links_updated(o, comps@, t as int, comp.link@));
}

/// `triton link from:to` on the model: `to` comes to depend on `from`.
/// `to` must not be a dependency, nor the component `from` itself; it
/// becomes a component if it is none, and so does `from` unless it is a
/// dependency. A dependency `from` is linked only where it is active on the
/// host OS and triplet.
pub fn link(root: &mut TritonRoot, from: &str, to: &str, host_os: &str, triplet: &str) -> (res: Result<LinkOutcome, LinkError>)
    requires
        root_wf(*old(root)),
        spec_is_dep(*old(root), from@) ==> deps_judgeable(*old(root), from@, host_os@),
    ensures
        root_wf(*final(root)),
        same_but_components(*old(root), *final(root)),
        (res matches Err(LinkError::TargetIsDep(_)) || res matches Err(LinkError::SelfLink(_)))
            <==> (spec_is_dep(*old(root), to@) || from@ == to@),
        res matches Err(LinkError::TargetIsDep(n)) ==> n@ == to@ && spec_is_dep(*old(root), to@),
        res matches Err(LinkError::SelfLink(n)) ==> n@ == to@ && from@ == to@ && !spec_is_dep(*old(root), to@),
        (res matches Err(LinkError::TargetIsDep(_)) || res matches Err(LinkError::SelfLink(_)))
            ==> *final(root) == *old(root),
        !(spec_is_dep(*old(root), to@) || from@ == to@) ==> exists|mid: Seq<(String, TritonComponent)>, mid2: Seq<(String, TritonComponent)>|
            link_result(*old(root), *final(root), from@, to@, host_os@, triplet@, res, mid, mid2),
{
    let from_is_dep = is_dep(root, from);
    let to_is_dep = is_dep(root, to);
    if to_is_dep {
        return Err(LinkError::TargetIsDep(to_owned(to)));
    }
    if str_eq(from, to) {
        return Err(LinkError::SelfLink(to_owned(to)));
    }
    ensure_component(root, to);
    let ghost mid = root.components@;
    if !from_is_dep {
        ensure_component(root, from);
    }
    let ghost mid2 = root.components@;
    proof {
        if !from_is_dep {
            crate::commands::edit::lemma_with_component_keeps(mid, mid2, from@, to@);
        }
        assert(has_component(*root, to@));
    }
    let ghost r2 = *root;
    if from_is_dep {
        let mut active = false;
        let mut i: usize = 0;
        while i < root.deps.len()
            invariant
                i <= root.deps@.len(),
                *root == r2,
                root.deps == old(root).deps,
                deps_judgeable(*old(root), from@, host_os@),
                active == exists|k: int| 0 <= k < i && spec_dep_is_active(#[trigger] root.deps@[k], from@, host_os@, triplet@),
            decreases root.deps.len() - i,
        {
            assert(dep_active_defined(root.deps@[i as int], from@, host_os@));
            if dep_is_active(&root.deps[i], from, host_os, triplet) {
                active = true;
            }
            i += 1;
        }
        if !active {
            assert(link_result(*old(root), *root, from@, to@, host_os@, triplet@, Ok(LinkOutcome::DepInactive), mid, mid2));
            return Ok(LinkOutcome::DepInactive);
        }
    }
    let t = match component_index(root, to) {
        Some(t) => t,
        None => {
            assert(false);
            0
        },
    };
    let ghost before = root.components@;
    add_link_at(&mut root.components, t, from);
    proof {
        let l = root.components@[t as int].1.link@;
        let o = before[t as int].1.link@;
        if exists|i: int| 0 <= i < o.len() && entry_name(o[i]) == from@ {
            let i = choose|i: int| 0 <= i < o.len() && entry_name(o[i]) == from@;
            assert(l[i] == o[i]);
        } else {
            assert(l[l.len() - 1] == l.last());
            assert(entry_name(l[l.len() - 1]) == from@);
        }
        assert(exists|t: int, l: Seq<LinkEntry>| {
            &&& mid2[t].0@ == to@
            &&& links_updated(mid2, root.components@, t, l)
            &&& link_added(mid2[t].1.link@, l, from@)
            &&& spec_has_link(root.components@[t].1, from@)
        }) by {
            assert(mid2[t as int].0@ == to@);
        }
        assert(root_wf(*root));
    }
    match detect_cycles(root) {
        Some(c) => {
            assert(link_result(*old(root), *root, from@, to@, host_os@, triplet@, Err(LinkError::Circular(c)), mid, mid2));
            Err(LinkError::Circular(c))
        },
        None => {
            assert(link_result(*old(root), *root, from@, to@, host_os@, triplet@, Ok(LinkOutcome::Linked), mid, mid2));
            Ok(LinkOutcome::Linked)
        },
    }
}

// ---------------------------------------------------------------------------
// Unlink
// ---------------------------------------------------------------------------

/// Why an unlink is refused.
#[derive(Debug)]
pub enum UnlinkError {
    /// The named component does not exist.
    NoSuchComponent(String),
}

impl UnlinkError {
    /// The message shown for the error.
    pub fn message(&self) -> (res: String)
        ensures
            res@ == match self {
                UnlinkError::NoSuchComponent(n) => "No such component '"@ + n@ + "'"@,
            },
    {
        match self {
            UnlinkError::NoSuchComponent(n) => cat3("No such component '", n.as_str(), "'"),
        }
    }
}

/// What an unlink did.
#[derive(Debug)]
pub enum UnlinkOutcome {
    /// The component did not link the name; nothing changed.
    NotLinked,
    /// The component no longer links the name.
    Unlinked,
    /// No component linked the name; nothing changed.
    NotLinkedAnywhere,
    /// These components (in name order) no longer link the name.
    UnlinkedFrom(Vec<String>),
}

/// Every component keeps its name and all but its link list, whose entries
/// naming `n` (ignoring ASCII case) are gone.
pub open spec fn all_unlinked(
    before: Seq<(String, TritonComponent)>,
    after: Seq<(String, TritonComponent)>,
    n: Seq<char>,
) -> bool {
    &&& after.len() == before.len()
    &&& forall|k: int| 0 <= k < before.len() ==> {
        &&& (#[trigger] after[k]).0 == before[k].0
        &&& same_but_links(after[k].1, before[k].1)
        &&& after[k].1.link@ == links_without(before[k].1.link@, n, true)
    }
}

/// The names of the first `k` components whose link list lost an entry.
pub open spec fn changed_names(
    before: Seq<(String, TritonComponent)>,
    after: Seq<(String, TritonComponent)>,
    k: int,
) -> Seq<Seq<char>>
    decreases k,
{
    if k <= 0 {
        Seq::empty()
    } else if after[k - 1].1.link@.len() < before[k - 1].1.link@.len() {
        changed_names(before, after, k - 1).push(before[k - 1].0@)
    } else {
        changed_names(before, after, k - 1)
    }
}

fn drop_links_at(comps: &mut Vec<(String, TritonComponent)>, t: usize, from: &str, ci: bool) -> (dropped: bool)
    requires
        t < old(comps)@.len(),
    ensures
        links_updated(old(comps)@, final(comps)@, t as int, links_without(old(comps)@[t as int].1.link@, from@, ci)),
        dropped == (final(comps)@[t as int].1.link@.len() < old(comps)@[t as int].1.link@.len()),
{
    let ghost o = comps@;
    let (key, mut comp) = comps.remove(t);
    let dropped = drop_links(&mut comp.link, from, ci);
    comps.insert(t, (key, comp));
    assert(comps@ =~= o.update(t as int, (key, comp)));
    dropped
}

/// `triton unlink from[:to]` on the model: the component `to` (or, without
/// `to`, every component) stops linking `from`, matched ignoring ASCII case.
pub fn unlink(root: &mut TritonRoot, from: &str, to: Option<&str>) -> (res: Result<UnlinkOutcome, UnlinkError>)
    ensures
        same_but_components(*old(root), *final(root)),
        match to {
            Some(c) => {
                &&& res is Err <==> !has_component(*old(root), c@)
                &&& res is Err ==> *final(root) == *old(root)
                &&& res is Ok ==> exists|t: int| {
                    &&& old(root).components@[t].0@ == c@
                    &&& links_updated(old(root).components@, final(root).components@, t, links_without(old(root).components@[t].1.link@, from@, true))
                    &&& (res matches Ok(UnlinkOutcome::NotLinked)) <==> final(root).components@[t].1.link@.len() == old(root).components@[t].1.link@.len()
                    &&& (res matches Ok(UnlinkOutcome::NotLinked) || res matches Ok(UnlinkOutcome::Unlinked))
                }
            },
            None => {
                &&& all_unlinked(old(root).components@, final(root).components@, from@)
                &&& match res {
                    Ok(UnlinkOutcome::UnlinkedFrom(names)) => crate::text::views(names@) == changed_names(old(root).components@, final(root).components@, old(root).components@.len() as int) && names@.len() > 0,
                    Ok(UnlinkOutcome::NotLinkedAnywhere) => changed_names(old(root).components@, final(root).components@, old(root).components@.len() as int).len() == 0,
                    _ => false,
                }
            },
        },
{
    match to {
        Some(c) => {
            let t = match component_index(root, c) {
                Some(t) => t,
                None => return Err(UnlinkError::NoSuchComponent(to_owned(c))),
            };
            let dropped = drop_links_at(&mut root.components, t, from, true);
            proof {
                crate::commands::edit::lemma_links_without(old(root).components@[t as int].1.link@, from@, true);
            }
            let res = if dropped {
                UnlinkOutcome::Unlinked
            } else {
                UnlinkOutcome::NotLinked
            };
            assert(old(root).components@[t as int].0@ == c@);
            Ok(res)
        },
        None => {
            let ghost o = root.components@;
            let mut names: Vec<String> = Vec::new();
            let mut k: usize = 0;
            while k < root.components.len()
                invariant
                    k <= root.components@.len(),
                    root.components@.len() == o.len(),
                    same_but_components(*old(root), *root),
                    o == old(root).components@,
                    forall|q: int| k <= q < o.len() ==> root.components@[q] == o[q],
                    forall|q: int| 0 <= q < k ==> {
                        &&& (#[trigger] root.components@[q]).0 == o[q].0
                        &&& same_but_links(root.components@[q].1, o[q].1)
                        &&& root.components@[q].1.link@ == links_without(o[q].1.link@, from@, true)
                    },
                    crate::text::views(names@) == changed_names(o, root.components@, k as int),
                decreases root.components.len() - k,
            {
                let ghost before = root.components@;
                let dropped = drop_links_at(&mut root.components, k, from, true);
                if dropped {
                    crate::text::push_line(&mut names, root.components[k].0.clone());
                }
                proof {
                    assert forall|q: int| 0 <= q < k implies changed_names(o, root.components@, q) == changed_names(o, before, q) by {
                        lemma_changed_prefix(o, root.components@, before, q, k as int);
                    }
                    lemma_changed_prefix(o, root.components@, before, k as int, k as int);
                }
                k += 1;
            }
            if names.len() == 0 {
                Ok(UnlinkOutcome::NotLinkedAnywhere)
            } else {
                Ok(UnlinkOutcome::UnlinkedFrom(names))
            }
        },
    }
}

proof fn lemma_changed_prefix(
    o: Seq<(String, TritonComponent)>,
    a: Seq<(String, TritonComponent)>,
    b: Seq<(String, TritonComponent)>,
    q: int,
    k: int,
)
    requires
        0 <= q <= k,
        k <= a.len(),
        k <= b.len(),
        forall|j: int| 0 <= j < k ==> a[j] == b[j],
    ensures
        changed_names(o, a, q) == changed_names(o, b, q),
    decreases q,
{
    if q > 0 {
        lemma_changed_prefix(o, a, b, q - 1, k);
    }
}

/// After `triton unlink from:to` the component no longer links `from` in
/// any ASCII case, and keeps every other link in order.
pub proof fn lemma_unlink_removes_edge(
    before: Seq<(String, TritonComponent)>,
    after: Seq<(String, TritonComponent)>,
    t: int,
    from: Seq<char>,
)
    requires
        links_updated(before, after, t, links_without(before[t].1.link@, from, true)),
    ensures
        forall|i: int| 0 <= i < after[t].1.link@.len() ==> !crate::commands::edit::entry_matches(#[trigger] after[t].1.link@[i], from, true),
        forall|i: int| 0 <= i < before[t].1.link@.len() && !crate::commands::edit::entry_matches(#[trigger] before[t].1.link@[i], from, true)
            ==> after[t].1.link@.contains(before[t].1.link@[i]),
{
    crate::commands::edit::lemma_links_without(before[t].1.link@, from, true);
}

/// Linking a component that already links `from` changes nothing.
pub proof fn lemma_link_idempotent(before: Seq<LinkEntry>, after: Seq<LinkEntry>, from: Seq<char>)
    requires
        link_added(before, after, from),
        exists|i: int| 0 <= i < before.len() && entry_name(before[i]) == from,
    ensures
        after == before,
{
}


/// Linking then unlinking gives a component back its links: when it linked
/// nothing named `from` in any ASCII case, the link that `triton link
/// from:to` adds is the only one that `triton unlink from:to` takes away.
pub proof fn lemma_link_unlink_round_trip(before: Seq<LinkEntry>, mid: Seq<LinkEntry>, from: Seq<char>)
    requires
        link_added(before, mid, from),
        forall|i: int| 0 <= i < before.len() ==> !crate::commands::edit::entry_matches(#[trigger] before[i], from, true),
    ensures
        links_without(mid, from, true) == before,
{
    if exists|i: int| 0 <= i < before.len() && entry_name(before[i]) == from {
        let i = choose|i: int| 0 <= i < before.len() && entry_name(before[i]) == from;
        assert(crate::commands::edit::entry_matches(before[i], from, true));
    }
    assert(mid.drop_last() =~= before);
    assert(crate::commands::edit::entry_matches(mid.last(), from, true));
    crate::commands::edit::lemma_links_without(before, from, true);
}

} // verus!
