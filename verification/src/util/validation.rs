//! Validation of a project model: names, kinds, links and component cycles.

use vstd::prelude::*;
use crate::models::{
    TritonRoot, TritonComponent, LinkEntry, dep_name, entry_name, link_names, has_component,
    root_wf, sorted_keys, lemma_sorted_distinct, distinct_keys, find_component,
};
use crate::text::{eq_ic, trim, eq_ignore_case, str_eq, is_blank, join, views};
use crate::cmake::resolution::{comp_index, lemma_comp_index};

verus! {

// ---------------------------------------------------------------------------
// Specifications
// ---------------------------------------------------------------------------

/// Some dependency has exactly this name.
pub open spec fn spec_is_dep(r: TritonRoot, name: Seq<char>) -> bool {
    exists|i: int| 0 <= i < r.deps@.len() && dep_name(r.deps@[i]) == name
}

/// Some dependency has this name, ignoring ASCII case.
pub open spec fn spec_is_dep_ci(r: TritonRoot, name: Seq<char>) -> bool {
    exists|i: int| 0 <= i < r.deps@.len() && eq_ic(dep_name(r.deps@[i]), name)
}

/// The component's link list refers to this name.
pub open spec fn spec_has_link(c: TritonComponent, want: Seq<char>) -> bool {
    exists|i: int| 0 <= i < c.link@.len() && entry_name(c.link@[i]) == want
}

/// Component `i` links to component `j` as a component (not through a
/// dependency of the same name).
pub open spec fn comp_edge(r: TritonRoot, i: int, j: int) -> bool {
    &&& 0 <= i < r.components@.len()
    &&& 0 <= j < r.components@.len()
    &&& spec_has_link(r.components@[i].1, r.components@[j].0@)
    &&& !spec_is_dep_ci(r, r.components@[j].0@)
}

/// Component named `a` links to component named `b` as a component.
pub open spec fn name_edge(r: TritonRoot, a: Seq<char>, b: Seq<char>) -> bool {
    exists|i: int, j: int|
        comp_edge(r, i, j) && #[trigger] r.components@[i].0@ == a && #[trigger] r.components@[j].0@
            == b
}

/// A cycle of component names: at least one step, ending where it starts,
/// each step a component-to-component link.
pub open spec fn is_cycle(r: TritonRoot, c: Seq<Seq<char>>) -> bool {
    &&& c.len() >= 2
    &&& c[0] == c[c.len() - 1]
    &&& forall|k: int| 0 <= k < c.len() - 1 ==> name_edge(r, #[trigger] c[k], c[k + 1])
}

/// The component links form a cycle somewhere.
pub open spec fn has_cycle(r: TritonRoot) -> bool {
    exists|c: Seq<Seq<char>>| is_cycle(r, c)
}

/// The kind is one of the two allowed.
pub open spec fn kind_ok(k: Seq<char>) -> bool {
    k == "exe"@ || k == "lib"@
}

/// Component `i` links to its own name, and that name is no dependency.
pub open spec fn self_link_at(r: TritonRoot, i: int, k: int) -> bool {
    &&& 0 <= i < r.components@.len()
    &&& 0 <= k < r.components@[i].1.link@.len()
    &&& entry_name(r.components@[i].1.link@[k]) == r.components@[i].0@
    &&& !spec_is_dep_ci(r, r.components@[i].0@)
}

/// Link `k` of component `i` names neither a dependency nor a component.
pub open spec fn unknown_link_at(r: TritonRoot, i: int, k: int) -> bool {
    &&& 0 <= i < r.components@.len()
    &&& 0 <= k < r.components@[i].1.link@.len()
    &&& entry_name(r.components@[i].1.link@[k]).len() > 0
    &&& !spec_is_dep_ci(r, entry_name(r.components@[i].1.link@[k]))
    &&& !has_component(r, entry_name(r.components@[i].1.link@[k]))
}

/// `(i, k)` comes strictly before `(i2, k2)` in component-then-link order.
pub open spec fn pos_before(i: int, k: int, i2: int, k2: int) -> bool {
    i < i2 || (i == i2 && k < k2)
}

/// Why a project model is rejected.
#[derive(Debug)]
pub enum ValidationError {
    EmptyAppName,
    InvalidKind { component: String, kind: String },
    SelfLink { component: String },
    UnknownLinkTarget { component: String, target: String },
    Circular { cycle: Vec<String> },
}

impl ValidationError {
    /// The message shown for the error.
    pub fn message(&self) -> (res: String)
        ensures
            res@ == match self {
                ValidationError::EmptyAppName => "app_name cannot be empty."@,
                ValidationError::InvalidKind { component, kind } => "Component '"@ + component@ + "' has invalid kind '"@
                    + kind@ + "'. Must be 'exe' or 'lib'."@,
                ValidationError::SelfLink { component } => "Component '"@ + component@ + "' cannot link to itself."@,
                ValidationError::UnknownLinkTarget { component, target } => "Component '"@ + component@ + "' links to '"@
                    + target@ + "' which is not a known dep or component."@,
                ValidationError::Circular { cycle } => "Circular dependency detected: "@ + join(views(cycle@), " -> "@),
            },
    {
        match self {
            ValidationError::EmptyAppName => crate::text::to_owned("app_name cannot be empty."),
            ValidationError::InvalidKind { component, kind } => crate::text::cat5(
                "Component '",
                component.as_str(),
                "' has invalid kind '",
                kind.as_str(),
                "'. Must be 'exe' or 'lib'.",
            ),
            ValidationError::SelfLink { component } => crate::text::cat3("Component '", component.as_str(), "' cannot link to itself."),
            ValidationError::UnknownLinkTarget { component, target } => crate::text::cat5("Component '", component.as_str(), "' links to '", target.as_str(), "' which is not a known dep or component."),
            ValidationError::Circular { cycle } => {
                let j = crate::text::join_strings(cycle, " -> ");
                crate::text::concat2("Circular dependency detected: ", j.as_str())
            },
        }
    }
}

/// What validation decides, checking in order: the application name, the
/// kinds, self links, unknown link targets, then cycles. Each error names the
/// first offending component (and link) in manifest order; a cycle is the
/// one the depth-first search in manifest order meets first.
pub open spec fn validation_ok(r: TritonRoot, res: Result<(), ValidationError>) -> bool {
    let bad_kind = exists|i: int| 0 <= i < r.components@.len() && !kind_ok(r.components@[i].1.kind@);
    let bad_self = exists|i: int, k: int| self_link_at(r, i, k);
    let bad_link = exists|i: int, k: int| unknown_link_at(r, i, k);
    if trim(r.app_name@).len() == 0 {
        res is Err && res->Err_0 is EmptyAppName
    } else if bad_kind {
        &&& res is Err
        &&& res->Err_0 matches ValidationError::InvalidKind { component, kind }
        &&& exists|i: int|
            0 <= i < r.components@.len() && !kind_ok(r.components@[i].1.kind@)
                && (forall|j: int| 0 <= j < i ==> kind_ok(r.components@[j].1.kind@))
                && component@ == r.components@[i].0@ && kind@ == r.components@[i].1.kind@
    } else if bad_self {
        &&& res is Err
        &&& res->Err_0 matches ValidationError::SelfLink { component }
        &&& exists|i: int, k: int|
            self_link_at(r, i, k) && (forall|i2: int, k2: int|
                pos_before(i2, k2, i, k) ==> !self_link_at(r, i2, k2)) && component@
                == r.components@[i].0@
    } else if bad_link {
        &&& res is Err
        &&& res->Err_0 matches ValidationError::UnknownLinkTarget { component, target }
        &&& exists|i: int, k: int|
            unknown_link_at(r, i, k) && (forall|i2: int, k2: int|
                pos_before(i2, k2, i, k) ==> !unknown_link_at(r, i2, k2)) && component@
                == r.components@[i].0@ && target@ == entry_name(r.components@[i].1.link@[k])
    } else if has_cycle(r) {
        &&& res is Err
        &&& res->Err_0 matches ValidationError::Circular { cycle }
        &&& is_cycle(r, crate::text::views(cycle@))
        &&& spec_first_cycle(r) matches Some(ic) && crate::text::views(cycle@) == names_at(r, ic)
    } else {
        res is Ok
    }
}

// ---------------------------------------------------------------------------
// Queries
// ---------------------------------------------------------------------------

/// Some dependency is named exactly `name`.
pub fn is_dep(root: &TritonRoot, name: &str) -> (res: bool)
    ensures
        res == spec_is_dep(*root, name@),
{
    let mut i: usize = 0;
    while i < root.deps.len()
        invariant
            i <= root.deps@.len(),
            forall|k: int| 0 <= k < i ==> dep_name(root.deps@[k]) != name@,
        decreases root.deps.len() - i,
    {
        if str_eq(root.deps[i].name().as_str(), name) {
            return true;
        }
        i += 1;
    }
    false
}

/// Some dependency is named `name`, ignoring ASCII case.
pub fn is_dep_case_insensitive(root: &TritonRoot, name: &str) -> (res: bool)
    ensures
        res == spec_is_dep_ci(*root, name@),
{
    let mut i: usize = 0;
    while i < root.deps.len()
        invariant
            i <= root.deps@.len(),
            forall|k: int| 0 <= k < i ==> !eq_ic(dep_name(root.deps@[k]), name@),
        decreases root.deps.len() - i,
    {
        if eq_ignore_case(root.deps[i].name().as_str(), name) {
            return true;
        }
        i += 1;
    }
    false
}

/// The component links to `want` (by the entry's canonical name).
pub fn has_link_to_name(comp: &TritonComponent, want: &str) -> (res: bool)
    ensures
        res == spec_has_link(*comp, want@),
{
    let mut i: usize = 0;
    while i < comp.link.len()
        invariant
            i <= comp.link@.len(),
            forall|k: int| 0 <= k < i ==> entry_name(comp.link@[k]) != want@,
        decreases comp.link.len() - i,
    {
        let (n, _) = comp.link[i].normalize();
        if str_eq(n.as_str(), want) {
            return true;
        }
        i += 1;
    }
    false
}


// ---------------------------------------------------------------------------
// Cycle detection (depth-first search)
// ---------------------------------------------------------------------------

/// Component indices forming a cycle of component-to-component links.
pub open spec fn idx_cycle(r: TritonRoot, c: Seq<usize>) -> bool {
    &&& c.len() >= 2
    &&& c[0] == c[c.len() - 1]
    &&& forall|k: int| 0 <= k < c.len() - 1 ==> comp_edge(r, #[trigger] c[k] as int, c[k + 1] as int)
}

/// The names of the components at the given indices.
pub open spec fn names_at(r: TritonRoot, c: Seq<usize>) -> Seq<Seq<char>> {
    c.map_values(|i: usize| r.components@[i as int].0@)
}

/// Number of `false` entries.
pub open spec fn num_false(s: Seq<bool>) -> nat
    decreases s.len(),
{
    if s.len() == 0 {
        0
    } else {
        num_false(s.drop_last()) + if s.last() { 0nat } else { 1nat }
    }
}

pub proof fn lemma_num_false_mono(a: Seq<bool>, b: Seq<bool>)
    requires
        a.len() == b.len(),
        forall|x: int| 0 <= x < a.len() && a[x] ==> b[x],
    ensures
        num_false(b) <= num_false(a),
    decreases a.len(),
{
    if a.len() > 0 {
        lemma_num_false_mono(a.drop_last(), b.drop_last());
    }
}

pub proof fn lemma_num_false_set(a: Seq<bool>, v: int)
    requires
        0 <= v < a.len(),
        !a[v],
    ensures
        num_false(a.update(v, true)) + 1 == num_false(a),
    decreases a.len(),
{
    let b = a.update(v, true);
    if v == a.len() - 1 {
        assert(b.drop_last() =~= a.drop_last());
    } else {
        lemma_num_false_set(a.drop_last(), v);
        assert(b.drop_last() =~= a.drop_last().update(v, true));
    }
}

/// No entry of the sequence occurs twice.
pub open spec fn no_repeats(p: Seq<usize>) -> bool {
    forall|a: int, b: int| 0 <= a < b < p.len() ==> #[trigger] p[a] != #[trigger] p[b]
}

/// No component occurs twice on a cycle of names before it closes.
pub open spec fn simple_cycle(c: Seq<Seq<char>>) -> bool {
    forall|a: int, b: int| 0 <= a < b < c.len() - 1 ==> #[trigger] c[a] != #[trigger] c[b]
}

/// State of the search: `visited` and `in_stack` by component index, the
/// current path, and (for the proof) a finishing rank of each finished node.
pub struct DfsState {
    pub visited: Vec<bool>,
    pub in_stack: Vec<bool>,
    pub path: Vec<usize>,
    pub rank: Ghost<Seq<int>>,
    pub cnt: Ghost<int>,
}

/// Node `x` is finished: visited and no longer on the path.
pub open spec fn finished(s: DfsState, x: int) -> bool {
    s.visited@[x] && !s.in_stack@[x]
}

/// Invariant of the search.
pub open spec fn dfs_inv(r: TritonRoot, s: DfsState) -> bool {
    let n = r.components@.len();
    &&& s.visited@.len() == n
    &&& s.in_stack@.len() == n
    &&& s.rank@.len() == n
    &&& forall|k: int| 0 <= k < s.path@.len() ==> s.path@[k] < n && s.visited@[s.path@[k] as int]
    &&& forall|x: int| 0 <= x < n ==> (s.in_stack@[x] <==> s.path@.contains(x as usize))
    &&& no_repeats(s.path@)
    &&& forall|k: int|
        0 <= k < s.path@.len() - 1 ==> comp_edge(r, #[trigger] s.path@[k] as int, s.path@[k + 1] as int)
    &&& s.cnt@ >= 0
    &&& forall|x: int| 0 <= x < n && finished(s, x) ==> 0 <= s.rank@[x] < s.cnt@
    &&& forall|x: int, y: int|
        finished(s, x) && #[trigger] comp_edge(r, x, y) ==> finished(s, y) && s.rank@[y] < s.rank@[x]
}

/// The components named by the first `k` links, in link order, leaving out
/// names that are also dependencies (in any ASCII case).
pub open spec fn succ_upto(r: TritonRoot, links: Seq<LinkEntry>, k: int) -> Seq<usize>
    decreases k,
{
    if k <= 0 {
        Seq::empty()
    } else {
        let prev = succ_upto(r, links, k - 1);
        let n = entry_name(links[k - 1]);
        match comp_index(r, n) {
            Some(j) => if !spec_is_dep_ci(r, n) { prev.push(j as usize) } else { prev },
            None => prev,
        }
    }
}

/// The successors of component `i` in the search, in link order.
pub open spec fn spec_successors(r: TritonRoot, i: int) -> Seq<usize> {
    if 0 <= i < r.components@.len() {
        succ_upto(r, r.components@[i].1.link@, r.components@[i].1.link@.len() as int)
    } else {
        Seq::empty()
    }
}

/// The successors of component `i` in link order: each link entry naming a
/// component that is not also a dependency.
fn component_successors(r: &TritonRoot, i: usize) -> (res: Vec<usize>)
    requires
        i < r.components@.len(),
        distinct_keys(r.components@),
    ensures
        forall|k: int| 0 <= k < res@.len() ==> comp_edge(*r, i as int, #[trigger] res@[k] as int),
        forall|j: int| comp_edge(*r, i as int, j) ==> res@.contains(j as usize),
        res@ == spec_successors(*r, i as int),
{
    let comp = &r.components[i].1;
    let mut res: Vec<usize> = Vec::new();
    let mut k: usize = 0;
    while k < comp.link.len()
        invariant
            i < r.components@.len(),
            distinct_keys(r.components@),
            *comp == r.components@[i as int].1,
            k <= comp.link@.len(),
            forall|m: int| 0 <= m < res@.len() ==> comp_edge(*r, i as int, #[trigger] res@[m] as int),
            forall|j: int|
                0 <= j < r.components@.len() && !spec_is_dep_ci(*r, r.components@[j].0@) && (exists|m: int|
                    0 <= m < k && entry_name(comp.link@[m]) == r.components@[j].0@) ==> res@.contains(
                    j as usize,
                ),
            res@ == succ_upto(*r, comp.link@, k as int),
        decreases comp.link.len() - k,
    {
        let (n, _) = comp.link[k].normalize();
        let ghost old_res = res@;
        let found = find_component(r, n.as_str());
        proof {
            match found {
                Some(j) => lemma_comp_index(*r, n@, j as int),
                None => {},
            }
        }
        if let Some(j) = found {
            if !is_dep_case_insensitive(r, n.as_str()) {
                res.push(j);
            }
        }
        proof {
            assert(forall|q: int| 0 <= q < old_res.len() ==> res@[q] == old_res[q]);
            assert forall|j2: int|
                0 <= j2 < r.components@.len() && !spec_is_dep_ci(*r, r.components@[j2].0@)
                    && (exists|m: int|
                    0 <= m < k + 1 && entry_name(comp.link@[m]) == r.components@[j2].0@)
                    implies res@.contains(j2 as usize) by {
                let m = choose|m: int|
                    0 <= m < k + 1 && entry_name(comp.link@[m]) == r.components@[j2].0@;
                if m == k {
                    assert(has_component(*r, n@));
                    let j = found.unwrap();
                    assert(j2 == j);
                    assert(res@[res@.len() - 1] == j);
                } else {
                    assert(old_res.contains(j2 as usize));
                    let q = choose|q: int| 0 <= q < old_res.len() && old_res[q] == j2 as usize;
                    assert(res@[q] == j2 as usize);
                }
            }
        }
        k += 1;
    }
    proof {
        assert forall|j: int| comp_edge(*r, i as int, j) implies res@.contains(j as usize) by {
            let m = choose|m: int|
                0 <= m < comp.link@.len() && entry_name(comp.link@[m]) == r.components@[j].0@;
        }
    }
    res
}


/// Marking `v` visited and pushing it on the path keeps the invariant.
proof fn lemma_push_inv(r: TritonRoot, s0: DfsState, s: DfsState, v: usize)
    requires
        dfs_inv(r, s0),
        v < r.components@.len(),
        !s0.visited@[v as int],
        s0.path@.len() > 0 ==> comp_edge(r, s0.path@.last() as int, v as int),
        s.visited@ == s0.visited@.update(v as int, true),
        s.in_stack@ == s0.in_stack@.update(v as int, true),
        s.path@ == s0.path@.push(v),
        s.rank@ == s0.rank@,
        s.cnt@ == s0.cnt@,
    ensures
        dfs_inv(r, s),
{
    let n = r.components@.len();
    assert(n == r.components.len());
    assert forall|k: int| 0 <= k < s.path@.len() implies s.path@[k] < n && s.visited@[s.path@[k] as int] by {
        if k < s0.path@.len() {
            assert(s.path@[k] == s0.path@[k]);
        }
    }
    assert forall|x: int| 0 <= x < n && s.in_stack@[x] implies s.path@.contains(x as usize) by {
        if x == v {
            assert(s.path@[s.path@.len() - 1] == v);
        } else {
            assert(s0.in_stack@[x]);
            assert(s0.path@.contains(x as usize));
            let q = choose|q: int| 0 <= q < s0.path@.len() && s0.path@[q] == x as usize;
            assert(s.path@[q] == x as usize);
        }
    }
    assert forall|x: int| 0 <= x < n && s.path@.contains(x as usize) implies s.in_stack@[x] by {
        if x != v {
            let q = choose|q: int| 0 <= q < s.path@.len() && s.path@[q] == x as usize;
            if q == s.path@.len() - 1 {
                assert(s.path@[q] == v);
                assert(x == v as int);
            } else {
                assert(s0.path@[q] == x as usize);
                assert(s0.path@.contains(x as usize));
                assert(s0.in_stack@[x]);
            }
        }
    }
    assert forall|k: int| 0 <= k < s.path@.len() - 1 implies comp_edge(r, #[trigger] s.path@[k] as int, s.path@[k + 1] as int) by {
        if k < s0.path@.len() - 1 {
            assert(s.path@[k] == s0.path@[k] && s.path@[k + 1] == s0.path@[k + 1]);
        } else {
            assert(s.path@[k] == s0.path@.last());
        }
    }
    assert forall|x: int| 0 <= x < n && finished(s, x) implies 0 <= s.rank@[x] < s.cnt@ by {
        assert(finished(s0, x));
    }
    assert forall|x: int, y: int| finished(s, x) && #[trigger] comp_edge(r, x, y) implies finished(s, y) && s.rank@[y] < s.rank@[x] by {
        assert(finished(s0, x));
    }
    assert forall|a: int, b: int| 0 <= a < b < s.path@.len() implies #[trigger] s.path@[a] != #[trigger] s.path@[b] by {
        assert(s.path@[a] == s0.path@[a]);
        if b < s0.path@.len() {
            assert(s.path@[b] == s0.path@[b]);
        } else {
            assert(s.path@[b] == v);
            assert(s0.visited@[s0.path@[a] as int]);
        }
    }
}

/// Finishing `v` (all of whose successors are finished) with the next rank
/// keeps the invariant and restores the path.
proof fn lemma_finish_inv(r: TritonRoot, s0: DfsState, s2: DfsState, s: DfsState, v: usize)
    requires
        dfs_inv(r, s0),
        dfs_inv(r, s2),
        v < r.components@.len(),
        !s0.visited@[v as int],
        s2.path@ == s0.path@.push(v),
        s2.in_stack@ == s0.in_stack@.update(v as int, true),
        s2.visited@[v as int],
        forall|j: int| comp_edge(r, v as int, j) ==> finished(s2, j),
        s.visited@ == s2.visited@,
        s.in_stack@ == s2.in_stack@.update(v as int, false),
        s.path@ == s2.path@.drop_last(),
        s.rank@ == s2.rank@.update(v as int, s2.cnt@),
        s.cnt@ == s2.cnt@ + 1,
    ensures
        dfs_inv(r, s),
        s.path@ == s0.path@,
        s.in_stack@ == s0.in_stack@,
        finished(s, v as int),
        forall|x: int| 0 <= x < r.components@.len() && x != v ==> s.rank@[x] == s2.rank@[x],
{
    let n = r.components@.len();
    assert(s.path@ =~= s0.path@);
    assert(!s0.in_stack@[v as int]) by {
        if s0.in_stack@[v as int] {
            assert(s0.path@.contains(v));
            let q = choose|q: int| 0 <= q < s0.path@.len() && s0.path@[q] == v;
            assert(s0.visited@[s0.path@[q] as int]);
        }
    }
    assert(s.in_stack@ =~= s0.in_stack@);
    assert(no_repeats(s.path@));
    assert forall|x: int| 0 <= x < n implies (s.in_stack@[x] <==> s.path@.contains(x as usize)) by {
        assert(s0.in_stack@[x] <==> s0.path@.contains(x as usize));
    }
    assert forall|k2: int| 0 <= k2 < s.path@.len() implies s.path@[k2] < n && s.visited@[s.path@[k2] as int] by {
        assert(s2.path@[k2] == s.path@[k2]);
    }
    assert forall|k2: int| 0 <= k2 < s.path@.len() - 1 implies comp_edge(r, #[trigger] s.path@[k2] as int, s.path@[k2 + 1] as int) by {
        assert(s2.path@[k2] == s.path@[k2] && s2.path@[k2 + 1] == s.path@[k2 + 1]);
    }
    assert forall|x: int| 0 <= x < n && finished(s, x) implies 0 <= s.rank@[x] < s.cnt@ by {
        if x != v {
            assert(finished(s2, x));
        }
    }
    assert forall|x: int, y: int| finished(s, x) && #[trigger] comp_edge(r, x, y) implies finished(s, y) && s.rank@[y] < s.rank@[x] by {
        if x == v {
            assert(finished(s2, y));
        } else {
            assert(finished(s2, x));
            assert(finished(s2, y));
        }
    }
}

/// The cycle that a link back to `w` closes: the path from the first `w`
/// on, then `w` again.
pub open spec fn cycle_of(path: Seq<usize>, w: usize) -> Seq<usize> {
    let p = choose|p: int| 0 <= p < path.len() && path[p] == w && forall|q: int| 0 <= q < p ==> path[q] != w;
    path.subrange(p, path.len() as int).push(w)
}

/// The cycle closed by a link from the end of the path back to `w` on the path.
fn close_cycle(r: &TritonRoot, path: &Vec<usize>, w: usize) -> (c: Vec<usize>)
    requires
        path@.contains(w),
        path@.len() > 0,
        comp_edge(*r, path@.last() as int, w as int),
        forall|k: int| 0 <= k < path@.len() - 1 ==> comp_edge(*r, #[trigger] path@[k] as int, path@[k + 1] as int),
        no_repeats(path@),
    ensures
        idx_cycle(*r, c@),
        c@ == cycle_of(path@, w),
        no_repeats(c@.drop_last()),
{
    let mut p: usize = 0;
    while p < path.len() && path[p] != w
        invariant
            p <= path@.len(),
            path@.contains(w),
            forall|q: int| 0 <= q < p ==> path@[q] != w,
        decreases path.len() - p,
    {
        p += 1;
    }
    proof {
        if p == path@.len() {
            let q = choose|q: int| 0 <= q < path@.len() && path@[q] == w;
        }
        let f = choose|f: int| 0 <= f < path@.len() && path@[f] == w && forall|q: int| 0 <= q < f ==> path@[q] != w;
        assert(path@[p as int] == w);
        assert(f == p as int) by {
            if f < p as int {
            } else if f > p as int {
            }
        }
    }
    let mut c: Vec<usize> = Vec::new();
    let mut q: usize = p;
    while q < path.len()
        invariant
            p <= q <= path@.len(),
            p < path@.len(),
            c@ == path@.subrange(p as int, q as int),
        decreases path.len() - q,
    {
        c.push(path[q]);
        assert(c@ =~= path@.subrange(p as int, q + 1));
        q += 1;
    }
    c.push(w);
    proof {
        assert forall|m: int| 0 <= m < c@.len() - 1 implies comp_edge(*r, #[trigger] c@[m] as int, c@[m + 1] as int) by {
            if m < c@.len() - 2 {
                assert(c@[m] == path@[p + m] && c@[m + 1] == path@[p + m + 1]);
            } else {
                assert(c@[m] == path@.last());
            }
        }
        assert forall|a: int, b: int| 0 <= a < b < c@.drop_last().len() implies #[trigger] c@.drop_last()[a]
            != #[trigger] c@.drop_last()[b] by {
            assert(c@.drop_last()[a] == path@[p + a] && c@.drop_last()[b] == path@[p + b]);
        }
    }
    c
}

/// The state of a depth-first search: visited marks, on-path marks, and
/// the current path.
pub type DfsView = (Seq<bool>, Seq<bool>, Seq<usize>);

/// The view of the search state.
pub open spec fn dfs_view(s: DfsState) -> DfsView {
    (s.visited@, s.in_stack@, s.path@)
}

/// The depth-first search from `v`: it marks `v` and puts it on the path,
/// searches its successors in order, and takes it off the path again when no
/// cycle turned up. At most `fuel` nested calls are followed.
#[verifier::opaque]
pub open spec fn dfs_spec(r: TritonRoot, v: usize, st: DfsView, fuel: nat) -> (Option<Seq<usize>>, DfsView)
    decreases fuel, 0int,
{
    if fuel == 0 || v >= st.0.len() || v >= st.1.len() {
        (None, st)
    } else {
        let pushed = (st.0.update(v as int, true), st.1.update(v as int, true), st.2.push(v));
        let out = dfs_succ(r, v, spec_successors(r, v as int), 0, pushed, (fuel - 1) as nat);
        match out.0 {
            Some(c) => (Some(c), out.1),
            None => (None, (out.1.0, out.1.1.update(v as int, false), out.1.2.drop_last())),
        }
    }
}

/// The search over the successors of `v` from position `k` on: a successor
/// on the path closes a cycle; an unvisited one is searched from.
#[verifier::opaque]
pub open spec fn dfs_succ(r: TritonRoot, v: usize, succ: Seq<usize>, k: int, st: DfsView, fuel: nat) -> (Option<Seq<usize>>, DfsView)
    decreases fuel, succ.len() - k,
{
    if k < 0 || k >= succ.len() {
        (None, st)
    } else {
        let w = succ[k];
        if (w as int) < st.1.len() && st.1[w as int] {
            (Some(cycle_of(st.2, w)), st)
        } else if (w as int) < st.0.len() && !st.0[w as int] {
            let sub = dfs_spec(r, w, st, fuel);
            match sub.0 {
                Some(c) => (Some(c), sub.1),
                None => dfs_succ(r, v, succ, k + 1, sub.1, fuel),
            }
        } else {
            dfs_succ(r, v, succ, k + 1, st, fuel)
        }
    }
}

proof fn lemma_dfs_spec_unfold(r: TritonRoot, v: usize, st: DfsView, fuel: nat)
    requires
        fuel > 0,
        v < st.0.len(),
        v < st.1.len(),
    ensures
        ({
            let pushed = (st.0.update(v as int, true), st.1.update(v as int, true), st.2.push(v));
            let out = dfs_succ(r, v, spec_successors(r, v as int), 0, pushed, (fuel - 1) as nat);
            dfs_spec(r, v, st, fuel) == match out.0 {
                Some(c) => (Some(c), out.1),
                None => (None, (out.1.0, out.1.1.update(v as int, false), out.1.2.drop_last())),
            }
        }),
{
    reveal_with_fuel(dfs_spec, 1);
    reveal_with_fuel(dfs_succ, 1);
}

proof fn lemma_dfs_succ_end(r: TritonRoot, v: usize, succ: Seq<usize>, k: int, st: DfsView, fuel: nat)
    requires
        k >= succ.len(),
    ensures
        dfs_succ(r, v, succ, k, st, fuel) == (None::<Seq<usize>>, st),
{
    reveal_with_fuel(dfs_succ, 1);
    reveal_with_fuel(dfs_spec, 1);
}

proof fn lemma_dfs_succ_step(r: TritonRoot, v: usize, succ: Seq<usize>, k: int, st: DfsView, fuel: nat)
    requires
        0 <= k < succ.len(),
        (succ[k] as int) < st.0.len(),
        (succ[k] as int) < st.1.len(),
    ensures
        st.1[succ[k] as int] ==> dfs_succ(r, v, succ, k, st, fuel) == (Some(cycle_of(st.2, succ[k])), st),
        !st.1[succ[k] as int] && st.0[succ[k] as int] ==> dfs_succ(r, v, succ, k, st, fuel) == dfs_succ(r, v, succ, k + 1, st, fuel),
        !st.1[succ[k] as int] && !st.0[succ[k] as int] ==> dfs_succ(r, v, succ, k, st, fuel) == ({
            let sub = dfs_spec(r, succ[k], st, fuel);
            match sub.0 {
                Some(c) => (Some(c), sub.1),
                None => dfs_succ(r, v, succ, k + 1, sub.1, fuel),
            }
        }),
{
    reveal_with_fuel(dfs_succ, 1);
    reveal_with_fuel(dfs_spec, 1);
}

/// The search state with `v` marked and put on the path.
pub open spec fn pushed_view(st: DfsView, v: usize) -> DfsView {
    (st.0.update(v as int, true), st.1.update(v as int, true), st.2.push(v))
}

/// The search over the successors of `v` from position `k` in state `st`
/// ends as the one from the start in the state where `v` was pushed.
pub open spec fn succ_agrees(r: TritonRoot, v: usize, k: int, st: DfsView, st0: DfsView, fuel: nat) -> bool {
    dfs_succ(r, v, spec_successors(r, v as int), k, st, (fuel - 1) as nat)
        == dfs_succ(r, v, spec_successors(r, v as int), 0, pushed_view(st0, v), (fuel - 1) as nat)
}

/// A found cycle as a sequence of indices.
pub open spec fn idx_view(o: Option<Vec<usize>>) -> Option<Seq<usize>> {
    match o {
        Some(c) => Some(c@),
        None => None,
    }
}

/// The state after the search from `w` is `st` (compared without
/// extensionality).
pub open spec fn dfs_left(r: TritonRoot, w: usize, st1: DfsView, fuel: nat, st: DfsView) -> bool {
    dfs_spec(r, w, st1, fuel).1 == st
}

/// The answer of the search from `w` is `c`.
pub open spec fn dfs_found(r: TritonRoot, w: usize, st1: DfsView, fuel: nat, c: Option<Seq<usize>>) -> bool {
    dfs_spec(r, w, st1, fuel).0 == c
}

proof fn lemma_dfs_start(r: TritonRoot, v: usize, st0: DfsView, fuel: nat)
    ensures
        succ_agrees(r, v, 0, pushed_view(st0, v), st0, fuel),
{
}

/// A successor on the path closes the cycle of the path, which is the
/// answer of the search from `v`.
proof fn lemma_dfs_on_path(r: TritonRoot, v: usize, k: int, st: DfsView, st0: DfsView, fuel: nat)
    requires
        fuel > 0,
        v < st0.0.len(),
        v < st0.1.len(),
        0 <= k < spec_successors(r, v as int).len(),
        (spec_successors(r, v as int)[k] as int) < st.0.len(),
        (spec_successors(r, v as int)[k] as int) < st.1.len(),
        st.1[spec_successors(r, v as int)[k] as int],
        succ_agrees(r, v, k, st, st0, fuel),
    ensures
        dfs_found(r, v, st0, fuel, Some(cycle_of(st.2, spec_successors(r, v as int)[k]))),
{
    lemma_dfs_succ_step(r, v, spec_successors(r, v as int), k, st, (fuel - 1) as nat);
    lemma_dfs_spec_unfold(r, v, st0, fuel);
}

/// A cycle found from an unvisited successor is the answer of the search
/// from `v`; when none is found, the successors after it follow.
proof fn lemma_dfs_visit(r: TritonRoot, v: usize, k: int, st: DfsView, st0: DfsView, fuel: nat, res: Option<Seq<usize>>, st2: DfsView)
    requires
        fuel > 0,
        v < st0.0.len(),
        v < st0.1.len(),
        0 <= k < spec_successors(r, v as int).len(),
        (spec_successors(r, v as int)[k] as int) < st.0.len(),
        (spec_successors(r, v as int)[k] as int) < st.1.len(),
        !st.1[spec_successors(r, v as int)[k] as int],
        !st.0[spec_successors(r, v as int)[k] as int],
        succ_agrees(r, v, k, st, st0, fuel),
        dfs_found(r, spec_successors(r, v as int)[k], st, (fuel - 1) as nat, res),
        res is None ==> dfs_left(r, spec_successors(r, v as int)[k], st, (fuel - 1) as nat, st2),
    ensures
        res is Some ==> dfs_found(r, v, st0, fuel, res),
        res is None ==> succ_agrees(r, v, k + 1, st2, st0, fuel),
{
    lemma_dfs_succ_step(r, v, spec_successors(r, v as int), k, st, (fuel - 1) as nat);
    lemma_dfs_spec_unfold(r, v, st0, fuel);
}

/// A visited successor off the path is passed over.
proof fn lemma_dfs_skip(r: TritonRoot, v: usize, k: int, st: DfsView, st0: DfsView, fuel: nat)
    requires
        0 <= k < spec_successors(r, v as int).len(),
        (spec_successors(r, v as int)[k] as int) < st.0.len(),
        (spec_successors(r, v as int)[k] as int) < st.1.len(),
        !st.1[spec_successors(r, v as int)[k] as int],
        st.0[spec_successors(r, v as int)[k] as int],
        succ_agrees(r, v, k, st, st0, fuel),
    ensures
        succ_agrees(r, v, k + 1, st, st0, fuel),
{
    lemma_dfs_succ_step(r, v, spec_successors(r, v as int), k, st, (fuel - 1) as nat);
}

/// When no successor closes a cycle, the search from `v` takes `v` off the
/// path again.
proof fn lemma_dfs_done(r: TritonRoot, v: usize, st0: DfsView, fuel: nat, k: int, st: DfsView)
    requires
        fuel > 0,
        v < st0.0.len(),
        v < st0.1.len(),
        k >= spec_successors(r, v as int).len(),
        succ_agrees(r, v, k, st, st0, fuel),
    ensures
        dfs_found(r, v, st0, fuel, None),
        dfs_left(r, v, st0, fuel, (st.0, st.1.update(v as int, false), st.2.drop_last())),
{
    lemma_dfs_succ_end(r, v, spec_successors(r, v as int), k, st, (fuel - 1) as nat);
    lemma_dfs_spec_unfold(r, v, st0, fuel);
}

/// Search from component `v`: returns a cycle through the current path, or
/// finishes `v` and everything newly reached from it.
#[verifier::rlimit(100)]
#[verifier::spinoff_prover]
fn dfs_cycle(r: &TritonRoot, v: usize, s: &mut DfsState, Ghost(fuel): Ghost<nat>) -> (res: Option<Vec<usize>>)
    requires
        distinct_keys(r.components@),
        dfs_inv(*r, *old(s)),
        v < r.components@.len(),
        !old(s).visited@[v as int],
        old(s).path@.len() > 0 ==> comp_edge(*r, old(s).path@.last() as int, v as int),
        fuel >= num_false(old(s).visited@),
    ensures
        dfs_found(*r, v, dfs_view(*old(s)), fuel, idx_view(res)),
        res is None ==> dfs_left(*r, v, dfs_view(*old(s)), fuel, dfs_view(*final(s))),
        match res {
            Some(c) => idx_cycle(*r, c@) && no_repeats(c@.drop_last()),
            None => {
                &&& dfs_inv(*r, *final(s))
                &&& final(s).path@ == old(s).path@
                &&& final(s).in_stack@ == old(s).in_stack@
                &&& final(s).visited@[v as int]
                &&& forall|x: int| 0 <= x < old(s).visited@.len() && #[trigger] old(s).visited@[x] ==> final(s).visited@[x]
                &&& forall|x: int| 0 <= x < old(s).visited@.len() && #[trigger] finished(*old(s), x) ==> final(s).rank@[x] == old(s).rank@[x]
            },
        },
    decreases num_false(old(s).visited@),
{
    let n = r.components.len();
    let ghost s0 = *s;
    s.visited.set(v, true);
    s.in_stack.set(v, true);
    s.path.push(v);
    proof {
        lemma_num_false_set(s0.visited@, v as int);
        lemma_push_inv(*r, s0, *s, v);
    }
    proof {
        lemma_dfs_start(*r, v, dfs_view(s0), fuel);
    }
    let succ = component_successors(r, v);
    let mut k: usize = 0;
    while k < succ.len()
        invariant
            distinct_keys(r.components@),
            n == r.components@.len(),
            v < n,
            !s0.visited@[v as int],
            dfs_inv(*r, s0),
            dfs_inv(*r, *s),
            s.path@ == s0.path@.push(v),
            s.in_stack@ == s0.in_stack@.update(v as int, true),
            s.visited@[v as int],
            forall|x: int| 0 <= x < n && #[trigger] s0.visited@[x] ==> s.visited@[x],
            forall|x: int| 0 <= x < n && #[trigger] finished(s0, x) ==> s.rank@[x] == s0.rank@[x],
            num_false(s.visited@) < num_false(s0.visited@),
            s0.visited@ == old(s).visited@,
            k <= succ@.len(),
            forall|m: int| 0 <= m < succ@.len() ==> comp_edge(*r, v as int, #[trigger] succ@[m] as int),
            forall|j: int| comp_edge(*r, v as int, j) ==> succ@.contains(j as usize),
            forall|m: int| 0 <= m < k ==> finished(*s, #[trigger] succ@[m] as int),
            fuel >= num_false(s0.visited@),
            succ@ == spec_successors(*r, v as int),
            succ_agrees(*r, v, k as int, dfs_view(*s), dfs_view(s0), fuel),
            s0 == *old(s),
        decreases succ.len() - k,
    {
        let w = succ[k];
        assert(comp_edge(*r, v as int, w as int));
        proof {
            lemma_num_false_set(s0.visited@, v as int);
        }
        if s.in_stack[w] {
            proof {
                assert(s.path@.last() == v);
            }
            let c = close_cycle(r, &s.path, w);
            proof {
                lemma_dfs_on_path(*r, v, k as int, dfs_view(*s), dfs_view(s0), fuel);
            }
            return Some(c);
        }
        if !s.visited[w] {
            let ghost s1 = *s;
            let sub = dfs_cycle(r, w, s, Ghost((fuel - 1) as nat));
            proof {
                lemma_dfs_visit(*r, v, k as int, dfs_view(s1), dfs_view(s0), fuel, idx_view(sub), dfs_view(*s));
            }
            match sub {
                Some(c) => {
                    return Some(c);
                },
                None => {
                    proof {
                        assert forall|x: int| 0 <= x < n && #[trigger] s0.visited@[x] implies s.visited@[x] by {
                            assert(s1.visited@[x]);
                        }
                        assert forall|x: int| 0 <= x < n && #[trigger] finished(s0, x) implies s.rank@[x] == s0.rank@[x] by {
                            assert(s1.visited@[x]);
                            assert(finished(s1, x));
                        }
                        assert forall|m: int| 0 <= m < k + 1 implies finished(*s, #[trigger] succ@[m] as int) by {
                            if m < k {
                                assert(finished(s1, succ@[m] as int));
                                assert(s1.visited@[succ@[m] as int]);
                            }
                        }
                        lemma_num_false_mono(s1.visited@, s.visited@);
                    }
                },
            }
        } else {
            proof {
                lemma_dfs_skip(*r, v, k as int, dfs_view(*s), dfs_view(s0), fuel);
            }
        }
        k += 1;
    }
    proof {
        assert forall|j: int| comp_edge(*r, v as int, j) implies finished(*s, j) by {
            let m = choose|m: int| 0 <= m < succ@.len() && succ@[m] == j as usize;
            assert(finished(*s, succ@[m] as int));
        }
        lemma_num_false_set(s0.visited@, v as int);
        lemma_dfs_done(*r, v, dfs_view(s0), fuel, k as int, dfs_view(*s));
    }
    let ghost s2 = *s;
    s.rank = Ghost(s.rank@.update(v as int, s.cnt@));
    s.cnt = Ghost(s.cnt@ + 1);
    s.in_stack.set(v, false);
    s.path.pop();
    proof {
        lemma_finish_inv(*r, s0, s2, *s, v);
        assert forall|x: int| 0 <= x < n && #[trigger] finished(s0, x) implies s.rank@[x] == s0.rank@[x] by {
            assert(x != v);
        }
    }
    None
}

/// The search from every unvisited component from `i` on, in manifest
/// order, until one finds a cycle.
pub open spec fn detect_from(r: TritonRoot, i: int, st: DfsView, fuel: nat) -> Option<Seq<usize>>
    decreases r.components@.len() - i,
{
    if i < 0 || i >= r.components@.len() {
        None
    } else if i < st.0.len() && st.0[i] {
        detect_from(r, i + 1, st, fuel)
    } else {
        let out = dfs_spec(r, i as usize, st, fuel);
        match out.0 {
            Some(c) => Some(c),
            None => detect_from(r, i + 1, out.1, fuel),
        }
    }
}

/// The cycle (by component index) that the depth-first search in manifest
/// order meets first, if any.
pub open spec fn spec_first_cycle(r: TritonRoot) -> Option<Seq<usize>> {
    let n = r.components@.len();
    detect_from(r, 0, (Seq::new(n, |i: int| false), Seq::new(n, |i: int| false), Seq::empty()), n)
}

proof fn lemma_num_false_le(a: Seq<bool>)
    ensures
        num_false(a) <= a.len(),
    decreases a.len(),
{
    if a.len() > 0 {
        lemma_num_false_le(a.drop_last());
    }
}

/// Detects a cycle among component-to-component links by depth-first
/// search in manifest order. A link whose name is also a dependency is
/// resolved as that dependency and is no edge.
pub fn detect_cycles(root: &TritonRoot) -> (res: Option<Vec<String>>)
    requires
        root_wf(*root),
    ensures
        res is None <==> !has_cycle(*root),
        res matches Some(c) ==> is_cycle(*root, crate::text::views(c@)),
        res is None <==> spec_first_cycle(*root) is None,
        res matches Some(c) ==> spec_first_cycle(*root) matches Some(ic) && crate::text::views(c@) == names_at(*root, ic),
        res matches Some(c) ==> simple_cycle(crate::text::views(c@)),
{
    proof {
        lemma_sorted_distinct(root.components@);
    }
    let n = root.components.len();
    let mut visited: Vec<bool> = Vec::new();
    let mut in_stack: Vec<bool> = Vec::new();
    let mut m: usize = 0;
    while m < n
        invariant
            m <= n,
            visited@.len() == m,
            in_stack@.len() == m,
            forall|x: int| 0 <= x < m ==> !visited@[x] && !in_stack@[x],
        decreases n - m,
    {
        visited.push(false);
        in_stack.push(false);
        m += 1;
    }
    let mut s = DfsState {
        visited,
        in_stack,
        path: Vec::new(),
        rank: Ghost(Seq::new(n as nat, |i: int| 0int)),
        cnt: Ghost(0int),
    };
    proof {
        assert(dfs_view(s) =~= (Seq::new(n as nat, |i: int| false), Seq::new(n as nat, |i: int| false), Seq::<usize>::empty()));
    }
    let mut i: usize = 0;
    while i < n
        invariant
            n == root.components@.len(),
            distinct_keys(root.components@),
            dfs_inv(*root, s),
            s.path@.len() == 0,
            forall|x: int| 0 <= x < n ==> !s.in_stack@[x],
            forall|x: int| 0 <= x < i ==> s.visited@[x],
            i <= n,
            detect_from(*root, i as int, dfs_view(s), n as nat) == spec_first_cycle(*root),
        decreases n - i,
    {
        let ghost sp = s;
        if !s.visited[i] {
            proof {
                lemma_num_false_le(s.visited@);
            }
            match dfs_cycle(root, i, &mut s, Ghost(n as nat)) {
                Some(c) => {
                    let names = cycle_names(root, &c);
                    proof {
                        lemma_idx_cycle_names(*root, c@);
                        assert(has_cycle(*root));
                        let nv = crate::text::views(names@);
                        assert forall|a: int, b: int| 0 <= a < b < nv.len() - 1 implies #[trigger] nv[a] != #[trigger] nv[b] by {
                            assert(c@.drop_last()[a] == c@[a] && c@.drop_last()[b] == c@[b]);
                            assert(nv[a] == root.components@[c@[a] as int].0@);
                            assert(nv[b] == root.components@[c@[b] as int].0@);
                        }
                    }
                    return Some(names);
                },
                None => {
                    assert(s.visited@[i as int]);
                    assert forall|x: int| 0 <= x < i implies s.visited@[x] by {
                        assert(sp.visited@[x]);
                    }
                },
            }
        }
        i += 1;
    }
    proof {
        assert forall|x: int| 0 <= x < n implies finished(s, x) by {}
        lemma_no_cycle(*root, s);
    }
    None
}

/// The names of the components of an index cycle.
fn cycle_names(r: &TritonRoot, c: &Vec<usize>) -> (res: Vec<String>)
    requires
        forall|k: int| 0 <= k < c@.len() ==> c@[k] < r.components@.len(),
    ensures
        crate::text::views(res@) == names_at(*r, c@),
{
    let mut res: Vec<String> = Vec::new();
    let mut k: usize = 0;
    while k < c.len()
        invariant
            k <= c@.len(),
            forall|q: int| 0 <= q < c@.len() ==> c@[q] < r.components@.len(),
            crate::text::views(res@) == names_at(*r, c@.take(k as int)),
        decreases c.len() - k,
    {
        let nm = r.components[c[k]].0.clone();
        proof {
            crate::text::lemma_views_push(res@, nm);
            assert(names_at(*r, c@.take(k + 1)) =~= names_at(*r, c@.take(k as int)).push(nm@));
        }
        res.push(nm);
        k += 1;
    }
    assert(c@.take(c@.len() as int) =~= c@);
    res
}

proof fn lemma_idx_cycle_names(r: TritonRoot, c: Seq<usize>)
    requires
        idx_cycle(r, c),
    ensures
        is_cycle(r, names_at(r, c)),
{
    let nm = names_at(r, c);
    assert forall|k: int| 0 <= k < nm.len() - 1 implies name_edge(r, #[trigger] nm[k], nm[k + 1]) by {
        assert(comp_edge(r, c[k] as int, c[k + 1] as int));
        assert(r.components@[c[k] as int].0@ == nm[k]);
        assert(r.components@[c[k + 1] as int].0@ == nm[k + 1]);
    }
}

/// When every node is finished the links cannot close a cycle: ranks strictly
/// decrease along every link.
proof fn lemma_no_cycle(r: TritonRoot, s: DfsState)
    requires
        distinct_keys(r.components@),
        dfs_inv(r, s),
        forall|x: int| 0 <= x < r.components@.len() ==> finished(s, x),
    ensures
        !has_cycle(r),
{
    if has_cycle(r) {
        let c = choose|c: Seq<Seq<char>>| is_cycle(r, c);
        let len = c.len();
        // Index of the component holding each name of the cycle.
        let ix = |k: int| choose|i: int| 0 <= i < r.components@.len() && r.components@[i].0@ == c[k];
        assert forall|k: int| 0 <= k < len - 1 implies comp_edge(r, #[trigger] ix(k), ix(k + 1)) by {
            assert(name_edge(r, c[k], c[k + 1]));
            let (i, j) = choose|i: int, j: int|
                comp_edge(r, i, j) && #[trigger] r.components@[i].0@ == c[k] && #[trigger] r.components@[j].0@
                    == c[k + 1];
            assert(r.components@[ix(k)].0@ == c[k]);
            assert(ix(k) == i);
            if k + 1 < len - 1 {
                assert(name_edge(r, c[k + 1], c[k + 2]));
            }
            assert(exists|q: int| 0 <= q < r.components@.len() && r.components@[q].0@ == c[k + 1]);
            assert(r.components@[ix(k + 1)].0@ == c[k + 1]);
            assert(ix(k + 1) == j);
        }
        lemma_rank_chain(r, s, ix, len - 1);
        assert(name_edge(r, c[0], c[1]));
        assert(exists|q: int| 0 <= q < r.components@.len() && r.components@[q].0@ == c[0]);
        assert(ix(len - 1) == ix(0));
    }
}

proof fn lemma_rank_chain(r: TritonRoot, s: DfsState, ix: spec_fn(int) -> int, m: int)
    requires
        dfs_inv(r, s),
        forall|x: int| 0 <= x < r.components@.len() ==> finished(s, x),
        0 <= m,
        forall|k: int| 0 <= k < m ==> comp_edge(r, #[trigger] ix(k), ix(k + 1)),
    ensures
        s.rank@[ix(m)] + m <= s.rank@[ix(0)],
    decreases m,
{
    if m > 0 {
        lemma_rank_chain(r, s, ix, m - 1);
        assert(comp_edge(r, ix(m - 1), ix(m)));
        assert(finished(s, ix(m - 1)));
    }
}


// ---------------------------------------------------------------------------
// Validation
// ---------------------------------------------------------------------------

/// First self link, scanning components then links in order.
#[verifier::spinoff_prover]
fn find_self_link(root: &TritonRoot) -> (res: Option<usize>)
    ensures
        match res {
            Some(i) => i < root.components@.len() && exists|k: int|
                self_link_at(*root, i as int, k) && forall|i2: int, k2: int|
                    pos_before(i2, k2, i as int, k) ==> !self_link_at(*root, i2, k2),
            None => forall|i: int, k: int| !self_link_at(*root, i, k),
        },
{
    let mut i: usize = 0;
    while i < root.components.len()
        invariant
            i <= root.components@.len(),
            forall|i2: int, k2: int| 0 <= i2 < i ==> !self_link_at(*root, i2, k2),
        decreases root.components.len() - i,
    {
        let name = &root.components[i].0;
        let comp = &root.components[i].1;
        let mut k: usize = 0;
        while k < comp.link.len()
            invariant
                i < root.components@.len(),
                *name == root.components@[i as int].0,
                *comp == root.components@[i as int].1,
                k <= comp.link@.len(),
                forall|i2: int, k2: int| 0 <= i2 < i ==> !self_link_at(*root, i2, k2),
                forall|k2: int| 0 <= k2 < k ==> !self_link_at(*root, i as int, k2),
            decreases comp.link.len() - k,
        {
            let (ln, _) = comp.link[k].normalize();
            if str_eq(ln.as_str(), name.as_str()) && !is_dep_case_insensitive(root, ln.as_str()) {
                proof {
                    assert(self_link_at(*root, i as int, k as int));
                    assert forall|i2: int, k2: int| pos_before(i2, k2, i as int, k as int) implies !self_link_at(*root, i2, k2) by {
                        if i2 == i as int && 0 <= k2 {
                        }
                    }
                    assert(self_link_at(*root, i as int, k as int) && forall|i2: int, k2: int|
                        pos_before(i2, k2, i as int, k as int) ==> !self_link_at(*root, i2, k2));
                }
                return Some(i);
            }
            k += 1;
        }
        proof {
            assert forall|i2: int, k2: int| 0 <= i2 < i + 1 implies !self_link_at(*root, i2, k2) by {
                if i2 == i as int && 0 <= k2 < comp.link@.len() {
                }
            }
        }
        i += 1;
    }
    None
}

/// First link naming neither a dependency nor a component.
fn find_unknown_link(root: &TritonRoot) -> (res: Option<(usize, usize)>)
    ensures
        match res {
            Some((i, k)) => unknown_link_at(*root, i as int, k as int) && forall|i2: int, k2: int|
                pos_before(i2, k2, i as int, k as int) ==> !unknown_link_at(*root, i2, k2),
            None => forall|i: int, k: int| !unknown_link_at(*root, i, k),
        },
{
    let mut i: usize = 0;
    while i < root.components.len()
        invariant
            i <= root.components@.len(),
            forall|i2: int, k2: int| 0 <= i2 < i ==> !unknown_link_at(*root, i2, k2),
        decreases root.components.len() - i,
    {
        let comp = &root.components[i].1;
        let mut k: usize = 0;
        while k < comp.link.len()
            invariant
                i < root.components@.len(),
                *comp == root.components@[i as int].1,
                k <= comp.link@.len(),
                forall|i2: int, k2: int| 0 <= i2 < i ==> !unknown_link_at(*root, i2, k2),
                forall|k2: int| 0 <= k2 < k ==> !unknown_link_at(*root, i as int, k2),
            decreases comp.link.len() - k,
        {
            let (ln, _) = comp.link[k].normalize();
            if !ln.as_str().is_empty() {
                let in_deps = is_dep_case_insensitive(root, ln.as_str());
                let in_components = crate::models::contains_component(root, ln.as_str());
                if !in_deps && !in_components {
                    proof {
                        assert forall|i2: int, k2: int| pos_before(i2, k2, i as int, k as int) implies !unknown_link_at(*root, i2, k2) by {
                            if i2 == i as int && 0 <= k2 {
                            }
                        }
                    }
                    return Some((i, k));
                }
            }
            k += 1;
        }
        proof {
            assert forall|i2: int, k2: int| 0 <= i2 < i + 1 implies !unknown_link_at(*root, i2, k2) by {
                if i2 == i as int && 0 <= k2 < comp.link@.len() {
                }
            }
        }
        i += 1;
    }
    None
}

/// Validates a project model, returning the first problem found: an empty
/// application name, an invalid kind, a component linking to itself (unless a
/// dependency has that name), a link to an unknown name, or a cycle of
/// component links.
pub fn validate_triton_root(root: &TritonRoot) -> (res: Result<(), ValidationError>)
    requires
        root_wf(*root),
    ensures
        validation_ok(*root, res),
{
    if is_blank(root.app_name.as_str()) {
        return Err(ValidationError::EmptyAppName);
    }
    let mut i: usize = 0;
    while i < root.components.len()
        invariant
            i <= root.components@.len(),
            forall|j: int| 0 <= j < i ==> kind_ok(root.components@[j].1.kind@),
            trim(root.app_name@).len() != 0,
        decreases root.components.len() - i,
    {
        let kind = &root.components[i].1.kind;
        if !str_eq(kind.as_str(), "exe") && !str_eq(kind.as_str(), "lib") {
            let component = root.components[i].0.clone();
            let kind2 = kind.clone();
            proof {
                assert(!kind_ok(root.components@[i as int].1.kind@));
                assert(component@ == root.components@[i as int].0@ && kind2@ == root.components@[i as int].1.kind@);
            }
            return Err(ValidationError::InvalidKind { component, kind: kind2 });
        }
        i += 1;
    }
    match find_self_link(root) {
        Some(i) => {
            return Err(ValidationError::SelfLink { component: root.components[i].0.clone() });
        },
        None => {},
    }
    match find_unknown_link(root) {
        Some((i, k)) => {
            let (ln, _) = root.components[i].1.link[k].normalize();
            return Err(
                ValidationError::UnknownLinkTarget {
                    component: root.components[i].0.clone(),
                    target: ln,
                },
            );
        },
        None => {},
    }
    match detect_cycles(root) {
        Some(cycle) => Err(ValidationError::Circular { cycle }),
        None => Ok(()),
    }
}

} // verus!
