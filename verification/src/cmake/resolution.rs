//! Which dependencies a component links, and how: the effective vcpkg and
//! git link specifications, including exported dependencies found upstream.

use vstd::prelude::*;
use crate::models::{
    TritonRoot, TritonComponent, DepSpec, LinkEntry, dep_name, entry_name, entry_package,
    entry_targets, has_component, distinct_keys, opt_view, find_component, clone_opt,
    clone_strings,
};
use crate::text::{views, eq_ic, str_eq, eq_ignore_case};
use crate::util::validation::{spec_has_link, num_false, lemma_num_false_set};

verus! {

// ---------------------------------------------------------------------------
// Reachability among components
// ---------------------------------------------------------------------------

/// Component `i` links (by name) to component `j`.
pub open spec fn step(r: TritonRoot, i: int, j: int) -> bool {
    &&& 0 <= i < r.components@.len()
    &&& 0 <= j < r.components@.len()
    &&& spec_has_link(r.components@[i].1, r.components@[j].0@)
}

/// A path of component links from `a` to `b` (possibly empty).
pub open spec fn is_path(r: TritonRoot, p: Seq<int>, a: int, b: int) -> bool {
    &&& p.len() >= 1
    &&& p[0] == a
    &&& p[p.len() - 1] == b
    &&& forall|k: int| 0 <= k < p.len() - 1 ==> step(r, #[trigger] p[k], p[k + 1])
}

/// Component `b` is reachable from component `a` by zero or more links.
pub open spec fn reach(r: TritonRoot, a: int, b: int) -> bool {
    0 <= a < r.components@.len() && exists|p: Seq<int>| is_path(r, p, a, b)
}

/// Component `b` is reachable from one of the start components.
pub open spec fn reach_from(r: TritonRoot, starts: Seq<usize>, b: int) -> bool {
    exists|k: int| 0 <= k < starts.len() && reach(r, starts[k] as int, b)
}

/// The elements of a sequence are pairwise distinct.
pub open spec fn all_distinct(s: Seq<usize>) -> bool {
    forall|a: int, b: int| 0 <= a < s.len() && 0 <= b < s.len() && a != b ==> s[a] != s[b]
}

pub proof fn lemma_path_extend(r: TritonRoot, p: Seq<int>, a: int, b: int, c: int)
    requires
        is_path(r, p, a, b),
        step(r, b, c),
    ensures
        is_path(r, p.push(c), a, c),
{
    let q = p.push(c);
    assert forall|k: int| 0 <= k < q.len() - 1 implies step(r, #[trigger] q[k], q[k + 1]) by {
        if k < p.len() - 1 {
            assert(q[k] == p[k] && q[k + 1] == p[k + 1]);
        }
    }
}

/// Seen set closed under links and containing the starts holds everything reachable.
proof fn lemma_closed_reach(r: TritonRoot, seen: Seq<bool>, p: Seq<int>, a: int, b: int)
    requires
        seen.len() == r.components@.len(),
        is_path(r, p, a, b),
        0 <= a < seen.len(),
        seen[a],
        forall|x: int, y: int| 0 <= x < seen.len() && seen[x] && #[trigger] step(r, x, y) ==> seen[y],
    ensures
        seen[b],
    decreases p.len(),
{
    if p.len() > 1 {
        let q = p.drop_last();
        assert forall|k: int| 0 <= k < q.len() - 1 implies step(r, #[trigger] q[k], q[k + 1]) by {
            assert(q[k] == p[k] && q[k + 1] == p[k + 1]);
        }
        lemma_closed_reach(r, seen, q, a, q[q.len() - 1]);
        assert(step(r, p[p.len() - 2], p[p.len() - 1]));
    }
}

/// The index of the component named `n`, if there is one.
pub open spec fn comp_index(r: TritonRoot, n: Seq<char>) -> Option<int> {
    if has_component(r, n) {
        Some(choose|i: int| 0 <= i < r.components@.len() && r.components@[i].0@ == n)
    } else {
        None
    }
}

/// With distinct names, the component found by name is the one of
/// `comp_index`.
pub proof fn lemma_comp_index(r: TritonRoot, n: Seq<char>, i: int)
    requires
        distinct_keys(r.components@),
        0 <= i < r.components@.len(),
        r.components@[i].0@ == n,
    ensures
        comp_index(r, n) == Some(i),
{
    assert(has_component(r, n));
    let c = choose|c: int| 0 <= c < r.components@.len() && r.components@[c].0@ == n;
    assert(c == i);
}

/// One step of the breadth-first search: the links of a component from
/// entry `e` on, each naming an unmarked component, mark it and queue it.
pub open spec fn scan_links(r: TritonRoot, links: Seq<LinkEntry>, e: int, q: Seq<usize>, seen: Seq<bool>) -> (Seq<usize>, Seq<bool>)
    decreases links.len() - e,
{
    if e < 0 || e >= links.len() {
        (q, seen)
    } else {
        match comp_index(r, entry_name(links[e])) {
            Some(j) => if 0 <= j < seen.len() && !seen[j] {
                scan_links(r, links, e + 1, q.push(j as usize), seen.update(j, true))
            } else {
                scan_links(r, links, e + 1, q, seen)
            },
            None => scan_links(r, links, e + 1, q, seen),
        }
    }
}

/// The breadth-first search from queue position `head` on, for at most
/// `fuel` components.
pub open spec fn bfs_steps(r: TritonRoot, q: Seq<usize>, seen: Seq<bool>, head: int, fuel: nat) -> Seq<usize>
    decreases fuel,
{
    if fuel == 0 || head < 0 || head >= q.len() {
        q
    } else {
        let cur = q[head] as int;
        let links = if cur < r.components@.len() { r.components@[cur].1.link@ } else { Seq::empty() };
        let next = scan_links(r, links, 0, q, seen);
        bfs_steps(r, next.0, next.1, head + 1, (fuel - 1) as nat)
    }
}

/// The start components from `k` on, each marked and queued unless it is
/// already.
pub open spec fn seed_queue(starts: Seq<usize>, k: int, q: Seq<usize>, seen: Seq<bool>) -> (Seq<usize>, Seq<bool>)
    decreases starts.len() - k,
{
    if k < 0 || k >= starts.len() {
        (q, seen)
    } else {
        let s = starts[k] as int;
        if s < seen.len() && !seen[s] {
            seed_queue(starts, k + 1, q.push(starts[k]), seen.update(s, true))
        } else {
            seed_queue(starts, k + 1, q, seen)
        }
    }
}

proof fn lemma_num_false_none(n: nat)
    ensures
        num_false(Seq::new(n, |i: int| false)) == n,
    decreases n,
{
    if n > 0 {
        lemma_num_false_none((n - 1) as nat);
        assert(Seq::new(n, |i: int| false).drop_last() =~= Seq::new((n - 1) as nat, |i: int| false));
    }
}

/// The order in which a breadth-first search from the start components
/// discovers the components: the starts first, then the components each
/// one links, in the order of its links.
pub open spec fn spec_bfs_order(r: TritonRoot, starts: Seq<usize>) -> Seq<usize> {
    let n = r.components@.len();
    let seeded = seed_queue(starts, 0, Seq::empty(), Seq::new(n, |i: int| false));
    bfs_steps(r, seeded.0, seeded.1, 0, n)
}

/// Breadth-first search over component links from the given start
/// components: every component reachable from a start, each once, in the
/// order of discovery.
pub fn reachable_components(r: &TritonRoot, starts: &Vec<usize>) -> (res: Vec<usize>)
    requires
        distinct_keys(r.components@),
        forall|k: int| 0 <= k < starts@.len() ==> starts@[k] < r.components@.len(),
    ensures
        all_distinct(res@),
        forall|k: int| 0 <= k < res@.len() ==> res@[k] < r.components@.len(),
        forall|x: int| 0 <= x < r.components@.len() ==> (res@.contains(x as usize) <==> reach_from(*r, starts@, x)),
        res@ == spec_bfs_order(*r, starts@),
{
    let n = r.components.len();
    let mut seen: Vec<bool> = Vec::new();
    let mut m: usize = 0;
    while m < n
        invariant
            m <= n,
            seen@.len() == m,
            forall|x: int| 0 <= x < m ==> !seen@[x],
        decreases n - m,
    {
        seen.push(false);
        m += 1;
    }
    let ghost none_seen = Seq::new(n as nat, |i: int| false);
    proof {
        assert(seen@ =~= none_seen);
        lemma_num_false_none(n as nat);
    }
    let mut queue: Vec<usize> = Vec::new();
    let mut k: usize = 0;
    while k < starts.len()
        invariant
            n == r.components@.len(),
            seen@.len() == n,
            k <= starts@.len(),
            none_seen == Seq::new(n as nat, |i: int| false),
            seed_queue(starts@, k as int, queue@, seen@) == seed_queue(starts@, 0, Seq::empty(), none_seen),
            num_false(seen@) + queue@.len() == n,
            forall|q: int| 0 <= q < starts@.len() ==> starts@[q] < n,
            all_distinct(queue@),
            forall|q: int| 0 <= q < queue@.len() ==> queue@[q] < n && seen@[queue@[q] as int],
            forall|x: int| 0 <= x < n && seen@[x] ==> queue@.contains(x as usize),
            forall|x: int| 0 <= x < n && seen@[x] ==> reach_from(*r, starts@, x),
            forall|q: int| 0 <= q < k ==> seen@[starts@[q] as int],
        decreases starts.len() - k,
    {
        let s = starts[k];
        proof {
            let p = seq![s as int];
            assert(is_path(*r, p, s as int, s as int));
            assert(reach(*r, s as int, s as int));
        }
        if !seen[s] {
            let ghost q0 = queue@;
            proof {
                lemma_num_false_set(seen@, s as int);
            }
            seen.set(s, true);
            queue.push(s);
            proof {
                assert forall|q: int| 0 <= q < queue@.len() implies queue@[q] < n && seen@[queue@[q] as int] by {
                    if q < q0.len() {
                        assert(queue@[q] == q0[q]);
                    }
                }
                assert forall|x: int| 0 <= x < n && seen@[x] implies queue@.contains(x as usize) by {
                    if x == s as int {
                        assert(queue@[queue@.len() - 1] == s);
                    } else {
                        let q = choose|q: int| 0 <= q < q0.len() && q0[q] == x as usize;
                        assert(queue@[q] == x as usize);
                    }
                }
                assert forall|a: int, b: int| 0 <= a < queue@.len() && 0 <= b < queue@.len() && a != b implies queue@[a] != queue@[b] by {
                    if a < q0.len() && b < q0.len() {
                    } else if a < q0.len() {
                        assert(seen@[q0[a] as int]);
                    } else if b < q0.len() {
                        assert(seen@[q0[b] as int]);
                    }
                }
                assert forall|x: int| 0 <= x < n && seen@[x] implies reach_from(*r, starts@, x) by {
                    if x == s as int {
                        assert(reach(*r, starts@[k as int] as int, x));
                    }
                }
            }
        }
        k += 1;
    }
    let mut head: usize = 0;
    while head < queue.len()
        invariant
            n == r.components@.len(),
            distinct_keys(r.components@),
            seen@.len() == n,
            head <= queue@.len(),
            all_distinct(queue@),
            forall|q: int| 0 <= q < queue@.len() ==> queue@[q] < n && seen@[queue@[q] as int],
            forall|x: int| 0 <= x < n && seen@[x] ==> queue@.contains(x as usize),
            forall|x: int| 0 <= x < n && seen@[x] ==> reach_from(*r, starts@, x),
            forall|q: int| 0 <= q < starts@.len() ==> starts@[q] < n && seen@[starts@[q] as int],
            forall|q: int, y: int| 0 <= q < head && #[trigger] step(*r, queue@[q] as int, y) ==> seen@[y],
            num_false(seen@) + queue@.len() == n,
            bfs_steps(*r, queue@, seen@, head as int, (n - head) as nat) == spec_bfs_order(*r, starts@),
        decreases num_false(seen@) + (queue@.len() - head),
    {
        let ghost total = num_false(seen@) + queue@.len();
        let ghost qh = queue@;
        let ghost sh = seen@;
        let cur = queue[head];
        let comp = &r.components[cur].1;
        let mut e: usize = 0;
        while e < comp.link.len()
            invariant
                n == r.components@.len(),
                distinct_keys(r.components@),
                seen@.len() == n,
                head < queue@.len(),
                cur == queue@[head as int],
                cur < n,
                *comp == r.components@[cur as int].1,
                e <= comp.link@.len(),
                all_distinct(queue@),
                forall|q: int| 0 <= q < queue@.len() ==> queue@[q] < n && seen@[queue@[q] as int],
                forall|x: int| 0 <= x < n && seen@[x] ==> queue@.contains(x as usize),
                forall|x: int| 0 <= x < n && seen@[x] ==> reach_from(*r, starts@, x),
                forall|q: int| 0 <= q < starts@.len() ==> starts@[q] < n && seen@[starts@[q] as int],
                forall|q: int, y: int| 0 <= q < head && #[trigger] step(*r, queue@[q] as int, y) ==> seen@[y],
                forall|y: int| 0 <= y < n && (exists|m: int| 0 <= m < e && entry_name(comp.link@[m]) == r.components@[y].0@) ==> seen@[y],
                num_false(seen@) + queue@.len() == total,
                scan_links(*r, comp.link@, e as int, queue@, seen@) == scan_links(*r, comp.link@, 0, qh, sh),
            decreases comp.link.len() - e,
        {
            let (name, _) = comp.link[e].normalize();
            let found = find_component(r, name.as_str());
            let ghost q0 = queue@;
            let ghost seen0 = seen@;
            proof {
                match found {
                    Some(j) => lemma_comp_index(*r, name@, j as int),
                    None => {},
                }
            }
            if let Some(j) = found {
                if !seen[j] {
                    proof {
                        lemma_num_false_set(seen@, j as int);
                    }
                    seen.set(j, true);
                    queue.push(j);
                    proof {
                        assert(seen0[cur as int]);
                        let x0 = choose|kk: int| 0 <= kk < starts@.len() && reach(*r, starts@[kk] as int, cur as int);
                        let p = choose|p: Seq<int>| is_path(*r, p, starts@[x0] as int, cur as int);
                        assert(step(*r, cur as int, j as int)) by {
                            assert(entry_name(comp.link@[e as int]) == r.components@[j as int].0@);
                        }
                        lemma_path_extend(*r, p, starts@[x0] as int, cur as int, j as int);
                        assert(reach(*r, starts@[x0] as int, j as int));
                    }
                }
            }
            proof {
                assert forall|q: int| 0 <= q < queue@.len() implies queue@[q] < n && seen@[queue@[q] as int] by {
                    if q < q0.len() {
                        assert(queue@[q] == q0[q]);
                    }
                }
                assert forall|x: int| 0 <= x < n && seen@[x] implies queue@.contains(x as usize) by {
                    if seen0[x] {
                        let q = choose|q: int| 0 <= q < q0.len() && q0[q] == x as usize;
                        assert(queue@[q] == x as usize);
                    } else {
                        assert(queue@[queue@.len() - 1] == x as usize);
                    }
                }
                assert forall|a: int, b: int| 0 <= a < queue@.len() && 0 <= b < queue@.len() && a != b implies queue@[a] != queue@[b] by {
                    if a < q0.len() && b < q0.len() {
                    } else if a < q0.len() {
                        assert(seen0[q0[a] as int]);
                    } else if b < q0.len() {
                        assert(seen0[q0[b] as int]);
                    }
                }
                assert forall|x: int| 0 <= x < n && seen@[x] implies reach_from(*r, starts@, x) by {
                    if seen0[x] {
                    }
                }
                assert(head < queue@.len());
                assert(queue@[head as int] == cur);
                assert forall|q: int, y: int| 0 <= q < head && #[trigger] step(*r, queue@[q] as int, y) implies seen@[y] by {
                    assert(queue@[q] == q0[q]);
                    assert(seen0[y]);
                }
                assert forall|y: int| 0 <= y < n && (exists|m: int| 0 <= m < e + 1 && entry_name(comp.link@[m]) == r.components@[y].0@) implies seen@[y] by {
                    let m = choose|m: int| 0 <= m < e + 1 && entry_name(comp.link@[m]) == r.components@[y].0@;
                    if m == e {
                        assert(has_component(*r, name@));
                        assert(found is Some);
                        assert(found->0 == y as usize);
                    } else {
                        assert(seen0[y]);
                    }
                }
            }
            e += 1;
        }
        proof {
            assert forall|q: int, y: int| 0 <= q < head + 1 && #[trigger] step(*r, queue@[q] as int, y) implies seen@[y] by {
                if q == head {
                    let m = choose|m: int| 0 <= m < comp.link@.len() && entry_name(comp.link@[m]) == r.components@[y].0@;
                }
            }
        }
        head += 1;
    }
    proof {
        assert forall|x: int| 0 <= x < n && reach_from(*r, starts@, x) implies queue@.contains(x as usize) by {
            let kk = choose|kk: int| 0 <= kk < starts@.len() && reach(*r, starts@[kk] as int, x);
            let p = choose|p: Seq<int>| is_path(*r, p, starts@[kk] as int, x);
            assert forall|a: int, b: int| 0 <= a < seen@.len() && seen@[a] && #[trigger] step(*r, a, b) implies seen@[b] by {
                let q = choose|q: int| 0 <= q < queue@.len() && queue@[q] == a as usize;
                assert(step(*r, queue@[q] as int, b));
            }
            lemma_closed_reach(*r, seen@, p, starts@[kk] as int, x);
        }
        assert forall|x: int| 0 <= x < n && queue@.contains(x as usize) implies reach_from(*r, starts@, x) by {
            let q = choose|q: int| 0 <= q < queue@.len() && queue@[q] == x as usize;
            assert(seen@[queue@[q] as int]);
        }
    }
    queue
}


// ---------------------------------------------------------------------------
// Dependencies found upstream
// ---------------------------------------------------------------------------

/// What a search for a dependency upstream gives: the package hint and the
/// targets of the link entry found.
pub type UpRes = Option<(Option<Seq<char>>, Seq<Seq<char>>)>;

/// Link `k` of component `i` is the first entry naming `dep`.
pub open spec fn first_dep_entry(r: TritonRoot, i: int, dep: Seq<char>, k: int) -> bool {
    &&& 0 <= i < r.components@.len()
    &&& 0 <= k < r.components@[i].1.link@.len()
    &&& entry_name(r.components@[i].1.link@[k]) == dep
    &&& forall|m: int| 0 <= m < k ==> entry_name(r.components@[i].1.link@[m]) != dep
}

/// An acceptable answer of `find_upstream_dep_spec`: `None` exactly when no
/// component reachable from `start` (itself included) links `dep`; otherwise
/// the package hint and targets of the first entry naming `dep` in such a
/// component.
pub open spec fn upstream_ok(r: TritonRoot, start: Seq<char>, dep: Seq<char>, res: UpRes) -> bool {
    if !has_component(r, start) {
        res is None
    } else {
        forall|s: int| 0 <= s < r.components@.len() && r.components@[s].0@ == start ==> {
            &&& (res is None <==> !exists|i: int| reach(r, s, i) && spec_has_link(r.components@[i].1, dep))
            &&& (res matches Some((p, t)) ==> exists|i: int, k: int|
                reach(r, s, i) && first_dep_entry(r, i, dep, k) && p == entry_package(
                    r.components@[i].1.link@[k],
                ) && t == entry_targets(r.components@[i].1.link@[k]))
        }
    }
}

/// The first entry of a component naming `dep`, if any.
fn first_entry_named(comp: &TritonComponent, dep: &str) -> (res: Option<usize>)
    ensures
        match res {
            Some(k) => k < comp.link@.len() && entry_name(comp.link@[k as int]) == dep@ && forall|m: int|
                0 <= m < k ==> entry_name(comp.link@[m]) != dep@,
            None => !spec_has_link(*comp, dep@),
        },
{
    let mut k: usize = 0;
    while k < comp.link.len()
        invariant
            k <= comp.link@.len(),
            forall|m: int| 0 <= m < k ==> entry_name(comp.link@[m]) != dep@,
        decreases comp.link.len() - k,
    {
        let (n, _) = comp.link[k].normalize();
        if str_eq(n.as_str(), dep) {
            return Some(k);
        }
        k += 1;
    }
    None
}

/// Views the answer of an upstream search.
pub open spec fn up_view(o: Option<(Option<String>, Vec<String>)>) -> UpRes {
    match o {
        Some((p, t)) => Some((opt_view(p), views(t@))),
        None => None,
    }
}

/// The end of a path of links is a component.
pub proof fn lemma_reach_in_range(r: TritonRoot, a: int, b: int)
    requires
        reach(r, a, b),
    ensures
        0 <= b < r.components@.len(),
{
    let p = choose|p: Seq<int>| is_path(r, p, a, b);
    if p.len() > 1 {
        assert(step(r, p[p.len() - 2], p[p.len() - 1]));
    }
}

proof fn lemma_upstream_found(r: TritonRoot, start: Seq<char>, dep: Seq<char>, s: int, i: int, k: int, res: UpRes)
    requires
        distinct_keys(r.components@),
        0 <= s < r.components@.len(),
        r.components@[s].0@ == start,
        reach(r, s, i),
        first_dep_entry(r, i, dep, k),
        res == Some((entry_package(r.components@[i].1.link@[k]), entry_targets(r.components@[i].1.link@[k]))),
    ensures
        upstream_ok(r, start, dep, res),
{
    assert(has_component(r, start));
    assert forall|s2: int| 0 <= s2 < r.components@.len() && r.components@[s2].0@ == start implies s2 == s by {}
}

#[verifier::spinoff_prover]
proof fn lemma_upstream_none(r: TritonRoot, start: Seq<char>, dep: Seq<char>, s: int, order: Seq<usize>)
    requires
        distinct_keys(r.components@),
        0 <= s < r.components@.len(),
        r.components@[s].0@ == start,
        forall|x: int| 0 <= x < r.components@.len() ==> (order.contains(x as usize) <==> reach(r, s, x)),
        forall|m: int| 0 <= m < order.len() ==> !spec_has_link(r.components@[order[m] as int].1, dep),
    ensures
        upstream_ok(r, start, dep, None),
{
    assert forall|i: int| reach(r, s, i) implies !spec_has_link(r.components@[i].1, dep) by {
        lemma_reach_in_range(r, s, i);
        assert(r.components@.len() == r.components.len());
        assert(order.contains(i as usize));
        let m = choose|m: int| 0 <= m < order.len() && order[m] == i as usize;
        assert(!spec_has_link(r.components@[order[m] as int].1, dep));
    }
    assert(has_component(r, start));
    assert forall|s2: int| 0 <= s2 < r.components@.len() && r.components@[s2].0@ == start implies s2 == s by {}
}

/// The index of the first link entry naming `dep`.
pub open spec fn first_named(links: Seq<LinkEntry>, dep: Seq<char>) -> int {
    choose|k: int| 0 <= k < links.len() && entry_name(links[k]) == dep
        && forall|m: int| 0 <= m < k ==> entry_name(links[m]) != dep
}

/// The upstream answer from position `q` of a search order on: the first
/// component there that links `dep`, with the package hint and targets of
/// its first entry naming it.
pub open spec fn first_upstream(r: TritonRoot, order: Seq<usize>, dep: Seq<char>, q: int) -> UpRes
    decreases order.len() - q,
{
    if q < 0 || q >= order.len() {
        None
    } else {
        let i = order[q] as int;
        if 0 <= i < r.components@.len() && spec_has_link(r.components@[i].1, dep) {
            let links = r.components@[i].1.link@;
            let k = first_named(links, dep);
            Some((entry_package(links[k]), entry_targets(links[k])))
        } else {
            first_upstream(r, order, dep, q + 1)
        }
    }
}

/// What the search for `dep` upstream of `start` gives: in the breadth-first
/// order from `start` (itself first), the first component that links `dep`,
/// and the package hint and targets of its first entry naming it; nothing
/// when there is no such component or no component named `start`.
pub open spec fn spec_upstream(r: TritonRoot, start: Seq<char>, dep: Seq<char>) -> UpRes {
    match comp_index(r, start) {
        None => None,
        Some(s) => first_upstream(r, spec_bfs_order(r, seq![s as usize]), dep, 0),
    }
}

/// Searches the components reachable from `start_comp` (breadth first, the
/// start first) for one that links `dep_name`, and returns that link's
/// package hint and targets.
pub fn find_upstream_dep_spec(root: &TritonRoot, start_comp: &str, dep_name: &str) -> (res: Option<(Option<String>, Vec<String>)>)
    requires
        distinct_keys(root.components@),
    ensures
        upstream_ok(*root, start_comp@, dep_name@, up_view(res)),
        up_view(res) == spec_upstream(*root, start_comp@, dep_name@),
{
    let s = match find_component(root, start_comp) {
        Some(s) => s,
        None => {
            return None;
        },
    };
    proof {
        lemma_comp_index(*root, start_comp@, s as int);
    }
    let mut starts: Vec<usize> = Vec::new();
    starts.push(s);
    let order = reachable_components(root, &starts);
    assert(starts@ =~= seq![s]);
    proof {
        assert forall|x: int| 0 <= x < root.components@.len() implies (reach_from(*root, starts@, x) <==> reach(*root, s as int, x)) by {
            if reach(*root, s as int, x) {
                assert(starts@[0] == s);
            }
        }
    }
    let mut q: usize = 0;
    while q < order.len()
        invariant
            distinct_keys(root.components@),
            s < root.components@.len(),
            root.components@[s as int].0@ == start_comp@,
            q <= order@.len(),
            forall|k: int| 0 <= k < order@.len() ==> order@[k] < root.components@.len(),
            forall|x: int| 0 <= x < root.components@.len() ==> (order@.contains(x as usize) <==> reach(*root, s as int, x)),
            forall|m: int| 0 <= m < q ==> !spec_has_link(root.components@[order@[m] as int].1, dep_name@),
            comp_index(*root, start_comp@) == Some(s as int),
            order@ == spec_bfs_order(*root, seq![s]),
            first_upstream(*root, order@, dep_name@, q as int) == spec_upstream(*root, start_comp@, dep_name@),
        decreases order.len() - q,
    {
        let i = order[q];
        let comp = &root.components[i].1;
        match first_entry_named(comp, dep_name) {
            Some(k) => {
                let (_, pkg) = comp.link[k].normalize();
                let targets = comp.link[k].all_targets();
                proof {
                    assert(order@.contains(i));
                    lemma_upstream_found(*root, start_comp@, dep_name@, s as int, i as int, k as int, up_view(Some((pkg, targets))));
                    let links = comp.link@;
                    let c = first_named(links, dep_name@);
                    assert(entry_name(links[k as int]) == dep_name@);
                    assert(c == k as int) by {
                        if c < k as int {
                        } else if c > k as int {
                        }
                    }
                    assert(spec_has_link(root.components@[i as int].1, dep_name@));
                }
                return Some((pkg, targets));
            },
            None => {},
        }
        q += 1;
    }
    proof {
        lemma_upstream_none(*root, start_comp@, dep_name@, s as int, order@);
    }
    None
}


// ---------------------------------------------------------------------------
// Effective link specifications
// ---------------------------------------------------------------------------

/// How a component links one git dependency.
#[derive(Debug)]
pub struct GitSpec {
    pub name: String,
    pub targets: Vec<String>,
    pub public: bool,
}

/// How a component links one vcpkg dependency.
#[derive(Debug)]
pub struct VcpkgSpec {
    pub name: String,
    pub pkg_hint: Option<String>,
    pub targets: Vec<String>,
    pub public: bool,
}

/// Abstract git link specification: name, targets, public.
pub type GitV = (Seq<char>, Seq<Seq<char>>, bool);

/// Abstract vcpkg link specification: name, package hint, targets, public.
pub type VcpkgV = (Seq<char>, Option<Seq<char>>, Seq<Seq<char>>, bool);

pub open spec fn git_view(g: GitSpec) -> GitV {
    (g.name@, views(g.targets@), g.public)
}

pub open spec fn vcpkg_view(v: VcpkgSpec) -> VcpkgV {
    (v.name@, opt_view(v.pkg_hint), views(v.targets@), v.public)
}

pub open spec fn git_views(s: Seq<GitSpec>) -> Seq<GitV> {
    s.map_values(|g: GitSpec| git_view(g))
}

pub open spec fn vcpkg_views(s: Seq<VcpkgSpec>) -> Seq<VcpkgV> {
    s.map_values(|v: VcpkgSpec| vcpkg_view(v))
}

/// Some git dependency has exactly this name.
pub open spec fn is_git_name(r: TritonRoot, n: Seq<char>) -> bool {
    exists|i: int| 0 <= i < r.deps@.len() && (#[trigger] r.deps@[i] matches DepSpec::Git(g) && g.name@ == n)
}

/// Some simple or detailed dependency has exactly this name.
pub open spec fn is_vcpkg_name(r: TritonRoot, n: Seq<char>) -> bool {
    exists|i: int|
        0 <= i < r.deps@.len() && ((#[trigger] r.deps@[i] matches DepSpec::Simple(x) && x@ == n) || (
        r.deps@[i] matches DepSpec::Detailed(d) && d.name@ == n))
}

/// Some simple dependency has exactly this name.
pub open spec fn is_simple_name(r: TritonRoot, n: Seq<char>) -> bool {
    exists|i: int| 0 <= i < r.deps@.len() && (#[trigger] r.deps@[i] matches DepSpec::Simple(x) && x@ == n)
}

/// The component exports this name.
pub open spec fn exports_has(c: TritonComponent, n: Seq<char>) -> bool {
    exists|k: int| 0 <= k < c.exports@.len() && c.exports@[k]@ == n
}

/// The package of the first detailed dependency whose name matches `n`
/// (ignoring ASCII case) and which gives a package.
pub open spec fn pkg_override(deps: Seq<DepSpec>, n: Seq<char>) -> Option<Seq<char>>
    decreases deps.len(),
{
    if deps.len() == 0 {
        None
    } else {
        match deps[0] {
            DepSpec::Detailed(d) => if eq_ic(d.name@, n) && d.package is Some {
                opt_view(d.package)
            } else {
                pkg_override(deps.drop_first(), n)
            },
            _ => pkg_override(deps.drop_first(), n),
        }
    }
}

pub open spec fn git_names(s: Seq<GitV>) -> Seq<Seq<char>> {
    s.map_values(|g: GitV| g.0)
}

pub open spec fn vcpkg_names(s: Seq<VcpkgV>) -> Seq<Seq<char>> {
    s.map_values(|v: VcpkgV| v.0)
}

/// Git specifications from the first `k` link entries.
pub open spec fn git_from_links(r: TritonRoot, c: TritonComponent, k: int) -> Seq<GitV>
    decreases k,
{
    if k <= 0 {
        Seq::empty()
    } else {
        let prev = git_from_links(r, c, k - 1);
        let e = c.link@[k - 1];
        let n = entry_name(e);
        if n.len() > 0 && is_git_name(r, n) && !git_names(prev).contains(n) {
            prev.push((n, entry_targets(e), exports_has(c, n)))
        } else {
            prev
        }
    }
}

/// Git specifications after considering the first `k` exports, with `ups[j]`
/// the upstream answer for export `j`.
pub open spec fn git_from_exports(r: TritonRoot, c: TritonComponent, ups: Seq<UpRes>, k: int) -> Seq<GitV>
    decreases k,
{
    if k <= 0 {
        git_from_links(r, c, c.link@.len() as int)
    } else {
        let prev = git_from_exports(r, c, ups, k - 1);
        let n = c.exports@[k - 1]@;
        if git_names(prev).contains(n) || !is_git_name(r, n) {
            prev
        } else {
            match ups[k - 1] {
                Some((_, t)) => if t.len() > 0 {
                    prev.push((n, t, true))
                } else {
                    prev
                },
                None => prev,
            }
        }
    }
}

/// Vcpkg specifications from the first `k` link entries.
pub open spec fn vcpkg_from_links(r: TritonRoot, c: TritonComponent, k: int) -> Seq<VcpkgV>
    decreases k,
{
    if k <= 0 {
        Seq::empty()
    } else {
        let prev = vcpkg_from_links(r, c, k - 1);
        let e = c.link@[k - 1];
        let n = entry_name(e);
        if n.len() > 0 && is_vcpkg_name(r, n) && !vcpkg_names(prev).contains(n) {
            let hint = match pkg_override(r.deps@, n) {
                Some(p) => Some(p),
                None => entry_package(e),
            };
            prev.push((n, hint, entry_targets(e), exports_has(c, n)))
        } else {
            prev
        }
    }
}

/// Vcpkg specifications after considering the first `k` exports.
pub open spec fn vcpkg_from_exports(r: TritonRoot, c: TritonComponent, ups: Seq<UpRes>, k: int) -> Seq<VcpkgV>
    decreases k,
{
    if k <= 0 {
        vcpkg_from_links(r, c, c.link@.len() as int)
    } else {
        let prev = vcpkg_from_exports(r, c, ups, k - 1);
        let n = c.exports@[k - 1]@;
        if vcpkg_names(prev).contains(n) || !is_simple_name(r, n) {
            prev
        } else {
            match ups[k - 1] {
                Some((p, t)) => if t.len() > 0 {
                    prev.push((n, p, t, true))
                } else {
                    prev
                },
                None => prev,
            }
        }
    }
}

/// The upstream answers for the exports of a component (see
/// `spec_upstream`).
pub open spec fn ups_ok(r: TritonRoot, comp_name: Seq<char>, c: TritonComponent, ups: Seq<UpRes>) -> bool {
    &&& ups.len() == c.exports@.len()
    &&& forall|k: int| 0 <= k < ups.len() ==> #[trigger] ups[k] == spec_upstream(r, comp_name, c.exports@[k]@)
}

/// The effective git specifications of a component.
pub open spec fn spec_git_specs(r: TritonRoot, comp_name: Seq<char>, c: TritonComponent, ups: Seq<UpRes>) -> Seq<GitV> {
    git_from_exports(r, c, ups, c.exports@.len() as int)
}

/// The effective vcpkg specifications of a component.
pub open spec fn spec_vcpkg_specs(r: TritonRoot, comp_name: Seq<char>, c: TritonComponent, ups: Seq<UpRes>) -> Seq<VcpkgV> {
    vcpkg_from_exports(r, c, ups, c.exports@.len() as int)
}

/// No name occurs twice.
pub open spec fn names_distinct(s: Seq<Seq<char>>) -> bool {
    forall|a: int, b: int| 0 <= a < b < s.len() ==> #[trigger] s[a] != #[trigger] s[b]
}

proof fn lemma_distinct_push(s: Seq<Seq<char>>, n: Seq<char>)
    requires
        names_distinct(s),
        !s.contains(n),
    ensures
        names_distinct(s.push(n)),
{
    assert forall|a: int, b: int| 0 <= a < b < s.push(n).len() implies #[trigger] s.push(n)[a] != #[trigger] s.push(n)[b] by {
        if b == s.len() {
            assert(s.push(n)[a] == s[a]);
        } else {
            assert(s.push(n)[a] == s[a] && s.push(n)[b] == s[b]);
        }
    }
}

proof fn lemma_vcpkg_links_distinct(r: TritonRoot, c: TritonComponent, k: int)
    ensures
        names_distinct(vcpkg_names(vcpkg_from_links(r, c, k))),
    decreases k,
{
    if k > 0 {
        let prev = vcpkg_from_links(r, c, k - 1);
        lemma_vcpkg_links_distinct(r, c, k - 1);
        let e = c.link@[k - 1];
        let n = entry_name(e);
        if n.len() > 0 && is_vcpkg_name(r, n) && !vcpkg_names(prev).contains(n) {
            let hint = match pkg_override(r.deps@, n) {
                Some(p) => Some(p),
                None => entry_package(e),
            };
            lemma_distinct_push(vcpkg_names(prev), n);
            assert(vcpkg_names(prev.push((n, hint, entry_targets(e), exports_has(c, n)))) =~= vcpkg_names(prev).push(n));
        }
    }
}

proof fn lemma_vcpkg_exports_distinct(r: TritonRoot, c: TritonComponent, ups: Seq<UpRes>, k: int)
    ensures
        names_distinct(vcpkg_names(vcpkg_from_exports(r, c, ups, k))),
    decreases k,
{
    if k <= 0 {
        lemma_vcpkg_links_distinct(r, c, c.link@.len() as int);
    } else {
        let prev = vcpkg_from_exports(r, c, ups, k - 1);
        lemma_vcpkg_exports_distinct(r, c, ups, k - 1);
        let n = c.exports@[k - 1]@;
        if !(vcpkg_names(prev).contains(n) || !is_simple_name(r, n)) {
            match ups[k - 1] {
                Some((p, t)) => if t.len() > 0 {
                    lemma_distinct_push(vcpkg_names(prev), n);
                    assert(vcpkg_names(prev.push((n, p, t, true))) =~= vcpkg_names(prev).push(n));
                },
                None => {},
            }
        }
    }
}

proof fn lemma_git_links_distinct(r: TritonRoot, c: TritonComponent, k: int)
    ensures
        names_distinct(git_names(git_from_links(r, c, k))),
    decreases k,
{
    if k > 0 {
        let prev = git_from_links(r, c, k - 1);
        lemma_git_links_distinct(r, c, k - 1);
        let e = c.link@[k - 1];
        let n = entry_name(e);
        if n.len() > 0 && is_git_name(r, n) && !git_names(prev).contains(n) {
            lemma_distinct_push(git_names(prev), n);
            assert(git_names(prev.push((n, entry_targets(e), exports_has(c, n)))) =~= git_names(prev).push(n));
        }
    }
}

proof fn lemma_git_exports_distinct(r: TritonRoot, c: TritonComponent, ups: Seq<UpRes>, k: int)
    ensures
        names_distinct(git_names(git_from_exports(r, c, ups, k))),
    decreases k,
{
    if k <= 0 {
        lemma_git_links_distinct(r, c, c.link@.len() as int);
    } else {
        let prev = git_from_exports(r, c, ups, k - 1);
        lemma_git_exports_distinct(r, c, ups, k - 1);
        let n = c.exports@[k - 1]@;
        if !(git_names(prev).contains(n) || !is_git_name(r, n)) {
            match ups[k - 1] {
                Some((_, t)) => if t.len() > 0 {
                    lemma_distinct_push(git_names(prev), n);
                    assert(git_names(prev.push((n, t, true))) =~= git_names(prev).push(n));
                },
                None => {},
            }
        }
    }
}

/// A specification that a link entry gave: a named vcpkg dependency, with
/// the entry's targets, the package of a detailed dependency of that name
/// (else the entry's), public exactly when the component exports it.
pub open spec fn from_link_ok(r: TritonRoot, c: TritonComponent, v: VcpkgV) -> bool {
    &&& v.0.len() > 0
    &&& is_vcpkg_name(r, v.0)
    &&& v.3 == exports_has(c, v.0)
    &&& exists|k: int| 0 <= k < c.link@.len() && entry_name(#[trigger] c.link@[k]) == v.0
        && v.2 == entry_targets(c.link@[k]) && v.1 == match pkg_override(r.deps@, v.0) {
            Some(p) => Some(p),
            None => entry_package(c.link@[k]),
        }
}

/// A specification that an export gave: a plain dependency the component
/// exports, public, with the package and the (non-empty) targets of its
/// upstream answer.
pub open spec fn from_export_ok(r: TritonRoot, c: TritonComponent, ups: Seq<UpRes>, v: VcpkgV) -> bool {
    &&& v.3
    &&& v.2.len() > 0
    &&& is_simple_name(r, v.0)
    &&& exists|k: int| 0 <= k < c.exports@.len() && c.exports@[k]@ == v.0 && ups[k] == Some((v.1, v.2))
}

proof fn lemma_links_part(r: TritonRoot, c: TritonComponent, k: int)
    requires
        k <= c.link@.len(),
    ensures
        forall|i: int| 0 <= i < vcpkg_from_links(r, c, k).len() ==> from_link_ok(r, c, #[trigger] vcpkg_from_links(r, c, k)[i]),
    decreases k,
{
    if k > 0 {
        lemma_links_part(r, c, k - 1);
        let prev = vcpkg_from_links(r, c, k - 1);
        let cur = vcpkg_from_links(r, c, k);
        assert forall|i: int| 0 <= i < cur.len() implies from_link_ok(r, c, #[trigger] cur[i]) by {
            if i < prev.len() {
                assert(cur[i] == prev[i]);
            } else {
                assert(entry_name(c.link@[k - 1]) == cur[i].0);
            }
        }
    }
}

proof fn lemma_exports_part(r: TritonRoot, c: TritonComponent, ups: Seq<UpRes>, k: int)
    requires
        k <= c.exports@.len(),
    ensures
        ({
            let l = vcpkg_from_links(r, c, c.link@.len() as int);
            let s = vcpkg_from_exports(r, c, ups, k);
            &&& s.len() >= l.len()
            &&& s.take(l.len() as int) == l
            &&& forall|i: int| l.len() <= i < s.len() ==> from_export_ok(r, c, ups, #[trigger] s[i])
        }),
    decreases k,
{
    let l = vcpkg_from_links(r, c, c.link@.len() as int);
    if k <= 0 {
        assert(l.take(l.len() as int) =~= l);
    } else {
        lemma_exports_part(r, c, ups, k - 1);
        let prev = vcpkg_from_exports(r, c, ups, k - 1);
        let cur = vcpkg_from_exports(r, c, ups, k);
        assert(cur.take(l.len() as int) =~= prev.take(l.len() as int)) by {
            assert forall|i: int| 0 <= i < l.len() implies cur[i] == prev[i] by {}
        }
        assert forall|i: int| l.len() <= i < cur.len() implies from_export_ok(r, c, ups, #[trigger] cur[i]) by {
            if i < prev.len() {
                assert(cur[i] == prev[i]);
            } else {
                assert(c.exports@[k - 1]@ == cur[i].0);
            }
        }
    }
}

proof fn lemma_links_part_complete(r: TritonRoot, c: TritonComponent, k: int)
    requires
        k <= c.link@.len(),
    ensures
        forall|q: int| 0 <= q < k && entry_name(#[trigger] c.link@[q]).len() > 0 && is_vcpkg_name(r, entry_name(c.link@[q]))
            ==> vcpkg_names(vcpkg_from_links(r, c, k)).contains(entry_name(c.link@[q])),
    decreases k,
{
    if k > 0 {
        lemma_links_part_complete(r, c, k - 1);
        let prev = vcpkg_from_links(r, c, k - 1);
        let cur = vcpkg_from_links(r, c, k);
        assert forall|q: int| 0 <= q < k && entry_name(#[trigger] c.link@[q]).len() > 0 && is_vcpkg_name(r, entry_name(c.link@[q]))
            implies vcpkg_names(cur).contains(entry_name(c.link@[q])) by {
            let n = entry_name(c.link@[q]);
            if cur != prev {
                assert(vcpkg_names(cur) =~= vcpkg_names(prev).push(cur.last().0));
                if q < k - 1 {
                    let w = choose|w: int| 0 <= w < vcpkg_names(prev).len() && vcpkg_names(prev)[w] == n;
                    assert(vcpkg_names(cur)[w] == n);
                } else {
                    assert(vcpkg_names(cur)[prev.len() as int] == n);
                }
            } else if q == k - 1 {
                assert(vcpkg_names(prev).contains(n));
            }
        }
    }
}

/// The effective vcpkg specifications of a component come in two parts:
/// first one for each link entry that names a vcpkg dependency (in link
/// order, public exactly when exported), then one for each exported plain
/// dependency answered upstream with targets (public).
pub proof fn lemma_vcpkg_specs_shape(r: TritonRoot, comp_name: Seq<char>, c: TritonComponent, ups: Seq<UpRes>)
    ensures
        ({
            let l = vcpkg_from_links(r, c, c.link@.len() as int);
            let s = spec_vcpkg_specs(r, comp_name, c, ups);
            &&& s.len() >= l.len()
            &&& s.take(l.len() as int) == l
            &&& forall|i: int| 0 <= i < l.len() ==> from_link_ok(r, c, #[trigger] s[i])
            &&& forall|q: int| 0 <= q < c.link@.len() && entry_name(#[trigger] c.link@[q]).len() > 0
                && is_vcpkg_name(r, entry_name(c.link@[q])) ==> exists|i: int| 0 <= i < l.len() && s[i].0 == entry_name(c.link@[q])
            &&& forall|i: int| l.len() <= i < s.len() ==> from_export_ok(r, c, ups, #[trigger] s[i])
        }),
{
    let l = vcpkg_from_links(r, c, c.link@.len() as int);
    let s = spec_vcpkg_specs(r, comp_name, c, ups);
    lemma_links_part(r, c, c.link@.len() as int);
    lemma_links_part_complete(r, c, c.link@.len() as int);
    lemma_exports_part(r, c, ups, c.exports@.len() as int);
    assert forall|q: int| 0 <= q < c.link@.len() && entry_name(#[trigger] c.link@[q]).len() > 0
        && is_vcpkg_name(r, entry_name(c.link@[q])) implies exists|i: int| 0 <= i < l.len() && s[i].0 == entry_name(c.link@[q]) by {
        let w = choose|w: int| 0 <= w < vcpkg_names(l).len() && vcpkg_names(l)[w] == entry_name(c.link@[q]);
        assert(s.take(l.len() as int)[w] == s[w]);
    }
    assert forall|i: int| 0 <= i < l.len() implies from_link_ok(r, c, #[trigger] s[i]) by {
        assert(s.take(l.len() as int)[i] == s[i]);
        assert(from_link_ok(r, c, l[i]));
    }
}

proof fn lemma_git_links_public(r: TritonRoot, c: TritonComponent, k: int)
    ensures
        forall|i: int| 0 <= i < git_from_links(r, c, k).len() ==> (#[trigger] git_from_links(r, c, k)[i]).2
            == exports_has(c, git_from_links(r, c, k)[i].0),
    decreases k,
{
    if k > 0 {
        lemma_git_links_public(r, c, k - 1);
        let prev = git_from_links(r, c, k - 1);
        let cur = git_from_links(r, c, k);
        assert forall|i: int| 0 <= i < cur.len() implies (#[trigger] cur[i]).2 == exports_has(c, cur[i].0) by {
            if i < prev.len() {
                assert(cur[i] == prev[i]);
            }
        }
    }
}

/// Every effective git specification is public exactly when the component
/// exports its dependency.
pub proof fn lemma_git_specs_public(r: TritonRoot, c: TritonComponent, ups: Seq<UpRes>, k: int)
    requires
        k <= c.exports@.len(),
    ensures
        forall|i: int| 0 <= i < git_from_exports(r, c, ups, k).len() ==> (#[trigger] git_from_exports(r, c, ups, k)[i]).2
            == exports_has(c, git_from_exports(r, c, ups, k)[i].0),
    decreases k,
{
    if k <= 0 {
        lemma_git_links_public(r, c, c.link@.len() as int);
    } else {
        lemma_git_specs_public(r, c, ups, k - 1);
        let prev = git_from_exports(r, c, ups, k - 1);
        let cur = git_from_exports(r, c, ups, k);
        assert forall|i: int| 0 <= i < cur.len() implies (#[trigger] cur[i]).2 == exports_has(c, cur[i].0) by {
            if i < prev.len() {
                assert(cur[i] == prev[i]);
            } else {
                assert(c.exports@[k - 1]@ == cur[i].0);
            }
        }
    }
}

/// A component's effective link specifications name each dependency once:
/// no name occurs twice among its vcpkg specifications, nor among its git
/// specifications.
pub proof fn lemma_effective_specs_distinct(r: TritonRoot, comp_name: Seq<char>, c: TritonComponent, ups: Seq<UpRes>)
    ensures
        names_distinct(vcpkg_names(spec_vcpkg_specs(r, comp_name, c, ups))),
        names_distinct(git_names(spec_git_specs(r, comp_name, c, ups))),
{
    lemma_vcpkg_exports_distinct(r, c, ups, c.exports@.len() as int);
    lemma_git_exports_distinct(r, c, ups, c.exports@.len() as int);
}

/// The names of a list of git specifications contain `n`.
fn git_seen(out: &Vec<GitSpec>, n: &str) -> (res: bool)
    ensures
        res == git_names(git_views(out@)).contains(n@),
{
    let mut i: usize = 0;
    while i < out.len()
        invariant
            i <= out@.len(),
            forall|m: int| 0 <= m < i ==> out@[m].name@ != n@,
        decreases out.len() - i,
    {
        if str_eq(out[i].name.as_str(), n) {
            assert(git_names(git_views(out@))[i as int] == n@);
            return true;
        }
        i += 1;
    }
    proof {
        if git_names(git_views(out@)).contains(n@) {
            let m = choose|m: int| 0 <= m < out@.len() && git_names(git_views(out@))[m] == n@;
        }
    }
    false
}

/// The names of a list of vcpkg specifications contain `n`.
fn vcpkg_seen(out: &Vec<VcpkgSpec>, n: &str) -> (res: bool)
    ensures
        res == vcpkg_names(vcpkg_views(out@)).contains(n@),
{
    let mut i: usize = 0;
    while i < out.len()
        invariant
            i <= out@.len(),
            forall|m: int| 0 <= m < i ==> out@[m].name@ != n@,
        decreases out.len() - i,
    {
        if str_eq(out[i].name.as_str(), n) {
            assert(vcpkg_names(vcpkg_views(out@))[i as int] == n@);
            return true;
        }
        i += 1;
    }
    proof {
        if vcpkg_names(vcpkg_views(out@)).contains(n@) {
            let m = choose|m: int| 0 <= m < out@.len() && vcpkg_names(vcpkg_views(out@))[m] == n@;
        }
    }
    false
}

/// Some git dependency is named exactly `n`.
fn is_git_dep_named(r: &TritonRoot, n: &str) -> (res: bool)
    ensures
        res == is_git_name(*r, n@),
{
    let mut i: usize = 0;
    while i < r.deps.len()
        invariant
            i <= r.deps@.len(),
            forall|m: int| 0 <= m < i ==> !(#[trigger] r.deps@[m] matches DepSpec::Git(g) && g.name@ == n@),
        decreases r.deps.len() - i,
    {
        match &r.deps[i] {
            DepSpec::Git(g) => {
                if str_eq(g.name.as_str(), n) {
                    return true;
                }
            },
            _ => {},
        }
        i += 1;
    }
    false
}

/// Some simple or detailed dependency is named exactly `n`.
fn is_vcpkg_dep_named(r: &TritonRoot, n: &str) -> (res: bool)
    ensures
        res == is_vcpkg_name(*r, n@),
{
    let mut i: usize = 0;
    while i < r.deps.len()
        invariant
            i <= r.deps@.len(),
            forall|m: int| 0 <= m < i ==> !((#[trigger] r.deps@[m] matches DepSpec::Simple(x) && x@ == n@) || (
                r.deps@[m] matches DepSpec::Detailed(d) && d.name@ == n@)),
        decreases r.deps.len() - i,
    {
        match &r.deps[i] {
            DepSpec::Simple(x) => {
                if str_eq(x.as_str(), n) {
                    return true;
                }
            },
            DepSpec::Detailed(d) => {
                if str_eq(d.name.as_str(), n) {
                    return true;
                }
            },
            _ => {},
        }
        i += 1;
    }
    false
}

/// Some simple dependency is named exactly `n`.
fn is_simple_dep_named(r: &TritonRoot, n: &str) -> (res: bool)
    ensures
        res == is_simple_name(*r, n@),
{
    let mut i: usize = 0;
    while i < r.deps.len()
        invariant
            i <= r.deps@.len(),
            forall|m: int| 0 <= m < i ==> !(#[trigger] r.deps@[m] matches DepSpec::Simple(x) && x@ == n@),
        decreases r.deps.len() - i,
    {
        match &r.deps[i] {
            DepSpec::Simple(x) => {
                if str_eq(x.as_str(), n) {
                    return true;
                }
            },
            _ => {},
        }
        i += 1;
    }
    false
}

/// The component exports exactly `n`.
fn exports_contains(c: &TritonComponent, n: &str) -> (res: bool)
    ensures
        res == exports_has(*c, n@),
{
    let mut i: usize = 0;
    while i < c.exports.len()
        invariant
            i <= c.exports@.len(),
            forall|m: int| 0 <= m < i ==> c.exports@[m]@ != n@,
        decreases c.exports.len() - i,
    {
        if str_eq(c.exports[i].as_str(), n) {
            return true;
        }
        i += 1;
    }
    false
}

/// The package of the first detailed dependency matching `n` that gives one.
fn find_pkg_override(r: &TritonRoot, n: &str) -> (res: Option<String>)
    ensures
        opt_view(res) == pkg_override(r.deps@, n@),
{
    let mut i: usize = 0;
    assert(r.deps@.skip(0) =~= r.deps@);
    while i < r.deps.len()
        invariant
            i <= r.deps@.len(),
            pkg_override(r.deps@.skip(i as int), n@) == pkg_override(r.deps@, n@),
        decreases r.deps.len() - i,
    {
        proof {
            assert(r.deps@.skip(i as int).drop_first() =~= r.deps@.skip(i + 1));
            assert(r.deps@.skip(i as int)[0] == r.deps@[i as int]);
        }
        match &r.deps[i] {
            DepSpec::Detailed(d) => {
                if eq_ignore_case(d.name.as_str(), n) && d.package.is_some() {
                    return clone_opt(&d.package);
                }
            },
            _ => {},
        }
        i += 1;
    }
    proof {
        assert(r.deps@.skip(r.deps@.len() as int) =~= Seq::<DepSpec>::empty());
    }
    None
}


/// The effective git link specifications of a component: its links to git
/// dependencies (first occurrence of each name; public when exported), then
/// exported git dependencies it does not link itself whose upstream link gives
/// targets (public).
pub fn build_effective_git_specs(root: &TritonRoot, comp_name: &str, comp: &TritonComponent) -> (res: Vec<GitSpec>)
    requires
        distinct_keys(root.components@),
    ensures
        exists|ups: Seq<UpRes>| ups_ok(*root, comp_name@, *comp, ups) && git_views(res@) == spec_git_specs(*root, comp_name@, *comp, ups),
{
    let mut out: Vec<GitSpec> = Vec::new();
    let mut k: usize = 0;
    while k < comp.link.len()
        invariant
            k <= comp.link@.len(),
            git_views(out@) == git_from_links(*root, *comp, k as int),
        decreases comp.link.len() - k,
    {
        let ent = &comp.link[k];
        let (name, _) = ent.normalize();
        if !name.as_str().is_empty() && is_git_dep_named(root, name.as_str()) && !git_seen(&out, name.as_str()) {
            let public = exports_contains(comp, name.as_str());
            let g = GitSpec { name, targets: ent.all_targets(), public };
            out.push(g);
            assert(git_views(out@) =~= git_from_links(*root, *comp, k as int).push(git_view(g)));
        }
        k += 1;
    }
    let ghost mut ups: Seq<UpRes> = Seq::empty();
    let mut k: usize = 0;
    while k < comp.exports.len()
        invariant
            distinct_keys(root.components@),
            k <= comp.exports@.len(),
            ups.len() == k,
            forall|m: int| 0 <= m < k ==> #[trigger] ups[m] == spec_upstream(*root, comp_name@, comp.exports@[m]@),
            forall|any: Seq<UpRes>| any.len() >= k && (forall|m: int| 0 <= m < k ==> any[m] == ups[m]) ==> git_views(out@) == git_from_exports(*root, *comp, any, k as int),
        decreases comp.exports.len() - k,
    {
        let exp = &comp.exports[k];
        let ghost prev = git_views(out@);
        if !git_seen(&out, exp.as_str()) && is_git_dep_named(root, exp.as_str()) {
            let up = find_upstream_dep_spec(root, comp_name, exp.as_str());
            proof {
                ups = ups.push(up_view(up));
            }
            match up {
                Some((_, targets)) => {
                    if targets.len() > 0 {
                        let g = GitSpec { name: exp.clone(), targets, public: true };
                        out.push(g);
                        assert(git_views(out@) =~= prev.push(git_view(g)));
                    }
                },
                None => {},
            }
        } else {
            proof {
                ups = ups.push(spec_upstream(*root, comp_name@, exp@));
            }
        }
        proof {
            assert forall|any: Seq<UpRes>| any.len() >= k + 1 && (forall|m: int| 0 <= m < k + 1 ==> any[m] == ups[m]) implies git_views(out@) == git_from_exports(*root, *comp, any, k + 1) by {
                assert(git_from_exports(*root, *comp, any, k as int) == prev);
                assert(any[k as int] == ups[k as int]);
            }
        }
        k += 1;
    }
    proof {
        assert(ups_ok(*root, comp_name@, *comp, ups));
    }
    out
}

/// The effective vcpkg link specifications of a component: its links to
/// simple or detailed dependencies (first occurrence of each name; the package
/// given by a detailed dependency of that name wins over the link's hint;
/// public when exported), then exported simple dependencies it does not link
/// itself whose upstream link gives targets (public).
pub fn build_effective_vcpkg_specs(root: &TritonRoot, comp_name: &str, comp: &TritonComponent) -> (res: Vec<VcpkgSpec>)
    requires
        distinct_keys(root.components@),
    ensures
        exists|ups: Seq<UpRes>| ups_ok(*root, comp_name@, *comp, ups) && vcpkg_views(res@) == spec_vcpkg_specs(*root, comp_name@, *comp, ups),
{
    let mut out: Vec<VcpkgSpec> = Vec::new();
    let mut k: usize = 0;
    while k < comp.link.len()
        invariant
            k <= comp.link@.len(),
            vcpkg_views(out@) == vcpkg_from_links(*root, *comp, k as int),
        decreases comp.link.len() - k,
    {
        let ent = &comp.link[k];
        let (name, pkg_hint) = ent.normalize();
        if !name.as_str().is_empty() && is_vcpkg_dep_named(root, name.as_str()) && !vcpkg_seen(&out, name.as_str()) {
            let public = exports_contains(comp, name.as_str());
            let over = find_pkg_override(root, name.as_str());
            let hint = match over {
                Some(p) => Some(p),
                None => pkg_hint,
            };
            let v = VcpkgSpec { name, pkg_hint: hint, targets: ent.all_targets(), public };
            out.push(v);
            assert(vcpkg_views(out@) =~= vcpkg_from_links(*root, *comp, k as int).push(vcpkg_view(v)));
        }
        k += 1;
    }
    let ghost mut ups: Seq<UpRes> = Seq::empty();
    let mut k: usize = 0;
    while k < comp.exports.len()
        invariant
            distinct_keys(root.components@),
            k <= comp.exports@.len(),
            ups.len() == k,
            forall|m: int| 0 <= m < k ==> #[trigger] ups[m] == spec_upstream(*root, comp_name@, comp.exports@[m]@),
            forall|any: Seq<UpRes>| any.len() >= k && (forall|m: int| 0 <= m < k ==> any[m] == ups[m]) ==> vcpkg_views(out@) == vcpkg_from_exports(*root, *comp, any, k as int),
        decreases comp.exports.len() - k,
    {
        let exp = &comp.exports[k];
        let ghost prev = vcpkg_views(out@);
        if !vcpkg_seen(&out, exp.as_str()) && is_simple_dep_named(root, exp.as_str()) {
            let up = find_upstream_dep_spec(root, comp_name, exp.as_str());
            proof {
                ups = ups.push(up_view(up));
            }
            match up {
                Some((pkg, targets)) => {
                    if targets.len() > 0 {
                        let v = VcpkgSpec { name: exp.clone(), pkg_hint: pkg, targets, public: true };
                        out.push(v);
                        assert(vcpkg_views(out@) =~= prev.push(vcpkg_view(v)));
                    }
                },
                None => {},
            }
        } else {
            proof {
                ups = ups.push(spec_upstream(*root, comp_name@, exp@));
            }
        }
        proof {
            assert forall|any: Seq<UpRes>| any.len() >= k + 1 && (forall|m: int| 0 <= m < k + 1 ==> any[m] == ups[m]) implies vcpkg_views(out@) == vcpkg_from_exports(*root, *comp, any, k + 1) by {
                assert(vcpkg_from_exports(*root, *comp, any, k as int) == prev);
                assert(any[k as int] == ups[k as int]);
            }
        }
        k += 1;
    }
    proof {
        assert(ups_ok(*root, comp_name@, *comp, ups));
    }
    out
}

} // verus!
