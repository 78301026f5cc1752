//! Edits of the project model shared by the commands: adding a component in
//! name order, and dropping link entries or exports by name.

use vstd::prelude::*;
use crate::models::{
    TritonRoot, TritonComponent, LinkEntry, LinkOptions, VendorLibs, entry_name, lex_lt,
    sorted_keys, root_wf, has_component, lemma_lex_irrefl, lemma_lex_trans, lemma_lex_total,
};
use crate::text::{eq_ic, views, chars_of, to_owned, eq_ignore_case, str_eq};

verus! {

// ---------------------------------------------------------------------------
// Name order
// ---------------------------------------------------------------------------

/// `a < b` in the order of the model's component names.
pub fn str_lt(a: &str, b: &str) -> (res: bool)
    ensures
        res == lex_lt(a@, b@),
{
    let x = chars_of(a);
    let y = chars_of(b);
    let mut i: usize = 0;
    assert(a@.skip(0) =~= a@ && b@.skip(0) =~= b@);
    while i < x.len() && i < y.len() && x[i] == y[i]
        invariant
            i <= x@.len(),
            i <= y@.len(),
            x@ == a@,
            y@ == b@,
            lex_lt(a@, b@) == lex_lt(a@.skip(i as int), b@.skip(i as int)),
        decreases x.len() - i,
    {
        assert(a@.skip(i as int).drop_first() =~= a@.skip(i + 1));
        assert(b@.skip(i as int).drop_first() =~= b@.skip(i + 1));
        i += 1;
    }
    if i == x.len() {
        i < y.len()
    } else if i == y.len() {
        false
    } else {
        x[i] < y[i]
    }
}

// ---------------------------------------------------------------------------
// Components
// ---------------------------------------------------------------------------

/// A new component: a library with nothing configured.
pub open spec fn is_default_lib(c: TritonComponent) -> bool {
    &&& c.kind@ == "lib"@
    &&& c.cxx_std is None
    &&& c.c_std is None
    &&& c.link@.len() == 0
    &&& c.system_libs@.len() == 0
    &&& c.defines@.len() == 0
    &&& c.exports@.len() == 0
    &&& c.resources@.len() == 0
    &&& c.include_dirs@.len() == 0
    &&& c.sources@.len() == 0
    &&& c.arch is None
    &&& c.link_options is Unset
    &&& c.vendor_libs is Unset
    &&& c.assets@.len() == 0
}

/// A new library component.
pub fn default_lib_component() -> (res: TritonComponent)
    ensures
        is_default_lib(res),
{
    proof {
        reveal_strlit("lib");
    }
    TritonComponent {
        kind: to_owned("lib"),
        cxx_std: None,
        c_std: None,
        link: Vec::new(),
        system_libs: Vec::new(),
        defines: Vec::new(),
        exports: Vec::new(),
        resources: Vec::new(),
        include_dirs: Vec::new(),
        sources: Vec::new(),
        arch: None,
        link_options: LinkOptions::Unset,
        vendor_libs: VendorLibs::Unset,
        assets: Vec::new(),
    }
}

/// Two roots that differ at most in their components.
pub open spec fn same_but_components(a: TritonRoot, b: TritonRoot) -> bool {
    &&& a.app_name == b.app_name
    &&& a.generator == b.generator
    &&& a.cxx_std == b.cxx_std
    &&& a.c_std == b.c_std
    &&& a.deps == b.deps
    &&& a.scripts == b.scripts
}

/// `after` is `before` with a component of this name added where the name
/// order puts it, unless one was there already.
pub open spec fn with_component(
    before: Seq<(String, TritonComponent)>,
    after: Seq<(String, TritonComponent)>,
    name: Seq<char>,
) -> bool {
    if exists|i: int| 0 <= i < before.len() && before[i].0@ == name {
        after == before
    } else {
        exists|i: int, p: (String, TritonComponent)|
            0 <= i <= before.len() && p.0@ == name && is_default_lib(p.1) && after == before.insert(i, p)
    }
}

/// Adds a library component of this name unless the model has one; the
/// names stay in ascending order.
pub fn ensure_component(root: &mut TritonRoot, name: &str)
    requires
        root_wf(*old(root)),
    ensures
        root_wf(*final(root)),
        same_but_components(*old(root), *final(root)),
        has_component(*final(root), name@),
        with_component(old(root).components@, final(root).components@, name@),
{
    let n = root.components.len();
    let mut i: usize = 0;
    while i < n && str_lt(root.components[i].0.as_str(), name)
        invariant
            i <= n,
            n == root.components@.len(),
            forall|k: int| 0 <= k < i ==> lex_lt(#[trigger] root.components@[k].0@, name@),
        decreases n - i,
    {
        i += 1;
    }
    if i < n && str_eq(root.components[i].0.as_str(), name) {
        return;
    }
    proof {
        let c = root.components@;
        assert forall|k: int| 0 <= k < c.len() implies c[k].0@ != name@ by {
            if k < i {
                lemma_lex_irrefl(name@);
            } else if k > i {
                // name < c[i] < c[k]
                lemma_lex_total(c[i as int].0@, name@);
                lemma_lex_trans(name@, c[i as int].0@, c[k].0@);
                lemma_lex_irrefl(name@);
            } else {
            }
        }
    }
    let ghost old_c = root.components@;
    let comp = default_lib_component();
    let key = to_owned(name);
    let ghost p = (key, comp);
    root.components.insert(i, (key, comp));
    proof {
        let c = root.components@;
        assert(c == old_c.insert(i as int, p));
        assert(!(exists|k: int| 0 <= k < old_c.len() && old_c[k].0@ == name@));
        assert forall|a: int, b: int| 0 <= a < b < c.len() implies lex_lt(c[a].0@, c[b].0@) by {
            if b < i {
                assert(c[a] == old_c[a] && c[b] == old_c[b]);
            } else if a > i {
                assert(c[a] == old_c[a - 1] && c[b] == old_c[b - 1]);
            } else if a == i {
                assert(c[b] == old_c[b - 1]);
                if b - 1 > i {
                    lemma_lex_total(old_c[i as int].0@, name@);
                    lemma_lex_trans(name@, old_c[i as int].0@, old_c[b - 1].0@);
                } else {
                    lemma_lex_total(old_c[i as int].0@, name@);
                }
            } else if b == i {
                assert(c[a] == old_c[a]);
            } else {
                assert(c[a] == old_c[a]);
                assert(c[b] == old_c[b - 1]);
                assert(lex_lt(old_c[a].0@, name@));
                if b - 1 > i {
                    lemma_lex_total(old_c[i as int].0@, name@);
                    lemma_lex_trans(name@, old_c[i as int].0@, old_c[b - 1].0@);
                } else {
                    lemma_lex_total(old_c[i as int].0@, name@);
                }
                lemma_lex_trans(old_c[a].0@, name@, old_c[b - 1].0@);
            }
        }
        assert(c[i as int].0@ == name@);
    }
}

/// `after` is `before` with `(name, c)` added where the name order puts it,
/// unless a component of that name was there already.
pub open spec fn with_given_component(
    before: Seq<(String, TritonComponent)>,
    after: Seq<(String, TritonComponent)>,
    name: Seq<char>,
    c: TritonComponent,
) -> bool {
    if exists|i: int| 0 <= i < before.len() && before[i].0@ == name {
        after == before
    } else {
        exists|i: int, p: (String, TritonComponent)|
            0 <= i <= before.len() && p.0@ == name && p.1 == c && after == before.insert(i, p)
    }
}

/// Adds the given component under this name unless the model has one of
/// that name; the names stay in ascending order.
pub fn ensure_component_with(root: &mut TritonRoot, name: &str, comp: TritonComponent)
    requires
        root_wf(*old(root)),
    ensures
        root_wf(*final(root)),
        same_but_components(*old(root), *final(root)),
        has_component(*final(root), name@),
        with_given_component(old(root).components@, final(root).components@, name@, comp),
{
    let n = root.components.len();
    let mut i: usize = 0;
    while i < n && str_lt(root.components[i].0.as_str(), name)
        invariant
            i <= n,
            n == root.components@.len(),
            forall|k: int| 0 <= k < i ==> lex_lt(#[trigger] root.components@[k].0@, name@),
        decreases n - i,
    {
        i += 1;
    }
    if i < n && str_eq(root.components[i].0.as_str(), name) {
        return;
    }
    proof {
        let c = root.components@;
        assert forall|k: int| 0 <= k < c.len() implies c[k].0@ != name@ by {
            if k < i {
                lemma_lex_irrefl(name@);
            } else if k > i {
                // name < c[i] < c[k]
                lemma_lex_total(c[i as int].0@, name@);
                lemma_lex_trans(name@, c[i as int].0@, c[k].0@);
                lemma_lex_irrefl(name@);
            } else {
            }
        }
    }
    let ghost old_c = root.components@;
    let key = to_owned(name);
    let ghost p = (key, comp);
    root.components.insert(i, (key, comp));
    proof {
        let c = root.components@;
        assert(c == old_c.insert(i as int, p));
        assert(!(exists|k: int| 0 <= k < old_c.len() && old_c[k].0@ == name@));
        assert forall|a: int, b: int| 0 <= a < b < c.len() implies lex_lt(c[a].0@, c[b].0@) by {
            if b < i {
                assert(c[a] == old_c[a] && c[b] == old_c[b]);
            } else if a > i {
                assert(c[a] == old_c[a - 1] && c[b] == old_c[b - 1]);
            } else if a == i {
                assert(c[b] == old_c[b - 1]);
                if b - 1 > i {
                    lemma_lex_total(old_c[i as int].0@, name@);
                    lemma_lex_trans(name@, old_c[i as int].0@, old_c[b - 1].0@);
                } else {
                    lemma_lex_total(old_c[i as int].0@, name@);
                }
            } else if b == i {
                assert(c[a] == old_c[a]);
            } else {
                assert(c[a] == old_c[a]);
                assert(c[b] == old_c[b - 1]);
                assert(lex_lt(old_c[a].0@, name@));
                if b - 1 > i {
                    lemma_lex_total(old_c[i as int].0@, name@);
                    lemma_lex_trans(name@, old_c[i as int].0@, old_c[b - 1].0@);
                } else {
                    lemma_lex_total(old_c[i as int].0@, name@);
                }
                lemma_lex_trans(old_c[a].0@, name@, old_c[b - 1].0@);
            }
        }
        assert(c[i as int].0@ == name@);
    }
}

/// Adding a component keeps the names that were there.
pub proof fn lemma_with_component_keeps(
    a: Seq<(String, TritonComponent)>,
    b: Seq<(String, TritonComponent)>,
    n: Seq<char>,
    m: Seq<char>,
)
    requires
        with_component(a, b, n),
        exists|i: int| 0 <= i < a.len() && a[i].0@ == m,
    ensures
        exists|i: int| 0 <= i < b.len() && b[i].0@ == m,
{
    let i = choose|i: int| 0 <= i < a.len() && a[i].0@ == m;
    if !(exists|j: int| 0 <= j < a.len() && a[j].0@ == n) {
        let (q, p) = choose|q: int, p: (String, TritonComponent)|
            0 <= q <= a.len() && p.0@ == n && is_default_lib(p.1) && b == a.insert(q, p);
        if i < q {
            assert(b[i] == a[i]);
        } else {
            assert(b[i + 1] == a[i]);
        }
    }
}

/// Index of the component with this name.
pub fn component_index(root: &TritonRoot, name: &str) -> (res: Option<usize>)
    ensures
        match res {
            Some(i) => i < root.components@.len() && root.components@[i as int].0@ == name@,
            None => !has_component(*root, name@),
        },
{
    crate::models::find_component(root, name)
}

// ---------------------------------------------------------------------------
// Dropping link entries
// ---------------------------------------------------------------------------

/// A link entry names `n`: exactly, or ignoring ASCII case.
pub open spec fn entry_matches(e: LinkEntry, n: Seq<char>, ci: bool) -> bool {
    if ci {
        eq_ic(entry_name(e), n)
    } else {
        entry_name(e) == n
    }
}

/// The entries that do not name `n`, in order.
pub open spec fn links_without(s: Seq<LinkEntry>, n: Seq<char>, ci: bool) -> Seq<LinkEntry>
    decreases s.len(),
{
    if s.len() == 0 {
        s
    } else if entry_matches(s.last(), n, ci) {
        links_without(s.drop_last(), n, ci)
    } else {
        links_without(s.drop_last(), n, ci).push(s.last())
    }
}

/// No entry left names `n`, and every entry that does not name it stays.
pub proof fn lemma_links_without(s: Seq<LinkEntry>, n: Seq<char>, ci: bool)
    ensures
        forall|i: int| 0 <= i < links_without(s, n, ci).len() ==> !entry_matches(#[trigger] links_without(s, n, ci)[i], n, ci),
        forall|i: int| 0 <= i < s.len() && !entry_matches(#[trigger] s[i], n, ci) ==> links_without(s, n, ci).contains(s[i]),
        links_without(s, n, ci).len() <= s.len(),
        (forall|i: int| 0 <= i < s.len() ==> !entry_matches(#[trigger] s[i], n, ci)) ==> links_without(s, n, ci) == s,
    decreases s.len(),
{
    if s.len() > 0 {
        lemma_links_without(s.drop_last(), n, ci);
        let r = links_without(s.drop_last(), n, ci);
        assert forall|i: int| 0 <= i < s.len() && !entry_matches(#[trigger] s[i], n, ci) implies links_without(s, n, ci).contains(s[i]) by {
            if i < s.len() - 1 {
                assert(s.drop_last()[i] == s[i]);
                assert(r.contains(s[i]));
                if !entry_matches(s.last(), n, ci) {
                    let k = choose|k: int| 0 <= k < r.len() && r[k] == s[i];
                    assert(r.push(s.last())[k] == s[i]);
                }
            } else {
                assert(links_without(s, n, ci)[r.len() as int] == s.last());
            }
        }
        if forall|i: int| 0 <= i < s.len() ==> !entry_matches(#[trigger] s[i], n, ci) {
            assert(forall|i: int| 0 <= i < s.drop_last().len() ==> !entry_matches(#[trigger] s.drop_last()[i], n, ci)) by {
                assert forall|i: int| 0 <= i < s.drop_last().len() implies !entry_matches(#[trigger] s.drop_last()[i], n, ci) by {
                    assert(s.drop_last()[i] == s[i]);
                }
            }
            assert(!entry_matches(s[s.len() - 1], n, ci));
            assert(s.drop_last().push(s.last()) =~= s);
        }
    }
}

/// Whether a link entry names `n` (see `entry_matches`).
pub fn link_matches(e: &LinkEntry, n: &str, ci: bool) -> (res: bool)
    ensures
        res == entry_matches(*e, n@, ci),
{
    let (name, _) = e.normalize();
    if ci {
        eq_ignore_case(name.as_str(), n)
    } else {
        str_eq(name.as_str(), n)
    }
}

/// Drops the link entries that name `n`; tells whether any was dropped.
pub fn drop_links(links: &mut Vec<LinkEntry>, n: &str, ci: bool) -> (dropped: bool)
    ensures
        final(links)@ == links_without(old(links)@, n@, ci),
        dropped == (final(links)@.len() < old(links)@.len()),
{
    let ghost o = links@;
    let n0 = links.len();
    let mut i: usize = 0;
    let mut j: usize = 0;
    assert(o.take(0) =~= Seq::<LinkEntry>::empty());
    assert(o.skip(0) =~= o);
    while j < n0
        invariant
            j <= o.len(),
            n0 == o.len(),
            i <= j,
            links@ == links_without(o.take(j as int), n@, ci) + o.skip(j as int),
            i == links_without(o.take(j as int), n@, ci).len(),
        decreases o.len() - j,
    {
        proof {
            assert(o.take(j + 1).drop_last() =~= o.take(j as int));
            assert(o.take(j + 1).last() == o[j as int]);
            lemma_links_without(o.take(j as int), n@, ci);
        }
        assert(links@[i as int] == o[j as int]);
        let m = link_matches(&links[i], n, ci);
        if m {
            let ghost before = links@;
            links.remove(i);
            assert(links@ =~= links_without(o.take(j + 1), n@, ci) + o.skip(j + 1));
        } else {
            assert(links@ =~= links_without(o.take(j + 1), n@, ci) + o.skip(j + 1));
            i += 1;
        }
        j += 1;
    }
    proof {
        assert(o.take(o.len() as int) =~= o);
        assert(o.skip(o.len() as int) =~= Seq::<LinkEntry>::empty());
        assert(links@ =~= links_without(o, n@, ci));
        lemma_links_without(o, n@, ci);
    }
    links.len() < n0
}

/// The exports other than `n`, in order.
pub open spec fn exports_without(s: Seq<String>, n: Seq<char>) -> Seq<String>
    decreases s.len(),
{
    if s.len() == 0 {
        s
    } else if s.last()@ == n {
        exports_without(s.drop_last(), n)
    } else {
        exports_without(s.drop_last(), n).push(s.last())
    }
}

/// Drops the exports equal to `n`.
pub fn drop_exports(exports: &mut Vec<String>, n: &str)
    ensures
        final(exports)@ == exports_without(old(exports)@, n@),
{
    let ghost o = exports@;
    let n0 = exports.len();
    let mut i: usize = 0;
    let mut j: usize = 0;
    assert(o.take(0) =~= Seq::<String>::empty());
    assert(o.skip(0) =~= o);
    while j < n0
        invariant
            j <= o.len(),
            n0 == o.len(),
            i <= j,
            exports@ == exports_without(o.take(j as int), n@) + o.skip(j as int),
            i == exports_without(o.take(j as int), n@).len(),
        decreases o.len() - j,
    {
        proof {
            assert(o.take(j + 1).drop_last() =~= o.take(j as int));
            assert(o.take(j + 1).last() == o[j as int]);
        }
        assert(exports@[i as int] == o[j as int]);
        if str_eq(exports[i].as_str(), n) {
            exports.remove(i);
            assert(exports@ =~= exports_without(o.take(j + 1), n@) + o.skip(j + 1));
        } else {
            assert(exports@ =~= exports_without(o.take(j + 1), n@) + o.skip(j + 1));
            i += 1;
        }
        j += 1;
    }
    assert(o.take(o.len() as int) =~= o);
    assert(o.skip(o.len() as int) =~= Seq::<String>::empty());
}

} // verus!
