//! The project model: what `triton.json` holds.
//!
//! Maps of the manifest are held as vectors of `(key, value)` pairs in
//! ascending key order with distinct keys, which is the order in which the
//! manifest's maps are walked.

use vstd::prelude::*;
use crate::text::{views, lemma_views_push, lower, trim, trim_str, to_lower, str_eq};

verus! {

/// The root of `triton.json`.
#[derive(Clone, Debug)]
pub struct TritonRoot {
    pub app_name: String,
    pub generator: String,
    pub cxx_std: String,
    pub c_std: Option<String>,
    /// Top-level dependencies (vcpkg or git), in manifest order.
    pub deps: Vec<DepSpec>,
    /// Components by name, in ascending name order.
    pub components: Vec<(String, TritonComponent)>,
    /// Scripts by name.
    pub scripts: Vec<(String, String)>,
}

/// Dependency specification: a bare name, a git repository, or a detailed vcpkg entry.
#[derive(Clone, Debug)]
pub enum DepSpec {
    Simple(String),
    Git(GitDep),
    Detailed(DepDetailed),
}

/// Git repository dependency.
#[derive(Clone, Debug)]
pub struct GitDep {
    pub repo: String,
    pub name: String,
    pub branch: Option<String>,
    /// CMake cache overrides set before `add_subdirectory`.
    pub cmake: Vec<CMakeOverride>,
}

/// vcpkg dependency with filters.
#[derive(Clone, Debug)]
pub struct DepDetailed {
    pub name: String,
    /// Operating systems the dependency applies to (empty: all).
    pub os: Vec<String>,
    /// `find_package` name when it differs from `name`.
    pub package: Option<String>,
    /// vcpkg triplets the dependency applies to (empty: all).
    pub triplet: Vec<String>,
    /// vcpkg features.
    pub features: Vec<String>,
}

/// A structured cache entry or a raw `VAR=VAL`.
#[derive(Clone, Debug)]
pub enum CMakeOverride {
    Entry(CMakeCacheEntry),
    KV(String),
}

/// A CMake cache entry; `typ` is `STRING` when the manifest gives none.
#[derive(Clone, Debug)]
pub struct CMakeCacheEntry {
    pub var: String,
    pub val: String,
    pub typ: String,
}

/// One component of the project.
#[derive(Clone, Debug)]
pub struct TritonComponent {
    /// `"exe"` or `"lib"`.
    pub kind: String,
    pub cxx_std: Option<String>,
    pub c_std: Option<String>,
    pub link: Vec<LinkEntry>,
    pub system_libs: Vec<String>,
    pub defines: Vec<String>,
    pub exports: Vec<String>,
    pub resources: Vec<String>,
    pub include_dirs: Vec<String>,
    pub sources: Vec<String>,
    pub arch: Option<String>,
    pub link_options: LinkOptions,
    pub vendor_libs: VendorLibs,
    /// Paths staged next to the target incrementally.
    pub assets: Vec<String>,
}

/// Linker options: none, one list for all platforms, or lists per platform
/// (in ascending platform-name order).
#[derive(Clone, Debug)]
pub enum LinkOptions {
    Unset,
    All(Vec<String>),
    PerPlatform(Vec<(String, Vec<String>)>),
}

/// Vendor library paths: none, one list for all platforms, or lists per
/// platform (in ascending platform-name order).
#[derive(Clone, Debug)]
pub enum VendorLibs {
    Unset,
    All(Vec<String>),
    PerPlatform(Vec<(String, Vec<String>)>),
}

/// An entry of a component's `link` list.
#[derive(Clone, Debug)]
pub enum LinkEntry {
    Name(String),
    Named {
        name: String,
        package: Option<String>,
        targets: Option<Vec<String>>,
        visibility: Option<String>,
    },
    /// A one-key map `{ name: hint }` (entries in ascending key order).
    Keyed(Vec<(String, LinkHint)>),
}

/// Hints of a map-form link entry.
#[derive(Clone, Debug)]
pub struct LinkHint {
    pub package: Option<String>,
    pub targets: Option<Vec<String>>,
    pub visibility: Option<String>,
}

// ---------------------------------------------------------------------------
// Specifications
// ---------------------------------------------------------------------------

/// View of an optional string.
pub open spec fn opt_view(o: Option<String>) -> Option<Seq<char>> {
    match o {
        Some(s) => Some(s@),
        None => None,
    }
}

/// View of an optional list of strings (absent counts as empty).
pub open spec fn opt_list_view(o: Option<Vec<String>>) -> Seq<Seq<char>> {
    match o {
        Some(v) => views(v@),
        None => Seq::empty(),
    }
}

/// The canonical name of a dependency.
pub open spec fn dep_name(d: DepSpec) -> Seq<char> {
    match d {
        DepSpec::Simple(n) => n@,
        DepSpec::Git(g) => g.name@,
        DepSpec::Detailed(dd) => dd.name@,
    }
}

/// The name a link entry refers to (empty for an empty map).
pub open spec fn entry_name(e: LinkEntry) -> Seq<char> {
    match e {
        LinkEntry::Name(n) => n@,
        LinkEntry::Named { name, .. } => name@,
        LinkEntry::Keyed(m) => if m.len() > 0 { m@[0].0@ } else { Seq::empty() },
    }
}

/// The package hint of a link entry.
pub open spec fn entry_package(e: LinkEntry) -> Option<Seq<char>> {
    match e {
        LinkEntry::Name(_) => None,
        LinkEntry::Named { package, .. } => opt_view(package),
        LinkEntry::Keyed(m) => if m.len() > 0 { opt_view(m@[0].1.package) } else { None },
    }
}

/// The explicit targets of a link entry (empty when none are given).
pub open spec fn entry_targets(e: LinkEntry) -> Seq<Seq<char>> {
    match e {
        LinkEntry::Name(_) => Seq::empty(),
        LinkEntry::Named { targets, .. } => opt_list_view(targets),
        LinkEntry::Keyed(m) => if m.len() > 0 { opt_list_view(m@[0].1.targets) } else { Seq::empty() },
    }
}

/// The visibility given by a link entry, if any.
pub open spec fn entry_visibility(e: LinkEntry) -> Option<Seq<char>> {
    match e {
        LinkEntry::Name(_) => None,
        LinkEntry::Named { visibility, .. } => opt_view(visibility),
        LinkEntry::Keyed(m) => if m.len() > 0 { opt_view(m@[0].1.visibility) } else { None },
    }
}

/// A link entry is public unless its visibility is `private` (trimmed, any case).
pub open spec fn entry_is_public(e: LinkEntry) -> bool {
    match entry_visibility(e) {
        Some(v) => lower(trim(v)) != "private"@,
        None => true,
    }
}

/// The names that a component's link list refers to, in order.
pub open spec fn link_names(links: Seq<LinkEntry>) -> Seq<Seq<char>> {
    links.map_values(|e: LinkEntry| entry_name(e))
}

/// The keys of a list of named pairs.
pub open spec fn keys_of<V>(m: Seq<(String, V)>) -> Seq<Seq<char>> {
    m.map_values(|p: (String, V)| p.0@)
}

/// The index of the pair with key `k`, if any (keys are expected distinct).
pub open spec fn key_index<V>(m: Seq<(String, V)>, k: Seq<char>) -> Option<int> {
    if exists|i: int| 0 <= i < m.len() && m[i].0@ == k {
        Some(choose|i: int| 0 <= i < m.len() && m[i].0@ == k)
    } else {
        None
    }
}

/// Keys are pairwise distinct.
pub open spec fn distinct_keys<V>(m: Seq<(String, V)>) -> bool {
    forall|i: int, j: int| 0 <= i < m.len() && 0 <= j < m.len() && i != j ==> m[i].0@ != m[j].0@
}

/// Lexicographic order on character sequences by code point, which is the
/// order of `String` keys in an ordered map.
pub open spec fn lex_lt(a: Seq<char>, b: Seq<char>) -> bool
    decreases a.len(),
{
    if a.len() == 0 {
        b.len() > 0
    } else if b.len() == 0 {
        false
    } else if a[0] != b[0] {
        a[0] < b[0]
    } else {
        lex_lt(a.drop_first(), b.drop_first())
    }
}

/// Keys are strictly ascending.
pub open spec fn sorted_keys<V>(m: Seq<(String, V)>) -> bool {
    forall|i: int, j: int| 0 <= i < j < m.len() ==> lex_lt(m[i].0@, m[j].0@)
}

/// The model is well formed: component names ascend strictly.
pub open spec fn root_wf(r: TritonRoot) -> bool {
    sorted_keys(r.components@)
}

/// There is a component with this name.
pub open spec fn has_component(r: TritonRoot, n: Seq<char>) -> bool {
    exists|i: int| 0 <= i < r.components@.len() && r.components@[i].0@ == n
}

// ---------------------------------------------------------------------------
// Lemmas on the key order
// ---------------------------------------------------------------------------

/// `lex_lt` is irreflexive.
pub proof fn lemma_lex_irrefl(a: Seq<char>)
    ensures
        !lex_lt(a, a),
    decreases a.len(),
{
    if a.len() > 0 {
        lemma_lex_irrefl(a.drop_first());
    }
}

/// `lex_lt` is transitive.
pub proof fn lemma_lex_trans(a: Seq<char>, b: Seq<char>, c: Seq<char>)
    requires
        lex_lt(a, b),
        lex_lt(b, c),
    ensures
        lex_lt(a, c),
    decreases a.len(),
{
    if a.len() > 0 && b.len() > 0 && c.len() > 0 && a[0] == b[0] && b[0] == c[0] {
        lemma_lex_trans(a.drop_first(), b.drop_first(), c.drop_first());
    }
}

/// `lex_lt` is total on distinct sequences.
pub proof fn lemma_lex_total(a: Seq<char>, b: Seq<char>)
    requires
        a != b,
    ensures
        lex_lt(a, b) || lex_lt(b, a),
    decreases a.len(),
{
    if a.len() > 0 && b.len() > 0 && a[0] == b[0] {
        if a.drop_first() == b.drop_first() {
            assert(a =~= seq![a[0]] + a.drop_first());
            assert(b =~= seq![b[0]] + b.drop_first());
        }
        lemma_lex_total(a.drop_first(), b.drop_first());
    } else if a.len() == 0 && b.len() == 0 {
        assert(a =~= b);
    }
}

/// Ascending keys are distinct.
pub proof fn lemma_sorted_distinct<V>(m: Seq<(String, V)>)
    requires
        sorted_keys(m),
    ensures
        distinct_keys(m),
{
    assert forall|i: int, j: int|
        0 <= i < m.len() && 0 <= j < m.len() && i != j implies m[i].0@ != m[j].0@ by {
        if i < j {
            lemma_lex_irrefl(m[i].0@);
        } else {
            lemma_lex_irrefl(m[j].0@);
        }
    }
}

// ---------------------------------------------------------------------------
// Executable helpers on the model
// ---------------------------------------------------------------------------

/// A copy of an optional string.
pub fn clone_opt(o: &Option<String>) -> (res: Option<String>)
    ensures
        opt_view(res) == opt_view(*o),
{
    match o {
        Some(s) => Some(s.clone()),
        None => None,
    }
}

/// A copy of a list of strings.
pub fn clone_strings(v: &Vec<String>) -> (res: Vec<String>)
    ensures
        views(res@) == views(v@),
{
    let mut res: Vec<String> = Vec::new();
    let mut i: usize = 0;
    while i < v.len()
        invariant
            i <= v.len(),
            views(res@) == views(v@.take(i as int)),
        decreases v.len() - i,
    {
        let c = v[i].clone();
        proof {
            lemma_views_push(res@, c);
            lemma_views_push(v@.take(i as int), v@[i as int]);
            assert(v@.take(i + 1) =~= v@.take(i as int).push(v@[i as int]));
        }
        res.push(c);
        i += 1;
    }
    assert(v@.take(v.len() as int) =~= v@);
    res
}

impl DepSpec {
    /// The canonical name of this dependency.
    pub fn name(&self) -> (res: &String)
        ensures
            res@ == dep_name(*self),
    {
        match self {
            DepSpec::Simple(n) => n,
            DepSpec::Git(g) => &g.name,
            DepSpec::Detailed(d) => &d.name,
        }
    }
}

impl LinkOptions {
    /// No linker options are given.
    pub fn is_none(&self) -> (res: bool)
        ensures
            res == (*self is Unset),
    {
        match self {
            LinkOptions::Unset => true,
            _ => false,
        }
    }
}

impl VendorLibs {
    /// No vendor libraries are given.
    pub fn is_none(&self) -> (res: bool)
        ensures
            res == (*self is Unset),
    {
        match self {
            VendorLibs::Unset => true,
            _ => false,
        }
    }
}

impl LinkEntry {
    /// The name this entry refers to.
    pub fn name_ref(&self) -> (res: &String)
        requires
            !(*self is Keyed) || self->Keyed_0@.len() > 0,
        ensures
            res@ == entry_name(*self),
    {
        match self {
            LinkEntry::Name(n) => n,
            LinkEntry::Named { name, .. } => name,
            LinkEntry::Keyed(m) => &m[0].0,
        }
    }

    /// Canonicalizes into `(name, package hint)`.
    pub fn normalize(&self) -> (res: (String, Option<String>))
        ensures
            res.0@ == entry_name(*self),
            opt_view(res.1) == entry_package(*self),
    {
        match self {
            LinkEntry::Name(n) => (n.clone(), None),
            LinkEntry::Named { name, package, .. } => (name.clone(), clone_opt(package)),
            LinkEntry::Keyed(m) => {
                if m.len() > 0 {
                    (m[0].0.clone(), clone_opt(&m[0].1.package))
                } else {
                    (String::new(), None)
                }
            },
        }
    }

    /// All explicit targets, if provided.
    pub fn all_targets(&self) -> (res: Vec<String>)
        ensures
            views(res@) == entry_targets(*self),
    {
        match self {
            LinkEntry::Named { targets, .. } => match targets {
                Some(t) => clone_strings(t),
                None => Vec::new(),
            },
            LinkEntry::Keyed(m) => {
                if m.len() > 0 {
                    match &m[0].1.targets {
                        Some(t) => clone_strings(t),
                        None => Vec::new(),
                    }
                } else {
                    Vec::new()
                }
            },
            LinkEntry::Name(_) => Vec::new(),
        }
    }

    /// The entry is linked publicly (its visibility is not `private`).
    pub fn is_public(&self) -> (res: bool)
        ensures
            res == entry_is_public(*self),
    {
        let raw: Option<&String> = match self {
            LinkEntry::Name(_) => None,
            LinkEntry::Named { visibility, .. } => visibility.as_ref(),
            LinkEntry::Keyed(m) => {
                if m.len() > 0 {
                    m[0].1.visibility.as_ref()
                } else {
                    None
                }
            },
        };
        match raw {
            Some(v) => {
                let t = trim_str(v.as_str());
                let l = to_lower(t.as_str());
                !str_eq(l.as_str(), "private")
            },
            None => true,
        }
    }
}

/// A component with every field empty, as the manifest reads one that
/// gives nothing but defaults.
pub open spec fn is_empty_component(c: TritonComponent) -> bool {
    &&& c.kind@.len() == 0
    &&& c.cxx_std is None
    &&& c.c_std is None
    &&& c.link@.len() == 0
    &&& c.system_libs@.len() == 0
    &&& c.defines@.len() == 0
    &&& c.exports@.len() == 0
    &&& c.resources@.len() == 0
    &&& c.include_dirs@.len() == 0
    &&& c.sources@.len() == 0
    &&& c.arch is None
    &&& c.link_options is Unset
    &&& c.vendor_libs is Unset
    &&& c.assets@.len() == 0
}

impl Default for TritonComponent {
    fn default() -> (res: Self)
        ensures
            is_empty_component(res),
    {
        TritonComponent {
            kind: String::new(),
            cxx_std: None,
            c_std: None,
            link: Vec::new(),
            system_libs: Vec::new(),
            defines: Vec::new(),
            exports: Vec::new(),
            resources: Vec::new(),
            include_dirs: Vec::new(),
            sources: Vec::new(),
            arch: None,
            link_options: LinkOptions::Unset,
            vendor_libs: VendorLibs::Unset,
            assets: Vec::new(),
        }
    }
}

impl Default for LinkHint {
    fn default() -> (res: Self)
        ensures
            res.package is None,
            res.targets is None,
            res.visibility is None,
    {
        LinkHint { package: None, targets: None, visibility: None }
    }
}

impl Default for GitDep {
    fn default() -> (res: Self)
        ensures
            res.repo@.len() == 0,
            res.name@.len() == 0,
            res.branch is None,
            res.cmake@.len() == 0,
    {
        GitDep { repo: String::new(), name: String::new(), branch: None, cmake: Vec::new() }
    }
}

impl Default for DepDetailed {
    fn default() -> (res: Self)
        ensures
            res.name@.len() == 0,
            res.os@.len() == 0,
            res.package is None,
            res.triplet@.len() == 0,
            res.features@.len() == 0,
    {
        DepDetailed {
            name: String::new(),
            os: Vec::new(),
            package: None,
            triplet: Vec::new(),
            features: Vec::new(),
        }
    }
}

impl Default for TritonRoot {
    fn default() -> (res: Self)
        ensures
            res.app_name@.len() == 0,
            res.generator@.len() == 0,
            res.cxx_std@.len() == 0,
            res.c_std is None,
            res.deps@.len() == 0,
            res.components@.len() == 0,
            res.scripts@.len() == 0,
    {
        TritonRoot {
            app_name: String::new(),
            generator: String::new(),
            cxx_std: String::new(),
            c_std: None,
            deps: Vec::new(),
            components: Vec::new(),
            scripts: Vec::new(),
        }
    }
}

/// Looks up a component by name.
pub fn find_component(r: &TritonRoot, name: &str) -> (res: Option<usize>)
    ensures
        match res {
            Some(i) => i < r.components@.len() && r.components@[i as int].0@ == name@,
            None => !has_component(*r, name@),
        },
{
    let mut i: usize = 0;
    while i < r.components.len()
        invariant
            i <= r.components@.len(),
            forall|k: int| 0 <= k < i ==> r.components@[k].0@ != name@,
        decreases r.components.len() - i,
    {
        if str_eq(r.components[i].0.as_str(), name) {
            return Some(i);
        }
        i += 1;
    }
    None
}

/// A component with this name exists.
pub fn contains_component(r: &TritonRoot, name: &str) -> (res: bool)
    ensures
        res == has_component(*r, name@),
{
    find_component(r, name).is_some()
}

} // verus!
