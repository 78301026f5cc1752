//! `triton init` on the model: the seeded root, the application and tests
//! components, and the components found on disk.

use vstd::prelude::*;
use crate::models::{
    TritonRoot, TritonComponent, DepSpec, LinkEntry, LinkOptions, VendorLibs, root_wf, has_component,
};
use crate::text::{eq_ic, views, to_owned, str_eq, eq_ignore_case};
use crate::commands::edit::{ensure_component_with, with_given_component, same_but_components};
use crate::commands::add::ManifestDep;

verus! {

/// `triton init` without a name, or with `.`, initializes the current folder
/// minimally.
pub fn is_minimal_init(name: Option<&str>) -> (res: bool)
    ensures
        res == match name {
            None => true,
            Some(n) => n@ == "."@,
        },
{
    match name {
        None => true,
        Some(n) => str_eq(n, "."),
    }
}

/// A new project model with the given name, generator and C++ standard.
pub fn new_root(app_name: &str, generator: &str, cxx_std: &str) -> (res: TritonRoot)
    ensures
        res.app_name@ == app_name@,
        res.generator@ == generator@,
        res.cxx_std@ == cxx_std@,
        res.c_std is None,
        res.deps@.len() == 0,
        res.components@.len() == 0,
        res.scripts@.len() == 0,
        root_wf(res),
{
    TritonRoot {
        app_name: to_owned(app_name),
        generator: to_owned(generator),
        cxx_std: to_owned(cxx_std),
        c_std: None,
        deps: Vec::new(),
        components: Vec::new(),
        scripts: Vec::new(),
    }
}

/// Fills the name, generator and C++ standard of a loaded model where they
/// are empty.
pub fn seed_root(root: &mut TritonRoot, app_name: &str, generator: &str, cxx_std: &str)
    ensures
        final(root).app_name@ == if old(root).app_name@.len() == 0 { app_name@ } else { old(root).app_name@ },
        final(root).generator@ == if old(root).generator@.len() == 0 { generator@ } else { old(root).generator@ },
        final(root).cxx_std@ == if old(root).cxx_std@.len() == 0 { cxx_std@ } else { old(root).cxx_std@ },
        final(root).c_std == old(root).c_std,
        final(root).deps == old(root).deps,
        final(root).components == old(root).components,
        final(root).scripts == old(root).scripts,
{
    if crate::text::chars_of(root.app_name.as_str()).len() == 0 {
        root.app_name = to_owned(app_name);
    }
    if crate::text::chars_of(root.generator.as_str()).len() == 0 {
        root.generator = to_owned(generator);
    }
    if crate::text::chars_of(root.cxx_std.as_str()).len() == 0 {
        root.cxx_std = to_owned(cxx_std);
    }
}

/// A component of the given kind with nothing else configured, linking the
/// given names.
pub open spec fn is_plain_component(c: TritonComponent, kind: Seq<char>, links: Seq<Seq<char>>) -> bool {
    &&& c.kind@ == kind
    &&& c.cxx_std is None
    &&& c.c_std is None
    &&& c.link@.len() == links.len()
    &&& forall|i: int| 0 <= i < links.len() ==> (#[trigger] c.link@[i] matches LinkEntry::Name(s) && s@ == links[i])
    &&& c.system_libs@.len() == 0
    &&& c.defines@.len() == 0
    &&& c.exports@.len() == 0
    &&& c.resources@.len() == 0
    &&& c.include_dirs@.len() == 0
    &&& c.sources@.len() == 0
    &&& c.arch is None
    &&& c.link_options is Unset
    &&& c.vendor_libs is Unset
    &&& c.assets@.len() == 0
}

fn plain_component(kind: &str, link: Vec<LinkEntry>) -> (res: TritonComponent)
    ensures
        res.kind@ == kind@,
        res.link == link,
        res.cxx_std is None,
        res.c_std is None,
        res.system_libs@.len() == 0,
        res.defines@.len() == 0,
        res.exports@.len() == 0,
        res.resources@.len() == 0,
        res.include_dirs@.len() == 0,
        res.sources@.len() == 0,
        res.arch is None,
        res.link_options is Unset,
        res.vendor_libs is Unset,
        res.assets@.len() == 0,
{
    TritonComponent {
        kind: to_owned(kind),
        cxx_std: None,
        c_std: None,
        link,
        system_libs: Vec::new(),
        defines: Vec::new(),
        exports: Vec::new(),
        resources: Vec::new(),
        include_dirs: Vec::new(),
        sources: Vec::new(),
        arch: None,
        link_options: LinkOptions::Unset,
        vendor_libs: VendorLibs::Unset,
        assets: Vec::new(),
    }
}

/// Adds the application component (an executable) unless one of its name
/// exists.
pub fn add_app_component(root: &mut TritonRoot, app_name: &str)
    requires
        root_wf(*old(root)),
    ensures
        root_wf(*final(root)),
        same_but_components(*old(root), *final(root)),
        exists|c: TritonComponent| is_plain_component(c, "exe"@, Seq::empty())
            && with_given_component(old(root).components@, final(root).components@, app_name@, c),
{
    proof {
        reveal_strlit("exe");
    }
    let c = plain_component("exe", Vec::new());
    let ghost cg = c;
    assert(is_plain_component(cg, "exe"@, Seq::empty()));
    ensure_component_with(root, app_name, c);
    assert(with_given_component(old(root).components@, root.components@, app_name@, cg));
}

/// Records a component found on disk under `components/` unless one of its
/// name exists: `tests` and directories without a `CMakeLists.txt` are
/// skipped, and one with `src/main.cpp` is an executable, else a library.
pub fn add_discovered_component(root: &mut TritonRoot, name: &str, has_cmakelists: bool, has_main: bool)
    requires
        root_wf(*old(root)),
    ensures
        root_wf(*final(root)),
        same_but_components(*old(root), *final(root)),
        (name@ == "tests"@ || !has_cmakelists) ==> final(root).components == old(root).components,
        (name@ != "tests"@ && has_cmakelists) ==> exists|c: TritonComponent|
            is_plain_component(c, if has_main { "exe"@ } else { "lib"@ }, Seq::empty())
            && with_given_component(old(root).components@, final(root).components@, name@, c),
{
    if str_eq(name, "tests") || !has_cmakelists {
        return;
    }
    proof {
        reveal_strlit("exe");
        reveal_strlit("lib");
    }
    let kind = if has_main { "exe" } else { "lib" };
    let c = plain_component(kind, Vec::new());
    ensure_component_with(root, name, c);
}

/// Some plain dependency is `gtest` ignoring ASCII case.
pub open spec fn has_gtest(r: TritonRoot) -> bool {
    exists|i: int| 0 <= i < r.deps@.len() && (#[trigger] r.deps@[i] matches DepSpec::Simple(n) && eq_ic(n@, "gtest"@))
}

/// Adds the tests component (an executable linking `GTest`) unless one
/// exists, and the `gtest` dependency unless a plain one is there.
pub fn add_tests_component(root: &mut TritonRoot)
    requires
        root_wf(*old(root)),
    ensures
        root_wf(*final(root)),
        final(root).app_name == old(root).app_name,
        final(root).scripts == old(root).scripts,
        exists|c: TritonComponent| is_plain_component(c, "exe"@, seq!["GTest"@])
            && with_given_component(old(root).components@, final(root).components@, "tests"@, c),
        has_gtest(*old(root)) ==> final(root).deps == old(root).deps,
        !has_gtest(*old(root)) ==> {
            &&& final(root).deps@.len() == old(root).deps@.len() + 1
            &&& final(root).deps@.take(old(root).deps@.len() as int) == old(root).deps@
            &&& final(root).deps@.last() matches DepSpec::Simple(n) && n@ == "gtest"@
        },
{
    proof {
        reveal_strlit("exe");
        reveal_strlit("GTest");
        reveal_strlit("gtest");
        reveal_strlit("tests");
    }
    let mut link: Vec<LinkEntry> = Vec::new();
    let g = to_owned("GTest");
    let ghost gv = g@;
    link.push(LinkEntry::Name(g));
    assert(link@[0] matches LinkEntry::Name(s) && s@ == "GTest"@);
    let c = plain_component("exe", link);
    assert(is_plain_component(c, "exe"@, seq!["GTest"@]));
    ensure_component_with(root, "tests", c);
    let mut found = false;
    let mut i: usize = 0;
    while i < root.deps.len()
        invariant
            i <= root.deps@.len(),
            found == exists|k: int| 0 <= k < i && (#[trigger] root.deps@[k] matches DepSpec::Simple(n) && eq_ic(n@, "gtest"@)),
        decreases root.deps.len() - i,
    {
        match &root.deps[i] {
            DepSpec::Simple(n) => {
                if eq_ignore_case(n.as_str(), "gtest") {
                    found = true;
                }
            },
            _ => {},
        }
        i += 1;
    }
    if !found {
        let ghost od = root.deps@;
        root.deps.push(DepSpec::Simple(to_owned("gtest")));
        assert(root.deps@.take(od.len() as int) =~= od);
    }
}


/// The vcpkg manifest lacks `gtest`: no dependency given as a bare name is
/// `gtest` ignoring ASCII case.
pub fn lacks_gtest(deps: &Vec<ManifestDep>) -> (res: bool)
    ensures
        res == !exists|i: int| 0 <= i < deps@.len() && !(#[trigger] deps@[i]).object && eq_ic(deps@[i].name@, "gtest"@),
{
    let mut i: usize = 0;
    while i < deps.len()
        invariant
            i <= deps@.len(),
            forall|j: int| 0 <= j < i ==> !(!(#[trigger] deps@[j]).object && eq_ic(deps@[j].name@, "gtest"@)),
        decreases deps.len() - i,
    {
        if !deps[i].object && eq_ignore_case(deps[i].name.as_str(), "gtest") {
            return false;
        }
        i += 1;
    }
    true
}

} // verus!
