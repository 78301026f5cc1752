//! `triton run`: which configuration, executable and triplet a run uses.

use vstd::prelude::*;
use crate::models::{TritonRoot, has_component};
use crate::text::{lemma_views_push, lower, views, to_owned, to_lower, str_eq, concat2, opt_view_s, eq_ic, eq_ignore_case};
use crate::commands::build_cmd::{path_join, join_path};
use crate::cmake::platform::{
    HostOs, HostCpu, normalize_target_arch, detect_vcpkg_triplet_for_arch, spec_host_default_arch,
    arch_canon, triplet_for,
};

verus! {

/// `release` for `release` or `rel` in any ASCII case, else `debug`.
pub open spec fn spec_normalize_config(cfg: Seq<char>) -> Seq<char> {
    if lower(cfg) == "release"@ || lower(cfg) == "rel"@ {
        "release"@
    } else {
        "debug"@
    }
}

/// A run uses the release build exactly when `release` or `rel` is asked
/// for, in any ASCII case; every other configuration runs the debug build.
pub proof fn lemma_run_config(cfg: Seq<char>)
    ensures
        (lower(cfg) == "release"@ || lower(cfg) == "rel"@) <==> spec_normalize_config(cfg) == "release"@,
        !(lower(cfg) == "release"@ || lower(cfg) == "rel"@) <==> spec_normalize_config(cfg) == "debug"@,
{
    reveal_strlit("release");
    reveal_strlit("debug");
    assert("release"@ != "debug"@) by {
        assert("release"@[0] != "debug"@[0]);
    }
}

/// The build configuration of a run (see `spec_normalize_config`).
pub fn normalize_config(cfg: &str) -> (res: &'static str)
    ensures
        res@ == spec_normalize_config(cfg@),
        (lower(cfg@) == "release"@ || lower(cfg@) == "rel"@) <==> res@ == "release"@,
{
    proof {
        lemma_run_config(cfg@);
    }
    let l = to_lower(cfg);
    if str_eq(l.as_str(), "release") || str_eq(l.as_str(), "rel") {
        "release"
    } else {
        "debug"
    }
}

/// The file name of a component's executable: with `.exe` on Windows.
pub fn exe_name_for(component: &str, windows: bool) -> (res: String)
    ensures
        res@ == if windows { component@ + ".exe"@ } else { component@ },
{
    if windows {
        concat2(component, ".exe")
    } else {
        to_owned(component)
    }
}

/// The component a run starts: the one named, else the first executable
/// component in name order, else `app`.
pub open spec fn spec_run_component(r: TritonRoot, component: Option<Seq<char>>) -> Seq<char> {
    match component {
        Some(c) => c,
        None => match first_exe(r, 0) {
            Some(i) => r.components@[i].0@,
            None => "app"@,
        },
    }
}

/// Index of the first executable component at or after `i`.
pub open spec fn first_exe(r: TritonRoot, i: int) -> Option<int>
    decreases r.components@.len() - i,
{
    if i < 0 || i >= r.components@.len() {
        None
    } else if r.components@[i].1.kind@ == "exe"@ {
        Some(i)
    } else {
        first_exe(r, i + 1)
    }
}

/// The component a run starts (see `spec_run_component`).
pub fn run_component(root: &TritonRoot, component: Option<&str>) -> (res: String)
    ensures
        res@ == spec_run_component(*root, match component {
            Some(c) => Some(c@),
            None => None,
        }),
{
    match component {
        Some(c) => to_owned(c),
        None => {
            let mut i: usize = 0;
            while i < root.components.len()
                invariant
                    i <= root.components@.len(),
                    first_exe(*root, i as int) == first_exe(*root, 0),
                    component is None,
                decreases root.components.len() - i,
            {
                if str_eq(root.components[i].1.kind.as_str(), "exe") {
                    let n = root.components[i].0.clone();
                    assert(n@ == root.components@[i as int].0@);
                    assert(first_exe(*root, i as int) == Some(i as int));
                    return n;
                }
                i += 1;
            }
            to_owned("app")
        },
    }
}

/// The architecture a component builds for: its own, else the host's.
pub open spec fn component_arch(r: TritonRoot, component: Option<Seq<char>>, os: HostOs, cpu: HostCpu) -> Seq<char> {
    match component {
        Some(c) => if exists|i: int| 0 <= i < r.components@.len() && r.components@[i].0@ == c && r.components@[i].1.arch is Some {
            let i = choose|i: int| 0 <= i < r.components@.len() && r.components@[i].0@ == c && r.components@[i].1.arch is Some;
            r.components@[i].1.arch.unwrap()@
        } else {
            spec_host_default_arch(os, cpu)
        },
        None => spec_host_default_arch(os, cpu),
    }
}

/// The vcpkg triplet of a run of a component: that of its architecture
/// (an unknown one is an error) on the host OS.
pub fn component_triplet(root: &TritonRoot, component: Option<&str>, os: HostOs, cpu: HostCpu) -> (res: Result<String, String>)
    requires
        crate::models::distinct_keys(root.components@),
    ensures
        match res {
            Ok(t) => exists|c: Seq<char>| arch_canon(component_arch(*root, match component {
                Some(c) => Some(c@),
                None => None,
            }, os, cpu)) == Some(c) && triplet_for(os, c) == Some(t@),
            Err(_) => ({
                let a = arch_canon(component_arch(*root, match component {
                    Some(c) => Some(c@),
                    None => None,
                }, os, cpu));
                a is None || (os == HostOs::Macos && a == Some("x86"@))
            }),
        },
{
    let arch: &str = match component {
        Some(name) => match crate::models::find_component(root, name) {
            Some(i) => match &root.components[i].1.arch {
                Some(a) => {
                    proof {
                        let q = choose|q: int| 0 <= q < root.components@.len() && root.components@[q].0@ == name@
                            && root.components@[q].1.arch is Some;
                        assert(q == i as int);
                    }
                    a.as_str()
                },
                None => {
                    proof {
                        if exists|q: int| 0 <= q < root.components@.len() && root.components@[q].0@ == name@
                            && root.components@[q].1.arch is Some {
                            let q = choose|q: int| 0 <= q < root.components@.len() && root.components@[q].0@ == name@
                                && root.components@[q].1.arch is Some;
                            assert(q == i as int);
                        }
                    }
                    crate::cmake::platform::host_default_arch(os, cpu)
                },
            },
            None => crate::cmake::platform::host_default_arch(os, cpu),
        },
        None => crate::cmake::platform::host_default_arch(os, cpu),
    };
    detect_vcpkg_triplet_for_arch(arch, os, cpu)
}

/// The tokens of a script run when the path of `triton run` names a script
/// of the project: the name, then the arguments.
pub fn script_run_tokens(root: &TritonRoot, path: &str, args: &Vec<String>) -> (res: Option<Vec<String>>)
    ensures
        match res {
            Some(t) => (exists|i: int| 0 <= i < root.scripts@.len() && root.scripts@[i].0@ == path@)
                && views(t@) == seq![path@] + views(args@),
            None => !exists|i: int| 0 <= i < root.scripts@.len() && root.scripts@[i].0@ == path@,
        },
{
    let mut i: usize = 0;
    while i < root.scripts.len()
        invariant
            i <= root.scripts@.len(),
            forall|j: int| 0 <= j < i ==> root.scripts@[j].0@ != path@,
        decreases root.scripts.len() - i,
    {
        if str_eq(root.scripts[i].0.as_str(), path) {
            let mut t: Vec<String> = Vec::new();
            crate::text::push_line(&mut t, to_owned(path));
            crate::text::extend_lines(&mut t, args);
            return Some(t);
        }
        i += 1;
    }
    None
}


// ---------------------------------------------------------------------------
// When to build before a run, and where its libraries are found
// ---------------------------------------------------------------------------

/// The extensions (any ASCII case) of the sources whose changes call for a
/// new build before a run.
pub open spec fn spec_is_source_ext(ext: Seq<char>) -> bool {
    let l = lower(ext);
    ||| l == "c"@ ||| l == "cc"@ ||| l == "cxx"@ ||| l == "cpp"@ ||| l == "hpp"@
    ||| l == "hh"@ ||| l == "h"@ ||| l == "hxx"@ ||| l == "inl"@ ||| l == "ixx"@
}

/// Whether a file extension is one of a source (see `spec_is_source_ext`).
pub fn is_source_extension(ext: &str) -> (res: bool)
    ensures
        res == spec_is_source_ext(ext@),
{
    let l = to_lower(ext);
    let s = l.as_str();
    str_eq(s, "c") || str_eq(s, "cc") || str_eq(s, "cxx") || str_eq(s, "cpp") || str_eq(s, "hpp")
        || str_eq(s, "hh") || str_eq(s, "h") || str_eq(s, "hxx") || str_eq(s, "inl") || str_eq(s, "ixx")
}

/// A run builds first unless the build tree is configured, the executable
/// exists, and no input is newer than it. Times are those of the last
/// modification; an executable whose time cannot be read counts as oldest.
pub fn run_needs_build(cache_exists: bool, exe_mtime: Option<u64>, newest_input: u64) -> (res: bool)
    ensures
        res == match exe_mtime {
            Some(t) => !cache_exists || newest_input > t,
            None => true,
        },
{
    match exe_mtime {
        Some(t) => !cache_exists || newest_input > t,
        None => true,
    }
}

/// The directories searched for shared libraries when a program runs: its
/// own, then (for the debug configuration) the debug binaries, then the
/// binaries of the vcpkg installation in the build tree.
pub open spec fn spec_runtime_search_dirs(build_dir: Seq<char>, triplet: Seq<char>, cfg: Seq<char>, exe_dir: Seq<char>) -> Seq<Seq<char>> {
    let inst = path_join(path_join(build_dir, "vcpkg_installed"@), triplet);
    seq![exe_dir] + (if eq_ic(cfg, "debug"@) {
        seq![path_join(path_join(inst, "debug"@), "bin"@)]
    } else {
        Seq::empty()
    }) + seq![path_join(inst, "bin"@)]
}

/// See `spec_runtime_search_dirs`.
pub fn runtime_search_dirs(build_dir: &str, triplet: &str, cfg: &str, exe_dir: &str) -> (res: Vec<String>)
    ensures
        views(res@) == spec_runtime_search_dirs(build_dir@, triplet@, cfg@, exe_dir@),
{
    let a = join_path(build_dir, "vcpkg_installed");
    let inst = join_path(a.as_str(), triplet);
    let mut v: Vec<String> = Vec::new();
    v.push(to_owned(exe_dir));
    if eq_ignore_case(cfg, "debug") {
        let d = join_path(inst.as_str(), "debug");
        v.push(join_path(d.as_str(), "bin"));
    }
    v.push(join_path(inst.as_str(), "bin"));
    let ghost mid = if eq_ic(cfg@, "debug"@) {
        seq![path_join(path_join(inst@, "debug"@), "bin"@)]
    } else {
        Seq::<Seq<char>>::empty()
    };
    assert(views(v@) =~= seq![exe_dir@] + mid + seq![path_join(inst@, "bin"@)]);
    v
}

/// A search path with `dirs` put in front: taken from the last to the first,
/// each one that is not there yet (compared as text) goes first.
pub open spec fn spec_prepend_missing(parts: Seq<Seq<char>>, dirs: Seq<Seq<char>>) -> Seq<Seq<char>>
    decreases dirs.len(),
{
    if dirs.len() == 0 {
        parts
    } else {
        let d = dirs.last();
        spec_prepend_missing(if parts.contains(d) { parts } else { seq![d] + parts }, dirs.drop_last())
    }
}

fn contains_text(v: &Vec<String>, d: &str) -> (res: bool)
    ensures
        res == views(v@).contains(d@),
{
    let mut i: usize = 0;
    while i < v.len()
        invariant
            i <= v@.len(),
            forall|j: int| 0 <= j < i ==> v@[j]@ != d@,
        decreases v.len() - i,
    {
        if str_eq(v[i].as_str(), d) {
            assert(views(v@)[i as int] == d@);
            return true;
        }
        i += 1;
    }
    assert(!views(v@).contains(d@)) by {
        if views(v@).contains(d@) {
            let j = choose|j: int| 0 <= j < views(v@).len() && views(v@)[j] == d@;
            assert(v@[j]@ == d@);
        }
    }
    false
}

/// The search path `parts` with `dirs` put in front (see
/// `spec_prepend_missing`).
pub fn prepend_missing(parts: &Vec<String>, dirs: &Vec<String>) -> (res: Vec<String>)
    ensures
        views(res@) == spec_prepend_missing(views(parts@), views(dirs@)),
{
    let mut cur: Vec<String> = parts.clone();
    assert(views(cur@) =~= views(parts@)) by {
        assert forall|j: int| 0 <= j < cur@.len() implies cur@[j]@ == parts@[j]@ by {
            assert(cur@[j] == parts@[j]);
        }
    }
    let mut k: usize = dirs.len();
    assert(views(dirs@).take(k as int) =~= views(dirs@));
    while k > 0
        invariant
            k <= dirs@.len(),
            spec_prepend_missing(views(cur@), views(dirs@).take(k as int))
                == spec_prepend_missing(views(parts@), views(dirs@)),
        decreases k,
    {
        let d = dirs[k - 1].as_str();
        let ghost t = views(dirs@).take(k as int);
        assert(t.last() == d@);
        assert(t.drop_last() =~= views(dirs@).take(k - 1));
        if !contains_text(&cur, d) {
            let mut next: Vec<String> = Vec::new();
            next.push(to_owned(d));
            let mut i: usize = 0;
            while i < cur.len()
                invariant
                    i <= cur@.len(),
                    views(next@) =~= seq![d@] + views(cur@).take(i as int),
                decreases cur.len() - i,
            {
                let x = to_owned(cur[i].as_str());
                proof {
                    lemma_views_push(next@, x);
                }
                next.push(x);
                assert(views(cur@).take(i + 1) =~= views(cur@).take(i as int).push(cur@[i as int]@));
                i += 1;
            }
            assert(views(cur@).take(cur@.len() as int) =~= views(cur@));
            cur = next;
        }
        k -= 1;
    }
    assert(views(dirs@).take(0) =~= Seq::<Seq<char>>::empty());
    cur
}

} // verus!
