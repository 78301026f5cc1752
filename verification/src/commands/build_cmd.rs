//! `triton build`: build configurations and directories, the state of a
//! configured build tree, generators of CMake presets, and the target
//! architectures of components and of their link graphs.

use vstd::prelude::*;
use crate::models::{
    TritonRoot, TritonComponent, entry_name, distinct_keys, find_component, sorted_keys, root_wf,
    lex_lt, lemma_sorted_distinct,
};
use crate::text::{
    lower, trim, starts_with, contains, find_char, views, opt_view_s, to_owned, to_lower, trim_str,
    str_eq, str_contains, str_starts_with, chars_of, string_from_range, find_char_in, concat2,
    is_blank, text_lines, text_lines_of, push_str, join, join_strings, cat3, cat5, cat7,
};
use crate::cmake::platform::{
    HostOs, HostCpu, spec_arch_label, arch_label_for_triplet, detect_vcpkg_triplet, triplet_for,
    spec_host_default_arch, arch_canon, normalize_target_arch, host_default_arch,
};
use crate::cmake::resolution::{step, is_path, reach, reach_from, lemma_path_extend, reachable_components};
use crate::util::validation::{num_false, lemma_num_false_mono, lemma_num_false_set};
use crate::commands::install::{contains_name, listed};

verus! {

// ---------------------------------------------------------------------------
// Configurations and build directories
// ---------------------------------------------------------------------------

/// The build configuration named by `cfg` (trimmed, any ASCII case):
/// `release` for `release`, `rel` or `r`, else `debug`.
pub open spec fn spec_build_config(cfg: Seq<char>) -> Seq<char> {
    let l = lower(trim(cfg));
    if l == "release"@ || l == "rel"@ || l == "r"@ {
        "release"@
    } else {
        "debug"@
    }
}

/// Normalizes a build configuration name to `release` or `debug`.
pub fn normalize_config(cfg: &str) -> (res: &'static str)
    ensures
        res@ == spec_build_config(cfg@),
{
    let t = trim_str(cfg);
    let l = to_lower(t.as_str());
    let s = l.as_str();
    if str_eq(s, "release") || str_eq(s, "rel") || str_eq(s, "r") {
        "release"
    } else {
        "debug"
    }
}

/// The CMake preset of a build configuration.
pub fn preset_for(cfg: &str) -> (res: &'static str)
    ensures
        res@ == spec_build_config(cfg@),
{
    let c = normalize_config(cfg);
    if str_eq(c, "release") {
        "release"
    } else {
        "debug"
    }
}

/// `b` appended to the path `a` as a relative component.
pub open spec fn path_join(a: Seq<char>, b: Seq<char>) -> Seq<char> {
    if a.len() == 0 {
        b
    } else if a.last() == '/' {
        a + b
    } else {
        a + "/"@ + b
    }
}

pub(crate) fn join_path(a: &str, b: &str) -> (res: String)
    ensures
        res@ == path_join(a@, b@),
{
    let v = chars_of(a);
    if v.len() == 0 {
        to_owned(b)
    } else if v[v.len() - 1] == '/' {
        concat2(a, b)
    } else {
        let mut s = concat2(a, "/");
        push_str(&mut s, b);
        proof {
            reveal_strlit("/");
        }
        s
    }
}

/// The build directory of a configuration and triplet:
/// `<project>/build/<arch label>/<cfg>`.
pub open spec fn spec_build_dir(project: Seq<char>, cfg: Seq<char>, triplet: Seq<char>) -> Seq<char> {
    path_join(path_join(path_join(project, "build"@), spec_arch_label(triplet)), cfg)
}

/// The build directory of a configuration and triplet.
pub fn build_dir_for_triplet(project: &str, cfg: &str, triplet: &str) -> (res: String)
    ensures
        res@ == spec_build_dir(project@, cfg@, triplet@),
{
    let b = join_path(project, "build");
    let a = join_path(b.as_str(), arch_label_for_triplet(triplet));
    join_path(a.as_str(), cfg)
}

/// The build directory of a configuration for the host's default triplet.
pub fn build_dir_for(project: &str, cfg: &str, os: HostOs, cpu: HostCpu) -> (res: String)
    ensures
        exists|t: Seq<char>| triplet_for(os, spec_host_default_arch(os, cpu)) == Some(t)
            && res@ == spec_build_dir(project@, cfg@, t),
{
    let t = detect_vcpkg_triplet(os, cpu);
    build_dir_for_triplet(project, cfg, t.as_str())
}

// ---------------------------------------------------------------------------
// State of a build tree
// ---------------------------------------------------------------------------

/// A build tree is configured for a generator: its cache exists, and for
/// Ninja its `build.ninja`, for Unix Makefiles its `Makefile`, exists too.
pub open spec fn spec_configured(cache_exists: bool, ninja_exists: bool, makefile_exists: bool, generator: Seq<char>) -> bool {
    if !cache_exists {
        false
    } else if contains(lower(generator), "ninja"@) {
        ninja_exists
    } else if contains(lower(generator), "unix makefiles"@) {
        makefile_exists
    } else {
        true
    }
}

/// Whether CMake has configured a build tree for `generator`, given whether
/// the tree's `CMakeCache.txt`, `build.ninja` and `Makefile` exist.
pub fn is_configured_for_generator(cache_exists: bool, ninja_exists: bool, makefile_exists: bool, generator: &str) -> (res: bool)
    ensures
        res == spec_configured(cache_exists, ninja_exists, makefile_exists, generator@),
{
    if !cache_exists {
        return false;
    }
    let g = to_lower(generator);
    if str_contains(g.as_str(), "ninja") {
        ninja_exists
    } else if str_contains(g.as_str(), "unix makefiles") {
        makefile_exists
    } else {
        true
    }
}

/// What a cache line gives `key`: for a line `key:TYPE=value`, the text
/// after the first `=`.
pub open spec fn cache_line_value(line: Seq<char>, key: Seq<char>) -> Option<Seq<char>> {
    let prefix = key + ":"@;
    if starts_with(line, prefix) {
        let rest = line.skip(prefix.len() as int);
        match find_char(rest, '=') {
            Some(i) => Some(rest.skip(i + 1)),
            None => None,
        }
    } else {
        None
    }
}

/// The value of `key` on the first line that gives one.
pub open spec fn first_cache_value(lines: Seq<Seq<char>>, key: Seq<char>) -> Option<Seq<char>>
    decreases lines.len(),
{
    if lines.len() == 0 {
        None
    } else {
        match cache_line_value(lines[0], key) {
            Some(v) => Some(v),
            None => first_cache_value(lines.drop_first(), key),
        }
    }
}

/// The cache gives `key` a value that is not blank.
pub open spec fn spec_cache_has_value(text: Seq<char>, key: Seq<char>) -> bool {
    match first_cache_value(text_lines(text), key) {
        Some(v) => trim(v).len() > 0,
        None => false,
    }
}

fn line_value(line: &str, key: &str) -> (res: Option<String>)
    ensures
        opt_view_s(res) == cache_line_value(line@, key@),
{
    let prefix = concat2(key, ":");
    proof {
        reveal_strlit(":");
    }
    if !str_starts_with(line, prefix.as_str()) {
        return None;
    }
    let v = chars_of(line);
    let p = chars_of(prefix.as_str());
    let rest = string_from_range(&v, p.len(), v.len());
    assert(rest@ =~= line@.skip(prefix@.len() as int));
    let r = chars_of(rest.as_str());
    match find_char_in(&r, '=') {
        Some(i) => {
            let val = string_from_range(&r, i + 1, r.len());
            assert(val@ =~= rest@.skip(i + 1));
            Some(val)
        },
        None => None,
    }
}

/// Whether the text of a `CMakeCache.txt` gives `key` a non-blank value.
pub fn cache_has_nonempty_value(text: &str, key: &str) -> (res: bool)
    ensures
        res == spec_cache_has_value(text@, key@),
{
    let lines = text_lines_of(text);
    let ghost ls = views(lines@);
    assert(ls.skip(0) =~= ls);
    let mut i: usize = 0;
    while i < lines.len()
        invariant
            i <= lines@.len(),
            ls == views(lines@),
            ls == text_lines(text@),
            first_cache_value(ls, key@) == first_cache_value(ls.skip(i as int), key@),
        decreases lines.len() - i,
    {
        assert(ls.skip(i as int)[0] == lines@[i as int]@);
        assert(ls.skip(i as int).drop_first() =~= ls.skip(i + 1));
        match line_value(lines[i].as_str(), key) {
            Some(v) => {
                return !is_blank(v.as_str());
            },
            None => {},
        }
        i += 1;
    }
    assert(ls.skip(i as int) =~= Seq::<Seq<char>>::empty());
    false
}

/// A build tree whose cache names a C or C++ compiler.
pub fn build_tree_has_valid_compiler_id(cache_text: &str) -> (res: bool)
    ensures
        res == (spec_cache_has_value(cache_text@, "CMAKE_C_COMPILER_ID"@)
            || spec_cache_has_value(cache_text@, "CMAKE_CXX_COMPILER_ID"@)),
{
    cache_has_nonempty_value(cache_text, "CMAKE_C_COMPILER_ID")
        || cache_has_nonempty_value(cache_text, "CMAKE_CXX_COMPILER_ID")
}

/// Whether the build must be configured again: the tree is not configured
/// for the generator, lacks the requested target, or has a cache without a
/// compiler.
pub fn needs_configure(configured: bool, lacks_target: bool, cache_exists: bool, has_compiler_id: bool) -> (res: bool)
    ensures
        res == (!configured || lacks_target || (cache_exists && !has_compiler_id)),
{
    !configured || lacks_target || (cache_exists && !has_compiler_id)
}

// ---------------------------------------------------------------------------
// Generators of CMake presets
// ---------------------------------------------------------------------------

/// A configure preset: its name, its generator, and the names it inherits
/// from.
#[derive(Debug)]
pub struct Preset {
    pub name: String,
    pub generator: Option<String>,
    pub inherits: Vec<String>,
}

/// Index of the first preset named `name` among the first `k`.
pub open spec fn preset_upto(m: Seq<Preset>, name: Seq<char>, k: int) -> Option<int>
    decreases k,
{
    if k <= 0 {
        None
    } else {
        match preset_upto(m, name, k - 1) {
            Some(i) => Some(i),
            None => if m[k - 1].name@ == name {
                Some(k - 1)
            } else {
                None
            },
        }
    }
}

/// The generator found from preset `start` and the names visited after it,
/// given those visited before: after 33 visits nothing more is looked at;
/// a preset's own generator wins, else its parents are searched in order,
/// skipping those already visited. `fuel` bounds the depth.
pub open spec fn resolve_gen(m: Seq<Preset>, start: Seq<char>, guard: Seq<Seq<char>>, fuel: nat) -> (Option<Seq<char>>, Seq<Seq<char>>)
    decreases fuel, 0nat, 0nat,
{
    if guard.len() > 32 {
        (None, guard)
    } else if fuel == 0 {
        (None, guard.push(start))
    } else {
        let g2 = guard.push(start);
        match preset_upto(m, start, m.len() as int) {
            None => (None, g2),
            Some(i) => match m[i].generator {
                Some(g) => (Some(g@), g2),
                None => resolve_parents(m, views(m[i].inherits@), 0, g2, (fuel - 1) as nat),
            },
        }
    }
}

/// The search of the parents from index `i` on.
pub open spec fn resolve_parents(m: Seq<Preset>, items: Seq<Seq<char>>, i: int, guard: Seq<Seq<char>>, fuel: nat) -> (Option<Seq<char>>, Seq<Seq<char>>)
    decreases fuel, 1nat, (if i < items.len() { items.len() - i } else { 0 }) as nat,
{
    if i < 0 || i >= items.len() {
        (None, guard)
    } else if guard.contains(items[i]) {
        resolve_parents(m, items, i + 1, guard, fuel)
    } else {
        let r = resolve_gen(m, items[i], guard, fuel);
        if r.0 is Some {
            r
        } else {
            resolve_parents(m, items, i + 1, r.1, fuel)
        }
    }
}

fn preset_index(m: &Vec<Preset>, name: &str) -> (res: Option<usize>)
    ensures
        match res {
            Some(i) => i < m@.len() && preset_upto(m@, name@, m@.len() as int) == Some(i as int),
            None => preset_upto(m@, name@, m@.len() as int) is None,
        },
{
    let mut i: usize = 0;
    while i < m.len()
        invariant
            i <= m@.len(),
            preset_upto(m@, name@, i as int) is None,
        decreases m.len() - i,
    {
        if str_eq(m[i].name.as_str(), name) {
            proof {
                assert(preset_upto(m@, name@, i + 1) == Some(i as int));
                lemma_preset_upto_stable(m@, name@, i + 1, m@.len() as int);
            }
            return Some(i);
        }
        i += 1;
    }
    None
}

proof fn lemma_preset_upto_stable(m: Seq<Preset>, name: Seq<char>, a: int, b: int)
    requires
        0 <= a <= b,
        preset_upto(m, name, a) is Some,
    ensures
        preset_upto(m, name, b) == preset_upto(m, name, a),
    decreases b - a,
{
    if b > a {
        lemma_preset_upto_stable(m, name, a, b - 1);
    }
}

fn resolve_from(m: &Vec<Preset>, start: &str, guard: &mut Vec<String>, Ghost(fuel): Ghost<nat>) -> (res: Option<String>)
    requires
        old(guard)@.len() <= 32 ==> old(guard)@.len() + fuel >= 33,
    ensures
        (opt_view_s(res), views(final(guard)@)) == resolve_gen(m@, start@, views(old(guard)@), fuel),
        final(guard)@.len() >= old(guard)@.len(),
    decreases fuel,
{
    if guard.len() > 32 {
        return None;
    }
    let ghost g0 = views(guard@);
    guard.push(to_owned(start));
    let ghost g2 = views(guard@);
    assert(g2 =~= g0.push(start@));
    match preset_index(m, start) {
        None => None,
        Some(i) => match &m[i].generator {
            Some(g) => Some(g.clone()),
            None => {
                let items = &m[i].inherits;
                let ghost f1: nat = (fuel - 1) as nat;
                assert(resolve_gen(m@, start@, g0, fuel) == resolve_parents(m@, views(items@), 0, g2, f1));
                let mut k: usize = 0;
                while k < items.len()
                    invariant
                        k <= items@.len(),
                        fuel >= 1,
                        f1 == fuel - 1,
                        g0 == views(old(guard)@),
                        guard@.len() >= g0.len() + 1,
                        g0.len() + fuel >= 33,
                        resolve_gen(m@, start@, g0, fuel) == resolve_parents(m@, views(items@), k as int, views(guard@), f1),
                    decreases items.len() - k,
                {
                    let ghost gk = views(guard@);
                    assert(views(items@)[k as int] == items@[k as int]@);
                    if !contains_name(guard, items[k].as_str()) {
                        let r = resolve_from(m, items[k].as_str(), guard, Ghost(f1));
                        assert(resolve_parents(m@, views(items@), k as int, gk, f1) == (if resolve_gen(m@, items@[k as int]@, gk, f1).0 is Some {
                            resolve_gen(m@, items@[k as int]@, gk, f1)
                        } else {
                            resolve_parents(m@, views(items@), k + 1, resolve_gen(m@, items@[k as int]@, gk, f1).1, f1)
                        }));
                        if r.is_some() {
                            return r;
                        }
                    } else {
                        assert(resolve_parents(m@, views(items@), k as int, gk, f1) == resolve_parents(m@, views(items@), k + 1, gk, f1));
                    }
                    k += 1;
                }
                None
            },
        },
    }
}

/// The generator of a configure preset: its own, else the first found
/// among its parents, depth first; `guard` lists the presets already
/// visited and gets those visited now.
pub fn resolve_generator_for_preset(m: &Vec<Preset>, start: &str, guard: &mut Vec<String>) -> (res: Option<String>)
    ensures
        (opt_view_s(res), views(final(guard)@)) == resolve_gen(m@, start@, views(old(guard)@),
            (if old(guard)@.len() <= 33 { 33 - old(guard)@.len() } else { 0int }) as nat),
{
    let ghost f: nat = (if guard@.len() <= 33 { 33 - guard@.len() } else { 0int }) as nat;
    resolve_from(m, start, guard, Ghost(f))
}

/// The generator a build uses: that of its preset, else that of the
/// `default` preset (searched with what the first search visited), else
/// Ninja.
pub open spec fn spec_effective_generator(m: Seq<Preset>, preset: Seq<char>) -> Seq<char> {
    let first = resolve_gen(m, preset, Seq::empty(), 33);
    match first.0 {
        Some(g) => g,
        None => {
            let f = (if first.1.len() <= 33 { 33 - first.1.len() } else { 0int }) as nat;
            match resolve_gen(m, "default"@, first.1, f).0 {
                Some(g) => g,
                None => "Ninja"@,
            }
        },
    }
}

/// The generator a build uses (see `spec_effective_generator`).
pub fn effective_generator(m: &Vec<Preset>, preset: &str) -> (res: String)
    ensures
        res@ == spec_effective_generator(m@, preset@),
{
    let mut guard: Vec<String> = Vec::new();
    assert(views(guard@) =~= Seq::<Seq<char>>::empty());
    match resolve_generator_for_preset(m, preset, &mut guard) {
        Some(g) => g,
        None => match resolve_generator_for_preset(m, "default", &mut guard) {
            Some(g) => g,
            None => {
                proof {
                    reveal_strlit("Ninja");
                }
                to_owned("Ninja")
            },
        },
    }
}

// ---------------------------------------------------------------------------
// Target architectures
// ---------------------------------------------------------------------------

/// Why a build cannot go ahead.
#[derive(Debug)]
pub enum BuildError {
    /// An architecture name that is not x86, x64 or arm64 (the message).
    UnsupportedArch(String),
    /// No component of this name.
    MissingComponent(String),
    /// The component declares one architecture and the build asks another.
    ArchMismatch { component: String, declared: String, requested: String },
    /// A component reached through `chain` declares another architecture
    /// than the build's.
    ArchConflict { component: String, declared: String, chain: Vec<String>, expected: String },
}

/// The message that rejects an architecture name.
pub open spec fn unsupported_arch_message(a: Seq<char>) -> Seq<char> {
    "Unsupported target architecture '"@ + lower(trim(a)) + "'. Allowed values: x86, x64, arm64."@
}

/// The text of a build error.
pub open spec fn build_error_message(e: BuildError) -> Seq<char> {
    match e {
        BuildError::UnsupportedArch(m) => m@,
        BuildError::MissingComponent(n) => "component '"@ + n@ + "' was not found in triton.json/components"@,
        BuildError::ArchMismatch { component, declared, requested } => "component '"@ + component@ + "' targets "@
            + declared@ + " but the requested build architecture is "@ + requested@
            + ". Triton cannot mix x86/x64/arm64 in one component build."@,
        BuildError::ArchConflict { component, declared, chain, expected } => "component architecture conflict: '"@
            + component@ + "' requires "@ + declared@ + " but dependency chain '"@ + join(views(chain@), " -> "@)
            + "' resolves inside a "@ + expected@ + " build. Triton cannot link x86 to x64 or x64 to x86."@,
    }
}

impl BuildError {
    /// The text of the error.
    pub fn message(&self) -> (res: String)
        ensures
            res@ == build_error_message(*self),
    {
        match self {
            BuildError::UnsupportedArch(m) => m.clone(),
            BuildError::MissingComponent(n) => cat3("component '", n.as_str(), "' was not found in triton.json/components"),
            BuildError::ArchMismatch { component, declared, requested } => {
                let mut r = cat5("component '", component.as_str(), "' targets ", declared.as_str(),
                    " but the requested build architecture is ");
                push_str(&mut r, requested.as_str());
                push_str(&mut r, ". Triton cannot mix x86/x64/arm64 in one component build.");
                r
            },
            BuildError::ArchConflict { component, declared, chain, expected } => {
                let c = join_strings(chain, " -> ");
                let mut r = cat7("component architecture conflict: '", component.as_str(), "' requires ",
                    declared.as_str(), " but dependency chain '", c.as_str(), "' resolves inside a ");
                push_str(&mut r, expected.as_str());
                push_str(&mut r, " build. Triton cannot link x86 to x64 or x64 to x86.");
                r
            },
        }
    }
}

/// A component declares an architecture that is not blank and not known.
pub open spec fn arch_invalid(c: TritonComponent) -> bool {
    c.arch matches Some(a) && trim(a@).len() > 0 && arch_canon(a@) is None
}

/// The architecture a component declares: none when absent or blank.
pub open spec fn spec_declared_arch(c: TritonComponent) -> Option<Seq<char>> {
    match c.arch {
        Some(a) => if trim(a@).len() > 0 {
            arch_canon(a@)
        } else {
            None
        },
        None => None,
    }
}

/// A component may be built for `arch`: what it declares is known and, when
/// given, is `arch`.
pub open spec fn arch_fits(c: TritonComponent, arch: Seq<char>) -> bool {
    &&& !arch_invalid(c)
    &&& (spec_declared_arch(c) is None || spec_declared_arch(c) == Some(arch))
}

/// The architecture a component builds for: its own, else the host's.
pub open spec fn spec_effective_arch(c: TritonComponent, os: HostOs, cpu: HostCpu) -> Seq<char> {
    match spec_declared_arch(c) {
        Some(a) => a,
        None => spec_host_default_arch(os, cpu),
    }
}

fn canonical_arch(a: &str) -> (res: Result<&'static str, String>)
    ensures
        match res {
            Ok(c) => arch_canon(a@) == Some(c@),
            Err(m) => arch_canon(a@) is None && m@ == unsupported_arch_message(a@),
        },
{
    normalize_target_arch(Some(a), HostOs::Linux, HostCpu::X86_64)
}

/// The architecture a component declares, if any.
pub fn component_declared_arch(comp: &TritonComponent) -> (res: Result<Option<&'static str>, String>)
    ensures
        match res {
            Ok(o) => !arch_invalid(*comp) && match o {
                Some(c) => spec_declared_arch(*comp) == Some(c@),
                None => spec_declared_arch(*comp) is None,
            },
            Err(m) => arch_invalid(*comp) && m@ == unsupported_arch_message(comp.arch->0@),
        },
{
    match &comp.arch {
        Some(a) => {
            if is_blank(a.as_str()) {
                Ok(None)
            } else {
                match canonical_arch(a.as_str()) {
                    Ok(c) => Ok(Some(c)),
                    Err(m) => Err(m),
                }
            }
        },
        None => Ok(None),
    }
}

/// The architecture a component builds for.
pub fn effective_component_arch(comp: &TritonComponent, os: HostOs, cpu: HostCpu) -> (res: Result<&'static str, String>)
    ensures
        match res {
            Ok(a) => !arch_invalid(*comp) && a@ == spec_effective_arch(*comp, os, cpu),
            Err(m) => arch_invalid(*comp) && m@ == unsupported_arch_message(comp.arch->0@),
        },
{
    match component_declared_arch(comp) {
        Ok(Some(a)) => Ok(a),
        Ok(None) => Ok(host_default_arch(os, cpu)),
        Err(m) => Err(m),
    }
}

/// The index of the component named `n`, if any.
pub open spec fn index_named(r: TritonRoot, n: Seq<char>) -> Option<int> {
    if exists|i: int| 0 <= i < r.components@.len() && r.components@[i].0@ == n {
        Some(choose|i: int| 0 <= i < r.components@.len() && r.components@[i].0@ == n)
    } else {
        None
    }
}

/// The architecture of a build of `component` (or of everything) asked
/// for `cli` (the requested architecture, if any): the request, else what
/// the component declares, else the host's.
pub fn resolve_build_arch(root: &TritonRoot, component: Option<&str>, cli_arch: Option<&str>, os: HostOs, cpu: HostCpu) -> (res: Result<&'static str, BuildError>)
    requires
        distinct_keys(root.components@),
    ensures
        ({
            let cli_bad = cli_arch matches Some(a) && arch_canon(a@) is None;
            match res {
                Ok(a) => !cli_bad && match component {
                    Some(n) => index_named(*root, n@) matches Some(i) && ({
                        let c = root.components@[i].1;
                        &&& !arch_invalid(c)
                        &&& match cli_arch {
                            Some(ca) => spec_declared_arch(c) is None || spec_declared_arch(c) == arch_canon(ca@),
                            None => true,
                        }
                        &&& a@ == match cli_arch {
                            Some(ca) => arch_canon(ca@)->0,
                            None => spec_effective_arch(c, os, cpu),
                        }
                    }),
                    None => a@ == match cli_arch {
                        Some(ca) => arch_canon(ca@)->0,
                        None => spec_host_default_arch(os, cpu),
                    },
                },
                Err(BuildError::UnsupportedArch(m)) => (cli_bad && m@ == unsupported_arch_message(cli_arch->0@)) || ({
                    &&& !cli_bad
                    &&& component matches Some(n)
                    &&& index_named(*root, n@) matches Some(i)
                    &&& arch_invalid(root.components@[i].1)
                    &&& m@ == unsupported_arch_message(root.components@[i].1.arch->0@)
                }),
                Err(BuildError::MissingComponent(n)) => ({
                    &&& !cli_bad
                    &&& component matches Some(c)
                    &&& c@ == n@
                    &&& index_named(*root, n@) is None
                }),
                Err(BuildError::ArchMismatch { component: cn, declared, requested }) => ({
                    &&& !cli_bad
                    &&& component matches Some(n)
                    &&& cn@ == n@
                    &&& index_named(*root, n@) matches Some(i)
                    &&& !arch_invalid(root.components@[i].1)
                    &&& spec_declared_arch(root.components@[i].1) == Some(declared@)
                    &&& arch_canon(cli_arch->0@) == Some(requested@)
                    &&& declared@ != requested@
                }),
                Err(BuildError::ArchConflict { .. }) => false,
            }
        }),
{
    let cli: Option<&'static str> = match cli_arch {
        Some(a) => match canonical_arch(a) {
            Ok(c) => Some(c),
            Err(m) => {
                return Err(BuildError::UnsupportedArch(m));
            },
        },
        None => None,
    };
    match component {
        Some(name) => {
            let i = match find_component(root, name) {
                Some(i) => i,
                None => {
                    proof {
                        assert(index_named(*root, name@) is None);
                    }
                    return Err(BuildError::MissingComponent(to_owned(name)));
                },
            };
            proof {
                assert(index_named(*root, name@) == Some(i as int));
            }
            let declared = match component_declared_arch(&root.components[i].1) {
                Ok(d) => d,
                Err(m) => {
                    return Err(BuildError::UnsupportedArch(m));
                },
            };
            match (cli, declared) {
                (Some(c), Some(d)) => {
                    if !str_eq(c, d) {
                        return Err(BuildError::ArchMismatch {
                            component: to_owned(name),
                            declared: to_owned(d),
                            requested: to_owned(c),
                        });
                    }
                    Ok(c)
                },
                (Some(c), None) => Ok(c),
                (None, Some(d)) => Ok(d),
                (None, None) => Ok(host_default_arch(os, cpu)),
            }
        },
        None => match cli {
            Some(c) => Ok(c),
            None => Ok(host_default_arch(os, cpu)),
        },
    }
}

/// Every component reachable from component `start` fits `arch`.
pub open spec fn graph_fits(r: TritonRoot, start: int, arch: Seq<char>) -> bool {
    forall|j: int| #[trigger] reach(r, start, j) ==> arch_fits(r.components@[j].1, arch)
}

/// A sequence of component indices as integers.
pub open spec fn ipath(p: Seq<usize>) -> Seq<int> {
    p.map_values(|i: usize| i as int)
}

/// The names of the components along a path.
pub open spec fn names_along(r: TritonRoot, p: Seq<int>) -> Seq<Seq<char>> {
    p.map_values(|i: int| r.components@[i].0@)
}

/// What a failed check of the graph from `start` reports: an unknown
/// architecture of a component reachable from it, or a reachable component
/// declaring another architecture together with a path of links to it.
pub open spec fn arch_error_ok(r: TritonRoot, start: int, arch: Seq<char>, e: BuildError) -> bool {
    match e {
        BuildError::UnsupportedArch(m) => exists|j: int| #[trigger] reach(r, start, j) && arch_invalid(r.components@[j].1)
            && m@ == unsupported_arch_message(r.components@[j].1.arch->0@),
        BuildError::ArchConflict { component, declared, chain, expected } => expected@ == arch && exists|p: Seq<int>, j: int| {
            &&& #[trigger] is_path(r, p, start, j)
            &&& component@ == r.components@[j].0@
            &&& !arch_invalid(r.components@[j].1)
            &&& spec_declared_arch(r.components@[j].1) == Some(declared@)
            &&& declared@ != arch
            &&& views(chain@) == names_along(r, p)
        },
        _ => false,
    }
}

proof fn lemma_closed_reach(r: TritonRoot, s: Seq<bool>, p: Seq<int>, a: int, b: int)
    requires
        s.len() == r.components@.len(),
        0 <= a < s.len(),
        is_path(r, p, a, b),
        s[a],
        forall|x: int, y: int| 0 <= x < s.len() && s[x] && #[trigger] step(r, x, y) ==> s[y],
    ensures
        0 <= b < s.len(),
        s[b],
    decreases p.len(),
{
    if p.len() > 1 {
        let q = p.drop_last();
        assert forall|k: int| 0 <= k < q.len() - 1 implies step(r, #[trigger] q[k], q[k + 1]) by {
            assert(q[k] == p[k] && q[k + 1] == p[k + 1]);
        }
        lemma_closed_reach(r, s, q, a, q[q.len() - 1]);
        assert(step(r, p[p.len() - 2], p[p.len() - 1]));
    }
}

fn chain_to(r: &TritonRoot, stack: &Vec<usize>, cur: usize) -> (res: Vec<String>)
    requires
        cur < r.components@.len(),
        forall|k: int| 0 <= k < stack@.len() ==> stack@[k] < r.components@.len(),
    ensures
        views(res@) == names_along(*r, ipath(stack@.push(cur))),
{
    let mut out: Vec<String> = Vec::new();
    let mut k: usize = 0;
    while k < stack.len()
        invariant
            k <= stack@.len(),
            forall|q: int| 0 <= q < stack@.len() ==> stack@[q] < r.components@.len(),
            views(out@) == names_along(*r, ipath(stack@.take(k as int))),
        decreases stack.len() - k,
    {
        let ghost before = out@;
        let nm = r.components[stack[k]].0.clone();
        out.push(nm);
        proof {
            crate::text::lemma_views_push(before, nm);
            let q = ipath(stack@.take(k as int));
            assert(ipath(stack@.take(k + 1)) =~= q.push(stack@[k as int] as int));
            assert(names_along(*r, q.push(stack@[k as int] as int)) =~= names_along(*r, q).push(r.components@[stack@[k as int] as int].0@));
        }
        k += 1;
    }
    let ghost before = out@;
    let nm = r.components[cur].0.clone();
    out.push(nm);
    proof {
        crate::text::lemma_views_push(before, nm);
        assert(stack@.take(stack@.len() as int) =~= stack@);
        let q = ipath(stack@);
        assert(ipath(stack@.push(cur)) =~= q.push(cur as int));
        assert(names_along(*r, q.push(cur as int)) =~= names_along(*r, q).push(r.components@[cur as int].0@));
    }
    out
}

/// `b` marks at least what `a` marks.
#[verifier::opaque]
pub open spec fn grows(a: Seq<bool>, b: Seq<bool>) -> bool {
    a.len() == b.len() && forall|x: int| 0 <= x < a.len() && a[x] ==> b[x]
}

/// Every component that `b` marks and `a` does not fits `arch`.
#[verifier::opaque]
pub open spec fn fresh_fit(r: TritonRoot, a: Seq<bool>, b: Seq<bool>, arch: Seq<char>) -> bool {
    forall|x: int| 0 <= x < a.len() && b[x] && !a[x] ==> arch_fits(r.components@[x].1, arch)
}

/// Every component that `b` marks and `a` does not has its successors marked in `b`.
#[verifier::opaque]
pub open spec fn fresh_closed(r: TritonRoot, a: Seq<bool>, b: Seq<bool>) -> bool {
    forall|x: int, y: int| 0 <= x < a.len() && b[x] && !a[x] && #[trigger] step(r, x, y) ==> b[y]
}

/// The components named by the first `k` links of component `c` are marked.
#[verifier::opaque]
pub open spec fn links_marked(r: TritonRoot, c: int, k: int, s: Seq<bool>) -> bool {
    forall|m: int, y: int| #![trigger r.components@[c].1.link@[m], r.components@[y]]
        0 <= m < k && 0 <= y < r.components@.len() && entry_name(r.components@[c].1.link@[m]) == r.components@[y].0@ ==> s[y]
}

proof fn lemma_grows_refl(a: Seq<bool>)
    ensures
        grows(a, a),
{
    reveal(grows);
}

proof fn lemma_grows_trans(a: Seq<bool>, b: Seq<bool>, c: Seq<bool>)
    requires
        grows(a, b),
        grows(b, c),
    ensures
        grows(a, c),
{
    reveal(grows);
}

proof fn lemma_trans(r: TritonRoot, a: Seq<bool>, b: Seq<bool>, c: Seq<bool>, arch: Seq<char>)
    requires
        a.len() == r.components@.len(),
        grows(a, b),
        grows(b, c),
        fresh_fit(r, a, b, arch),
        fresh_fit(r, b, c, arch),
        fresh_closed(r, a, b),
        fresh_closed(r, b, c),
    ensures
        grows(a, c),
        fresh_fit(r, a, c, arch),
        fresh_closed(r, a, c),
{
    reveal(grows);
    reveal(fresh_fit);
    reveal(fresh_closed);
    assert forall|x: int, y: int| 0 <= x < a.len() && c[x] && !a[x] && #[trigger] step(r, x, y) implies c[y] by {
        if b[x] {
            assert(b[y]);
        }
    }
}

proof fn lemma_links_step(r: TritonRoot, c: int, k: int, sb: Seq<bool>, s: Seq<bool>, j: Option<int>)
    requires
        distinct_keys(r.components@),
        0 <= c < r.components@.len(),
        0 <= k < r.components@[c].1.link@.len(),
        sb.len() == r.components@.len(),
        links_marked(r, c, k, sb),
        grows(sb, s),
        match j {
            Some(j) => 0 <= j < r.components@.len() && s[j] && r.components@[j].0@ == entry_name(r.components@[c].1.link@[k]),
            None => forall|y: int| 0 <= y < r.components@.len() ==> r.components@[y].0@ != entry_name(r.components@[c].1.link@[k]),
        },
    ensures
        links_marked(r, c, k + 1, s),
{
    reveal(links_marked);
    reveal(grows);
    assert forall|m: int, y: int| #![trigger r.components@[c].1.link@[m], r.components@[y]]
        0 <= m < k + 1 && 0 <= y < r.components@.len() && entry_name(r.components@[c].1.link@[m]) == r.components@[y].0@ implies s[y] by {
        if m == k {
            match j {
                Some(j) => {
                    assert(r.components@[y].0@ == r.components@[j].0@);
                },
                None => {},
            }
        } else {
            assert(sb[y]);
        }
    }
}

proof fn lemma_start(r: TritonRoot, s0: Seq<bool>, cur: int, arch: Seq<char>)
    requires
        0 <= cur < s0.len(),
        !s0[cur],
    ensures
        grows(s0, s0.update(cur, true)),
        links_marked(r, cur, 0, s0.update(cur, true)),
        grows(s0.update(cur, true), s0.update(cur, true)),
        fresh_fit(r, s0.update(cur, true), s0.update(cur, true), arch),
        fresh_closed(r, s0.update(cur, true), s0.update(cur, true)),
{
    reveal(grows);
    reveal(links_marked);
    reveal(fresh_fit);
    reveal(fresh_closed);
}

proof fn lemma_finish(r: TritonRoot, s0: Seq<bool>, s: Seq<bool>, cur: int, arch: Seq<char>)
    requires
        0 <= cur < s0.len(),
        s0.len() == r.components@.len(),
        !s0[cur],
        arch_fits(r.components@[cur].1, arch),
        grows(s0.update(cur, true), s),
        fresh_fit(r, s0.update(cur, true), s, arch),
        fresh_closed(r, s0.update(cur, true), s),
        links_marked(r, cur, r.components@[cur].1.link@.len() as int, s),
    ensures
        grows(s0, s),
        s[cur],
        fresh_fit(r, s0, s, arch),
        fresh_closed(r, s0, s),
{
    reveal(grows);
    reveal(fresh_fit);
    reveal(fresh_closed);
    reveal(links_marked);
    let s1 = s0.update(cur, true);
    assert(s1[cur]);
    assert forall|x: int| 0 <= x < s0.len() && s0[x] implies s[x] by {
        assert(s1[x]);
    }
    assert forall|x: int, y: int| 0 <= x < s0.len() && s[x] && !s0[x] && #[trigger] step(r, x, y) implies s[y] by {
        if x == cur {
            let m = choose|m: int| 0 <= m < r.components@[cur].1.link@.len() && entry_name(r.components@[cur].1.link@[m]) == r.components@[y].0@;
            assert(entry_name(r.components@[cur].1.link@[m]) == r.components@[y].0@);
        }
    }
}

proof fn lemma_grows_num_false(a: Seq<bool>, b: Seq<bool>)
    requires
        grows(a, b),
    ensures
        num_false(b) <= num_false(a),
{
    reveal(grows);
    lemma_num_false_mono(a, b);
}

#[verifier::rlimit(40)]
fn arch_visit(
    r: &TritonRoot,
    Ghost(start): Ghost<int>,
    cur: usize,
    arch: &str,
    seen: &mut Vec<bool>,
    stack: &mut Vec<usize>,
) -> (res: Result<(), BuildError>)
    requires
        distinct_keys(r.components@),
        old(seen)@.len() == r.components@.len(),
        cur < r.components@.len(),
        forall|k: int| 0 <= k < old(stack)@.len() ==> old(stack)@[k] < r.components@.len(),
        is_path(*r, ipath(old(stack)@.push(cur)), start, cur as int),
    ensures
        final(seen)@.len() == old(seen)@.len(),
        grows(old(seen)@, final(seen)@),
        res is Ok ==> final(stack)@ == old(stack)@,
        res is Ok ==> final(seen)@[cur as int],
        res is Ok ==> fresh_fit(*r, old(seen)@, final(seen)@, arch@),
        res is Ok ==> fresh_closed(*r, old(seen)@, final(seen)@),
        res matches Err(e) ==> arch_error_ok(*r, start, arch@, e),
    decreases num_false(old(seen)@),
{
    let n = r.components.len();
    if seen[cur] {
        proof {
            reveal(grows);
            reveal(fresh_fit);
            reveal(fresh_closed);
        }
        return Ok(());
    }
    let ghost s0 = seen@;
    seen.set(cur, true);
    let ghost s1 = seen@;
    proof {
        lemma_num_false_set(s0, cur as int);
        lemma_start(*r, s0, cur as int, arch@);
        assert(reach(*r, start, cur as int));
    }
    let comp = &r.components[cur].1;
    match component_declared_arch(comp) {
        Err(m) => {
            return Err(BuildError::UnsupportedArch(m));
        },
        Ok(Some(d)) => {
            if !str_eq(d, arch) {
                let chain = chain_to(r, stack, cur);
                let e = BuildError::ArchConflict {
                    component: r.components[cur].0.clone(),
                    declared: to_owned(d),
                    chain,
                    expected: to_owned(arch),
                };
                proof {
                    let p = ipath(old(stack)@.push(cur));
                    assert(is_path(*r, p, start, cur as int));
                }
                return Err(e);
            }
        },
        Ok(None) => {},
    }
    let ghost st0 = stack@;
    stack.push(cur);
    assert(ipath(stack@) =~= ipath(old(stack)@.push(cur)));
    let mut k: usize = 0;
    while k < comp.link.len()
        invariant
            n == r.components@.len(),
            distinct_keys(r.components@),
            cur < n,
            *comp == r.components@[cur as int].1,
            k <= comp.link@.len(),
            s1.len() == n,
            seen@.len() == n,
            old(seen)@.len() == n,
            grows(old(seen)@, s1),
            num_false(s1) < num_false(old(seen)@),
            st0 == old(stack)@,
            stack@ == st0.push(cur),
            forall|q: int| 0 <= q < stack@.len() ==> stack@[q] < n,
            is_path(*r, ipath(stack@), start, cur as int),
            grows(s1, seen@),
            fresh_fit(*r, s1, seen@, arch@),
            fresh_closed(*r, s1, seen@),
            links_marked(*r, cur as int, k as int, seen@),
        decreases comp.link.len() - k,
    {
        let (name, _) = comp.link[k].normalize();
        let found = find_component(r, name.as_str());
        match found {
            Some(j) => {
                let ghost sb = seen@;
                proof {
                    assert(spec_has_link_at(*comp, k as int, r.components@[j as int].0@));
                    assert(step(*r, cur as int, j as int));
                    lemma_path_extend(*r, ipath(stack@), start, cur as int, j as int);
                    assert(ipath(stack@.push(j)) =~= ipath(stack@).push(j as int));
                    lemma_grows_num_false(s1, seen@);
                }
                match arch_visit(r, Ghost(start), j, arch, seen, stack) {
                    Ok(()) => {},
                    Err(e) => {
                        proof {
                            lemma_grows_trans(s1, sb, seen@);
                            lemma_grows_trans(old(seen)@, s1, seen@);
                        }
                        return Err(e);
                    },
                }
                proof {
                    lemma_trans(*r, s1, sb, seen@, arch@);
                    lemma_links_step(*r, cur as int, k as int, sb, seen@, Some(j as int));
                }
            },
            None => {
                proof {
                    lemma_grows_refl(seen@);
                    lemma_links_step(*r, cur as int, k as int, seen@, seen@, None);
                }
            },
        }
        k += 1;
    }
    stack.pop();
    assert(stack@ =~= old(stack)@);
    proof {
        lemma_finish(*r, s0, seen@, cur as int, arch@);
    }
    Ok(())
}

/// The link entry `k` of `c` names `n`.
pub open spec fn spec_has_link_at(c: TritonComponent, k: int, n: Seq<char>) -> bool {
    0 <= k < c.link@.len() && entry_name(c.link@[k]) == n
}

proof fn lemma_all_fit(r: TritonRoot, s0: Seq<bool>, s: Seq<bool>, i: int, arch: Seq<char>)
    requires
        s0.len() == r.components@.len(),
        forall|x: int| 0 <= x < s0.len() ==> !s0[x],
        grows(s0, s),
        0 <= i < s0.len(),
        s[i],
        fresh_fit(r, s0, s, arch),
        fresh_closed(r, s0, s),
    ensures
        graph_fits(r, i, arch),
{
    reveal(grows);
    reveal(fresh_fit);
    reveal(fresh_closed);
    assert forall|x: int, y: int| 0 <= x < s.len() && s[x] && #[trigger] step(r, x, y) implies s[y] by {
        assert(!s0[x]);
    }
    assert forall|j: int| #[trigger] reach(r, i, j) implies arch_fits(r.components@[j].1, arch) by {
        let p = choose|p: Seq<int>| is_path(r, p, i, j);
        lemma_closed_reach(r, s, p, i, j);
        assert(!s0[j]);
    }
}

proof fn lemma_error_unfits(r: TritonRoot, i: int, arch: Seq<char>, e: BuildError)
    requires
        0 <= i < r.components@.len(),
        arch_error_ok(r, i, arch, e),
    ensures
        !graph_fits(r, i, arch),
{
    match e {
        BuildError::UnsupportedArch(m) => {
            let j = choose|j: int| #[trigger] reach(r, i, j) && arch_invalid(r.components@[j].1)
                && m@ == unsupported_arch_message(r.components@[j].1.arch->0@);
            assert(!arch_fits(r.components@[j].1, arch));
        },
        BuildError::ArchConflict { component, declared, chain, expected } => {
            let (p, j) = choose|p: Seq<int>, j: int| {
                &&& #[trigger] is_path(r, p, i, j)
                &&& component@ == r.components@[j].0@
                &&& !arch_invalid(r.components@[j].1)
                &&& spec_declared_arch(r.components@[j].1) == Some(declared@)
                &&& declared@ != arch
                &&& views(chain@) == names_along(r, p)
            };
            assert(reach(r, i, j));
            assert(!arch_fits(r.components@[j].1, arch));
        },
        _ => {},
    }
}

/// Checks that every component reachable from `start` by links may be
/// built for `arch`.
pub fn validate_component_arch_graph(root: &TritonRoot, start: &str, arch: &str) -> (res: Result<(), BuildError>)
    requires
        distinct_keys(root.components@),
    ensures
        res is Ok <==> (index_named(*root, start@) matches Some(i) && graph_fits(*root, i, arch@)),
        res matches Err(e) ==> match index_named(*root, start@) {
            Some(i) => arch_error_ok(*root, i, arch@, e),
            None => e is MissingComponent && e->MissingComponent_0@ == start@,
        },
{
    let i = match find_component(root, start) {
        Some(i) => i,
        None => {
            proof {
                assert(index_named(*root, start@) is None);
            }
            return Err(BuildError::MissingComponent(to_owned(start)));
        },
    };
    proof {
        assert(index_named(*root, start@) == Some(i as int));
    }
    let n = root.components.len();
    let mut seen: Vec<bool> = Vec::new();
    let mut q: usize = 0;
    while q < n
        invariant
            q <= n,
            n == root.components@.len(),
            seen@.len() == q,
            forall|x: int| 0 <= x < q ==> !seen@[x],
        decreases n - q,
    {
        seen.push(false);
        q += 1;
    }
    let ghost s0 = seen@;
    let mut stack: Vec<usize> = Vec::new();
    proof {
        let p = ipath(stack@.push(i));
        assert(p =~= seq![i as int]);
        assert(is_path(*root, p, i as int, i as int));
    }
    let res = arch_visit(root, Ghost(i as int), i, arch, &mut seen, &mut stack);
    proof {
        match &res {
            Ok(()) => {
                lemma_all_fit(*root, s0, seen@, i as int, arch@);
            },
            Err(e) => {
                lemma_error_unfits(*root, i as int, arch@, *e);
            },
        }
    }
    res
}

// ---------------------------------------------------------------------------
// Batches of components
// ---------------------------------------------------------------------------

/// The elements among the first `k` whose mark is set, in order.
pub open spec fn masked<T>(s: Seq<T>, m: Seq<bool>, k: int) -> Seq<T>
    decreases k,
{
    if k <= 0 {
        Seq::empty()
    } else if m[k - 1] {
        masked(s, m, k - 1).push(s[k - 1])
    } else {
        masked(s, m, k - 1)
    }
}

proof fn lemma_masked_sorted<V>(s: Seq<(String, V)>, m: Seq<bool>, k: int)
    requires
        sorted_keys(s),
        0 <= k <= s.len(),
    ensures
        sorted_keys(masked(s, m, k)),
        forall|a: int| #![trigger masked(s, m, k)[a]] 0 <= a < masked(s, m, k).len() ==> exists|q: int| 0 <= q < k && #[trigger] s[q] == masked(s, m, k)[a],
    decreases k,
{
    if k > 0 {
        lemma_masked_sorted(s, m, k - 1);
        let p = masked(s, m, k - 1);
        if m[k - 1] {
            let t = p.push(s[k - 1]);
            assert forall|a: int, b: int| 0 <= a < b < t.len() implies lex_lt(t[a].0@, t[b].0@) by {
                if b == t.len() - 1 {
                    let q = choose|q: int| 0 <= q < k - 1 && #[trigger] s[q] == p[a];
                    assert(lex_lt(s[q].0@, s[k - 1].0@));
                } else {
                    assert(t[a] == p[a] && t[b] == p[b]);
                }
            }
            assert forall|a: int| #![trigger t[a]] 0 <= a < t.len() implies exists|q: int| 0 <= q < k && #[trigger] s[q] == t[a] by {
                if a == t.len() - 1 {
                    assert(s[k - 1] == t[a]);
                } else {
                    let q = choose|q: int| 0 <= q < k - 1 && #[trigger] s[q] == p[a];
                    assert(s[q] == t[a]);
                }
            }
        }
    }
}

fn retain_masked(v: &mut Vec<(String, TritonComponent)>, m: &Vec<bool>)
    requires
        m@.len() == old(v)@.len(),
    ensures
        final(v)@ == masked(old(v)@, m@, old(v)@.len() as int),
{
    let ghost o = v@;
    let n = m.len();
    let mut i: usize = 0;
    let mut j: usize = 0;
    assert(o.skip(0) =~= o);
    while j < n
        invariant
            n == m@.len(),
            n == o.len(),
            j <= n,
            v@ == masked(o, m@, j as int) + o.skip(j as int),
            i == masked(o, m@, j as int).len(),
            i <= j,
        decreases n - j,
    {
        let ghost p = masked(o, m@, j as int);
        assert(v@[i as int] == o[j as int]);
        if m[j] {
            assert(masked(o, m@, j + 1) == p.push(o[j as int]));
            assert(v@ =~= masked(o, m@, j + 1) + o.skip(j + 1));
            i += 1;
        } else {
            v.remove(i);
            assert(v@ =~= masked(o, m@, j + 1) + o.skip(j + 1));
        }
        j += 1;
    }
    assert(v@ =~= masked(o, m@, n as int));
}

/// A component builds for `arch`: its architecture is known and is `arch`.
pub open spec fn builds_for(c: TritonComponent, arch: Seq<char>, os: HostOs, cpu: HostCpu) -> bool {
    !arch_invalid(c) && spec_effective_arch(c, os, cpu) == arch
}

/// Marks of the components that build for `arch`.
pub open spec fn arch_mask(s: Seq<(String, TritonComponent)>, arch: Seq<char>, os: HostOs, cpu: HostCpu) -> Seq<bool> {
    Seq::new(s.len(), |j: int| builds_for(s[j].1, arch, os, cpu))
}

/// The project restricted to the components that build for `arch`.
pub fn filtered_root_for_arch(root: TritonRoot, arch: &str, os: HostOs, cpu: HostCpu) -> (res: TritonRoot)
    ensures
        res.app_name == root.app_name,
        res.generator == root.generator,
        res.cxx_std == root.cxx_std,
        res.c_std == root.c_std,
        res.deps == root.deps,
        res.scripts == root.scripts,
        res.components@ == masked(root.components@, arch_mask(root.components@, arch@, os, cpu), root.components@.len() as int),
        root_wf(root) ==> root_wf(res),
{
    let mut root = root;
    let ghost o = root.components@;
    let mut mask: Vec<bool> = Vec::new();
    let mut j: usize = 0;
    while j < root.components.len()
        invariant
            j <= root.components@.len(),
            root.components@ == o,
            mask@ =~= arch_mask(o, arch@, os, cpu).take(j as int),
        decreases root.components.len() - j,
    {
        let keep = match effective_component_arch(&root.components[j].1, os, cpu) {
            Ok(a) => str_eq(a, arch),
            Err(_) => false,
        };
        mask.push(keep);
        j += 1;
    }
    assert(mask@ =~= arch_mask(o, arch@, os, cpu));
    retain_masked(&mut root.components, &mask);
    proof {
        if sorted_keys(o) {
            lemma_masked_sorted(o, mask@, o.len() as int);
        }
    }
    root
}

/// Marks of the components reachable from component `i`.
pub open spec fn reach_mask(r: TritonRoot, i: int) -> Seq<bool> {
    Seq::new(r.components@.len(), |j: int| reach(r, i, j))
}

/// The project restricted to the component `start` and the components it
/// reaches by links.
pub fn filtered_root_for_component(root: TritonRoot, start: &str) -> (res: Result<TritonRoot, BuildError>)
    requires
        distinct_keys(root.components@),
    ensures
        match res {
            Ok(f) => index_named(root, start@) matches Some(i) && {
                &&& f.app_name == root.app_name
                &&& f.generator == root.generator
                &&& f.cxx_std == root.cxx_std
                &&& f.c_std == root.c_std
                &&& f.deps == root.deps
                &&& f.scripts == root.scripts
                &&& f.components@ == masked(root.components@, reach_mask(root, i), root.components@.len() as int)
                &&& (root_wf(root) ==> root_wf(f))
            },
            Err(e) => index_named(root, start@) is None && e is MissingComponent && e->MissingComponent_0@ == start@,
        },
{
    let i = match find_component(&root, start) {
        Some(i) => i,
        None => {
            proof {
                assert(index_named(root, start@) is None);
            }
            return Err(BuildError::MissingComponent(to_owned(start)));
        },
    };
    proof {
        assert(index_named(root, start@) == Some(i as int));
    }
    let ghost r0 = root;
    let mut starts: Vec<usize> = Vec::new();
    starts.push(i);
    let reached = reachable_components(&root, &starts);
    let n = root.components.len();
    let mut mask: Vec<bool> = Vec::new();
    let mut j: usize = 0;
    while j < n
        invariant
            n == r0.components@.len(),
            j <= n,
            starts@ == seq![i],
            forall|x: int| 0 <= x < n ==> (reached@.contains(x as usize) <==> reach_from(r0, starts@, x)),
            mask@ =~= reach_mask(r0, i as int).take(j as int),
        decreases n - j,
    {
        let mut hit = false;
        let mut q: usize = 0;
        while q < reached.len()
            invariant
                q <= reached@.len(),
                j < n,
                hit == exists|t: int| 0 <= t < q && reached@[t] == j,
            decreases reached.len() - q,
        {
            if reached[q] == j {
                hit = true;
            }
            q += 1;
        }
        proof {
            assert(hit == reached@.contains(j));
            if reach_from(r0, starts@, j as int) {
                let k = choose|k: int| 0 <= k < starts@.len() && reach(r0, starts@[k] as int, j as int);
                assert(k == 0);
            }
            if reach(r0, i as int, j as int) {
                assert(reach(r0, starts@[0] as int, j as int));
            }
        }
        mask.push(hit);
        j += 1;
    }
    assert(mask@ =~= reach_mask(r0, i as int));
    let mut root = root;
    retain_masked(&mut root.components, &mask);
    proof {
        if sorted_keys(r0.components@) {
            lemma_masked_sorted(r0.components@, mask@, n as int);
        }
    }
    Ok(root)
}

/// The first component (in name order) whose architecture is unknown.
pub open spec fn first_invalid(s: Seq<(String, TritonComponent)>) -> Option<int> {
    if exists|j: int| 0 <= j < s.len() && arch_invalid(s[j].1) {
        Some(choose|j: int| 0 <= j < s.len() && arch_invalid(s[j].1) && forall|q: int| 0 <= q < j ==> !arch_invalid(#[trigger] s[q].1))
    } else {
        None
    }
}

proof fn lemma_first_invalid(s: Seq<(String, TritonComponent)>, j: int)
    requires
        0 <= j < s.len(),
        arch_invalid(s[j].1),
        forall|q: int| 0 <= q < j ==> !arch_invalid(#[trigger] s[q].1),
    ensures
        first_invalid(s) == Some(j),
{
    let w = choose|w: int| 0 <= w < s.len() && arch_invalid(s[w].1) && forall|q: int| 0 <= q < w ==> !arch_invalid(#[trigger] s[q].1);
    if w < j {
        assert(!arch_invalid(s[w].1));
    }
    if j < w {
        assert(!arch_invalid(s[j].1));
    }
}

/// The names of the components that build for `arch`, in name order; an
/// unknown architecture of any component is rejected (the first one's
/// message).
pub fn component_names_for_arch(root: &TritonRoot, arch: &str, os: HostOs, cpu: HostCpu) -> (res: Result<Vec<String>, String>)
    ensures
        match res {
            Ok(v) => first_invalid(root.components@) is None
                && views(v@) == masked(root.components@, arch_mask(root.components@, arch@, os, cpu), root.components@.len() as int).map_values(|p: (String, TritonComponent)| p.0@),
            Err(m) => first_invalid(root.components@) matches Some(j)
                && m@ == unsupported_arch_message(root.components@[j].1.arch->0@),
        },
{
    let ghost o = root.components@;
    let ghost mk = arch_mask(o, arch@, os, cpu);
    let mut names: Vec<String> = Vec::new();
    let mut j: usize = 0;
    while j < root.components.len()
        invariant
            j <= o.len(),
            o == root.components@,
            mk == arch_mask(o, arch@, os, cpu),
            forall|q: int| 0 <= q < j ==> !arch_invalid(#[trigger] o[q].1),
            views(names@) == masked(o, mk, j as int).map_values(|p: (String, TritonComponent)| p.0@),
        decreases root.components.len() - j,
    {
        match effective_component_arch(&root.components[j].1, os, cpu) {
            Ok(a) => {
                let ghost before = names@;
                if str_eq(a, arch) {
                    names.push(root.components[j].0.clone());
                    proof {
                        crate::text::lemma_views_push(before, root.components@[j as int].0);
                        assert(masked(o, mk, j + 1) == masked(o, mk, j as int).push(o[j as int]));
                        assert(masked(o, mk, j + 1).map_values(|p: (String, TritonComponent)| p.0@)
                            =~= masked(o, mk, j as int).map_values(|p: (String, TritonComponent)| p.0@).push(o[j as int].0@));
                    }
                } else {
                    assert(masked(o, mk, j + 1) == masked(o, mk, j as int));
                }
            },
            Err(m) => {
                proof {
                    lemma_first_invalid(o, j as int);
                }
                return Err(m);
            },
        }
        j += 1;
    }
    proof {
        if first_invalid(o) is Some {
            let w = choose|w: int| 0 <= w < o.len() && arch_invalid(o[w].1);
            assert(!arch_invalid(o[w].1));
        }
    }
    Ok(names)
}

/// The architectures a build covers: the requested one, else each that
/// some component builds for (in the order arm64, x64, x86), else the
/// host's when there are no components.
pub open spec fn spec_build_arches(s: Seq<(String, TritonComponent)>, os: HostOs, cpu: HostCpu) -> Seq<Seq<char>> {
    let has = |a: Seq<char>| exists|j: int| 0 <= j < s.len() && spec_effective_arch(s[j].1, os, cpu) == a;
    if s.len() == 0 {
        seq![spec_host_default_arch(os, cpu)]
    } else {
        (if has("arm64"@) { seq!["arm64"@] } else { Seq::empty() })
            + (if has("x64"@) { seq!["x64"@] } else { Seq::empty() })
            + (if has("x86"@) { seq!["x86"@] } else { Seq::empty() })
    }
}

/// The architectures of the batches of a build (see `spec_build_arches`).
pub fn collect_build_arches(root: &TritonRoot, requested: Option<&str>, os: HostOs, cpu: HostCpu) -> (res: Result<Vec<&'static str>, String>)
    ensures
        match requested {
            Some(a) => match res {
                Ok(v) => arch_canon(a@) matches Some(c) && v@.len() == 1 && v@[0]@ == c,
                Err(m) => arch_canon(a@) is None && m@ == unsupported_arch_message(a@),
            },
            None => match res {
                Ok(v) => first_invalid(root.components@) is None
                    && v@.map_values(|x: &'static str| x@) == spec_build_arches(root.components@, os, cpu),
                Err(m) => first_invalid(root.components@) matches Some(j)
                    && m@ == unsupported_arch_message(root.components@[j].1.arch->0@),
            },
        },
{
    match requested {
        Some(a) => {
            return match canonical_arch(a) {
                Ok(c) => {
                    let mut v: Vec<&'static str> = Vec::new();
                    v.push(c);
                    Ok(v)
                },
                Err(m) => Err(m),
            };
        },
        None => {},
    }
    let ghost o = root.components@;
    let mut arm = false;
    let mut x64 = false;
    let mut x86 = false;
    let mut j: usize = 0;
    while j < root.components.len()
        invariant
            j <= o.len(),
            o == root.components@,
            requested is None,
            forall|q: int| 0 <= q < j ==> !arch_invalid(#[trigger] o[q].1),
            forall|q: int| 0 <= q < j ==> {
                let e = spec_effective_arch(#[trigger] o[q].1, os, cpu);
                e == "arm64"@ || e == "x64"@ || e == "x86"@
            },
            arm == exists|q: int| 0 <= q < j && spec_effective_arch(o[q].1, os, cpu) == "arm64"@,
            x64 == exists|q: int| 0 <= q < j && spec_effective_arch(o[q].1, os, cpu) == "x64"@,
            x86 == exists|q: int| 0 <= q < j && spec_effective_arch(o[q].1, os, cpu) == "x86"@,
        decreases root.components.len() - j,
    {
        match effective_component_arch(&root.components[j].1, os, cpu) {
            Ok(a) => {
                proof {
                    reveal_strlit("arm64");
                    reveal_strlit("x64");
                    reveal_strlit("x86");
                    assert("x64"@ != "x86"@) by {
                        assert("x64"@[1] != "x86"@[1]);
                    }
                    assert("arm64"@ != "x86"@ && "arm64"@ != "x64"@) by {
                        assert("arm64"@.len() != "x86"@.len());
                    }
                    let c = root.components@[j as int].1;
                    match spec_declared_arch(c) {
                        Some(d) => {
                            assert(d == "arm64"@ || d == "x64"@ || d == "x86"@);
                        },
                        None => {},
                    }
                }
                if str_eq(a, "arm64") {
                    arm = true;
                } else if str_eq(a, "x64") {
                    x64 = true;
                } else {
                    x86 = true;
                }
            },
            Err(m) => {
                proof {
                    lemma_first_invalid(o, j as int);
                }
                return Err(m);
            },
        }
        j += 1;
    }
    proof {
        if first_invalid(o) is Some {
            let w = choose|w: int| 0 <= w < o.len() && arch_invalid(o[w].1);
            assert(!arch_invalid(o[w].1));
        }
    }
    let mut v: Vec<&'static str> = Vec::new();
    if root.components.len() == 0 {
        v.push(host_default_arch(os, cpu));
    } else {
        if arm {
            v.push("arm64");
        }
        if x64 {
            v.push("x64");
        }
        if x86 {
            v.push("x86");
        }
    }
    assert(v@.map_values(|x: &'static str| x@) =~= spec_build_arches(o, os, cpu));
    Ok(v)
}

/// Component `j` passes the check of all graphs: its architecture is known
/// and, unless the filter skips it, everything it reaches fits it.
#[verifier::opaque]
pub open spec fn graph_ok_at(r: TritonRoot, j: int, filter: Option<Seq<char>>, os: HostOs, cpu: HostCpu) -> bool {
    let c = r.components@[j].1;
    &&& !arch_invalid(c)
    &&& ((filter matches Some(w) && w != spec_effective_arch(c, os, cpu))
        || graph_fits(r, j, spec_effective_arch(c, os, cpu)))
}

/// What the check of all graphs reports when it stops at component `j`:
/// its unknown architecture, or the failure of its own graph.
pub open spec fn graph_error_at(r: TritonRoot, j: int, os: HostOs, cpu: HostCpu, e: BuildError) -> bool {
    let c = r.components@[j].1;
    ||| (arch_invalid(c) && e is UnsupportedArch && e->UnsupportedArch_0@ == unsupported_arch_message(c.arch->0@))
    ||| (!arch_invalid(c) && arch_error_ok(r, j, spec_effective_arch(c, os, cpu), e))
}

/// The check of all graphs stops at component `j` with `e`: every earlier
/// component passes, `j` does not, and `e` says why.
pub open spec fn stops_at(r: TritonRoot, j: int, f: Option<Seq<char>>, os: HostOs, cpu: HostCpu, e: BuildError) -> bool {
    &&& 0 <= j < r.components@.len()
    &&& forall|q: int| 0 <= q < j ==> #[trigger] graph_ok_at(r, q, f, os, cpu)
    &&& !graph_ok_at(r, j, f, os, cpu)
    &&& graph_error_at(r, j, os, cpu, e)
}

/// The view of an optional string slice.
pub open spec fn opt_str_view(o: Option<&str>) -> Option<Seq<char>> {
    match o {
        Some(w) => Some(w@),
        None => None,
    }
}

fn check_graph_at(root: &TritonRoot, j: usize, arch_filter: Option<&str>, os: HostOs, cpu: HostCpu) -> (res: Result<(), BuildError>)
    requires
        distinct_keys(root.components@),
        j < root.components@.len(),
    ensures
        match res {
            Ok(()) => graph_ok_at(*root, j as int, opt_str_view(arch_filter), os, cpu),
            Err(e) => !graph_ok_at(*root, j as int, opt_str_view(arch_filter), os, cpu) && graph_error_at(*root, j as int, os, cpu, e),
        },
{
    reveal(graph_ok_at);
    let eff = match effective_component_arch(&root.components[j].1, os, cpu) {
        Ok(a) => a,
        Err(m) => {
            return Err(BuildError::UnsupportedArch(m));
        },
    };
    let skip = match arch_filter {
        Some(w) => !str_eq(w, eff),
        None => false,
    };
    if skip {
        return Ok(());
    }
    proof {
        let name = root.components@[j as int].0@;
        let w = choose|i: int| 0 <= i < root.components@.len() && root.components@[i].0@ == name;
        assert(index_named(*root, name) == Some(j as int));
    }
    validate_component_arch_graph(root, root.components[j].0.as_str(), eff)
}

/// Checks the link graph of every component (those building for
/// `arch_filter` only, when given) against the architecture it builds for.
pub fn validate_all_component_arch_graphs(root: &TritonRoot, arch_filter: Option<&str>, os: HostOs, cpu: HostCpu) -> (res: Result<(), BuildError>)
    requires
        distinct_keys(root.components@),
    ensures
        res is Ok <==> forall|j: int| 0 <= j < root.components@.len() ==> #[trigger] graph_ok_at(*root, j, opt_str_view(arch_filter), os, cpu),
        res matches Err(e) ==> exists|j: int| #[trigger] stops_at(*root, j, opt_str_view(arch_filter), os, cpu, e),
{
    let ghost f = opt_str_view(arch_filter);
    let n = root.components.len();
    let mut j: usize = 0;
    while j < n
        invariant
            n == root.components@.len(),
            distinct_keys(root.components@),
            j <= n,
            f == opt_str_view(arch_filter),
            forall|q: int| 0 <= q < j ==> #[trigger] graph_ok_at(*root, q, f, os, cpu),
        decreases n - j,
    {
        match check_graph_at(root, j, arch_filter, os, cpu) {
            Ok(()) => {},
            Err(e) => {
                proof {
                    assert(stops_at(*root, j as int, f, os, cpu, e));
                    assert(!graph_ok_at(*root, j as int, f, os, cpu));
                    assert(!(forall|q: int| 0 <= q < root.components@.len() ==> #[trigger] graph_ok_at(*root, q, f, os, cpu)));
                    assert(exists|q: int| #[trigger] stops_at(*root, q, f, os, cpu, e));
                }
                return Err(e);
            },
        }
        j += 1;
    }
    Ok(())
}

// ---------------------------------------------------------------------------
// CMake command lines
// ---------------------------------------------------------------------------

/// The argument that hands CMake the vcpkg toolchain file.
pub open spec fn toolchain_arg(toolchain: Seq<char>) -> Seq<char> {
    "-DCMAKE_TOOLCHAIN_FILE=\""@ + toolchain + "\""@
}

/// The arguments of `cmake` that configure a preset.
pub open spec fn spec_configure_args(preset: Seq<char>, toolchain: Seq<char>, skip_manifest_install: bool, ninja_bin: Option<Seq<char>>) -> Seq<Seq<char>> {
    seq!["--preset"@, preset, toolchain_arg(toolchain)]
        + (if skip_manifest_install { seq!["-DVCPKG_MANIFEST_INSTALL=OFF"@] } else { Seq::empty() })
        + match ninja_bin {
            Some(b) => seq!["-DCMAKE_MAKE_PROGRAM="@ + b],
            None => Seq::empty(),
        }
}

/// The arguments of `cmake` that configure `preset` with the toolchain
/// file at `toolchain`, skipping the manifest install when asked, and with
/// the Ninja program when one is given.
pub fn configure_args(preset: &str, toolchain: &str, skip_manifest_install: bool, ninja_bin: Option<&str>) -> (res: Vec<String>)
    ensures
        views(res@) == spec_configure_args(preset@, toolchain@, skip_manifest_install, opt_str_view(ninja_bin)),
{
    let mut v: Vec<String> = Vec::new();
    v.push(to_owned("--preset"));
    v.push(to_owned(preset));
    v.push(cat3("-DCMAKE_TOOLCHAIN_FILE=\"", toolchain, "\""));
    if skip_manifest_install {
        v.push(to_owned("-DVCPKG_MANIFEST_INSTALL=OFF"));
    }
    match ninja_bin {
        Some(b) => {
            v.push(concat2("-DCMAKE_MAKE_PROGRAM=", b));
        },
        None => {},
    }
    assert(views(v@) =~= spec_configure_args(preset@, toolchain@, skip_manifest_install, opt_str_view(ninja_bin)));
    v
}

/// The arguments of `cmake` that build a preset, of one target when given.
pub open spec fn spec_build_args(preset: Seq<char>, target: Option<Seq<char>>) -> Seq<Seq<char>> {
    seq!["--build"@, "--preset="@ + preset] + match target {
        Some(t) => seq!["--target"@, t],
        None => Seq::empty(),
    }
}

/// The arguments of `cmake` that build `preset` (see `spec_build_args`).
pub fn build_args(preset: &str, target: Option<&str>) -> (res: Vec<String>)
    ensures
        views(res@) == spec_build_args(preset@, opt_str_view(target)),
{
    let mut v: Vec<String> = Vec::new();
    v.push(to_owned("--build"));
    v.push(concat2("--preset=", preset));
    match target {
        Some(t) => {
            v.push(to_owned("--target"));
            v.push(to_owned(t));
        },
        None => {},
    }
    assert(views(v@) =~= spec_build_args(preset@, opt_str_view(target)));
    v
}

/// The configure line of a batch file run in a Visual Studio developer
/// shell: the quoted CMake program, the preset and toolchain, then the
/// optional manifest switch, Ninja program and compilers.
pub open spec fn spec_windows_configure_line(
    cmake: Seq<char>,
    preset: Seq<char>,
    toolchain: Seq<char>,
    skip_manifest_install: bool,
    ninja_bin: Option<Seq<char>>,
    cl: Seq<char>,
    needs_c: bool,
    needs_cxx: bool,
) -> Seq<char> {
    "\""@ + cmake + "\" --preset "@ + preset + " "@ + toolchain_arg(toolchain)
        + (if skip_manifest_install { " -DVCPKG_MANIFEST_INSTALL=OFF"@ } else { Seq::empty() })
        + match ninja_bin {
            Some(b) => " -DCMAKE_MAKE_PROGRAM=\""@ + b + "\""@,
            None => Seq::empty(),
        }
        + (if needs_c { " -DCMAKE_C_COMPILER=\""@ + cl + "\""@ } else { Seq::empty() })
        + (if needs_cxx { " -DCMAKE_CXX_COMPILER=\""@ + cl + "\""@ } else { Seq::empty() })
}

/// The configure line of a Visual Studio developer shell batch file.
pub fn windows_configure_line(
    cmake: &str,
    preset: &str,
    toolchain: &str,
    skip_manifest_install: bool,
    ninja_bin: Option<&str>,
    cl: &str,
    needs_c: bool,
    needs_cxx: bool,
) -> (res: String)
    ensures
        res@ == spec_windows_configure_line(cmake@, preset@, toolchain@, skip_manifest_install, opt_str_view(ninja_bin), cl@, needs_c, needs_cxx),
{
    let mut r = cat5("\"", cmake, "\" --preset ", preset, " ");
    let t = cat3("-DCMAKE_TOOLCHAIN_FILE=\"", toolchain, "\"");
    push_str(&mut r, t.as_str());
    let ghost base = r@;
    if skip_manifest_install {
        push_str(&mut r, " -DVCPKG_MANIFEST_INSTALL=OFF");
    }
    let ghost a1 = r@;
    assert(a1 =~= base + (if skip_manifest_install { " -DVCPKG_MANIFEST_INSTALL=OFF"@ } else { Seq::empty() }));
    match ninja_bin {
        Some(b) => {
            let x = cat3(" -DCMAKE_MAKE_PROGRAM=\"", b, "\"");
            push_str(&mut r, x.as_str());
        },
        None => {},
    }
    let ghost a2 = r@;
    assert(a2 =~= a1 + match opt_str_view(ninja_bin) {
        Some(b) => " -DCMAKE_MAKE_PROGRAM=\""@ + b + "\""@,
        None => Seq::empty(),
    });
    if needs_c {
        let x = cat3(" -DCMAKE_C_COMPILER=\"", cl, "\"");
        push_str(&mut r, x.as_str());
    }
    let ghost a3 = r@;
    assert(a3 =~= a2 + (if needs_c { " -DCMAKE_C_COMPILER=\""@ + cl@ + "\""@ } else { Seq::empty() }));
    if needs_cxx {
        let x = cat3(" -DCMAKE_CXX_COMPILER=\"", cl, "\"");
        push_str(&mut r, x.as_str());
    }
    assert(r@ =~= a3 + (if needs_cxx { " -DCMAKE_CXX_COMPILER=\""@ + cl@ + "\""@ } else { Seq::empty() }));
    r
}

/// The build line of a Visual Studio developer shell batch file.
pub open spec fn spec_windows_build_line(cmake: Seq<char>, preset: Seq<char>, target: Option<Seq<char>>) -> Seq<char> {
    "\""@ + cmake + "\" --build --preset="@ + preset + match target {
        Some(t) => " --target "@ + t,
        None => Seq::empty(),
    }
}

/// The build line of a Visual Studio developer shell batch file.
pub fn windows_build_line(cmake: &str, preset: &str, target: Option<&str>) -> (res: String)
    ensures
        res@ == spec_windows_build_line(cmake@, preset@, opt_str_view(target)),
{
    let mut r = cat3("\"", cmake, "\" --build --preset=");
    push_str(&mut r, preset);
    let ghost base = r@;
    match target {
        Some(t) => {
            push_str(&mut r, " --target ");
            push_str(&mut r, t);
        },
        None => {},
    }
    assert(r@ =~= base + match opt_str_view(target) {
        Some(t) => " --target "@ + t,
        None => Seq::empty(),
    });
    r
}


// ---------------------------------------------------------------------------
// The state of the build tree
// ---------------------------------------------------------------------------

/// The Ninja build file of the tree mentions the target.
pub fn build_tree_has_target(ninja_text: Option<&str>, target: &str) -> (res: bool)
    ensures
        res == match ninja_text {
            Some(t) => contains(t@, target@),
            None => false,
        },
{
    match ninja_text {
        Some(t) => str_contains(t, target),
        None => false,
    }
}

/// An input modified at `t` (if its time could be read) is not newer than
/// the stamp made at `s`.
pub open spec fn not_newer(t: Option<u64>, s: u64) -> bool {
    match t {
        Some(t) => t <= s,
        None => true,
    }
}

/// The vcpkg installation of a triplet can be reused: its stamp exists and
/// no input (manifest) was modified after it. Times are those of the last
/// modification; an input whose time cannot be read is not counted.
pub fn install_state_fresh(stamp: Option<u64>, inputs: &Vec<Option<u64>>) -> (res: bool)
    ensures
        res == (stamp is Some && forall|i: int| 0 <= i < inputs@.len() ==> #[trigger] not_newer(inputs@[i], stamp->0)),
{
    if stamp.is_none() {
        return false;
    }
    let s = stamp.unwrap();
    let mut ok = true;
    let mut i: usize = 0;
    while i < inputs.len()
        invariant
            i <= inputs@.len(),
            ok == forall|j: int| 0 <= j < i ==> #[trigger] not_newer(inputs@[j], s),
        decreases inputs.len() - i,
    {
        let newer = match inputs[i] {
            Some(t) => t > s,
            None => false,
        };
        assert(newer == !not_newer(inputs@[i as int], s));
        ok = ok && !newer;
        i += 1;
    }
    ok
}

// ---------------------------------------------------------------------------
// The Visual Studio developer shell
// ---------------------------------------------------------------------------

/// Where `cl.exe` lies under an MSVC tools version for a target
/// architecture (x64 hosts).
pub fn msvc_cl_relative(target_arch: &str) -> (res: &'static str)
    ensures
        res@ == if target_arch@ == "x86"@ {
            "bin\\Hostx64\\x86\\cl.exe"@
        } else if target_arch@ == "arm64"@ {
            "bin\\Hostx64\\arm64\\cl.exe"@
        } else {
            "bin\\Hostx64\\x64\\cl.exe"@
        },
{
    if str_eq(target_arch, "x86") {
        "bin\\Hostx64\\x86\\cl.exe"
    } else if str_eq(target_arch, "arm64") {
        "bin\\Hostx64\\arm64\\cl.exe"
    } else {
        "bin\\Hostx64\\x64\\cl.exe"
    }
}

/// The commands of a batch file, each followed by a stop on failure.
pub open spec fn batch_commands(cs: Seq<Seq<char>>) -> Seq<char>
    decreases cs.len(),
{
    if cs.len() == 0 {
        Seq::empty()
    } else {
        batch_commands(cs.drop_last()) + cs.last() + "\r\n"@ + "if errorlevel 1 exit /b %errorlevel%\r\n"@
    }
}

/// The batch file that loads the developer environment of Visual Studio
/// (`vs` is `VsDevCmd.bat`) for an architecture, puts `prepend` in front of
/// the search path, clears `CC` and `CXX`, and runs the commands.
pub open spec fn spec_msvc_batch(vs: Seq<char>, arch: Seq<char>, prepend: Option<Seq<char>>, cs: Seq<Seq<char>>) -> Seq<char> {
    "@echo off\r\n"@ + "setlocal\r\n"@
        + "set PATH=%SystemRoot%\\System32;%SystemRoot%;%SystemRoot%\\System32\\Wbem;%SystemRoot%\\System32\\WindowsPowerShell\\v1.0;%PATH%\r\n"@
        + "call \""@ + vs + "\" -arch="@ + arch + "\r\n"@
        + match prepend {
            Some(p) => "set PATH="@ + p + ";%PATH%\r\n"@,
            None => Seq::empty(),
        }
        + "set CC=\r\nset CXX=\r\n"@ + batch_commands(cs) + "endlocal\r\n"@
}

/// See `spec_msvc_batch`.
pub fn msvc_batch_text(vs: &str, arch: &str, prepend: Option<&str>, commands: &Vec<String>) -> (res: String)
    ensures
        res@ == spec_msvc_batch(vs@, arch@, opt_str_view(prepend), views(commands@)),
{
    let mut b = to_owned("@echo off\r\n");
    push_str(&mut b, "setlocal\r\n");
    push_str(&mut b, "set PATH=%SystemRoot%\\System32;%SystemRoot%;%SystemRoot%\\System32\\Wbem;%SystemRoot%\\System32\\WindowsPowerShell\\v1.0;%PATH%\r\n");
    push_str(&mut b, "call \"");
    push_str(&mut b, vs);
    push_str(&mut b, "\" -arch=");
    push_str(&mut b, arch);
    push_str(&mut b, "\r\n");
    let ghost head = b@;
    match prepend {
        Some(p) => {
            push_str(&mut b, "set PATH=");
            push_str(&mut b, p);
            push_str(&mut b, ";%PATH%\r\n");
        },
        None => {},
    }
    push_str(&mut b, "set CC=\r\nset CXX=\r\n");
    let ghost before = b@;
    let mut k: usize = 0;
    while k < commands.len()
        invariant
            k <= commands@.len(),
            b@ == before + batch_commands(views(commands@).take(k as int)),
        decreases commands.len() - k,
    {
        push_str(&mut b, commands[k].as_str());
        push_str(&mut b, "\r\n");
        push_str(&mut b, "if errorlevel 1 exit /b %errorlevel%\r\n");
        proof {
            let t = views(commands@).take(k + 1);
            assert(t.drop_last() =~= views(commands@).take(k as int));
            assert(t.last() == commands@[k as int]@);
        }
        k += 1;
    }
    assert(views(commands@).take(commands@.len() as int) =~= views(commands@));
    push_str(&mut b, "endlocal\r\n");
    b
}

} // verus!
