//! Generators of the managed CMake blocks of a component.
//!
//! Each generator returns a list of lines (a line may itself hold line
//! breaks); the specifications give those lines exactly.

use vstd::prelude::*;
use crate::models::{
    TritonRoot, TritonComponent, DepSpec, GitDep, CMakeOverride, LinkEntry, LinkOptions,
    VendorLibs, entry_name, has_component, contains_component,
};
use crate::text::{
    contains, occurs_at, views, join, trim, lower, ends_with, push_line, push_lit, extend_lines, push_str, to_owned,
    join_strings, is_blank, to_lower, str_eq, str_ends_with, chars_of, string_from_range, cat3,
    cat5, cat7, trim_str,
};
use crate::util::cmake_helpers::{
    spec_cmake_quote, spec_infer_cmake_type, spec_split_kv, cmake_quote, infer_cmake_type,
    split_kv,
};
use crate::cmake::resolution::{
    GitSpec, VcpkgSpec, GitV, VcpkgV, git_view, git_views, vcpkg_views, UpRes, ups_ok, spec_git_specs,
    spec_vcpkg_specs, build_effective_git_specs, build_effective_vcpkg_specs, exports_has,
    lemma_vcpkg_specs_shape, from_link_ok, from_export_ok,
};

verus! {

/// Lines of a list of lists, in order.
pub open spec fn flat(ls: Seq<Seq<Seq<char>>>) -> Seq<Seq<char>>
    decreases ls.len(),
{
    if ls.len() == 0 {
        Seq::empty()
    } else {
        flat(ls.drop_last()) + ls.last()
    }
}

pub proof fn lemma_flat_push(ls: Seq<Seq<Seq<char>>>, x: Seq<Seq<char>>)
    ensures
        flat(ls.push(x)) == flat(ls) + x,
{
    assert(ls.push(x).drop_last() =~= ls);
}

// ---------------------------------------------------------------------------
// Defines
// ---------------------------------------------------------------------------

/// The quoted non-blank defines among the first `k`.
pub open spec fn define_parts(d: Seq<String>, k: int) -> Seq<Seq<char>>
    decreases k,
{
    if k <= 0 {
        Seq::empty()
    } else {
        let prev = define_parts(d, k - 1);
        if trim(d[k - 1]@).len() > 0 {
            prev.push(spec_cmake_quote(d[k - 1]@))
        } else {
            prev
        }
    }
}

/// `target_compile_definitions` with the quoted non-blank defines, if any.
pub open spec fn spec_defines_lines(c: TritonComponent) -> Seq<Seq<char>> {
    let p = define_parts(c.defines@, c.defines@.len() as int);
    if p.len() == 0 {
        Seq::empty()
    } else {
        seq!["target_compile_definitions(${_comp_name} PRIVATE "@ + join(p, " "@) + ")"@]
    }
}

/// The compile definitions line of a component.
pub fn gen_component_defines_lines(comp: &TritonComponent) -> (res: Vec<String>)
    ensures
        views(res@) == spec_defines_lines(*comp),
{
    let mut parts: Vec<String> = Vec::new();
    let mut k: usize = 0;
    while k < comp.defines.len()
        invariant
            k <= comp.defines@.len(),
            views(parts@) == define_parts(comp.defines@, k as int),
        decreases comp.defines.len() - k,
    {
        if !is_blank(comp.defines[k].as_str()) {
            push_line(&mut parts, cmake_quote(comp.defines[k].as_str()));
        }
        k += 1;
    }
    let mut lines: Vec<String> = Vec::new();
    if parts.len() == 0 {
        assert(views(lines@) =~= Seq::<Seq<char>>::empty());
        return lines;
    }
    let joined = join_strings(&parts, " ");
    push_line(&mut lines, cat3("target_compile_definitions(${_comp_name} PRIVATE ", joined.as_str(), ")"));
    assert(views(lines@) =~= spec_defines_lines(*comp));
    lines
}

// ---------------------------------------------------------------------------
// Platform conditions, link options, vendor libraries
// ---------------------------------------------------------------------------

/// The CMake condition for a platform name (any ASCII case); other names are
/// used lower-cased as they are.
pub open spec fn spec_platform_condition(p: Seq<char>) -> Seq<char> {
    let l = lower(p);
    if l == "linux"@ {
        "UNIX AND NOT APPLE"@
    } else if l == "macos"@ {
        "APPLE"@
    } else if l == "windows"@ {
        "WIN32"@
    } else {
        l
    }
}

/// Maps a platform name to a CMake condition.
pub fn platform_to_cmake_condition(platform: &str) -> (res: String)
    ensures
        res@ == spec_platform_condition(platform@),
{
    let l = to_lower(platform);
    if str_eq(l.as_str(), "linux") {
        to_owned("UNIX AND NOT APPLE")
    } else if str_eq(l.as_str(), "macos") {
        to_owned("APPLE")
    } else if str_eq(l.as_str(), "windows") {
        to_owned("WIN32")
    } else {
        l
    }
}

/// The quoted values.
pub open spec fn quoted(v: Seq<String>) -> Seq<Seq<char>> {
    v.map_values(|s: String| spec_cmake_quote(s@))
}

fn quote_all(v: &Vec<String>) -> (res: Vec<String>)
    ensures
        views(res@) == quoted(v@),
{
    let mut res: Vec<String> = Vec::new();
    let mut i: usize = 0;
    while i < v.len()
        invariant
            i <= v@.len(),
            views(res@) == quoted(v@.take(i as int)),
        decreases v.len() - i,
    {
        push_line(&mut res, cmake_quote(v[i].as_str()));
        assert(quoted(v@.take(i + 1)) =~= quoted(v@.take(i as int)).push(spec_cmake_quote(v@[i as int]@)));
        i += 1;
    }
    assert(v@.take(v@.len() as int) =~= v@);
    res
}

/// Link-option lines for one platform entry.
pub open spec fn link_options_platform_lines(platform: Seq<char>, opts: Seq<String>) -> Seq<Seq<char>> {
    if opts.len() == 0 {
        Seq::empty()
    } else {
        seq![
            "if("@ + spec_platform_condition(platform) + ")"@,
            "  target_link_options(${_comp_name} PRIVATE "@ + join(quoted(opts), " "@) + ")"@,
            "endif()"@,
        ]
    }
}

/// Link-option lines for the first `k` platform entries.
pub open spec fn link_options_per_platform(m: Seq<(String, Vec<String>)>, k: int) -> Seq<Seq<char>>
    decreases k,
{
    if k <= 0 {
        Seq::empty()
    } else {
        link_options_per_platform(m, k - 1) + link_options_platform_lines(m[k - 1].0@, m[k - 1].1@)
    }
}

/// The linker-option lines of a component.
pub open spec fn spec_link_options_lines(c: TritonComponent) -> Seq<Seq<char>> {
    match c.link_options {
        LinkOptions::Unset => Seq::empty(),
        LinkOptions::All(opts) => if opts@.len() == 0 {
            Seq::empty()
        } else {
            seq!["target_link_options(${_comp_name} PRIVATE "@ + join(quoted(opts@), " "@) + ")"@]
        },
        LinkOptions::PerPlatform(m) => link_options_per_platform(m@, m@.len() as int),
    }
}

/// Linker options of a component, for all platforms or per platform.
pub fn gen_component_link_options_lines(comp: &TritonComponent) -> (res: Vec<String>)
    ensures
        views(res@) == spec_link_options_lines(*comp),
{
    let mut lines: Vec<String> = Vec::new();
    match &comp.link_options {
        LinkOptions::Unset => {},
        LinkOptions::All(opts) => {
            if opts.len() > 0 {
                let joined = join_strings(&quote_all(opts), " ");
                push_line(&mut lines, cat3("target_link_options(${_comp_name} PRIVATE ", joined.as_str(), ")"));
            }
        },
        LinkOptions::PerPlatform(m) => {
            let mut k: usize = 0;
            while k < m.len()
                invariant
                    k <= m@.len(),
                    views(lines@) == link_options_per_platform(m@, k as int),
                decreases m.len() - k,
            {
                let platform = &m[k].0;
                let opts = &m[k].1;
                if opts.len() > 0 {
                    let joined = join_strings(&quote_all(opts), " ");
                    let cond = platform_to_cmake_condition(platform.as_str());
                    push_line(&mut lines, cat3("if(", cond.as_str(), ")"));
                    push_line(&mut lines, cat3("  target_link_options(${_comp_name} PRIVATE ", joined.as_str(), ")"));
                    push_lit(&mut lines, "endif()");
                }
                assert(views(lines@) =~= link_options_per_platform(m@, k + 1));
                k += 1;
            }
        },
    }
    assert(views(lines@) =~= spec_link_options_lines(*comp));
    lines
}

/// A vendor library path line.
pub open spec fn lib_path_line(p: Seq<char>) -> Seq<char> {
    "    \""@ + "${CMAKE_CURRENT_SOURCE_DIR}/"@ + p + "\""@
}

pub open spec fn lib_path_lines(v: Seq<String>) -> Seq<Seq<char>> {
    v.map_values(|s: String| lib_path_line(s@))
}

pub open spec fn lib_path_lines_indented(v: Seq<String>) -> Seq<Seq<char>> {
    v.map_values(|s: String| "  "@ + lib_path_line(s@))
}

/// The sibling `.dll` of a `.lib` path.
pub open spec fn dll_of(lib: Seq<char>) -> Seq<char> {
    lib.take(lib.len() - 3) + "dll"@
}

/// Lines that copy the `.dll` next to the executable when it exists.
pub open spec fn dll_copy_lines(lib: Seq<char>) -> Seq<Seq<char>> {
    seq![
        "  if(EXISTS \""@ + "${CMAKE_CURRENT_SOURCE_DIR}/"@ + dll_of(lib) + "\")"@,
        "    add_custom_command(TARGET ${_comp_name} POST_BUILD COMMAND ${CMAKE_COMMAND} -E copy_if_different \""@
            + "${CMAKE_CURRENT_SOURCE_DIR}/"@ + dll_of(lib) + "\" \"$<TARGET_FILE_DIR:${_comp_name}>\")"@,
        "  endif()"@,
    ]
}

/// DLL copy lines for the `.lib` paths among the first `k`.
pub open spec fn dll_lines_upto(libs: Seq<String>, k: int) -> Seq<Seq<char>>
    decreases k,
{
    if k <= 0 {
        Seq::empty()
    } else {
        dll_lines_upto(libs, k - 1) + if ends_with(libs[k - 1]@, ".lib"@) {
            dll_copy_lines(libs[k - 1]@)
        } else {
            Seq::empty()
        }
    }
}

/// Vendor-library lines for one platform entry.
pub open spec fn vendor_platform_lines(platform: Seq<char>, libs: Seq<String>) -> Seq<Seq<char>> {
    if libs.len() == 0 {
        Seq::empty()
    } else {
        seq!["if("@ + spec_platform_condition(platform) + ")"@, "  target_link_libraries(${_comp_name} PRIVATE"@]
            + lib_path_lines_indented(libs) + seq!["  )"@] + (if lower(platform) == "windows"@ {
            dll_lines_upto(libs, libs.len() as int)
        } else {
            Seq::empty()
        }) + seq!["endif()"@]
    }
}

pub open spec fn vendor_per_platform(m: Seq<(String, Vec<String>)>, k: int) -> Seq<Seq<char>>
    decreases k,
{
    if k <= 0 {
        Seq::empty()
    } else {
        vendor_per_platform(m, k - 1) + vendor_platform_lines(m[k - 1].0@, m[k - 1].1@)
    }
}

/// The vendor-library lines of a component.
pub open spec fn spec_vendor_libs_lines(c: TritonComponent) -> Seq<Seq<char>> {
    match c.vendor_libs {
        VendorLibs::Unset => Seq::empty(),
        VendorLibs::All(libs) => if libs@.len() == 0 {
            Seq::empty()
        } else {
            seq!["target_link_libraries(${_comp_name} PRIVATE"@] + lib_path_lines(libs@) + seq![")"@]
        },
        VendorLibs::PerPlatform(m) => vendor_per_platform(m@, m@.len() as int),
    }
}

fn lib_line(p: &str) -> (res: String)
    ensures
        res@ == lib_path_line(p@),
{
    let r = cat5("    \"", "${CMAKE_CURRENT_SOURCE_DIR}/", p, "\"", "");
    proof {
        reveal_strlit("");
        assert(r@ =~= lib_path_line(p@));
    }
    r
}

fn dll_lines_for(libs: &Vec<String>) -> (res: Vec<String>)
    ensures
        views(res@) == dll_lines_upto(libs@, libs@.len() as int),
{
    let mut lines: Vec<String> = Vec::new();
    let mut k: usize = 0;
    while k < libs.len()
        invariant
            k <= libs@.len(),
            views(lines@) == dll_lines_upto(libs@, k as int),
        decreases libs.len() - k,
    {
        let lib = libs[k].as_str();
        if str_ends_with(lib, ".lib") {
            proof {
                reveal_strlit(".lib");
            }
            let c = chars_of(lib);
            let stem = string_from_range(&c, 0, c.len() - 3);
            let mut dll = stem;
            push_str(&mut dll, "dll");
            assert(dll@ =~= dll_of(libs@[k as int]@));
            push_line(&mut lines, cat5("  if(EXISTS \"", "${CMAKE_CURRENT_SOURCE_DIR}/", dll.as_str(), "\")", ""));
            push_line(&mut lines, cat5("    add_custom_command(TARGET ${_comp_name} POST_BUILD COMMAND ${CMAKE_COMMAND} -E copy_if_different \"", "${CMAKE_CURRENT_SOURCE_DIR}/", dll.as_str(), "\" \"$<TARGET_FILE_DIR:${_comp_name}>\")", ""));
            push_lit(&mut lines, "  endif()");
            proof {
                reveal_strlit("");
            }
        }
        assert(views(lines@) =~= dll_lines_upto(libs@, k + 1));
        k += 1;
    }
    lines
}

/// Vendor libraries of a component: linked for all platforms, or per
/// platform, with the sibling DLL of each Windows `.lib` copied next to the
/// executable.
pub fn gen_component_vendor_libs_lines(comp: &TritonComponent) -> (res: Vec<String>)
    ensures
        views(res@) == spec_vendor_libs_lines(*comp),
{
    let mut lines: Vec<String> = Vec::new();
    match &comp.vendor_libs {
        VendorLibs::Unset => {},
        VendorLibs::All(libs) => {
            if libs.len() > 0 {
                push_lit(&mut lines, "target_link_libraries(${_comp_name} PRIVATE");
                let mut k: usize = 0;
                while k < libs.len()
                    invariant
                        k <= libs@.len(),
                        views(lines@) == seq!["target_link_libraries(${_comp_name} PRIVATE"@] + lib_path_lines(libs@.take(k as int)),
                    decreases libs.len() - k,
                {
                    push_line(&mut lines, lib_line(libs[k].as_str()));
                    assert(lib_path_lines(libs@.take(k + 1)) =~= lib_path_lines(libs@.take(k as int)).push(lib_path_line(libs@[k as int]@)));
                    k += 1;
                }
                push_lit(&mut lines, ")");
                assert(libs@.take(libs@.len() as int) =~= libs@);
            }
        },
        VendorLibs::PerPlatform(m) => {
            let mut k: usize = 0;
            while k < m.len()
                invariant
                    k <= m@.len(),
                    views(lines@) == vendor_per_platform(m@, k as int),
                decreases m.len() - k,
            {
                let platform = &m[k].0;
                let libs = &m[k].1;
                if libs.len() > 0 {
                    let ghost before = views(lines@);
                    let cond = platform_to_cmake_condition(platform.as_str());
                    push_line(&mut lines, cat3("if(", cond.as_str(), ")"));
                    push_lit(&mut lines, "  target_link_libraries(${_comp_name} PRIVATE");
                    let mut q: usize = 0;
                    while q < libs.len()
                        invariant
                            q <= libs@.len(),
                            views(lines@) == before + seq!["if("@ + spec_platform_condition(platform@) + ")"@, "  target_link_libraries(${_comp_name} PRIVATE"@] + lib_path_lines_indented(libs@.take(q as int)),
                        decreases libs.len() - q,
                    {
                        let l = lib_line(libs[q].as_str());
                        push_line(&mut lines, crate::text::concat2("  ", l.as_str()));
                        assert(lib_path_lines_indented(libs@.take(q + 1)) =~= lib_path_lines_indented(libs@.take(q as int)).push("  "@ + lib_path_line(libs@[q as int]@)));
                        q += 1;
                    }
                    assert(libs@.take(libs@.len() as int) =~= libs@);
                    push_lit(&mut lines, "  )");
                    let lp = to_lower(platform.as_str());
                    if str_eq(lp.as_str(), "windows") {
                        let d = dll_lines_for(libs);
                        extend_lines(&mut lines, &d);
                    }
                    push_lit(&mut lines, "endif()");
                    assert(views(lines@) =~= before + vendor_platform_lines(platform@, libs@));
                }
                assert(views(lines@) =~= vendor_per_platform(m@, k + 1));
                k += 1;
            }
        },
    }
    assert(views(lines@) =~= spec_vendor_libs_lines(*comp));
    lines
}


// ---------------------------------------------------------------------------
// Component-to-component links
// ---------------------------------------------------------------------------

/// Lines that link one component and add its include directories.
pub open spec fn comp_link_lines(n: Seq<char>) -> Seq<Seq<char>> {
    seq![
        "target_link_libraries(${_comp_name} PRIVATE "@ + n + ")"@,
        "if(EXISTS \"${CMAKE_SOURCE_DIR}/"@ + n + "/include\")\n  target_include_directories(${_comp_name} PRIVATE \"${CMAKE_SOURCE_DIR}/"@ + n + "/include\")\nendif()"@,
        "if(EXISTS \"${CMAKE_SOURCE_DIR}/"@ + n + "\")\n  target_include_directories(${_comp_name} PRIVATE \"${CMAKE_SOURCE_DIR}/"@ + n + "\")\nendif()"@,
    ]
}

/// Component-link lines for the first `k` link entries (entries that name a
/// component of the project).
pub open spec fn comp_links_upto(r: TritonRoot, links: Seq<LinkEntry>, k: int) -> Seq<Seq<char>>
    decreases k,
{
    if k <= 0 {
        Seq::empty()
    } else {
        comp_links_upto(r, links, k - 1) + if has_component(r, entry_name(links[k - 1])) {
            comp_link_lines(entry_name(links[k - 1]))
        } else {
            Seq::empty()
        }
    }
}

pub open spec fn spec_component_link_lines(r: TritonRoot, c: TritonComponent) -> Seq<Seq<char>> {
    comp_links_upto(r, c.link@, c.link@.len() as int)
}

/// Links to other components of the project, with their include directories.
pub fn gen_component_link_lines(root: &TritonRoot, comp: &TritonComponent) -> (res: Vec<String>)
    ensures
        views(res@) == spec_component_link_lines(*root, *comp),
{
    let mut lines: Vec<String> = Vec::new();
    let mut k: usize = 0;
    while k < comp.link.len()
        invariant
            k <= comp.link@.len(),
            views(lines@) == comp_links_upto(*root, comp.link@, k as int),
        decreases comp.link.len() - k,
    {
        let (name, _) = comp.link[k].normalize();
        if contains_component(root, name.as_str()) {
            let n = name.as_str();
            push_line(&mut lines, cat3("target_link_libraries(${_comp_name} PRIVATE ", n, ")"));
            push_line(&mut lines, cat5("if(EXISTS \"${CMAKE_SOURCE_DIR}/", n, "/include\")\n  target_include_directories(${_comp_name} PRIVATE \"${CMAKE_SOURCE_DIR}/", n, "/include\")\nendif()"));
            push_line(&mut lines, cat5("if(EXISTS \"${CMAKE_SOURCE_DIR}/", n, "\")\n  target_include_directories(${_comp_name} PRIVATE \"${CMAKE_SOURCE_DIR}/", n, "\")\nendif()"));
        }
        assert(views(lines@) =~= comp_links_upto(*root, comp.link@, k + 1));
        k += 1;
    }
    lines
}

// ---------------------------------------------------------------------------
// Git dependencies
// ---------------------------------------------------------------------------

/// A `set(... CACHE ... FORCE)` line.
pub open spec fn cache_line(var: Seq<char>, val: Seq<char>, ty: Seq<char>) -> Seq<char> {
    "set("@ + var + " "@ + spec_cmake_quote(val) + " CACHE "@ + ty + " \"\" FORCE)"@
}

/// The cache line of one override, if it gives one.
pub open spec fn override_lines(ov: CMakeOverride) -> Seq<Seq<char>> {
    match ov {
        CMakeOverride::Entry(e) => seq![cache_line(e.var@, e.val@, if e.typ@.len() == 0 { "STRING"@ } else { e.typ@ })],
        CMakeOverride::KV(raw) => {
            let (var, val) = spec_split_kv(raw@);
            if trim(raw@).len() == 0 || var.len() == 0 {
                Seq::empty()
            } else {
                seq![cache_line(var, val, spec_infer_cmake_type(val))]
            }
        },
    }
}

pub open spec fn overrides_upto(ovs: Seq<CMakeOverride>, k: int) -> Seq<Seq<char>>
    decreases k,
{
    if k <= 0 {
        Seq::empty()
    } else {
        overrides_upto(ovs, k - 1) + override_lines(ovs[k - 1])
    }
}

/// The cache-override lines of a git dependency, then a blank line.
pub open spec fn spec_cache_override_lines(g: GitDep) -> Seq<Seq<char>> {
    overrides_upto(g.cmake@, g.cmake@.len() as int).push(Seq::empty())
}

fn cache_line_exec(var: &str, val: &str, ty: &str) -> (res: String)
    ensures
        res@ == cache_line(var@, val@, ty@),
{
    let q = cmake_quote(val);
    let r = cat7("set(", var, " ", q.as_str(), " CACHE ", ty, " \"\" FORCE)");
    assert(r@ =~= cache_line(var@, val@, ty@));
    r
}

/// Appends the CMake cache overrides of a git dependency, then a blank line.
pub fn push_git_cache_overrides(lines: &mut Vec<String>, g: &GitDep)
    ensures
        views(final(lines)@) == views(old(lines)@) + spec_cache_override_lines(*g),
{
    let mut k: usize = 0;
    while k < g.cmake.len()
        invariant
            k <= g.cmake@.len(),
            views(lines@) == views(old(lines)@) + overrides_upto(g.cmake@, k as int),
        decreases g.cmake.len() - k,
    {
        match &g.cmake[k] {
            CMakeOverride::Entry(e) => {
                let ty: &str = if e.typ.as_str().is_empty() { "STRING" } else { e.typ.as_str() };
                push_line(lines, cache_line_exec(e.var.as_str(), e.val.as_str(), ty));
            },
            CMakeOverride::KV(raw) => {
                if !is_blank(raw.as_str()) {
                    let (var, val) = split_kv(raw.as_str());
                    if !var.as_str().is_empty() {
                        let ty = infer_cmake_type(val.as_str());
                        push_line(lines, cache_line_exec(var.as_str(), val.as_str(), ty));
                    }
                }
            },
        }
        assert(views(lines@) =~= views(old(lines)@) + overrides_upto(g.cmake@, k + 1));
        k += 1;
    }
    push_line(lines, String::new());
    assert(views(lines@) =~= views(old(lines)@) + spec_cache_override_lines(*g));
}

/// The strict add-subdirectory-and-link line of a git dependency, then a blank line.
pub open spec fn spec_emit_git_dep(g: GitDep) -> Seq<Seq<char>> {
    seq![
        "triton_add_subdir_and_link_strict(${_comp_name} \"${CMAKE_SOURCE_DIR}/../third_party/"@ + g.name@ + "\" \""@ + g.name@ + "\")"@,
        Seq::empty(),
    ]
}

/// Appends the strict add-and-link call for a git dependency without explicit targets.
pub fn emit_git_dep(lines: &mut Vec<String>, g: &GitDep)
    ensures
        views(final(lines)@) == views(old(lines)@) + spec_emit_git_dep(*g),
{
    push_line(lines, cat5("triton_add_subdir_and_link_strict(${_comp_name} \"${CMAKE_SOURCE_DIR}/../third_party/", g.name.as_str(), "\" \"", g.name.as_str(), "\")"));
    push_line(lines, String::new());
    assert(views(lines@) =~= views(old(lines)@) + spec_emit_git_dep(*g));
}

/// The fixed lines that add a git dependency's source tree once.
pub open spec fn git_subdir_lines(n: Seq<char>) -> Seq<Seq<char>> {
    seq![
        "set(_triton_src \"${CMAKE_SOURCE_DIR}/../third_party/"@ + n + "\")"@,
        "set(_triton_bin \"${CMAKE_BINARY_DIR}/third_party/"@ + n + "\")"@,
        "get_property(_triton_added GLOBAL PROPERTY TRITON_ADDED_SUBDIRS)"@,
        "if(NOT _triton_added)"@,
        "  set(_triton_added \"\")"@,
        "endif()"@,
        "list(FIND _triton_added \"${_triton_src}|${_triton_bin}\" _ix)"@,
        "if(_ix EQUAL -1)"@,
        "  add_subdirectory(\"${_triton_src}\" \"${_triton_bin}\" EXCLUDE_FROM_ALL)"@,
        "  set_property(GLOBAL PROPERTY TRITON_ADDED_SUBDIRS \"${_triton_added};${_triton_src}|${_triton_bin}\")"@,
        "endif()"@,
    ]
}

/// The block that aliases and links one target of a git dependency.
pub open spec fn git_target_block(dep: Seq<char>, t: Seq<char>, vis: Seq<char>) -> Seq<char> {
    "if(TARGET "@ + t + ")\n  if(NOT TARGET triton::"@ + dep + "::"@ + t + ")\n    add_library(triton::"@ + dep
        + "::"@ + t + " ALIAS "@ + t + ")\n  endif()\n  "@ + link_target_line(vis, "triton::"@ + dep + "::"@ + t)
        + "\nelse()\n  message(FATAL_ERROR \"git dep '"@ + dep
        + "' present but target '"@ + t + "' not found\")\nendif()"@
}

pub open spec fn vis_word(public: bool) -> Seq<char> {
    if public { "PUBLIC"@ } else { "PRIVATE"@ }
}

pub open spec fn git_targets_upto(dep: Seq<char>, ts: Seq<Seq<char>>, vis: Seq<char>, k: int) -> Seq<Seq<char>>
    decreases k,
{
    if k <= 0 {
        Seq::empty()
    } else {
        git_targets_upto(dep, ts, vis, k - 1).push(git_target_block(dep, ts[k - 1], vis))
    }
}

/// The first git dependency with this exact name.
pub open spec fn git_dep_named(deps: Seq<DepSpec>, n: Seq<char>) -> Option<GitDep>
    decreases deps.len(),
{
    if deps.len() == 0 {
        None
    } else {
        match deps[0] {
            DepSpec::Git(g) => if g.name@ == n { Some(g) } else { git_dep_named(deps.drop_first(), n) },
            _ => git_dep_named(deps.drop_first(), n),
        }
    }
}

/// Lines for one git specification.
pub open spec fn git_spec_lines(r: TritonRoot, s: GitV) -> Seq<Seq<char>> {
    match git_dep_named(r.deps@, s.0) {
        None => Seq::empty(),
        Some(g) => spec_cache_override_lines(g) + if s.1.len() > 0 {
            git_subdir_lines(g.name@) + git_targets_upto(g.name@, s.1, vis_word(s.2), s.1.len() as int)
                + seq![Seq::<char>::empty()]
        } else {
            spec_emit_git_dep(g)
        },
    }
}

pub open spec fn git_lines_upto(r: TritonRoot, specs: Seq<GitV>, k: int) -> Seq<Seq<char>>
    decreases k,
{
    if k <= 0 {
        Seq::empty()
    } else {
        git_lines_upto(r, specs, k - 1) + git_spec_lines(r, specs[k - 1])
    }
}

/// The git-dependency lines for the given effective specifications.
pub open spec fn spec_git_dep_lines(r: TritonRoot, specs: Seq<GitV>) -> Seq<Seq<char>> {
    git_lines_upto(r, specs, specs.len() as int)
}

fn find_git_dep<'a>(r: &'a TritonRoot, n: &str) -> (res: Option<&'a GitDep>)
    ensures
        match res {
            Some(g) => git_dep_named(r.deps@, n@) == Some(*g),
            None => git_dep_named(r.deps@, n@) is None,
        },
{
    let mut i: usize = 0;
    assert(r.deps@.skip(0) =~= r.deps@);
    while i < r.deps.len()
        invariant
            i <= r.deps@.len(),
            git_dep_named(r.deps@.skip(i as int), n@) == git_dep_named(r.deps@, n@),
        decreases r.deps.len() - i,
    {
        proof {
            assert(r.deps@.skip(i as int).drop_first() =~= r.deps@.skip(i + 1));
            assert(r.deps@.skip(i as int)[0] == r.deps@[i as int]);
        }
        match &r.deps[i] {
            DepSpec::Git(g) => {
                if str_eq(g.name.as_str(), n) {
                    return Some(g);
                }
            },
            _ => {},
        }
        i += 1;
    }
    assert(r.deps@.skip(r.deps@.len() as int) =~= Seq::<DepSpec>::empty());
    None
}

fn git_target_block_exec(dep: &str, t: &str, vis: &str) -> (res: String)
    ensures
        res@ == git_target_block(dep@, t@, vis@),
{
    let mut s = cat5("if(TARGET ", t, ")\n  if(NOT TARGET triton::", dep, "::");
    push_str(&mut s, t);
    push_str(&mut s, ")\n    add_library(triton::");
    push_str(&mut s, dep);
    push_str(&mut s, "::");
    push_str(&mut s, t);
    push_str(&mut s, " ALIAS ");
    push_str(&mut s, t);
    push_str(&mut s, ")\n  endif()\n  ");
    push_str(&mut s, "target_link_libraries(${_comp_name} ");
    push_str(&mut s, vis);
    push_str(&mut s, " ");
    push_str(&mut s, "triton::");
    push_str(&mut s, dep);
    push_str(&mut s, "::");
    push_str(&mut s, t);
    push_str(&mut s, ")");
    push_str(&mut s, "\nelse()\n  message(FATAL_ERROR \"git dep '");
    push_str(&mut s, dep);
    push_str(&mut s, "' present but target '");
    push_str(&mut s, t);
    push_str(&mut s, "' not found\")\nendif()");
    assert(s@ =~= git_target_block(dep@, t@, vis@));
    s
}

fn push_git_spec_lines(out: &mut Vec<String>, root: &TritonRoot, spec: &GitSpec)
    ensures
        views(final(out)@) == views(old(out)@) + git_spec_lines(*root, git_view(*spec)),
{
    let ghost before = views(out@);
    match find_git_dep(root, spec.name.as_str()) {
        None => {},
        Some(g) => {
            push_git_cache_overrides(out, g);
            if spec.targets.len() > 0 {
                push_line(out, cat3("set(_triton_src \"${CMAKE_SOURCE_DIR}/../third_party/", g.name.as_str(), "\")"));
                push_line(out, cat3("set(_triton_bin \"${CMAKE_BINARY_DIR}/third_party/", g.name.as_str(), "\")"));
                push_lit(out, "get_property(_triton_added GLOBAL PROPERTY TRITON_ADDED_SUBDIRS)");
                push_lit(out, "if(NOT _triton_added)");
                push_lit(out, "  set(_triton_added \"\")");
                push_lit(out, "endif()");
                push_lit(out, "list(FIND _triton_added \"${_triton_src}|${_triton_bin}\" _ix)");
                push_lit(out, "if(_ix EQUAL -1)");
                push_lit(out, "  add_subdirectory(\"${_triton_src}\" \"${_triton_bin}\" EXCLUDE_FROM_ALL)");
                push_lit(out, "  set_property(GLOBAL PROPERTY TRITON_ADDED_SUBDIRS \"${_triton_added};${_triton_src}|${_triton_bin}\")");
                push_lit(out, "endif()");
                let ghost mid = views(out@);
                assert(mid =~= before + spec_cache_override_lines(*g) + git_subdir_lines(g.name@));
                let vis: &str = if spec.public { "PUBLIC" } else { "PRIVATE" };
                let mut q: usize = 0;
                while q < spec.targets.len()
                    invariant
                        q <= spec.targets@.len(),
                        vis@ == vis_word(spec.public),
                        views(out@) == mid + git_targets_upto(g.name@, views(spec.targets@), vis@, q as int),
                    decreases spec.targets.len() - q,
                {
                    push_line(out, git_target_block_exec(g.name.as_str(), spec.targets[q].as_str(), vis));
                    q += 1;
                }
                push_line(out, String::new());
            } else {
                emit_git_dep(out, g);
            }
        },
    }
    assert(views(out@) =~= before + git_spec_lines(*root, git_view(*spec)));
}

/// Lines that add and link git dependencies for the given specifications.
pub fn git_dep_lines_for(root: &TritonRoot, specs: &Vec<GitSpec>) -> (res: Vec<String>)
    ensures
        views(res@) == spec_git_dep_lines(*root, git_views(specs@)),
{
    let mut out: Vec<String> = Vec::new();
    let mut k: usize = 0;
    while k < specs.len()
        invariant
            k <= specs@.len(),
            views(out@) == git_lines_upto(*root, git_views(specs@), k as int),
        decreases specs.len() - k,
    {
        push_git_spec_lines(&mut out, root, &specs[k]);
        assert(git_views(specs@)[k as int] == git_view(specs@[k as int]));
        assert(views(out@) =~= git_lines_upto(*root, git_views(specs@), k + 1));
        k += 1;
    }
    out
}

/// Lines are the git-dependency lines of a component for one resolution of
/// upstream dependency entries.
pub open spec fn git_lines_ok(r: TritonRoot, name: Seq<char>, c: TritonComponent, lines: Seq<Seq<char>>) -> bool {
    exists|ups: Seq<UpRes>| ups_ok(r, name, c, ups) && lines == spec_git_dep_lines(r, spec_git_specs(r, name, c, ups))
}

/// The git-dependency lines of a component.
pub fn gen_git_dep_lines(root: &TritonRoot, comp_name: &str, comp: &TritonComponent) -> (res: Vec<String>)
    requires
        crate::models::distinct_keys(root.components@),
    ensures
        git_lines_ok(*root, comp_name@, *comp, views(res@)),
{
    let specs = build_effective_git_specs(root, comp_name, comp);
    git_dep_lines_for(root, &specs)
}

// ---------------------------------------------------------------------------
// vcpkg dependencies
// ---------------------------------------------------------------------------

/// The block that links one target of a found package.
/// The command that links target `t` with visibility `vis`.
pub open spec fn link_target_line(vis: Seq<char>, t: Seq<char>) -> Seq<char> {
    "target_link_libraries(${_comp_name} "@ + vis + " "@ + t + ")"@
}

pub open spec fn vcpkg_target_block(p: Seq<char>, t: Seq<char>, vis: Seq<char>) -> Seq<char> {
    "if(TARGET "@ + t + ")\n  "@ + link_target_line(vis, t)
        + "\nelse()\n  message(FATAL_ERROR \"Package '"@ + p + "' found but target '"@ + t
        + "' not defined.\")\nendif()"@
}

pub open spec fn vcpkg_targets_upto(p: Seq<char>, ts: Seq<Seq<char>>, vis: Seq<char>, k: int) -> Seq<Seq<char>>
    decreases k,
{
    if k <= 0 {
        Seq::empty()
    } else {
        vcpkg_targets_upto(p, ts, vis, k - 1).push(vcpkg_target_block(p, ts[k - 1], vis))
    }
}

/// Lines for one vcpkg specification.
pub open spec fn vcpkg_spec_lines(s: VcpkgV) -> Seq<Seq<char>> {
    match s.1 {
        Some(pkg) => if s.2.len() == 0 {
            seq![
                "# vcpkg: "@ + s.0 + " (package: "@ + pkg + "; using strict finder)"@,
                "triton_find_vcpkg_and_link_strict(${_comp_name} \""@ + pkg + "\")"@,
                Seq::empty(),
            ]
        } else {
            seq!["find_package("@ + pkg + " CONFIG REQUIRED)"@] + vcpkg_targets_upto(pkg, s.2, vis_word(s.3), s.2.len() as int)
                + seq![Seq::<char>::empty()]
        },
        None => seq![
            "# vcpkg: "@ + s.0 + " (no package hint; using strict finder)"@,
            "triton_find_vcpkg_and_link_strict(${_comp_name} \""@ + s.0 + "\")"@,
            Seq::empty(),
        ],
    }
}

pub open spec fn vcpkg_lines_upto(specs: Seq<VcpkgV>, k: int) -> Seq<Seq<char>>
    decreases k,
{
    if k <= 0 {
        Seq::empty()
    } else {
        vcpkg_lines_upto(specs, k - 1) + vcpkg_spec_lines(specs[k - 1])
    }
}

pub open spec fn spec_vcpkg_dep_lines(specs: Seq<VcpkgV>) -> Seq<Seq<char>> {
    vcpkg_lines_upto(specs, specs.len() as int)
}

fn vcpkg_target_block_exec(p: &str, t: &str, vis: &str) -> (res: String)
    ensures
        res@ == vcpkg_target_block(p@, t@, vis@),
{
    let mut s = cat3("if(TARGET ", t, ")\n  ");
    push_str(&mut s, "target_link_libraries(${_comp_name} ");
    push_str(&mut s, vis);
    push_str(&mut s, " ");
    push_str(&mut s, t);
    push_str(&mut s, ")");
    push_str(&mut s, "\nelse()\n  message(FATAL_ERROR \"Package '");
    push_str(&mut s, p);
    push_str(&mut s, "' found but target '");
    push_str(&mut s, t);
    push_str(&mut s, "' not defined.\")\nendif()");
    assert(s@ =~= vcpkg_target_block(p@, t@, vis@));
    s
}

proof fn lemma_block_links(p: Seq<char>, t: Seq<char>, vis: Seq<char>)
    ensures
        contains(vcpkg_target_block(p, t, vis), link_target_line(vis, t)),
{
    let a = "if(TARGET "@ + t + ")\n  "@;
    let l = link_target_line(vis, t);
    let b = vcpkg_target_block(p, t, vis);
    assert(b.subrange(a.len() as int, (a.len() + l.len()) as int) =~= l);
    assert(occurs_at(b, l, a.len() as int));
}

proof fn lemma_targets_upto_at(p: Seq<char>, ts: Seq<Seq<char>>, vis: Seq<char>, n: int, j: int)
    requires
        0 <= j < n,
    ensures
        vcpkg_targets_upto(p, ts, vis, n).len() == n,
        vcpkg_targets_upto(p, ts, vis, n)[j] == vcpkg_target_block(p, ts[j], vis),
    decreases n,
{
    if n - 1 > 0 {
        lemma_targets_upto_at(p, ts, vis, n - 1, if j < n - 1 { j } else { 0 });
    } else {
        assert(vcpkg_targets_upto(p, ts, vis, 0).len() == 0);
    }
}

proof fn lemma_lines_upto_has(specs: Seq<VcpkgV>, n: int, k: int, q: int)
    requires
        0 <= k < n,
        0 <= q < vcpkg_spec_lines(specs[k]).len(),
    ensures
        exists|m: int| 0 <= m < vcpkg_lines_upto(specs, n).len() && vcpkg_lines_upto(specs, n)[m] == vcpkg_spec_lines(specs[k])[q],
    decreases n,
{
    let prev = vcpkg_lines_upto(specs, n - 1);
    let cur = vcpkg_lines_upto(specs, n);
    if k < n - 1 {
        lemma_lines_upto_has(specs, n - 1, k, q);
        let m = choose|m: int| 0 <= m < prev.len() && prev[m] == vcpkg_spec_lines(specs[k])[q];
        assert(cur[m] == prev[m]);
    } else {
        assert(cur[prev.len() + q] == vcpkg_spec_lines(specs[k])[q]);
    }
}

/// Some line holds the command that links target `t`, publicly or
/// privately as `public` says.
pub open spec fn links_target(lines: Seq<Seq<char>>, public: bool, t: Seq<char>) -> bool {
    exists|m: int|
        0 <= m < lines.len() && contains(
            #[trigger] lines[m],
            "target_link_libraries(${_comp_name} "@ + (if public { "PUBLIC"@ } else { "PRIVATE"@ }) + " "@ + t + ")"@,
        )
}

/// The vcpkg lines link every target of every specification that names a
/// package, publicly exactly when the specification is public.
pub proof fn lemma_vcpkg_lines_link_targets(specs: Seq<VcpkgV>)
    ensures
        forall|k: int, j: int|
            #![trigger specs[k].2[j]]
            0 <= k < specs.len() && specs[k].1 is Some && 0 <= j < specs[k].2.len() ==> links_target(
                spec_vcpkg_dep_lines(specs),
                specs[k].3,
                specs[k].2[j],
            ),
{
    let lines = spec_vcpkg_dep_lines(specs);
    assert forall|k: int, j: int|
        #![trigger specs[k].2[j]]
        0 <= k < specs.len() && specs[k].1 is Some && 0 <= j < specs[k].2.len() implies links_target(
            lines,
            specs[k].3,
            specs[k].2[j],
        ) by {
        let s = specs[k];
        let pkg = s.1->0;
        let vis = if s.3 { "PUBLIC"@ } else { "PRIVATE"@ };
        lemma_targets_upto_at(pkg, s.2, vis_word(s.3), s.2.len() as int, j);
        assert(vcpkg_spec_lines(s)[1 + j] == vcpkg_target_block(pkg, s.2[j], vis));
        lemma_lines_upto_has(specs, specs.len() as int, k, 1 + j);
        let m = choose|m: int| 0 <= m < vcpkg_lines_upto(specs, specs.len() as int).len()
            && vcpkg_lines_upto(specs, specs.len() as int)[m] == vcpkg_spec_lines(specs[k])[1 + j];
        assert(lines[m] == vcpkg_target_block(pkg, s.2[j], vis));
        lemma_block_links(pkg, s.2[j], vis);
        assert(contains(lines[m], link_target_line(vis, s.2[j])));
    }
}

/// A component links each target of a vcpkg dependency with a package
/// publicly when it exports that dependency, and privately otherwise.
pub proof fn lemma_exported_deps_link_public(r: TritonRoot, comp_name: Seq<char>, c: TritonComponent, ups: Seq<UpRes>)
    requires
        ups_ok(r, comp_name, c, ups),
    ensures
        ({
            let specs = spec_vcpkg_specs(r, comp_name, c, ups);
            forall|k: int, j: int|
                #![trigger specs[k].2[j]]
                0 <= k < specs.len() && specs[k].1 is Some && 0 <= j < specs[k].2.len() ==> links_target(
                    spec_vcpkg_dep_lines(specs),
                    exports_has(c, specs[k].0),
                    specs[k].2[j],
                )
        }),
{
    let specs = spec_vcpkg_specs(r, comp_name, c, ups);
    lemma_vcpkg_specs_shape(r, comp_name, c, ups);
    lemma_vcpkg_lines_link_targets(specs);
    let l = crate::cmake::resolution::vcpkg_from_links(r, c, c.link@.len() as int);
    assert forall|k: int| 0 <= k < specs.len() implies specs[k].3 == exports_has(c, #[trigger] specs[k].0) by {
        if k < l.len() {
            assert(from_link_ok(r, c, specs[k]));
        } else {
            assert(from_export_ok(r, c, ups, specs[k]));
        }
    }
}

proof fn lemma_git_block_links(dep: Seq<char>, t: Seq<char>, vis: Seq<char>)
    ensures
        contains(git_target_block(dep, t, vis), link_target_line(vis, "triton::"@ + dep + "::"@ + t)),
{
    let a = "if(TARGET "@ + t + ")\n  if(NOT TARGET triton::"@ + dep + "::"@ + t + ")\n    add_library(triton::"@ + dep
        + "::"@ + t + " ALIAS "@ + t + ")\n  endif()\n  "@;
    let l = link_target_line(vis, "triton::"@ + dep + "::"@ + t);
    let b = git_target_block(dep, t, vis);
    assert(b.subrange(a.len() as int, (a.len() + l.len()) as int) =~= l);
    assert(occurs_at(b, l, a.len() as int));
}

proof fn lemma_git_targets_upto_at(dep: Seq<char>, ts: Seq<Seq<char>>, vis: Seq<char>, n: int, j: int)
    requires
        0 <= j < n,
    ensures
        git_targets_upto(dep, ts, vis, n).len() == n,
        git_targets_upto(dep, ts, vis, n)[j] == git_target_block(dep, ts[j], vis),
    decreases n,
{
    if n - 1 > 0 {
        lemma_git_targets_upto_at(dep, ts, vis, n - 1, if j < n - 1 { j } else { 0 });
    } else {
        assert(git_targets_upto(dep, ts, vis, 0).len() == 0);
    }
}

proof fn lemma_git_lines_upto_has(r: TritonRoot, specs: Seq<GitV>, n: int, k: int, q: int)
    requires
        0 <= k < n,
        0 <= q < git_spec_lines(r, specs[k]).len(),
    ensures
        exists|m: int| 0 <= m < git_lines_upto(r, specs, n).len() && git_lines_upto(r, specs, n)[m] == git_spec_lines(r, specs[k])[q],
    decreases n,
{
    let prev = git_lines_upto(r, specs, n - 1);
    let cur = git_lines_upto(r, specs, n);
    if k < n - 1 {
        lemma_git_lines_upto_has(r, specs, n - 1, k, q);
        let m = choose|m: int| 0 <= m < prev.len() && prev[m] == git_spec_lines(r, specs[k])[q];
        assert(cur[m] == prev[m]);
    } else {
        assert(cur[prev.len() + q] == git_spec_lines(r, specs[k])[q]);
    }
}

proof fn lemma_git_dep_named_name(deps: Seq<DepSpec>, n: Seq<char>)
    ensures
        git_dep_named(deps, n) matches Some(g) ==> g.name@ == n,
    decreases deps.len(),
{
    if deps.len() > 0 {
        lemma_git_dep_named_name(deps.drop_first(), n);
    }
}

/// The git lines link every target of every specification whose git
/// dependency is declared, as `triton::<dep>::<target>`, publicly exactly
/// when the specification is public.
pub proof fn lemma_git_lines_link_targets(r: TritonRoot, specs: Seq<GitV>)
    ensures
        forall|k: int, j: int|
            #![trigger specs[k].1[j]]
            0 <= k < specs.len() && git_dep_named(r.deps@, specs[k].0) is Some && 0 <= j < specs[k].1.len() ==> links_target(
                spec_git_dep_lines(r, specs),
                specs[k].2,
                "triton::"@ + specs[k].0 + "::"@ + specs[k].1[j],
            ),
{
    let lines = spec_git_dep_lines(r, specs);
    assert forall|k: int, j: int|
        #![trigger specs[k].1[j]]
        0 <= k < specs.len() && git_dep_named(r.deps@, specs[k].0) is Some && 0 <= j < specs[k].1.len() implies links_target(
            lines,
            specs[k].2,
            "triton::"@ + specs[k].0 + "::"@ + specs[k].1[j],
        ) by {
        let s = specs[k];
        let g = git_dep_named(r.deps@, s.0)->0;
        lemma_git_dep_named_name(r.deps@, s.0);
        let vis = if s.2 { "PUBLIC"@ } else { "PRIVATE"@ };
        lemma_git_targets_upto_at(g.name@, s.1, vis_word(s.2), s.1.len() as int, j);
        let off = spec_cache_override_lines(g).len() + git_subdir_lines(g.name@).len();
        assert(git_spec_lines(r, s)[off + j] == git_target_block(g.name@, s.1[j], vis));
        lemma_git_lines_upto_has(r, specs, specs.len() as int, k, off + j);
        let m = choose|m: int| 0 <= m < git_lines_upto(r, specs, specs.len() as int).len()
            && git_lines_upto(r, specs, specs.len() as int)[m] == git_spec_lines(r, specs[k])[off + j];
        assert(lines[m] == git_target_block(g.name@, s.1[j], vis));
        lemma_git_block_links(g.name@, s.1[j], vis);
        assert(contains(lines[m], link_target_line(vis, "triton::"@ + s.0 + "::"@ + s.1[j])));
    }
}

/// A component links each target of a declared git dependency publicly when
/// it exports that dependency, and privately otherwise.
pub proof fn lemma_exported_git_deps_link_public(r: TritonRoot, comp_name: Seq<char>, c: TritonComponent, ups: Seq<UpRes>)
    requires
        ups_ok(r, comp_name, c, ups),
    ensures
        ({
            let specs = spec_git_specs(r, comp_name, c, ups);
            forall|k: int, j: int|
                #![trigger specs[k].1[j]]
                0 <= k < specs.len() && git_dep_named(r.deps@, specs[k].0) is Some && 0 <= j < specs[k].1.len() ==> links_target(
                    spec_git_dep_lines(r, specs),
                    exports_has(c, specs[k].0),
                    "triton::"@ + specs[k].0 + "::"@ + specs[k].1[j],
                )
        }),
{
    let specs = spec_git_specs(r, comp_name, c, ups);
    lemma_git_lines_link_targets(r, specs);
    crate::cmake::resolution::lemma_git_specs_public(r, c, ups, c.exports@.len() as int);
}

/// Lines that find and link vcpkg packages for the given specifications.
pub fn vcpkg_dep_lines_for(specs: &Vec<VcpkgSpec>) -> (res: Vec<String>)
    ensures
        views(res@) == spec_vcpkg_dep_lines(vcpkg_views(specs@)),
{
    let mut lines: Vec<String> = Vec::new();
    let mut k: usize = 0;
    while k < specs.len()
        invariant
            k <= specs@.len(),
            views(lines@) == vcpkg_lines_upto(vcpkg_views(specs@), k as int),
        decreases specs.len() - k,
    {
        let spec = &specs[k];
        let ghost before = views(lines@);
        match &spec.pkg_hint {
            Some(pkg) => {
                if spec.targets.len() == 0 {
                    push_line(&mut lines, cat5("# vcpkg: ", spec.name.as_str(), " (package: ", pkg.as_str(), "; using strict finder)"));
                    push_line(&mut lines, cat3("triton_find_vcpkg_and_link_strict(${_comp_name} \"", pkg.as_str(), "\")"));
                    push_line(&mut lines, String::new());
                } else {
                    push_line(&mut lines, cat3("find_package(", pkg.as_str(), " CONFIG REQUIRED)"));
                    let ghost mid = views(lines@);
                    let vis: &str = if spec.public { "PUBLIC" } else { "PRIVATE" };
                    let mut q: usize = 0;
                    while q < spec.targets.len()
                        invariant
                            q <= spec.targets@.len(),
                            vis@ == vis_word(spec.public),
                            views(lines@) == mid + vcpkg_targets_upto(pkg@, views(spec.targets@), vis@, q as int),
                        decreases spec.targets.len() - q,
                    {
                        push_line(&mut lines, vcpkg_target_block_exec(pkg.as_str(), spec.targets[q].as_str(), vis));
                        q += 1;
                    }
                    push_line(&mut lines, String::new());
                }
            },
            None => {
                push_line(&mut lines, cat3("# vcpkg: ", spec.name.as_str(), " (no package hint; using strict finder)"));
                push_line(&mut lines, cat3("triton_find_vcpkg_and_link_strict(${_comp_name} \"", spec.name.as_str(), "\")"));
                push_line(&mut lines, String::new());
            },
        }
        assert(views(lines@) =~= vcpkg_lines_upto(vcpkg_views(specs@), k + 1));
        k += 1;
    }
    lines
}

/// Lines are the vcpkg-dependency lines of a component for one resolution of
/// upstream dependency entries.
pub open spec fn vcpkg_lines_ok(r: TritonRoot, name: Seq<char>, c: TritonComponent, lines: Seq<Seq<char>>) -> bool {
    exists|ups: Seq<UpRes>| ups_ok(r, name, c, ups) && lines == spec_vcpkg_dep_lines(spec_vcpkg_specs(r, name, c, ups))
}

/// The vcpkg-dependency lines of a component.
pub fn gen_vcpkg_dep_lines(root: &TritonRoot, comp: &TritonComponent, comp_name: &str) -> (res: Vec<String>)
    requires
        crate::models::distinct_keys(root.components@),
    ensures
        vcpkg_lines_ok(*root, comp_name@, *comp, views(res@)),
{
    let specs = build_effective_vcpkg_specs(root, comp_name, comp);
    vcpkg_dep_lines_for(&specs)
}

} // verus!
