//! CMake lines for the per-target settings of a component: its extra
//! include directories, extra sources, system libraries, and language
//! standards.
//!
//! Paths of the model are relative to the component's directory, or to the
//! project when they start with `@root/`.

use vstd::prelude::*;
use crate::models::TritonComponent;
use crate::text::{
    views, trim, replace_char, starts_with, join, chars_of, string_from_range, trim_str,
    replace_char_str, str_starts_with, is_blank, cat3, cat5, concat2, push_line, push_lit,
    str_eq, join_strings,
};
use crate::util::cmake_helpers::{spec_cmake_quote, cmake_quote};
use crate::cmake::languages::ComponentLanguageSettings;

verus! {

/// A path of the model as CMake sees it, and as it is shown: with `\` made
/// `/` and trimmed; under `${CMAKE_SOURCE_DIR}/../` when it starts with
/// `@root/` (which is dropped), else under the directory variable `var`.
pub open spec fn spec_staged_source(raw: Seq<char>, var: Seq<char>) -> (Seq<char>, Seq<char>) {
    let n = replace_char(trim(raw), '\\', '/');
    if starts_with(n, "@root/"@) {
        ("${CMAKE_SOURCE_DIR}/../"@ + n.skip(6), n.skip(6))
    } else {
        (var + "/"@ + n, n)
    }
}

/// See `spec_staged_source`.
pub fn staged_source_expr(raw: &str, var: &str) -> (res: (String, String))
    ensures
        (res.0@, res.1@) == spec_staged_source(raw@, var@),
{
    let t = trim_str(raw);
    let n = replace_char_str(t.as_str(), '\\', '/');
    if str_starts_with(n.as_str(), "@root/") {
        proof {
            reveal_strlit("@root/");
        }
        let v = chars_of(n.as_str());
        let rest = string_from_range(&v, 6, v.len());
        assert(rest@ =~= n@.skip(6));
        (concat2("${CMAKE_SOURCE_DIR}/../", rest.as_str()), rest)
    } else {
        (cat3(var, "/", n.as_str()), n)
    }
}

/// Where a path of a component's model is found.
pub open spec fn source_expr(raw: Seq<char>) -> Seq<char> {
    spec_staged_source(trim(raw), "${CMAKE_CURRENT_SOURCE_DIR}"@).0
}

// ---------------------------------------------------------------------------
// Include directories
// ---------------------------------------------------------------------------

/// The visibility of a component's include directories: private to an
/// executable, public for a library.
pub open spec fn include_visibility(c: TritonComponent) -> Seq<char> {
    if c.kind@ == "exe"@ { "PRIVATE"@ } else { "PUBLIC"@ }
}

/// One include line for each non-blank directory among the first `k`.
pub open spec fn include_lines_upto(dirs: Seq<String>, vis: Seq<char>, k: int) -> Seq<Seq<char>>
    decreases k,
{
    if k <= 0 {
        Seq::empty()
    } else {
        include_lines_upto(dirs, vis, k - 1) + if trim(dirs[k - 1]@).len() == 0 {
            Seq::empty()
        } else {
            seq!["target_include_directories(${_comp_name} "@ + vis + " \""@ + source_expr(dirs[k - 1]@) + "\")"@]
        }
    }
}

/// The include-directory lines of a component: none without directories,
/// else a property marking them as set by hand, then one line per non-blank
/// directory.
pub open spec fn spec_include_dirs_lines(c: TritonComponent) -> Seq<Seq<char>> {
    if c.include_dirs@.len() == 0 {
        Seq::empty()
    } else {
        seq!["set_property(TARGET ${_comp_name} PROPERTY TRITON_MANUAL_INCLUDE_DIRS TRUE)"@]
            + include_lines_upto(c.include_dirs@, include_visibility(c), c.include_dirs@.len() as int)
    }
}

/// See `spec_include_dirs_lines`.
pub fn gen_component_include_dirs_lines(comp: &TritonComponent) -> (res: Vec<String>)
    ensures
        views(res@) == spec_include_dirs_lines(*comp),
{
    let mut lines: Vec<String> = Vec::new();
    if comp.include_dirs.len() == 0 {
        return lines;
    }
    proof {
        reveal_strlit("exe");
    }
    let vis = if str_eq(comp.kind.as_str(), "exe") { "PRIVATE" } else { "PUBLIC" };
    assert(vis@ == include_visibility(*comp));
    push_lit(&mut lines, "set_property(TARGET ${_comp_name} PROPERTY TRITON_MANUAL_INCLUDE_DIRS TRUE)");
    let ghost head = views(lines@);
    let mut k: usize = 0;
    while k < comp.include_dirs.len()
        invariant
            k <= comp.include_dirs@.len(),
            vis@ == include_visibility(*comp),
            views(lines@) == head + include_lines_upto(comp.include_dirs@, vis@, k as int),
        decreases comp.include_dirs.len() - k,
    {
        let raw = comp.include_dirs[k].as_str();
        if !is_blank(raw) {
            let t = trim_str(raw);
            let (expr, _) = staged_source_expr(t.as_str(), "${CMAKE_CURRENT_SOURCE_DIR}");
            let line = cat5("target_include_directories(${_comp_name} ", vis, " \"", expr.as_str(), "\")");
            push_line(&mut lines, line);
        }
        k += 1;
    }
    lines
}

// ---------------------------------------------------------------------------
// Extra sources
// ---------------------------------------------------------------------------

/// The lines that add one extra source when it exists, and warn otherwise.
pub open spec fn source_block(raw: Seq<char>) -> Seq<Seq<char>> {
    let (expr, shown) = spec_staged_source(trim(raw), "${CMAKE_CURRENT_SOURCE_DIR}"@);
    seq![
        "if(EXISTS \""@ + expr + "\")"@,
        "  target_sources(${_comp_name} PRIVATE \""@ + expr + "\")"@,
        "else()"@,
        "  message(WARNING \"triton: source path not found for '${_comp_name}': "@ + shown + "\")"@,
        "endif()"@
    ]
}

/// The source blocks of the non-blank sources among the first `k`.
pub open spec fn source_lines_upto(srcs: Seq<String>, k: int) -> Seq<Seq<char>>
    decreases k,
{
    if k <= 0 {
        Seq::empty()
    } else {
        source_lines_upto(srcs, k - 1) + if trim(srcs[k - 1]@).len() == 0 {
            Seq::empty()
        } else {
            source_block(srcs[k - 1]@)
        }
    }
}

/// The extra-source lines of a component: none without sources, else a
/// property marking them as set by hand, then a block per non-blank source.
pub open spec fn spec_extra_sources_lines(c: TritonComponent) -> Seq<Seq<char>> {
    if c.sources@.len() == 0 {
        Seq::empty()
    } else {
        seq!["set_property(TARGET ${_comp_name} PROPERTY TRITON_MANUAL_SOURCES TRUE)"@]
            + source_lines_upto(c.sources@, c.sources@.len() as int)
    }
}

/// See `spec_extra_sources_lines`.
pub fn gen_component_extra_sources_lines(comp: &TritonComponent) -> (res: Vec<String>)
    ensures
        views(res@) == spec_extra_sources_lines(*comp),
{
    let mut lines: Vec<String> = Vec::new();
    if comp.sources.len() == 0 {
        return lines;
    }
    push_lit(&mut lines, "set_property(TARGET ${_comp_name} PROPERTY TRITON_MANUAL_SOURCES TRUE)");
    let ghost head = views(lines@);
    let mut k: usize = 0;
    while k < comp.sources.len()
        invariant
            k <= comp.sources@.len(),
            views(lines@) == head + source_lines_upto(comp.sources@, k as int),
        decreases comp.sources.len() - k,
    {
        let raw = comp.sources[k].as_str();
        if !is_blank(raw) {
            let t = trim_str(raw);
            let (expr, shown) = staged_source_expr(t.as_str(), "${CMAKE_CURRENT_SOURCE_DIR}");
            let ghost before = views(lines@);
            push_line(&mut lines, cat3("if(EXISTS \"", expr.as_str(), "\")"));
            push_line(&mut lines, cat3("  target_sources(${_comp_name} PRIVATE \"", expr.as_str(), "\")"));
            push_lit(&mut lines, "else()");
            push_line(&mut lines, cat3("  message(WARNING \"triton: source path not found for '${_comp_name}': ", shown.as_str(), "\")"));
            push_lit(&mut lines, "endif()");
            assert(views(lines@) =~= before + source_block(comp.sources@[k as int]@));
        }
        k += 1;
    }
    lines
}

// ---------------------------------------------------------------------------
// System libraries
// ---------------------------------------------------------------------------

/// The quoted, indented non-blank libraries among the first `k`.
pub open spec fn system_lib_items(libs: Seq<String>, k: int) -> Seq<Seq<char>>
    decreases k,
{
    if k <= 0 {
        Seq::empty()
    } else {
        system_lib_items(libs, k - 1) + if trim(libs[k - 1]@).len() == 0 {
            Seq::empty()
        } else {
            seq!["    "@ + spec_cmake_quote(libs[k - 1]@)]
        }
    }
}

/// The lines that link a component's system libraries privately: none when
/// no library is given or all are blank.
pub open spec fn spec_system_libs_lines(c: TritonComponent) -> Seq<Seq<char>> {
    let items = system_lib_items(c.system_libs@, c.system_libs@.len() as int);
    if items.len() == 0 {
        Seq::empty()
    } else {
        seq!["target_link_libraries(${_comp_name} PRIVATE"@] + items + seq![")"@]
    }
}

/// See `spec_system_libs_lines`.
pub fn gen_component_system_libs_lines(comp: &TritonComponent) -> (res: Vec<String>)
    ensures
        views(res@) == spec_system_libs_lines(*comp),
{
    let mut items: Vec<String> = Vec::new();
    let mut k: usize = 0;
    while k < comp.system_libs.len()
        invariant
            k <= comp.system_libs@.len(),
            views(items@) == system_lib_items(comp.system_libs@, k as int),
        decreases comp.system_libs.len() - k,
    {
        let lib = comp.system_libs[k].as_str();
        if !is_blank(lib) {
            let q = cmake_quote(lib);
            push_line(&mut items, concat2("    ", q.as_str()));
        }
        k += 1;
    }
    let mut lines: Vec<String> = Vec::new();
    if items.len() == 0 {
        return lines;
    }
    push_lit(&mut lines, "target_link_libraries(${_comp_name} PRIVATE");
    let ghost head = views(lines@);
    let mut i: usize = 0;
    while i < items.len()
        invariant
            i <= items@.len(),
            views(lines@) == head + views(items@).take(i as int),
        decreases items.len() - i,
    {
        push_line(&mut lines, crate::text::to_owned(items[i].as_str()));
        assert(views(items@).take(i + 1) =~= views(items@).take(i as int).push(items@[i as int]@));
        i += 1;
    }
    assert(views(items@).take(items@.len() as int) =~= views(items@));
    push_lit(&mut lines, ")");
    lines
}

// ---------------------------------------------------------------------------
// Language standards
// ---------------------------------------------------------------------------

/// The lines that set the C and C++ standards that apply to a component.
pub open spec fn spec_language_lines(c_std: Option<Seq<char>>, cxx_std: Option<Seq<char>>) -> Seq<Seq<char>> {
    (match c_std {
        Some(s) => seq!["set_property(TARGET ${_comp_name} PROPERTY C_STANDARD "@ + s + ")"@],
        None => Seq::empty(),
    }) + match cxx_std {
        Some(s) => seq!["set_property(TARGET ${_comp_name} PROPERTY CXX_STANDARD "@ + s + ")"@],
        None => Seq::empty(),
    }
}

/// The language block of a component with these settings: its standard
/// lines joined by line breaks.
pub fn generate_component_language_block(settings: &ComponentLanguageSettings) -> (res: String)
    ensures
        res@ == join(spec_language_lines(
            crate::text::opt_view_s(settings.c_std),
            crate::text::opt_view_s(settings.cxx_std),
        ), "\n"@),
{
    let mut lines: Vec<String> = Vec::new();
    match &settings.c_std {
        Some(s) => push_line(&mut lines, cat3("set_property(TARGET ${_comp_name} PROPERTY C_STANDARD ", s.as_str(), ")")),
        None => {},
    }
    match &settings.cxx_std {
        Some(s) => push_line(&mut lines, cat3("set_property(TARGET ${_comp_name} PROPERTY CXX_STANDARD ", s.as_str(), ")")),
        None => {},
    }
    assert(views(lines@) =~= spec_language_lines(
        crate::text::opt_view_s(settings.c_std),
        crate::text::opt_view_s(settings.cxx_std),
    ));
    join_strings(&lines, "\n")
}

} // verus!
