//! The texts of the generated CMake files: a component's `CMakeLists.txt`
//! with its managed dependency block, and the root `components/CMakeLists.txt`.
//!
//! Reading and writing the files is the caller's part: these functions take
//! what a file holds and give back what it should hold.

use vstd::prelude::*;
use crate::models::{TritonRoot, TritonComponent, distinct_keys};
use crate::cmake::resolution::{UpRes, ups_ok, spec_git_specs, spec_vcpkg_specs};
use crate::text::{
    occurs_at, views, trim, trim_start, starts_with, ends_with, contains, find, replace_all, replace_char,
    eq_ic, join, text_lines, decimal, push_line, push_lit, push_str, to_owned, extend_lines,
    text_lines_of, u32_to_string, trim_start_str, str_starts_with, str_ends_with, str_contains,
    replace_str, replace_char_str, eq_ignore_case, join_strings, chars_of, find_chars,
    string_from_range, is_blank, cat3, cat5, lemma_views_push,
};
use crate::templates::{component_cmakelists, COMPONENT_CMAKE_TEMPLATE, TEST_CMAKE_TEMPLATE};
use crate::cmake::generators::{
    spec_defines_lines, spec_component_link_lines, spec_vendor_libs_lines,
    spec_link_options_lines, git_lines_ok, vcpkg_lines_ok, gen_component_defines_lines,
    spec_git_dep_lines, spec_vcpkg_dep_lines,
    gen_git_dep_lines, gen_vcpkg_dep_lines, gen_component_link_lines,
    gen_component_vendor_libs_lines, gen_component_link_options_lines,
};
use crate::cmake::staging::{
    resource_lines_ok, spec_assets_lines, spec_transitive_dll_lines, staged, portable_path,
    nonblank, dests_ok, spec_resource_lines,
    gen_component_resources_lines, gen_component_assets_lines, gen_transitive_vendor_dll_copies,
};

verus! {

/// Marker line that opens the managed dependency block.
pub const DEPS_BEGIN: &'static str = "# ## triton:deps begin";

/// Marker line that closes the managed dependency block.
pub const DEPS_END: &'static str = "# ## triton:deps end";

/// The include directive of an executable-only template.
pub const INCLUDE_PRIVATE: &'static str = "target_include_directories(${_comp_name} PRIVATE \"include\")";

/// The include block that serves executables and libraries.
pub const INCLUDE_CANONICAL: &'static str = "if(_is_exe)
  target_include_directories(${_comp_name} PRIVATE \"include\")
else()
  target_include_directories(${_comp_name} PUBLIC \"include\")
endif()";

/// The include block nested in itself by an earlier rewrite.
pub const INCLUDE_DUPLICATED: &'static str = "if(_is_exe)
  if(_is_exe)
  target_include_directories(${_comp_name} PRIVATE \"include\")
else()
  target_include_directories(${_comp_name} PUBLIC \"include\")
endif()
else()
  target_include_directories(${_comp_name} PUBLIC \"include\")
endif()";

/// The runtime-DLL copy that fails when the target has no DLLs.
pub const DLL_COPY_OLD: &'static str = "  add_custom_command(TARGET ${_comp_name} POST_BUILD
    COMMAND ${CMAKE_COMMAND} -E copy_if_different
      $<TARGET_RUNTIME_DLLS:${_comp_name}>
      $<TARGET_FILE_DIR:${_comp_name}>
    COMMAND_EXPAND_LISTS
  )";

/// The runtime-DLL copy that does nothing when the target has no DLLs.
pub const DLL_COPY_NEW: &'static str = "  add_custom_command(TARGET ${_comp_name} POST_BUILD
    COMMAND ${CMAKE_COMMAND} -E
      $<IF:$<BOOL:$<TARGET_RUNTIME_DLLS:${_comp_name}>>,copy_if_different,true>
      $<TARGET_RUNTIME_DLLS:${_comp_name}>
      $<$<BOOL:$<TARGET_RUNTIME_DLLS:${_comp_name}>>:$<TARGET_FILE_DIR:${_comp_name}>>
    COMMAND_EXPAND_LISTS
  )";

// ---------------------------------------------------------------------------
// The version header
// ---------------------------------------------------------------------------

/// `major.minor.patch`.
pub open spec fn version_text(v: (u32, u32, u32)) -> Seq<char> {
    decimal(v.0 as nat) + "."@ + decimal(v.1 as nat) + "."@ + decimal(v.2 as nat)
}

/// The `cmake_minimum_required` line for a version.
pub open spec fn required_line(v: (u32, u32, u32)) -> Seq<char> {
    "cmake_minimum_required(VERSION "@ + version_text(v) + ")"@
}

/// The text with its first line the `cmake_minimum_required` line of the
/// version: an existing such first line is replaced, else the line and a
/// blank line are put in front. Lines are joined with `\n`.
pub open spec fn spec_ensure_header(base: Seq<char>, v: (u32, u32, u32)) -> Seq<char> {
    let ls = text_lines(base);
    let req = required_line(v);
    join(
        if ls.len() == 0 {
            seq![req, Seq::<char>::empty()]
        } else if starts_with(trim_start(ls[0]), "cmake_minimum_required"@) {
            ls.update(0, req)
        } else {
            seq![req, Seq::<char>::empty()] + ls
        },
        "\n"@,
    )
}

fn version_text_exec(v: (u32, u32, u32)) -> (res: String)
    ensures
        res@ == version_text(v),
{
    let a = u32_to_string(v.0);
    let b = u32_to_string(v.1);
    let c = u32_to_string(v.2);
    cat5(a.as_str(), ".", b.as_str(), ".", c.as_str())
}

/// Ensures that the first line is the `cmake_minimum_required(VERSION ...)`
/// directive of the given version.
pub fn ensure_cmake_version_header(base: &str, cmake_ver: (u32, u32, u32)) -> (res: String)
    ensures
        res@ == spec_ensure_header(base@, cmake_ver),
{
    let ver = version_text_exec(cmake_ver);
    let req = cat3("cmake_minimum_required(VERSION ", ver.as_str(), ")");
    let mut ls = text_lines_of(base);
    let ghost l0 = views(ls@);
    if ls.len() == 0 {
        let mut out: Vec<String> = Vec::new();
        push_line(&mut out, req);
        push_line(&mut out, String::new());
        assert(views(out@) =~= seq![required_line(cmake_ver), Seq::<char>::empty()]);
        join_strings(&out, "\n")
    } else if str_starts_with(trim_start_str(ls[0].as_str()).as_str(), "cmake_minimum_required") {
        let ghost r = req@;
        ls.set(0, req);
        assert(views(ls@) =~= l0.update(0, r));
        join_strings(&ls, "\n")
    } else {
        let mut out: Vec<String> = Vec::new();
        push_line(&mut out, req);
        push_line(&mut out, String::new());
        extend_lines(&mut out, &ls);
        assert(views(out@) =~= seq![required_line(cmake_ver), Seq::<char>::empty()] + l0);
        join_strings(&out, "\n")
    }
}

// ---------------------------------------------------------------------------
// Fixes of older templates
// ---------------------------------------------------------------------------

/// `replace_all` for any pattern; an empty pattern leaves the text as it is.
fn replace_any(s: &str, from: &str, to: &str) -> (res: String)
    ensures
        res@ == replace_all(s@, from@, to@),
{
    if chars_of(from).len() == 0 {
        to_owned(s)
    } else {
        replace_str(s, from, to)
    }
}

/// Include directories that work for executables and libraries: a lone
/// `PRIVATE` include directive becomes the branch on `_is_exe`, and a branch
/// nested in itself is flattened.
pub open spec fn spec_normalize_include_dirs(base: Seq<char>) -> Seq<char> {
    if !contains(base, "if(_is_exe)"@) && contains(base, INCLUDE_PRIVATE@) {
        replace_all(base, INCLUDE_PRIVATE@, INCLUDE_CANONICAL@)
    } else if contains(base, INCLUDE_DUPLICATED@) {
        replace_all(base, INCLUDE_DUPLICATED@, INCLUDE_CANONICAL@)
    } else {
        base
    }
}

/// Normalizes include-directory blocks so that both executable and library
/// targets work.
pub fn normalize_include_dirs(base: &str) -> (res: String)
    ensures
        res@ == spec_normalize_include_dirs(base@),
{
    if !str_contains(base, "if(_is_exe)") && str_contains(base, INCLUDE_PRIVATE) {
        replace_any(base, INCLUDE_PRIVATE, INCLUDE_CANONICAL)
    } else if str_contains(base, INCLUDE_DUPLICATED) {
        replace_any(base, INCLUDE_DUPLICATED, INCLUDE_CANONICAL)
    } else {
        to_owned(base)
    }
}

/// The runtime-DLL copy replaced by the one that is a no-op without DLLs.
pub open spec fn spec_fix_target_runtime_dlls(base: Seq<char>) -> Seq<char> {
    if contains(base, DLL_COPY_OLD@) {
        replace_all(base, DLL_COPY_OLD@, DLL_COPY_NEW@)
    } else {
        base
    }
}

/// Replaces the naive `TARGET_RUNTIME_DLLS` copy command with one that does
/// nothing when the generator expression expands to an empty list.
pub fn fix_target_runtime_dlls(base: &str) -> (res: String)
    ensures
        res@ == spec_fix_target_runtime_dlls(base@),
{
    if str_contains(base, DLL_COPY_OLD) {
        replace_any(base, DLL_COPY_OLD, DLL_COPY_NEW)
    } else {
        to_owned(base)
    }
}

// ---------------------------------------------------------------------------
// The managed dependency block
// ---------------------------------------------------------------------------

/// A blank line after the lines, unless they are empty or end blank.
pub open spec fn sep(d: Seq<Seq<char>>) -> Seq<Seq<char>> {
    if d.len() > 0 && d.last().len() > 0 {
        d.push(Seq::<char>::empty())
    } else {
        d
    }
}

/// Non-empty lines appended after a separating blank line.
pub open spec fn append_sep(d: Seq<Seq<char>>, x: Seq<Seq<char>>) -> Seq<Seq<char>> {
    if x.len() == 0 {
        d
    } else {
        sep(d) + x
    }
}

/// The opening lines that resolve the target name.
pub open spec fn block_header() -> Seq<Seq<char>> {
    seq![
        "# --- triton: resolve local target name ---"@,
        "if(NOT DEFINED _comp_name)"@,
        "  get_filename_component(_comp_name \"${CMAKE_CURRENT_SOURCE_DIR}\" NAME)"@,
        "endif()"@,
        Seq::<char>::empty(),
    ]
}

/// The managed block assembled from its parts, in order: defines, git
/// dependencies, vcpkg packages, component links, vendor libraries, linker
/// options, resources, assets and the DLLs of linked components, with blank
/// lines between the groups.
pub open spec fn spec_assemble(
    defines: Seq<Seq<char>>,
    git: Seq<Seq<char>>,
    vcpkg: Seq<Seq<char>>,
    links: Seq<Seq<char>>,
    vendor: Seq<Seq<char>>,
    opts: Seq<Seq<char>>,
    res: Seq<Seq<char>>,
    assets: Seq<Seq<char>>,
    dlls: Seq<Seq<char>>,
) -> Seq<Seq<char>> {
    let d1 = sep(block_header() + defines);
    let d2 = sep(d1 + git);
    let d3 = if vcpkg.len() > 0 { sep(d2 + vcpkg) } else { d2 };
    let d4 = d3 + links;
    let d8 = append_sep(append_sep(append_sep(append_sep(d4, vendor), opts), res), assets);
    if dlls.len() > 0 {
        sep(d8) + seq!["# --- triton: copy vendor DLLs from lib dependencies ---"@] + dlls
    } else {
        d8
    }
}

fn push_sep(out: &mut Vec<String>)
    ensures
        views(final(out)@) == sep(views(old(out)@)),
{
    proof {
        reveal_strlit("");
        assert(""@ =~= Seq::<char>::empty());
    }
    let n = out.len();
    if n > 0 {
        assert(views(out@)[n - 1] == out@[n - 1]@);
        if !crate::text::str_eq(out[n - 1].as_str(), "") {
            proof {
                if out@[n - 1]@.len() == 0 {
                    assert(out@[n - 1]@ =~= Seq::<char>::empty());
                }
            }
            let ghost d = views(out@);
            push_line(out, String::new());
            assert(views(out@) =~= d.push(Seq::<char>::empty()));
        } else {
            assert(out@[n - 1]@ =~= Seq::<char>::empty());
        }
    }
}

fn push_append_sep(out: &mut Vec<String>, x: &Vec<String>)
    ensures
        views(final(out)@) == append_sep(views(old(out)@), views(x@)),
{
    if x.len() > 0 {
        push_sep(out);
        extend_lines(out, x);
    }
}

/// Assembles the managed dependency block from the lines of its parts.
pub fn assemble_managed_block(
    defines: &Vec<String>,
    git: &Vec<String>,
    vcpkg: &Vec<String>,
    links: &Vec<String>,
    vendor: &Vec<String>,
    opts: &Vec<String>,
    res: &Vec<String>,
    assets: &Vec<String>,
    dlls: &Vec<String>,
) -> (out: Vec<String>)
    ensures
        views(out@) == spec_assemble(
            views(defines@),
            views(git@),
            views(vcpkg@),
            views(links@),
            views(vendor@),
            views(opts@),
            views(res@),
            views(assets@),
            views(dlls@),
        ),
{
    let mut out: Vec<String> = Vec::new();
    push_lit(&mut out, "# --- triton: resolve local target name ---");
    push_lit(&mut out, "if(NOT DEFINED _comp_name)");
    push_lit(&mut out, "  get_filename_component(_comp_name \"${CMAKE_CURRENT_SOURCE_DIR}\" NAME)");
    push_lit(&mut out, "endif()");
    push_line(&mut out, String::new());
    assert(views(out@) =~= block_header());
    extend_lines(&mut out, defines);
    push_sep(&mut out);
    extend_lines(&mut out, git);
    push_sep(&mut out);
    if vcpkg.len() > 0 {
        extend_lines(&mut out, vcpkg);
        push_sep(&mut out);
    }
    extend_lines(&mut out, links);
    push_append_sep(&mut out, vendor);
    push_append_sep(&mut out, opts);
    push_append_sep(&mut out, res);
    push_append_sep(&mut out, assets);
    if dlls.len() > 0 {
        push_sep(&mut out);
        push_lit(&mut out, "# --- triton: copy vendor DLLs from lib dependencies ---");
        extend_lines(&mut out, dlls);
    }
    out
}

/// Lines are the managed dependency block of a component: each part is what
/// its generator gives.
pub open spec fn managed_block_ok(r: TritonRoot, name: Seq<char>, c: TritonComponent, lines: Seq<Seq<char>>) -> bool {
    exists|git: Seq<Seq<char>>, vcpkg: Seq<Seq<char>>, res: Seq<Seq<char>>|
        git_lines_ok(r, name, c, git) && vcpkg_lines_ok(r, name, c, vcpkg) && resource_lines_ok(c, res)
            && lines == spec_assemble(
            spec_defines_lines(c),
            git,
            vcpkg,
            spec_component_link_lines(r, c),
            spec_vendor_libs_lines(c),
            spec_link_options_lines(c),
            res,
            spec_assets_lines(c),
            spec_transitive_dll_lines(r, c),
        )
}

/// The managed dependency block of a component, the lines that go between
/// the `triton:deps` markers.
pub fn generate_managed_dep_block(name: &str, root: &TritonRoot, comp: &TritonComponent) -> (res: Vec<String>)
    requires
        distinct_keys(root.components@),
    ensures
        managed_block_ok(*root, name@, *comp, views(res@)),
{
    let defines = gen_component_defines_lines(comp);
    let git = gen_git_dep_lines(root, name, comp);
    let vcpkg = gen_vcpkg_dep_lines(root, comp, name);
    let links = gen_component_link_lines(root, comp);
    let vendor = gen_component_vendor_libs_lines(comp);
    let opts = gen_component_link_options_lines(comp);
    let resources = gen_component_resources_lines(comp);
    let assets = gen_component_assets_lines(comp);
    let dlls = gen_transitive_vendor_dll_copies(name, root, comp);
    let out = assemble_managed_block(&defines, &git, &vcpkg, &links, &vendor, &opts, &resources, &assets, &dlls);
    assert(managed_block_ok(*root, name@, *comp, views(out@))) by {
        assert(git_lines_ok(*root, name@, *comp, views(git@)));
    }
    out
}

// ---------------------------------------------------------------------------
// A component's CMakeLists.txt
// ---------------------------------------------------------------------------

/// Each line followed by a line break.
pub open spec fn lines_nl(ls: Seq<Seq<char>>) -> Seq<char>
    decreases ls.len(),
{
    if ls.len() == 0 {
        Seq::empty()
    } else {
        lines_nl(ls.drop_last()) + ls.last() + "\n"@
    }
}

/// What stands before and after the managed block: the text around the
/// markers when both occur in order, else the whole text and a line break.
pub open spec fn split_around_block(f: Seq<char>) -> (Seq<char>, Seq<char>) {
    match (find(f, DEPS_BEGIN@), find(f, DEPS_END@)) {
        (Some(b), Some(e)) => if e > b {
            (f.take(b), f.skip(e + DEPS_END@.len()))
        } else {
            (f, "\n"@)
        },
        _ => (f, "\n"@),
    }
}

/// The text a component's `CMakeLists.txt` starts from: what it holds, else
/// the template (that of the tests component for the name `tests` in any
/// ASCII case).
pub open spec fn base_text(name: Seq<char>, existing: Option<Seq<char>>) -> Seq<char> {
    match existing {
        Some(t) => t,
        None => if eq_ic(name, "tests"@) { TEST_CMAKE_TEMPLATE@ } else { COMPONENT_CMAKE_TEMPLATE@ },
    }
}

/// The new text of a component's `CMakeLists.txt`: the base text with its
/// version header ensured and older template blocks fixed, and the managed
/// block between the markers replaced by the given lines.
pub open spec fn spec_render(
    name: Seq<char>,
    existing: Option<Seq<char>>,
    v: (u32, u32, u32),
    dep_lines: Seq<Seq<char>>,
) -> Seq<char> {
    let fixed = spec_fixups(base_text(name, existing), v);
    let pre = split_around_block(fixed).0;
    let post = split_around_block(fixed).1;
    pre + (if ends_with(pre, "\n"@) { Seq::<char>::empty() } else { "\n"@ }) + DEPS_BEGIN@ + "\n"@
        + lines_nl(dep_lines) + DEPS_END@ + (if starts_with(post, "\n"@) {
        Seq::<char>::empty()
    } else {
        "\n"@
    }) + post
}

fn opt_str_view(o: Option<&str>) -> (res: Option<String>)
    ensures
        crate::text::opt_view_s(res) == match o {
            Some(t) => Some(t@),
            None => None::<Seq<char>>,
        },
{
    match o {
        Some(t) => Some(to_owned(t)),
        None => None,
    }
}

/// Renders a component's `CMakeLists.txt` from what the file holds (if it
/// exists) and the lines of its managed block.
pub fn render_component_cmake(
    name: &str,
    existing: Option<&str>,
    cmake_ver: (u32, u32, u32),
    dep_lines: &Vec<String>,
) -> (res: String)
    ensures
        res@ == spec_render(
            name@,
            match existing {
                Some(t) => Some(t@),
                None => None,
            },
            cmake_ver,
            views(dep_lines@),
        ),
{
    let base0 = match existing {
        Some(t) => to_owned(t),
        None => component_cmakelists(eq_ignore_case(name, "tests")),
    };
    proof {
        reveal_strlit("tests");
        reveal(spec_fixups);
    }
    let base = ensure_cmake_version_header(base0.as_str(), cmake_ver);
    let fixed = fix_target_runtime_dlls(normalize_include_dirs(base.as_str()).as_str());
    let v = chars_of(fixed.as_str());
    let bv = chars_of(DEPS_BEGIN);
    let ev = chars_of(DEPS_END);
    let fb = find_chars(&v, &bv);
    let fe = find_chars(&v, &ev);
    let (pre, post) = match (fb, fe) {
        (Some(b), Some(e)) => {
            assert(crate::text::occurs_at(v@, ev@, e as int));
            assert(e + ev.len() <= v.len());
            if e > b {
                let p1 = string_from_range(&v, 0, b);
                let p2 = string_from_range(&v, e + ev.len(), v.len());
                assert(p1@ =~= v@.take(b as int));
                assert(p2@ =~= v@.skip(e + ev@.len()));
                (p1, p2)
            } else {
                (fixed, to_owned("\n"))
            }
        },
        _ => (fixed, to_owned("\n")),
    };
    let mut body = to_owned(pre.as_str());
    if !str_ends_with(pre.as_str(), "\n") {
        push_str(&mut body, "\n");
    }
    push_str(&mut body, DEPS_BEGIN);
    push_str(&mut body, "\n");
    let ghost head = body@;
    let mut k: usize = 0;
    while k < dep_lines.len()
        invariant
            k <= dep_lines@.len(),
            body@ == head + lines_nl(views(dep_lines@.take(k as int))),
        decreases dep_lines.len() - k,
    {
        push_str(&mut body, dep_lines[k].as_str());
        push_str(&mut body, "\n");
        proof {
            lemma_views_push(dep_lines@.take(k as int), dep_lines@[k as int]);
            assert(dep_lines@.take(k + 1) =~= dep_lines@.take(k as int).push(dep_lines@[k as int]));
            assert(views(dep_lines@.take(k + 1)).drop_last() =~= views(dep_lines@.take(k as int)));
        }
        k += 1;
    }
    assert(dep_lines@.take(dep_lines@.len() as int) =~= dep_lines@);
    push_str(&mut body, DEPS_END);
    if !str_starts_with(post.as_str(), "\n") {
        push_str(&mut body, "\n");
    }
    push_str(&mut body, post.as_str());
    body
}

/// Lines are the managed block of some component of the model, and text is
/// its rendered `CMakeLists.txt`.
pub open spec fn component_cmake_ok(
    r: TritonRoot,
    name: Seq<char>,
    c: TritonComponent,
    v: (u32, u32, u32),
    existing: Option<Seq<char>>,
    text: Seq<char>,
) -> bool {
    exists|lines: Seq<Seq<char>>| managed_block_ok(r, name, c, lines) && text == spec_render(name, existing, v, lines)
}

/// The new text of a component's `CMakeLists.txt`, from what the file holds
/// (`None` when it does not exist yet): the managed dependency block is
/// regenerated and everything outside it is kept.
pub fn rewrite_component_cmake(
    name: &str,
    root: &TritonRoot,
    comp: &TritonComponent,
    cmake_ver: (u32, u32, u32),
    existing: Option<&str>,
) -> (res: String)
    requires
        distinct_keys(root.components@),
    ensures
        component_cmake_ok(
            *root,
            name@,
            *comp,
            cmake_ver,
            match existing {
                Some(t) => Some(t@),
                None => None,
            },
            res@,
        ),
{
    let lines = generate_managed_dep_block(name, root, comp);
    render_component_cmake(name, existing, cmake_ver, &lines)
}


// ---------------------------------------------------------------------------
// The root components/CMakeLists.txt
// ---------------------------------------------------------------------------

/// A line the root file writes itself: `cmake_minimum_required(` or
/// `project(` after leading white space.
pub open spec fn is_prologue_line(l: Seq<char>) -> bool {
    starts_with(trim_start(l), "cmake_minimum_required("@) || starts_with(trim_start(l), "project("@)
}

/// The kept helper lines among the first `k`, each followed by a line break,
/// and whether the last kept line is blank: prologue lines are dropped, and so
/// is a blank line after a blank line.
pub open spec fn clean_upto(ls: Seq<Seq<char>>, k: int) -> (Seq<char>, bool)
    decreases k,
{
    if k <= 0 {
        (Seq::empty(), false)
    } else {
        let prev = clean_upto(ls, k - 1);
        let l = ls[k - 1];
        let blank = trim(l).len() == 0;
        if is_prologue_line(l) || (blank && prev.1) {
            prev
        } else {
            (prev.0 + l + "\n"@, blank)
        }
    }
}

/// The helper text without prologue lines and without runs of blank lines.
pub open spec fn spec_clean_helpers(h: Seq<char>) -> Seq<char> {
    clean_upto(text_lines(h), text_lines(h).len() as int).0
}

/// `add_subdirectory` lines for the first `k` components whose directory exists.
pub open spec fn subdir_lines(r: TritonRoot, dirs: Seq<bool>, k: int) -> Seq<char>
    decreases k,
{
    if k <= 0 {
        Seq::empty()
    } else {
        subdir_lines(r, dirs, k - 1) + if dirs[k - 1] {
            "add_subdirectory("@ + r.components@[k - 1].0@ + ")\n"@
        } else {
            Seq::<char>::empty()
        }
    }
}

/// The root `components/CMakeLists.txt`: the version and project lines (the
/// application name with `-` made `_`), the cleaned helpers, and the managed
/// list of component subdirectories, one per component whose directory
/// exists (`dirs[i]` for component `i`), in the model's name order.
pub open spec fn spec_root_cmake(r: TritonRoot, v: (u32, u32, u32), dirs: Seq<bool>) -> Seq<char> {
    let h = spec_clean_helpers(crate::templates::CMAKE_ROOT_HELPERS@);
    "cmake_minimum_required(VERSION "@ + version_text(v) + ")\n"@ + "project("@ + replace_char(
        r.app_name@,
        '-',
        '_',
    ) + " LANGUAGES CXX)\n\n"@ + (if trim(h).len() > 0 {
        h + (if ends_with(h, "\n"@) { Seq::<char>::empty() } else { "\n"@ })
    } else {
        Seq::<char>::empty()
    }) + "\n# Subdirectories (managed)\n# ## triton:components begin\n"@ + subdir_lines(
        r,
        dirs,
        r.components@.len() as int,
    ) + "# ## triton:components end\n"@
}

/// A helper line the root file must carry: not blank, and not a version
/// or project line (after leading white space).
pub open spec fn carried_helper(l: Seq<char>) -> bool {
    &&& trim(l).len() > 0
    &&& !starts_with(trim_start(l), "cmake_minimum_required("@)
    &&& !starts_with(trim_start(l), "project("@)
}

proof fn lemma_clean_prefix(ls: Seq<Seq<char>>, k1: int, k2: int)
    requires
        0 <= k1 <= k2,
    ensures
        clean_upto(ls, k1).0.len() <= clean_upto(ls, k2).0.len(),
        clean_upto(ls, k2).0.take(clean_upto(ls, k1).0.len() as int) == clean_upto(ls, k1).0,
    decreases k2,
{
    if k2 > k1 {
        lemma_clean_prefix(ls, k1, k2 - 1);
        let a = clean_upto(ls, k1).0;
        let b = clean_upto(ls, k2 - 1).0;
        let c = clean_upto(ls, k2).0;
        if c != b {
            assert(c.take(a.len() as int) =~= b.take(a.len() as int));
        }
    } else {
        assert(clean_upto(ls, k1).0.take(clean_upto(ls, k1).0.len() as int) =~= clean_upto(ls, k1).0);
    }
}

proof fn lemma_sub_in(t: Seq<char>, off: int, h: Seq<char>, a: int, len: int)
    requires
        0 <= off,
        off + h.len() <= t.len(),
        t.subrange(off, off + h.len()) == h,
        0 <= a,
        0 <= len,
        a + len <= h.len(),
    ensures
        t.subrange(off + a, off + a + len) == h.subrange(a, a + len),
{
    assert forall|i: int| 0 <= i < len implies #[trigger] t.subrange(off + a, off + a + len)[i] == h.subrange(a, a + len)[i] by {
        assert(t.subrange(off, off + h.len())[a + i] == t[off + a + i]);
    }
    assert(t.subrange(off + a, off + a + len) =~= h.subrange(a, a + len));
}

proof fn lemma_clean_keeps(ls: Seq<Seq<char>>, q: int, n: int)
    requires
        0 <= q < n <= ls.len(),
        carried_helper(ls[q]),
    ensures
        occurs_at(clean_upto(ls, n).0, ls[q], clean_upto(ls, q).0.len() as int),
        clean_upto(ls, q).0.len() + ls[q].len() < clean_upto(ls, q + 1).0.len(),
        clean_upto(ls, q + 1).0.len() <= clean_upto(ls, n).0.len(),
{
    let a = clean_upto(ls, q).0;
    let b = clean_upto(ls, q + 1).0;
    reveal_strlit("\n");
    assert(b == a + ls[q] + "\n"@);
    lemma_clean_prefix(ls, q + 1, n);
    let c = clean_upto(ls, n).0;
    assert(c.subrange(a.len() as int, (a.len() + ls[q].len()) as int) =~= b.subrange(a.len() as int, (a.len() + ls[q].len()) as int));
    assert(b.subrange(a.len() as int, (a.len() + ls[q].len()) as int) =~= ls[q]);
}

/// The cleaned helper text keeps every line that is neither blank nor a
/// version or project line, in the order of the helpers.
pub proof fn lemma_clean_helpers_keeps(h: Seq<char>)
    ensures
        ({
            let ls = text_lines(h);
            let out = spec_clean_helpers(h);
            forall|q1: int, q2: int|
                #![trigger ls[q1], ls[q2]]
                0 <= q1 < q2 < ls.len() && carried_helper(ls[q1]) && carried_helper(ls[q2]) ==> exists|p1: int, p2: int|
                    #![trigger occurs_at(out, ls[q1], p1), occurs_at(out, ls[q2], p2)]
                    occurs_at(out, ls[q1], p1) && occurs_at(out, ls[q2], p2) && p1 + ls[q1].len() < p2
        }),
        forall|q: int| 0 <= q < text_lines(h).len() && carried_helper(#[trigger] text_lines(h)[q])
            ==> contains(spec_clean_helpers(h), text_lines(h)[q]),
{
    let ls = text_lines(h);
    let n = ls.len() as int;
    let out = spec_clean_helpers(h);
    assert forall|q1: int, q2: int|
        #![trigger ls[q1], ls[q2]]
        0 <= q1 < q2 < ls.len() && carried_helper(ls[q1]) && carried_helper(ls[q2]) implies exists|p1: int, p2: int|
            #![trigger occurs_at(out, ls[q1], p1), occurs_at(out, ls[q2], p2)]
            occurs_at(out, ls[q1], p1) && occurs_at(out, ls[q2], p2) && p1 + ls[q1].len() < p2 by {
        lemma_clean_keeps(ls, q1, n);
        lemma_clean_keeps(ls, q2, n);
        lemma_clean_prefix(ls, q1 + 1, q2);
        let p1 = clean_upto(ls, q1).0.len() as int;
        let p2 = clean_upto(ls, q2).0.len() as int;
        assert(occurs_at(out, ls[q1], p1) && occurs_at(out, ls[q2], p2));
    }
    assert forall|q: int| 0 <= q < ls.len() && carried_helper(#[trigger] ls[q]) implies contains(spec_clean_helpers(h), ls[q]) by {
        lemma_clean_keeps(ls, q, n);
    }
}

/// The root file carries every line of the CMake helpers that is neither
/// blank nor a version or project line, in the helpers' order, after the
/// version and project lines.
pub proof fn lemma_root_carries_helpers(r: TritonRoot, v: (u32, u32, u32), dirs: Seq<bool>)
    ensures
        ({
            let ls = text_lines(crate::templates::CMAKE_ROOT_HELPERS@);
            let root = spec_root_cmake(r, v, dirs);
            forall|q1: int, q2: int|
                #![trigger ls[q1], ls[q2]]
                0 <= q1 < q2 < ls.len() && carried_helper(ls[q1]) && carried_helper(ls[q2]) ==> exists|p1: int, p2: int|
                    #![trigger occurs_at(root, ls[q1], p1), occurs_at(root, ls[q2], p2)]
                    occurs_at(root, ls[q1], p1) && occurs_at(root, ls[q2], p2) && p1 + ls[q1].len() < p2
        }),
        forall|q: int|
            0 <= q < text_lines(crate::templates::CMAKE_ROOT_HELPERS@).len() && carried_helper(
                #[trigger] text_lines(crate::templates::CMAKE_ROOT_HELPERS@)[q],
            ) ==> contains(spec_root_cmake(r, v, dirs), text_lines(crate::templates::CMAKE_ROOT_HELPERS@)[q]),
{
    let hs = crate::templates::CMAKE_ROOT_HELPERS@;
    let ls = text_lines(hs);
    let n = ls.len() as int;
    let h = spec_clean_helpers(hs);
    let root = spec_root_cmake(r, v, dirs);
    let pre = "cmake_minimum_required(VERSION "@ + version_text(v) + ")\n"@ + "project("@ + replace_char(
        r.app_name@,
        '-',
        '_',
    ) + " LANGUAGES CXX)\n\n"@;
    // Where some carried line exists, the helper text is not blank and
    // stands right after the version and project lines.
    assert forall|q: int| 0 <= q < n && carried_helper(ls[q]) implies pre.len() + h.len() <= root.len()
        && root.subrange(pre.len() as int, (pre.len() + h.len()) as int) == h by {
        lemma_clean_keeps(ls, q, n);
        let a = clean_upto(ls, q).0.len() as int;
        let l = ls[q];
        if trim(h).len() == 0 {
            crate::text::lemma_trim_empty(h);
            if trim(l).len() > 0 {
                assert forall|k: int| 0 <= k < l.len() implies crate::text::is_ws(#[trigger] l[k]) by {
                    assert(l[k] == h.subrange(a, a + l.len())[k]);
                    assert(h[a + k] == l[k]);
                }
                crate::text::lemma_all_ws_trims_empty(l);
            }
        }
        assert(trim(h).len() > 0);
        assert(root.subrange(pre.len() as int, (pre.len() + h.len()) as int) =~= h);
    }
    assert forall|q1: int, q2: int|
        #![trigger ls[q1], ls[q2]]
        0 <= q1 < q2 < ls.len() && carried_helper(ls[q1]) && carried_helper(ls[q2]) implies exists|p1: int, p2: int|
            #![trigger occurs_at(root, ls[q1], p1), occurs_at(root, ls[q2], p2)]
            occurs_at(root, ls[q1], p1) && occurs_at(root, ls[q2], p2) && p1 + ls[q1].len() < p2 by {
        lemma_clean_keeps(ls, q1, n);
        lemma_clean_keeps(ls, q2, n);
        lemma_clean_prefix(ls, q1 + 1, q2);
        let a1 = clean_upto(ls, q1).0.len() as int;
        let a2 = clean_upto(ls, q2).0.len() as int;
        let p1 = pre.len() + a1;
        let p2 = pre.len() + a2;
        assert(pre.len() + h.len() <= root.len() && root.subrange(pre.len() as int, (pre.len() + h.len()) as int) == h);
        lemma_sub_in(root, pre.len() as int, h, a1, ls[q1].len() as int);
        lemma_sub_in(root, pre.len() as int, h, a2, ls[q2].len() as int);
        assert(occurs_at(root, ls[q1], p1) && occurs_at(root, ls[q2], p2));
    }
    assert forall|q: int| 0 <= q < n && carried_helper(#[trigger] ls[q]) implies contains(root, ls[q]) by {
        lemma_clean_keeps(ls, q, n);
        let a = clean_upto(ls, q).0.len() as int;
        assert(pre.len() + h.len() <= root.len() && root.subrange(pre.len() as int, (pre.len() + h.len()) as int) == h);
        lemma_sub_in(root, pre.len() as int, h, a, ls[q].len() as int);
        assert(occurs_at(root, ls[q], pre.len() + a));
    }
}

/// The line that adds component `name`'s directory.
pub open spec fn subdir_line(name: Seq<char>) -> Seq<char> {
    "add_subdirectory("@ + name + ")\n"@
}

proof fn lemma_subdir_prefix(r: TritonRoot, dirs: Seq<bool>, k1: int, k2: int)
    requires
        0 <= k1 <= k2,
    ensures
        subdir_lines(r, dirs, k1).len() <= subdir_lines(r, dirs, k2).len(),
        subdir_lines(r, dirs, k2).take(subdir_lines(r, dirs, k1).len() as int) == subdir_lines(r, dirs, k1),
    decreases k2,
{
    if k2 > k1 {
        lemma_subdir_prefix(r, dirs, k1, k2 - 1);
        let a = subdir_lines(r, dirs, k1);
        let b = subdir_lines(r, dirs, k2 - 1);
        let c = subdir_lines(r, dirs, k2);
        assert(c.take(a.len() as int) =~= b.take(a.len() as int));
    } else {
        assert(subdir_lines(r, dirs, k1).take(subdir_lines(r, dirs, k1).len() as int) =~= subdir_lines(r, dirs, k1));
    }
}

/// The root file starts with the version line and then the project line
/// (the application name with `-` made `_`), and lists, in the model's
/// order, an `add_subdirectory` line for every component whose directory
/// exists.
pub proof fn lemma_root_lists_components(r: TritonRoot, v: (u32, u32, u32), dirs: Seq<bool>)
    requires
        dirs.len() == r.components@.len(),
    ensures
        ({
            let root = spec_root_cmake(r, v, dirs);
            let first = "cmake_minimum_required(VERSION "@ + decimal(v.0 as nat) + "."@ + decimal(v.1 as nat) + "."@
                + decimal(v.2 as nat) + ")\n"@ + "project("@ + replace_char(r.app_name@, '-', '_') + " LANGUAGES CXX)\n"@;
            &&& root.take(first.len() as int) == first
            &&& forall|k1: int, k2: int|
                #![trigger dirs[k1], dirs[k2]]
                0 <= k1 < k2 < dirs.len() && dirs[k1] && dirs[k2] ==> exists|p1: int, p2: int|
                    #![trigger occurs_at(root, subdir_line(r.components@[k1].0@), p1), occurs_at(root, subdir_line(r.components@[k2].0@), p2)]
                    occurs_at(root, subdir_line(r.components@[k1].0@), p1) && occurs_at(root, subdir_line(r.components@[k2].0@), p2)
                        && p1 < p2
            &&& forall|k: int| 0 <= k < dirs.len() && #[trigger] dirs[k] ==> contains(root, subdir_line(r.components@[k].0@))
        }),
{
    let root = spec_root_cmake(r, v, dirs);
    let n = r.components@.len() as int;
    let sl = subdir_lines(r, dirs, n);
    let h = spec_clean_helpers(crate::templates::CMAKE_ROOT_HELPERS@);
    let a = "cmake_minimum_required(VERSION "@ + version_text(v) + ")\n"@ + "project("@ + replace_char(
        r.app_name@,
        '-',
        '_',
    ) + " LANGUAGES CXX)\n\n"@ + (if trim(h).len() > 0 {
        h + (if ends_with(h, "\n"@) { Seq::<char>::empty() } else { "\n"@ })
    } else {
        Seq::<char>::empty()
    }) + "\n# Subdirectories (managed)\n# ## triton:components begin\n"@;
    assert(root =~= a + sl + "# ## triton:components end\n"@);
    let first = "cmake_minimum_required(VERSION "@ + decimal(v.0 as nat) + "."@ + decimal(v.1 as nat) + "."@
        + decimal(v.2 as nat) + ")\n"@ + "project("@ + replace_char(r.app_name@, '-', '_') + " LANGUAGES CXX)\n"@;
    reveal_strlit(" LANGUAGES CXX)\n\n");
    reveal_strlit(" LANGUAGES CXX)\n");
    reveal_strlit("\n");
    assert(" LANGUAGES CXX)\n\n"@ =~= " LANGUAGES CXX)\n"@ + "\n"@);
    assert(root.take(first.len() as int) =~= first);
    assert forall|k: int| 0 <= k < n && #[trigger] dirs[k] implies occurs_at(root, subdir_line(r.components@[k].0@),
        (a.len() + subdir_lines(r, dirs, k).len()) as int) && a.len() + subdir_lines(r, dirs, k).len() + subdir_line(r.components@[k].0@).len()
        <= a.len() + subdir_lines(r, dirs, k + 1).len() by {
        lemma_subdir_prefix(r, dirs, k + 1, n);
        let p = subdir_lines(r, dirs, k);
        let q = subdir_lines(r, dirs, k + 1);
        let l = subdir_line(r.components@[k].0@);
        assert(q =~= p + l);
        let off = (a.len() + p.len()) as int;
        assert(root.subrange(off, off + l.len() as int) =~= l) by {
            assert forall|i: int| 0 <= i < l.len() implies root.subrange(off, off + l.len() as int)[i] == l[i] by {
                assert(root[off + i] == sl[p.len() + i]);
                assert(sl[p.len() + i] == sl.take(q.len() as int)[p.len() + i]);
                assert(q[p.len() + i] == l[i]);
            }
        }
    }
    assert forall|k1: int, k2: int|
        #![trigger dirs[k1], dirs[k2]]
        0 <= k1 < k2 < dirs.len() && dirs[k1] && dirs[k2] implies exists|p1: int, p2: int|
            #![trigger occurs_at(root, subdir_line(r.components@[k1].0@), p1), occurs_at(root, subdir_line(r.components@[k2].0@), p2)]
            occurs_at(root, subdir_line(r.components@[k1].0@), p1) && occurs_at(root, subdir_line(r.components@[k2].0@), p2)
                && p1 < p2 by {
        lemma_subdir_prefix(r, dirs, k1 + 1, k2);
        assert(subdir_lines(r, dirs, k1 + 1) =~= subdir_lines(r, dirs, k1) + subdir_line(r.components@[k1].0@));
        assert(subdir_line(r.components@[k1].0@).len() > 0) by {
            reveal_strlit("add_subdirectory(");
        }
        let p1 = (a.len() + subdir_lines(r, dirs, k1).len()) as int;
        let p2 = (a.len() + subdir_lines(r, dirs, k2).len()) as int;
        assert(occurs_at(root, subdir_line(r.components@[k1].0@), p1));
        assert(occurs_at(root, subdir_line(r.components@[k2].0@), p2));
    }
}

fn clean_helpers(h: &str) -> (res: String)
    ensures
        res@ == spec_clean_helpers(h@),
{
    let ls = text_lines_of(h);
    let mut out = String::new();
    let mut last_blank = false;
    let mut k: usize = 0;
    while k < ls.len()
        invariant
            k <= ls@.len(),
            views(ls@) == text_lines(h@),
            (out@, last_blank) == clean_upto(views(ls@), k as int),
        decreases ls.len() - k,
    {
        let l = ls[k].as_str();
        assert(views(ls@)[k as int] == l@);
        let t = trim_start_str(l);
        let blank = is_blank(l);
        if !(str_starts_with(t.as_str(), "cmake_minimum_required(") || str_starts_with(t.as_str(), "project("))
            && !(blank && last_blank) {
            push_str(&mut out, l);
            push_str(&mut out, "\n");
            last_blank = blank;
        }
        k += 1;
    }
    out
}

/// The text of the root `components/CMakeLists.txt` for the model, the
/// effective CMake version, and which component directories exist (`dirs[i]`
/// for component `i`).
pub fn regenerate_root_cmake(root: &TritonRoot, cmake_ver: (u32, u32, u32), dirs: &Vec<bool>) -> (res: String)
    requires
        dirs@.len() == root.components@.len(),
    ensures
        res@ == spec_root_cmake(*root, cmake_ver, dirs@),
{
    let ver = version_text_exec(cmake_ver);
    let mut body = cat3("cmake_minimum_required(VERSION ", ver.as_str(), ")\n");
    let app = replace_char_str(root.app_name.as_str(), '-', '_');
    push_str(&mut body, "project(");
    push_str(&mut body, app.as_str());
    push_str(&mut body, " LANGUAGES CXX)\n\n");
    let helpers = clean_helpers(crate::templates::cmake_root_helpers());
    if !is_blank(helpers.as_str()) {
        push_str(&mut body, helpers.as_str());
        if !str_ends_with(helpers.as_str(), "\n") {
            push_str(&mut body, "\n");
        }
    }
    push_str(&mut body, "\n# Subdirectories (managed)\n# ## triton:components begin\n");
    let ghost head = body@;
    let mut k: usize = 0;
    while k < root.components.len()
        invariant
            k <= root.components@.len(),
            dirs@.len() == root.components@.len(),
            body@ == head + subdir_lines(*root, dirs@, k as int),
        decreases root.components.len() - k,
    {
        if dirs[k] {
            push_str(&mut body, "add_subdirectory(");
            push_str(&mut body, root.components[k].0.as_str());
            push_str(&mut body, ")\n");
        }
        k += 1;
    }
    push_str(&mut body, "# ## triton:components end\n");
    body
}


// ---------------------------------------------------------------------------
// Laws of the managed block
// ---------------------------------------------------------------------------

/// The fixes applied to a component's text before its managed block is
/// replaced: the version header, then the include block, then the
/// runtime-DLL block.
#[verifier::opaque]
pub open spec fn spec_fixups(t: Seq<char>, v: (u32, u32, u32)) -> Seq<char> {
    spec_fix_target_runtime_dlls(spec_normalize_include_dirs(spec_ensure_header(t, v)))
}

/// The managed block holding these lines, markers included.
pub open spec fn managed_block(lines: Seq<Seq<char>>) -> Seq<char> {
    DEPS_BEGIN@ + "\n"@ + lines_nl(lines) + DEPS_END@
}

/// The line break put before the block when the text before it lacks one.
pub open spec fn break_before(pre: Seq<char>) -> Seq<char> {
    if ends_with(pre, "\n"@) { Seq::empty() } else { "\n"@ }
}

/// The line break put after the block when the text after it lacks one.
pub open spec fn break_after(post: Seq<char>) -> Seq<char> {
    if starts_with(post, "\n"@) { Seq::empty() } else { "\n"@ }
}

/// No character of the text is a line break.
pub open spec fn no_break(p: Seq<char>) -> bool {
    forall|i: int| 0 <= i < p.len() ==> p[i] != '\n'
}

proof fn lemma_markers()
    ensures
        no_break(DEPS_BEGIN@),
        no_break(DEPS_END@),
        DEPS_BEGIN@.len() == 22,
        DEPS_END@.len() == 20,
        !contains(DEPS_BEGIN@, DEPS_END@),
{
    reveal_strlit("# ## triton:deps begin");
    reveal_strlit("# ## triton:deps end");
    assert(DEPS_BEGIN@ == "# ## triton:deps begin"@);
    assert(DEPS_END@ == "# ## triton:deps end"@);
    let b = DEPS_BEGIN@;
    let e = DEPS_END@;
    assert forall|k: int| !crate::text::occurs_at(b, e, k) by {
        if crate::text::occurs_at(b, e, k) {
            let w = b.subrange(k, k + e.len());
            if k == 0 {
                assert(w[17] == b[17]);
            } else if k == 1 {
                assert(w[0] == b[1]);
            } else {
                assert(w[1] == b[3]);
            }
        }
    }
}


/// Rendering touches nothing outside the managed block: where the fixes
/// leave a file's text as it is and its markers stand in order, the new text
/// is what stood before the begin marker, the new block, and what stood
/// after the end marker, with a line break added next to the block where
/// one is missing.
#[verifier::rlimit(100)]
#[verifier::spinoff_prover]
pub proof fn lemma_render_keeps_outside(name: Seq<char>, e: Seq<char>, v: (u32, u32, u32), lines: Seq<Seq<char>>)
    requires
        spec_fixups(e, v) == e,
        find(e, DEPS_BEGIN@) is Some,
        find(e, DEPS_END@) is Some,
        find(e, DEPS_BEGIN@)->0 < find(e, DEPS_END@)->0,
    ensures
        ({
            let pre = e.take(find(e, DEPS_BEGIN@)->0);
            let post = e.skip(find(e, DEPS_END@)->0 + DEPS_END@.len());
            spec_render(name, Some(e), v, lines) == pre + break_before(pre) + managed_block(lines) + break_after(post) + post
        }),
{
    let b = find(e, DEPS_BEGIN@)->0;
    let x = find(e, DEPS_END@)->0;
    let pre = e.take(b);
    let post = e.skip(x + DEPS_END@.len());
    assert(base_text(name, Some(e)) == e);
    assert(split_around_block(e) == (pre, post));
    let r = spec_render(name, Some(e), v, lines);
    assert(r == pre + break_before(pre) + DEPS_BEGIN@ + "\n"@ + lines_nl(lines) + DEPS_END@ + break_after(post) + post);
    assert(r =~= pre + break_before(pre) + managed_block(lines) + break_after(post) + post);
}

proof fn lemma_first_is_find(s: Seq<char>, p: Seq<char>, i: int)
    requires
        crate::text::is_first_occurrence(s, p, i),
    ensures
        find(s, p) == Some(i),
{
    assert(contains(s, p));
    let c = choose|k: int| crate::text::occurs_at(s, p, k) && forall|j: int| 0 <= j < k ==> !crate::text::occurs_at(s, p, j);
    if c < i {
    } else if c > i {
        assert(!crate::text::occurs_at(s, p, i));
    }
}

/// An occurrence of a pattern without line breaks does not cover a line
/// break of the text.
proof fn lemma_no_break_cover(s: Seq<char>, p: Seq<char>, q: int, k: int)
    requires
        no_break(p),
        q <= k < q + p.len(),
        0 <= k < s.len(),
        s[k] == '\n',
    ensures
        !crate::text::occurs_at(s, p, q),
{
    if crate::text::occurs_at(s, p, q) {
        assert(s.subrange(q, q + p.len())[k - q] == s[k]);
    }
}

/// An occurrence inside a segment of the text is one in the segment.
proof fn lemma_occurs_in_segment(s: Seq<char>, p: Seq<char>, q: int, lo: int, hi: int)
    requires
        crate::text::occurs_at(s, p, q),
        0 <= lo <= q,
        q + p.len() <= hi <= s.len(),
    ensures
        contains(s.subrange(lo, hi), p),
{
    assert(s.subrange(lo, hi).subrange(q - lo, q - lo + p.len()) =~= s.subrange(q, q + p.len()));
    assert(crate::text::occurs_at(s.subrange(lo, hi), p, q - lo));
}

proof fn lemma_lines_nl_ends(lines: Seq<Seq<char>>)
    requires
        lines.len() > 0,
    ensures
        lines_nl(lines).len() > 0,
        lines_nl(lines).last() == '\n',
{
    reveal_strlit("\n");
}

/// In a rendered text, the markers are first found around the block that
/// was written, when the text before it has no marker and the lines no end
/// marker.
#[verifier::rlimit(60)]
proof fn lemma_block_found(pre: Seq<char>, ln: Seq<char>, post: Seq<char>)
    requires
        !contains(pre, DEPS_BEGIN@),
        !contains(pre, DEPS_END@),
        !contains(ln, DEPS_END@),
        ln.len() > 0 ==> ln.last() == '\n',
    ensures
        split_around_block(pre + break_before(pre) + DEPS_BEGIN@ + "\n"@ + ln + DEPS_END@ + break_after(post) + post)
            == (pre + break_before(pre), break_after(post) + post),
{
    reveal_strlit("\n");
    lemma_markers();
    let s1 = break_before(pre);
    let s2 = break_after(post);
    let b = DEPS_BEGIN@;
    let e = DEPS_END@;
    let r1 = pre + s1 + b + "\n"@ + ln + e + s2 + post;
    let p1: int = (pre.len() + s1.len()) as int;
    let p2: int = p1 + b.len() + 1 + ln.len();
    assert(r1.subrange(0, pre.len() as int) =~= pre);
    assert(r1.subrange(p1, p1 + b.len()) =~= b);
    assert(r1[p1 + b.len()] == '\n');
    assert(r1.subrange(p1 + b.len() + 1, p2) =~= ln);
    assert(r1.subrange(p2, p2 + e.len()) =~= e);
    assert(r1.take(p1) =~= pre + s1);
    assert(r1.skip(p2 + e.len()) =~= s2 + post);
    assert(p1 >= 1 && r1[p1 - 1] == '\n') by {
        if s1.len() == 0 {
            assert(ends_with(pre, "\n"@));
            assert(pre.skip(pre.len() - 1)[0] == pre[pre.len() - 1]);
        }
    }
    if ln.len() > 0 {
        assert(r1[p2 - 1] == ln[ln.len() - 1]);
    }
    assert(crate::text::occurs_at(r1, b, p1));
    assert forall|q: int| 0 <= q < p1 implies !crate::text::occurs_at(r1, b, q) by {
        if crate::text::occurs_at(r1, b, q) {
            if q + b.len() <= pre.len() {
                lemma_occurs_in_segment(r1, b, q, 0, pre.len() as int);
            } else {
                lemma_no_break_cover(r1, b, q, p1 - 1);
            }
        }
    }
    lemma_first_is_find(r1, b, p1);
    assert(crate::text::occurs_at(r1, e, p2));
    assert forall|q: int| 0 <= q < p2 implies !crate::text::occurs_at(r1, e, q) by {
        if crate::text::occurs_at(r1, e, q) {
            if q < p1 {
                if q + e.len() <= pre.len() {
                    lemma_occurs_in_segment(r1, e, q, 0, pre.len() as int);
                } else {
                    lemma_no_break_cover(r1, e, q, p1 - 1);
                }
            } else if q + e.len() <= p1 + b.len() {
                lemma_occurs_in_segment(r1, e, q, p1, p1 + b.len());
            } else if q <= p1 + b.len() {
                lemma_no_break_cover(r1, e, q, p1 + b.len());
            } else if q + e.len() <= p2 {
                lemma_occurs_in_segment(r1, e, q, p1 + b.len() + 1, p2);
            } else {
                lemma_no_break_cover(r1, e, q, p2 - 1);
            }
        }
    }
    lemma_first_is_find(r1, e, p2);
}

/// Rendering twice gives what rendering once gave: the second pass finds
/// the block that the first one wrote and writes the same lines in its
/// place. This holds where the text before the block has no marker, the
/// lines hold no end marker, and the fixes leave the rendered text as it is.
#[verifier::rlimit(100)]
#[verifier::spinoff_prover]
pub proof fn lemma_render_idempotent(name: Seq<char>, existing: Option<Seq<char>>, v: (u32, u32, u32), lines: Seq<Seq<char>>)
    requires
        !contains(split_around_block(spec_fixups(base_text(name, existing), v)).0, DEPS_BEGIN@),
        !contains(split_around_block(spec_fixups(base_text(name, existing), v)).0, DEPS_END@),
        !contains(lines_nl(lines), DEPS_END@),
        spec_fixups(spec_render(name, existing, v, lines), v) == spec_render(name, existing, v, lines),
    ensures
        spec_render(name, Some(spec_render(name, existing, v, lines)), v, lines) == spec_render(name, existing, v, lines),
{
    reveal_strlit("\n");
    let f = spec_fixups(base_text(name, existing), v);
    let pre = split_around_block(f).0;
    let post = split_around_block(f).1;
    let ln = lines_nl(lines);
    let r1 = spec_render(name, existing, v, lines);
    assert(r1 == pre + break_before(pre) + DEPS_BEGIN@ + "\n"@ + ln + DEPS_END@ + break_after(post) + post);
    if lines.len() > 0 {
        lemma_lines_nl_ends(lines);
    }
    lemma_block_found(pre, ln, post);
    let pre2 = pre + break_before(pre);
    let post2 = break_after(post) + post;
    assert(split_around_block(r1) == (pre2, post2));
    assert(ends_with(pre2, "\n"@)) by {
        assert(pre2.skip(pre2.len() - 1) =~= "\n"@);
    }
    assert(starts_with(post2, "\n"@)) by {
        if break_after(post).len() == 0 {
            assert(starts_with(post, "\n"@));
        }
        assert(post2.take(1) =~= "\n"@);
    }
    assert(break_before(pre2) =~= Seq::<char>::empty());
    assert(break_after(post2) =~= Seq::<char>::empty());
    assert(base_text(name, Some(r1)) == r1);
    assert(spec_render(name, Some(r1), v, lines) =~= pre2 + DEPS_BEGIN@ + "\n"@ + ln + DEPS_END@ + post2);
}

/// Every resource of the component, as shown, is a portable path, so that
/// the name its copy takes is known on every platform.
pub open spec fn resources_plain(c: TritonComponent) -> bool {
    forall|k: int| 0 <= k < nonblank(c.resources@).len() ==> portable_path(#[trigger] staged(nonblank(c.resources@)[k]).1)
}

proof fn lemma_ups_unique(r: TritonRoot, name: Seq<char>, c: TritonComponent, u1: Seq<UpRes>, u2: Seq<UpRes>)
    requires
        ups_ok(r, name, c, u1),
        ups_ok(r, name, c, u2),
    ensures
        u1 == u2,
{
    assert(u1 =~= u2);
}

/// The managed block of a component is one text when its resources are
/// portable paths.
proof fn lemma_managed_block_unique(r: TritonRoot, name: Seq<char>, c: TritonComponent, l1: Seq<Seq<char>>, l2: Seq<Seq<char>>)
    requires
        managed_block_ok(r, name, c, l1),
        managed_block_ok(r, name, c, l2),
        resources_plain(c),
    ensures
        l1 == l2,
{
    let (g1, v1, s1) = choose|git: Seq<Seq<char>>, vcpkg: Seq<Seq<char>>, res: Seq<Seq<char>>|
        git_lines_ok(r, name, c, git) && vcpkg_lines_ok(r, name, c, vcpkg) && resource_lines_ok(c, res)
            && l1 == spec_assemble(
            spec_defines_lines(c),
            git,
            vcpkg,
            spec_component_link_lines(r, c),
            spec_vendor_libs_lines(c),
            spec_link_options_lines(c),
            res,
            spec_assets_lines(c),
            spec_transitive_dll_lines(r, c),
        );
    let (g2, v2, s2) = choose|git: Seq<Seq<char>>, vcpkg: Seq<Seq<char>>, res: Seq<Seq<char>>|
        git_lines_ok(r, name, c, git) && vcpkg_lines_ok(r, name, c, vcpkg) && resource_lines_ok(c, res)
            && l2 == spec_assemble(
            spec_defines_lines(c),
            git,
            vcpkg,
            spec_component_link_lines(r, c),
            spec_vendor_libs_lines(c),
            spec_link_options_lines(c),
            res,
            spec_assets_lines(c),
            spec_transitive_dll_lines(r, c),
        );
    let ga = choose|ups: Seq<UpRes>| ups_ok(r, name, c, ups) && g1 == spec_git_dep_lines(r, spec_git_specs(r, name, c, ups));
    let gb = choose|ups: Seq<UpRes>| ups_ok(r, name, c, ups) && g2 == spec_git_dep_lines(r, spec_git_specs(r, name, c, ups));
    lemma_ups_unique(r, name, c, ga, gb);
    let va = choose|ups: Seq<UpRes>| ups_ok(r, name, c, ups) && v1 == spec_vcpkg_dep_lines(spec_vcpkg_specs(r, name, c, ups));
    let vb = choose|ups: Seq<UpRes>| ups_ok(r, name, c, ups) && v2 == spec_vcpkg_dep_lines(spec_vcpkg_specs(r, name, c, ups));
    lemma_ups_unique(r, name, c, va, vb);
    let names = nonblank(c.resources@);
    let da = choose|dests: Seq<Seq<char>>| dests_ok(names, dests) && s1 == spec_resource_lines(names, dests);
    let db = choose|dests: Seq<Seq<char>>| dests_ok(names, dests) && s2 == spec_resource_lines(names, dests);
    assert forall|k: int| 0 <= k < da.len() implies da[k] == db[k] by {
        assert(portable_path(staged(names[k]).1));
    }
    assert(da =~= db);
}

/// Rewriting a component's `CMakeLists.txt` a second time, from the text
/// the first rewrite gave and with the same model, gives that text again.
/// This holds where the component's resources are portable paths, the text
/// before the managed block has no marker, no block line holds the end
/// marker, and the fixes leave the first result as it is.
pub proof fn lemma_rewrite_twice(
    r: TritonRoot,
    name: Seq<char>,
    c: TritonComponent,
    v: (u32, u32, u32),
    existing: Option<Seq<char>>,
    t1: Seq<char>,
    t2: Seq<char>,
)
    requires
        component_cmake_ok(r, name, c, v, existing, t1),
        component_cmake_ok(r, name, c, v, Some(t1), t2),
        resources_plain(c),
        !contains(split_around_block(spec_fixups(base_text(name, existing), v)).0, DEPS_BEGIN@),
        !contains(split_around_block(spec_fixups(base_text(name, existing), v)).0, DEPS_END@),
        forall|lines: Seq<Seq<char>>| managed_block_ok(r, name, c, lines) ==> !contains(#[trigger] lines_nl(lines), DEPS_END@),
        spec_fixups(t1, v) == t1,
    ensures
        t2 == t1,
{
    let l1 = choose|lines: Seq<Seq<char>>| managed_block_ok(r, name, c, lines) && t1 == spec_render(name, existing, v, lines);
    let l2 = choose|lines: Seq<Seq<char>>| managed_block_ok(r, name, c, lines) && t2 == spec_render(name, Some(t1), v, lines);
    lemma_managed_block_unique(r, name, c, l1, l2);
    assert(!contains(lines_nl(l1), DEPS_END@));
    lemma_render_idempotent(name, existing, v, l1);
}

} // verus!
