//! Managed lines that stage files next to a component's target: resource
//! directories, incrementally synced assets, and the DLLs of vendor libraries
//! of the components an executable links, directly or not.

use vstd::prelude::*;
use crate::models::{TritonRoot, TritonComponent, VendorLibs, distinct_keys};
use crate::text::{
    views, trim, split_char, is_alnum, ends_with, push_line, push_lit, to_owned, trim_str, is_blank, cat3,
    cat5, cat7, str_eq, str_ends_with, chars_of, string_from_range, push_str, opt_view_s,
    lemma_views_add,
};
use crate::util::validation::{spec_has_link, has_link_to_name};
use crate::cmake::resolution::{reach, reach_from, reachable_components, all_distinct};
use crate::cmake::generators::{dll_of, flat, lemma_flat_push};
use crate::cmake::settings::{spec_staged_source, staged_source_expr};

verus! {

// ---------------------------------------------------------------------------
// Trimmed entries
// ---------------------------------------------------------------------------

/// The trimmed non-blank entries among the first `k`, in order.
pub open spec fn trimmed_entries(v: Seq<String>, k: int) -> Seq<Seq<char>>
    decreases k,
{
    if k <= 0 {
        Seq::empty()
    } else if trim(v[k - 1]@).len() > 0 {
        trimmed_entries(v, k - 1).push(trim(v[k - 1]@))
    } else {
        trimmed_entries(v, k - 1)
    }
}

/// The trimmed non-blank entries of a list.
pub open spec fn nonblank(v: Seq<String>) -> Seq<Seq<char>> {
    trimmed_entries(v, v.len() as int)
}

pub fn nonblank_exec(v: &Vec<String>) -> (res: Vec<String>)
    ensures
        views(res@) == nonblank(v@),
{
    let mut out: Vec<String> = Vec::new();
    let mut k: usize = 0;
    while k < v.len()
        invariant
            k <= v@.len(),
            views(out@) == trimmed_entries(v@, k as int),
        decreases v.len() - k,
    {
        if !is_blank(v[k].as_str()) {
            push_line(&mut out, trim_str(v[k].as_str()));
        }
        k += 1;
    }
    out
}

// ---------------------------------------------------------------------------
// Resources
// ---------------------------------------------------------------------------

/// A path split at `/` only on every platform: no `\`, no drive colon,
/// and no leading `//` (which Windows reads as a network share).
pub open spec fn portable_path(s: Seq<char>) -> bool {
    &&& forall|i: int| 0 <= i < s.len() ==> s[i] != '\\' && s[i] != ':'
    &&& !(s.len() >= 2 && s[0] == '/' && s[1] == '/')
}

/// The parts between `/` that name something: neither empty nor `.`.
pub open spec fn named_parts(parts: Seq<Seq<char>>) -> Seq<Seq<char>>
    decreases parts.len(),
{
    if parts.len() == 0 {
        Seq::empty()
    } else {
        let r = named_parts(parts.drop_last());
        let x = parts.last();
        if x.len() == 0 || x == seq!['.'] {
            r
        } else {
            r.push(x)
        }
    }
}

/// The final component of a portable path as a name: its last named part,
/// and none when there is no named part or the last is `..`.
pub open spec fn spec_file_name(s: Seq<char>) -> Option<Seq<char>> {
    let n = named_parts(split_char(s, '/'));
    if n.len() == 0 || n.last() == seq!['.', '.'] {
        None
    } else {
        Some(n.last())
    }
}

/// The name the copy of a resource takes: the path's final component, or
/// the whole path where it has none.
pub open spec fn copy_name(shown: Seq<char>) -> Seq<char> {
    match spec_file_name(shown) {
        Some(n) => n,
        None => shown,
    }
}

/// Calls `std::path::Path::file_name` on the path and gives the final
/// component back as a string. Stated for paths that every platform splits
/// alike (see `portable_path`): the last part that is neither empty nor `.`,
/// unless that is `..` or there is none. Left unsaid: paths with `\`, a
/// drive colon or a leading `//`, which Windows reads otherwise.
#[verifier::external_body]
fn path_file_name(p: &str) -> (res: Option<String>)
    ensures
        portable_path(p@) ==> opt_view_s(res) == spec_file_name(p@),
{
    match std::path::Path::new(p).file_name() {
        Some(n) => n.to_str().map(String::from),
        None => None,
    }
}

/// Where a staged path of a component is found, and the path as shown.
pub open spec fn staged(raw: Seq<char>) -> (Seq<char>, Seq<char>) {
    spec_staged_source(raw, "${CMAKE_CURRENT_SOURCE_DIR}"@)
}

/// The copy command for one resource directory, then a blank line.
pub open spec fn resource_block(res: Seq<char>, dest: Seq<char>) -> Seq<Seq<char>> {
    let (src, shown) = staged(res);
    seq![
        "add_custom_command(TARGET ${_comp_name} POST_BUILD\n    COMMAND ${CMAKE_COMMAND} -E copy_directory\n        \""@
            + src + "\"\n        \"$<TARGET_FILE_DIR:${_comp_name}>/"@ + dest
            + "\"\n    COMMENT \"Copying '"@ + shown + "' next to executable\"\n)"@,
        Seq::<char>::empty(),
    ]
}

pub open spec fn resource_blocks(names: Seq<Seq<char>>, dests: Seq<Seq<char>>, k: int) -> Seq<Seq<char>>
    decreases k,
{
    if k <= 0 {
        Seq::empty()
    } else {
        resource_blocks(names, dests, k - 1) + resource_block(names[k - 1], dests[k - 1])
    }
}

/// The resource lines for resource paths and the names their copies take.
pub open spec fn spec_resource_lines(names: Seq<Seq<char>>, dests: Seq<Seq<char>>) -> Seq<Seq<char>> {
    resource_blocks(names, dests, names.len() as int)
}

/// The destination name is the copy name of the shown path where that path
/// is portable.
pub open spec fn dests_ok(names: Seq<Seq<char>>, dests: Seq<Seq<char>>) -> bool {
    &&& dests.len() == names.len()
    &&& forall|k: int| 0 <= k < names.len() && portable_path(#[trigger] staged(names[k]).1)
        ==> dests[k] == copy_name(staged(names[k]).1)
}

/// Lines that copy each resource directory next to the target under the
/// given destination name.
pub fn resource_lines_for(names: &Vec<String>, dests: &Vec<String>) -> (res: Vec<String>)
    requires
        names@.len() == dests@.len(),
    ensures
        views(res@) == spec_resource_lines(views(names@), views(dests@)),
{
    let mut lines: Vec<String> = Vec::new();
    let mut k: usize = 0;
    while k < names.len()
        invariant
            k <= names@.len(),
            names@.len() == dests@.len(),
            views(lines@) == resource_blocks(views(names@), views(dests@), k as int),
        decreases names.len() - k,
    {
        let (src, shown) = staged_source_expr(names[k].as_str(), "${CMAKE_CURRENT_SOURCE_DIR}");
        let d = dests[k].as_str();
        let mut s = cat3(
            "add_custom_command(TARGET ${_comp_name} POST_BUILD\n    COMMAND ${CMAKE_COMMAND} -E copy_directory\n        \"",
            src.as_str(),
            "\"\n        \"$<TARGET_FILE_DIR:${_comp_name}>/",
        );
        push_str(&mut s, d);
        push_str(&mut s, "\"\n    COMMENT \"Copying '");
        push_str(&mut s, shown.as_str());
        push_str(&mut s, "' next to executable\"\n)");
        push_line(&mut lines, s);
        push_line(&mut lines, String::new());
        assert(views(lines@) =~= resource_blocks(views(names@), views(dests@), k + 1));
        k += 1;
    }
    lines
}

/// Lines are the resource lines of a component for destination names that
/// keep plain names.
pub open spec fn resource_lines_ok(c: TritonComponent, lines: Seq<Seq<char>>) -> bool {
    exists|dests: Seq<Seq<char>>|
        dests_ok(nonblank(c.resources@), dests) && lines == spec_resource_lines(nonblank(c.resources@), dests)
}

/// Resource directories of a component, each copied next to the target after
/// a build (a path under `@root/` is found beside the project directory),
/// under the path's final component (the whole path where it has none).
pub fn gen_component_resources_lines(comp: &TritonComponent) -> (res: Vec<String>)
    ensures
        resource_lines_ok(*comp, views(res@)),
{
    let names = nonblank_exec(&comp.resources);
    let mut dests: Vec<String> = Vec::new();
    let mut k: usize = 0;
    while k < names.len()
        invariant
            k <= names@.len(),
            dests@.len() == k,
            forall|j: int| 0 <= j < k && portable_path(#[trigger] staged(views(names@)[j]).1)
                ==> dests@[j]@ == copy_name(staged(names@[j]@).1),
        decreases names.len() - k,
    {
        let (_src, shown) = staged_source_expr(names[k].as_str(), "${CMAKE_CURRENT_SOURCE_DIR}");
        let d = match path_file_name(shown.as_str()) {
            Some(n) => n,
            None => shown,
        };
        dests.push(d);
        k += 1;
    }
    let res = resource_lines_for(&names, &dests);
    assert(dests_ok(views(names@), views(dests@)));
    res
}

// ---------------------------------------------------------------------------
// Assets
// ---------------------------------------------------------------------------

/// A CMake-variable-safe id of an asset path: every character that is not an
/// ASCII letter or digit becomes `_`.
pub open spec fn asset_id(s: Seq<char>) -> Seq<char> {
    s.map_values(|c: char| if is_alnum(c) { c } else { '_' })
}

fn ascii_alnum(c: char) -> (r: bool)
    ensures
        r == is_alnum(c),
{
    ('0' <= c && c <= '9') || ('a' <= c && c <= 'z') || ('A' <= c && c <= 'Z')
}

fn make_asset_id(s: &str) -> (res: String)
    ensures
        res@ == asset_id(s@),
{
    let v = chars_of(s);
    let mut out = String::new();
    let mut i: usize = 0;
    while i < v.len()
        invariant
            i <= v@.len(),
            v@ == s@,
            out@ == asset_id(s@.take(i as int)),
        decreases v.len() - i,
    {
        let c = v[i];
        if ascii_alnum(c) {
            out.push(c);
        } else {
            out.push('_');
        }
        assert(asset_id(s@.take(i + 1)) =~= asset_id(s@.take(i as int)).push(
            if is_alnum(c) { c } else { '_' },
        ));
        i += 1;
    }
    assert(s@.take(v@.len() as int) =~= s@);
    out
}

pub open spec fn src_ref(id: Seq<char>) -> Seq<char> {
    "${_triton_asset_src_"@ + id + "}"@
}

pub open spec fn dst_ref(id: Seq<char>) -> Seq<char> {
    "${_triton_asset_dst_"@ + id + "}"@
}

pub open spec fn stamp_ref(id: Seq<char>) -> Seq<char> {
    "${_triton_asset_stamp_"@ + id + "}"@
}

pub open spec fn files_ref(id: Seq<char>) -> Seq<char> {
    "${_triton_asset_files_"@ + id + "}"@
}

pub open spec fn name_ref(id: Seq<char>) -> Seq<char> {
    "${_triton_asset_name_"@ + id + "}"@
}

/// The stamp file variable of an asset.
pub open spec fn stamp_set_line(id: Seq<char>) -> Seq<char> {
    "    set(_triton_asset_stamp_"@ + id + " \"${CMAKE_CURRENT_BINARY_DIR}/${_comp_name}_assets_"@ + id
        + ".stamp\")"@
}

pub open spec fn make_dir_line(id: Seq<char>) -> Seq<char> {
    "      COMMAND \"${CMAKE_COMMAND}\" -E make_directory \""@ + dst_ref(id) + "\""@
}

pub open spec fn output_line(id: Seq<char>) -> Seq<char> {
    "      OUTPUT \""@ + stamp_ref(id) + "\""@
}

pub open spec fn touch_line(id: Seq<char>) -> Seq<char> {
    "      COMMAND \"${CMAKE_COMMAND}\" -E touch \""@ + stamp_ref(id) + "\""@
}

pub open spec fn append_stamp_line(id: Seq<char>) -> Seq<char> {
    "    list(APPEND _triton_asset_stamps \""@ + stamp_ref(id) + "\")"@
}

/// The rule that syncs an asset directory.
pub open spec fn asset_dir_lines(id: Seq<char>) -> Seq<Seq<char>> {
    seq![
        "    get_filename_component(_triton_asset_name_"@ + id + " \""@ + src_ref(id) + "\" NAME)"@,
        "    set(_triton_asset_dst_"@ + id + " \"$<TARGET_FILE_DIR:${_comp_name}>/"@ + name_ref(id) + "\")"@,
        stamp_set_line(id),
        "    file(GLOB_RECURSE _triton_asset_files_"@ + id + " CONFIGURE_DEPENDS \""@ + src_ref(id) + "/*\")"@,
        "    add_custom_command("@,
        output_line(id),
        make_dir_line(id),
        "      COMMAND \"${CMAKE_COMMAND}\" -E remove_directory \""@ + dst_ref(id) + "\""@,
        make_dir_line(id),
        "      COMMAND \"${CMAKE_COMMAND}\" -E copy_directory \""@ + src_ref(id) + "\" \""@ + dst_ref(id) + "\""@,
        touch_line(id),
        "      DEPENDS "@ + files_ref(id) + " \"${CMAKE_BINARY_DIR}/CMakeCache.txt\""@,
        "      COMMENT \"Syncing assets (dir): "@ + src_ref(id) + " -> "@ + dst_ref(id) + "\""@,
        "      VERBATIM"@,
        "    )"@,
        append_stamp_line(id),
    ]
}

/// The rule that copies a single asset file.
pub open spec fn asset_file_lines(id: Seq<char>) -> Seq<Seq<char>> {
    seq![
        "    set(_triton_asset_dst_"@ + id + " \"$<TARGET_FILE_DIR:${_comp_name}>\")"@,
        stamp_set_line(id),
        "    add_custom_command("@,
        output_line(id),
        make_dir_line(id),
        "      COMMAND \"${CMAKE_COMMAND}\" -E copy_if_different \""@ + src_ref(id) + "\" \""@ + dst_ref(id) + "\""@,
        touch_line(id),
        "      DEPENDS \""@ + src_ref(id) + "\" \"${CMAKE_BINARY_DIR}/CMakeCache.txt\""@,
        "      COMMENT \"Copy asset file: "@ + src_ref(id) + " -> "@ + dst_ref(id) + "\""@,
        "      VERBATIM"@,
        "    )"@,
        append_stamp_line(id),
    ]
}

/// All lines for one asset path `a`.
pub open spec fn asset_block(a: Seq<char>) -> Seq<Seq<char>> {
    let (src, shown) = staged(a);
    let id = asset_id(shown);
    seq![
        "set(_triton_asset_src_"@ + id + " \""@ + src + "\")"@,
        "if(EXISTS \""@ + src_ref(id) + "\")"@,
        "  if(IS_DIRECTORY \""@ + src_ref(id) + "\")"@,
    ] + asset_dir_lines(id) + seq!["  else()"@] + asset_file_lines(id) + seq![
        "  endif()"@,
        "else()"@,
        "  message(WARNING \"triton: asset path not found for '${_comp_name}': "@ + shown + "\")"@,
        "endif()"@,
    ]
}

pub open spec fn asset_blocks(names: Seq<Seq<char>>, k: int) -> Seq<Seq<char>>
    decreases k,
{
    if k <= 0 {
        Seq::empty()
    } else {
        asset_blocks(names, k - 1) + asset_block(names[k - 1])
    }
}

/// The asset lines of a component: nothing without assets; otherwise the
/// stamp list, one block per non-blank asset, and the target that depends on
/// all stamps.
pub open spec fn spec_assets_lines(c: TritonComponent) -> Seq<Seq<char>> {
    if c.assets@.len() == 0 {
        Seq::empty()
    } else {
        let names = nonblank(c.assets@);
        seq![
            "# --- triton: stage component assets next to target (incremental) ---"@,
            "set(_triton_asset_stamps)"@,
        ] + asset_blocks(names, names.len() as int) + seq![
            "if(_triton_asset_stamps)"@,
            "  add_custom_target(${_comp_name}_assets ALL DEPENDS ${_triton_asset_stamps})"@,
            "  add_dependencies(${_comp_name} ${_comp_name}_assets)"@,
            "endif()"@,
            Seq::<char>::empty(),
        ]
    }
}

struct AssetRefs {
    id: String,
    src: String,
    dst: String,
    stamp: String,
}

fn asset_refs(a: &str) -> (r: AssetRefs)
    ensures
        r.id@ == asset_id(a@),
        r.src@ == src_ref(asset_id(a@)),
        r.dst@ == dst_ref(asset_id(a@)),
        r.stamp@ == stamp_ref(asset_id(a@)),
{
    let id = make_asset_id(a);
    let src = cat3("${_triton_asset_src_", id.as_str(), "}");
    let dst = cat3("${_triton_asset_dst_", id.as_str(), "}");
    let stamp = cat3("${_triton_asset_stamp_", id.as_str(), "}");
    AssetRefs { id, src, dst, stamp }
}

fn push_stamp_set(out: &mut Vec<String>, id: &str)
    ensures
        views(final(out)@) == views(old(out)@).push(stamp_set_line(id@)),
{
    push_line(out, cat5("    set(_triton_asset_stamp_", id, " \"${CMAKE_CURRENT_BINARY_DIR}/${_comp_name}_assets_", id, ".stamp\")"));
}

fn push_output_make_dir(out: &mut Vec<String>, r: &AssetRefs)
    requires
        r.dst@ == dst_ref(r.id@),
        r.stamp@ == stamp_ref(r.id@),
    ensures
        views(final(out)@) == views(old(out)@) + seq![output_line(r.id@), make_dir_line(r.id@)],
{
    let ghost before = views(out@);
    push_line(out, cat3("      OUTPUT \"", r.stamp.as_str(), "\""));
    push_line(out, cat3("      COMMAND \"${CMAKE_COMMAND}\" -E make_directory \"", r.dst.as_str(), "\""));
    assert(views(out@) =~= before + seq![output_line(r.id@), make_dir_line(r.id@)]);
}

fn push_asset_dir_lines(out: &mut Vec<String>, r: &AssetRefs)
    requires
        r.src@ == src_ref(r.id@),
        r.dst@ == dst_ref(r.id@),
        r.stamp@ == stamp_ref(r.id@),
    ensures
        views(final(out)@) == views(old(out)@) + asset_dir_lines(r.id@),
{
    let ghost before = views(out@);
    let id = r.id.as_str();
    let name = cat3("${_triton_asset_name_", id, "}");
    let files = cat3("${_triton_asset_files_", id, "}");
    push_line(out, cat5("    get_filename_component(_triton_asset_name_", id, " \"", r.src.as_str(), "\" NAME)"));
    push_line(out, cat5("    set(_triton_asset_dst_", id, " \"$<TARGET_FILE_DIR:${_comp_name}>/", name.as_str(), "\")"));
    push_stamp_set(out, id);
    push_line(out, cat5("    file(GLOB_RECURSE _triton_asset_files_", id, " CONFIGURE_DEPENDS \"", r.src.as_str(), "/*\")"));
    push_lit(out, "    add_custom_command(");
    push_output_make_dir(out, r);
    push_line(out, cat3("      COMMAND \"${CMAKE_COMMAND}\" -E remove_directory \"", r.dst.as_str(), "\""));
    push_line(out, cat3("      COMMAND \"${CMAKE_COMMAND}\" -E make_directory \"", r.dst.as_str(), "\""));
    push_line(out, cat5("      COMMAND \"${CMAKE_COMMAND}\" -E copy_directory \"", r.src.as_str(), "\" \"", r.dst.as_str(), "\""));
    push_line(out, cat3("      COMMAND \"${CMAKE_COMMAND}\" -E touch \"", r.stamp.as_str(), "\""));
    push_line(out, cat3("      DEPENDS ", files.as_str(), " \"${CMAKE_BINARY_DIR}/CMakeCache.txt\""));
    push_line(out, cat5("      COMMENT \"Syncing assets (dir): ", r.src.as_str(), " -> ", r.dst.as_str(), "\""));
    push_lit(out, "      VERBATIM");
    push_lit(out, "    )");
    push_line(out, cat3("    list(APPEND _triton_asset_stamps \"", r.stamp.as_str(), "\")"));
    assert(views(out@) =~= before + asset_dir_lines(r.id@));
}

fn push_asset_file_lines(out: &mut Vec<String>, r: &AssetRefs)
    requires
        r.src@ == src_ref(r.id@),
        r.dst@ == dst_ref(r.id@),
        r.stamp@ == stamp_ref(r.id@),
    ensures
        views(final(out)@) == views(old(out)@) + asset_file_lines(r.id@),
{
    let ghost before = views(out@);
    let id = r.id.as_str();
    push_line(out, cat3("    set(_triton_asset_dst_", id, " \"$<TARGET_FILE_DIR:${_comp_name}>\")"));
    push_stamp_set(out, id);
    push_lit(out, "    add_custom_command(");
    push_output_make_dir(out, r);
    push_line(out, cat5("      COMMAND \"${CMAKE_COMMAND}\" -E copy_if_different \"", r.src.as_str(), "\" \"", r.dst.as_str(), "\""));
    push_line(out, cat3("      COMMAND \"${CMAKE_COMMAND}\" -E touch \"", r.stamp.as_str(), "\""));
    push_line(out, cat3("      DEPENDS \"", r.src.as_str(), "\" \"${CMAKE_BINARY_DIR}/CMakeCache.txt\""));
    push_line(out, cat5("      COMMENT \"Copy asset file: ", r.src.as_str(), " -> ", r.dst.as_str(), "\""));
    push_lit(out, "      VERBATIM");
    push_lit(out, "    )");
    push_line(out, cat3("    list(APPEND _triton_asset_stamps \"", r.stamp.as_str(), "\")"));
    assert(views(out@) =~= before + asset_file_lines(r.id@));
}

fn push_asset_block(out: &mut Vec<String>, a: &str)
    ensures
        views(final(out)@) == views(old(out)@) + asset_block(a@),
{
    let ghost before = views(out@);
    let (src, shown) = staged_source_expr(a, "${CMAKE_CURRENT_SOURCE_DIR}");
    let r = asset_refs(shown.as_str());
    push_line(out, cat5("set(_triton_asset_src_", r.id.as_str(), " \"", src.as_str(), "\")"));
    push_line(out, cat3("if(EXISTS \"", r.src.as_str(), "\")"));
    push_line(out, cat3("  if(IS_DIRECTORY \"", r.src.as_str(), "\")"));
    let ghost head = views(out@);
    push_asset_dir_lines(out, &r);
    push_lit(out, "  else()");
    push_asset_file_lines(out, &r);
    let ghost mid = views(out@);
    push_lit(out, "  endif()");
    push_lit(out, "else()");
    push_line(out, cat3("  message(WARNING \"triton: asset path not found for '${_comp_name}': ", shown.as_str(), "\")"));
    push_lit(out, "endif()");
    assert(views(out@) =~= before + asset_block(a@));
}

/// Asset staging of a component: each non-blank asset path (one under
/// `@root/` beside the project directory) is synced next to the target
/// incrementally, a directory through a stamp of its files and a
/// file by copying it when it changed.
pub fn gen_component_assets_lines(comp: &TritonComponent) -> (res: Vec<String>)
    ensures
        views(res@) == spec_assets_lines(*comp),
{
    let mut lines: Vec<String> = Vec::new();
    if comp.assets.len() == 0 {
        assert(views(lines@) =~= spec_assets_lines(*comp));
        return lines;
    }
    let names = nonblank_exec(&comp.assets);
    push_lit(&mut lines, "# --- triton: stage component assets next to target (incremental) ---");
    push_lit(&mut lines, "set(_triton_asset_stamps)");
    let ghost head = views(lines@);
    let mut k: usize = 0;
    while k < names.len()
        invariant
            k <= names@.len(),
            views(lines@) == head + asset_blocks(views(names@), k as int),
        decreases names.len() - k,
    {
        push_asset_block(&mut lines, names[k].as_str());
        assert(views(lines@) =~= head + asset_blocks(views(names@), k + 1));
        k += 1;
    }
    push_lit(&mut lines, "if(_triton_asset_stamps)");
    push_lit(&mut lines, "  add_custom_target(${_comp_name}_assets ALL DEPENDS ${_triton_asset_stamps})");
    push_lit(&mut lines, "  add_dependencies(${_comp_name} ${_comp_name}_assets)");
    push_lit(&mut lines, "endif()");
    push_line(&mut lines, String::new());
    assert(views(lines@) =~= spec_assets_lines(*comp));
    lines
}


// ---------------------------------------------------------------------------
// Vendor DLLs of linked components
// ---------------------------------------------------------------------------

/// Index of the first entry with key `k` at or after `i`.
pub open spec fn find_key(m: Seq<(String, Vec<String>)>, k: Seq<char>, i: int) -> Option<int>
    decreases m.len() - i,
{
    if i < 0 || i >= m.len() {
        None
    } else if m[i].0@ == k {
        Some(i)
    } else {
        find_key(m, k, i + 1)
    }
}

/// The vendor libraries a component has for Windows: its list for all
/// platforms, or its `windows` entry (else its `Windows` entry) per platform.
pub open spec fn windows_libs(c: TritonComponent) -> Seq<String> {
    match c.vendor_libs {
        VendorLibs::Unset => Seq::empty(),
        VendorLibs::All(libs) => libs@,
        VendorLibs::PerPlatform(m) => match find_key(m@, "windows"@, 0) {
            Some(i) => m@[i].1@,
            None => match find_key(m@, "Windows"@, 0) {
                Some(i) => m@[i].1@,
                None => Seq::empty(),
            },
        },
    }
}

/// The copy of one linked component's DLL next to the executable, on Windows.
pub open spec fn dll_block(cn: Seq<char>, lib: Seq<char>) -> Seq<Seq<char>> {
    let full = "${CMAKE_SOURCE_DIR}/"@ + cn + "/"@ + dll_of(lib);
    seq![
        "if(WIN32)"@,
        "  if(EXISTS \""@ + full + "\")"@,
        "    add_custom_command(TARGET ${_comp_name} POST_BUILD COMMAND ${CMAKE_COMMAND} -E copy_if_different \""@
            + full + "\" \"$<TARGET_FILE_DIR:${_comp_name}>\")"@,
        "  endif()"@,
        "endif()"@,
    ]
}

/// DLL copies for the `.lib` paths among the first `k` libraries.
pub open spec fn dll_blocks(cn: Seq<char>, libs: Seq<Seq<char>>, k: int) -> Seq<Seq<char>>
    decreases k,
{
    if k <= 0 {
        Seq::empty()
    } else {
        dll_blocks(cn, libs, k - 1) + if ends_with(libs[k - 1], ".lib"@) {
            dll_block(cn, libs[k - 1])
        } else {
            Seq::empty()
        }
    }
}

/// The DLL copies for component `j` of the model.
pub open spec fn component_dll_lines(r: TritonRoot, j: int) -> Seq<Seq<char>> {
    let libs = views(windows_libs(r.components@[j].1));
    dll_blocks(r.components@[j].0@, libs, libs.len() as int)
}

/// Component `j` is reached from a component that `c` links directly.
pub open spec fn linked_reach(r: TritonRoot, c: TritonComponent, j: int) -> bool {
    exists|i: int| 0 <= i < r.components@.len() && spec_has_link(c, r.components@[i].0@) && reach(r, i, j)
}

pub open spec fn dll_lines_upto(r: TritonRoot, c: TritonComponent, n: int) -> Seq<Seq<char>>
    decreases n,
{
    if n <= 0 {
        Seq::empty()
    } else {
        dll_lines_upto(r, c, n - 1) + if linked_reach(r, c, n - 1) {
            component_dll_lines(r, n - 1)
        } else {
            Seq::empty()
        }
    }
}

/// The DLL copy lines of a component: none but for an executable, which gets
/// the Windows DLLs of every component it reaches through links, in
/// component-name order.
pub open spec fn spec_transitive_dll_lines(r: TritonRoot, c: TritonComponent) -> Seq<Seq<char>> {
    if c.kind@ != "exe"@ {
        Seq::empty()
    } else {
        dll_lines_upto(r, c, r.components@.len() as int)
    }
}

fn find_key_exec(m: &Vec<(String, Vec<String>)>, k: &str) -> (res: Option<usize>)
    ensures
        match res {
            Some(i) => find_key(m@, k@, 0) == Some(i as int) && i < m@.len(),
            None => find_key(m@, k@, 0) is None,
        },
{
    let mut i: usize = 0;
    while i < m.len()
        invariant
            i <= m@.len(),
            find_key(m@, k@, i as int) == find_key(m@, k@, 0),
        decreases m.len() - i,
    {
        if str_eq(m[i].0.as_str(), k) {
            return Some(i);
        }
        i += 1;
    }
    None
}

fn windows_libs_exec(c: &TritonComponent) -> (res: Vec<String>)
    ensures
        views(res@) == views(windows_libs(*c)),
{
    match &c.vendor_libs {
        VendorLibs::Unset => Vec::new(),
        VendorLibs::All(libs) => crate::models::clone_strings(libs),
        VendorLibs::PerPlatform(m) => match find_key_exec(m, "windows") {
            Some(i) => crate::models::clone_strings(&m[i].1),
            None => match find_key_exec(m, "Windows") {
                Some(i) => crate::models::clone_strings(&m[i].1),
                None => Vec::new(),
            },
        },
    }
}

fn push_dll_blocks(out: &mut Vec<String>, cn: &str, libs: &Vec<String>)
    ensures
        views(final(out)@) == views(old(out)@) + dll_blocks(cn@, views(libs@), libs@.len() as int),
{
    let ghost start = views(out@);
    let mut k: usize = 0;
    while k < libs.len()
        invariant
            k <= libs@.len(),
            views(out@) == start + dll_blocks(cn@, views(libs@), k as int),
        decreases libs.len() - k,
    {
        let lib = libs[k].as_str();
        let ghost before = views(out@);
        if str_ends_with(lib, ".lib") {
            proof {
                reveal_strlit(".lib");
            }
            let c = chars_of(lib);
            let mut full = cat3("${CMAKE_SOURCE_DIR}/", cn, "/");
            let stem = string_from_range(&c, 0, c.len() - 3);
            push_str(&mut full, stem.as_str());
            push_str(&mut full, "dll");
            assert(full@ =~= "${CMAKE_SOURCE_DIR}/"@ + cn@ + "/"@ + dll_of(lib@));
            push_lit(out, "if(WIN32)");
            push_line(out, cat3("  if(EXISTS \"", full.as_str(), "\")"));
            push_line(out, cat3("    add_custom_command(TARGET ${_comp_name} POST_BUILD COMMAND ${CMAKE_COMMAND} -E copy_if_different \"", full.as_str(), "\" \"$<TARGET_FILE_DIR:${_comp_name}>\")"));
            push_lit(out, "  endif()");
            push_lit(out, "endif()");
            assert(views(out@) =~= before + dll_block(cn@, lib@));
        }
        assert(views(out@) =~= start + dll_blocks(cn@, views(libs@), k + 1));
        k += 1;
    }
}

proof fn lemma_starts_reach(r: TritonRoot, c: TritonComponent, starts: Seq<usize>, x: int)
    requires
        r.components@.len() <= usize::MAX,
        forall|k: int| 0 <= k < starts.len() ==> starts[k] < r.components@.len(),
        forall|i: int| 0 <= i < r.components@.len() ==> (starts.contains(i as usize) <==> spec_has_link(c, #[trigger] r.components@[i].0@)),
    ensures
        reach_from(r, starts, x) <==> linked_reach(r, c, x),
{
    if reach_from(r, starts, x) {
        let k = choose|k: int| 0 <= k < starts.len() && reach(r, starts[k] as int, x);
        let i = starts[k] as int;
        assert(starts[k] == i as usize);
        assert(starts.contains(i as usize));
        assert(spec_has_link(c, r.components@[i].0@));
    }
    if linked_reach(r, c, x) {
        let i = choose|i: int| 0 <= i < r.components@.len() && spec_has_link(c, r.components@[i].0@) && reach(r, i, x);
        assert(spec_has_link(c, r.components@[i].0@));
        assert(starts.contains(i as usize));
        let k = choose|k: int| 0 <= k < starts.len() && starts[k] == i as usize;
        assert(starts[k] as int == i);
        assert(reach(r, starts[k] as int, x));
    }
}

/// For an executable, copies next to it the Windows DLL that sits beside each
/// `.lib` vendor library of every component it reaches through component
/// links.
pub fn gen_transitive_vendor_dll_copies(name: &str, root: &TritonRoot, comp: &TritonComponent) -> (res: Vec<String>)
    requires
        distinct_keys(root.components@),
    ensures
        views(res@) == spec_transitive_dll_lines(*root, *comp),
{
    let mut lines: Vec<String> = Vec::new();
    if !str_eq(comp.kind.as_str(), "exe") {
        assert(views(lines@) =~= Seq::<Seq<char>>::empty());
        return lines;
    }
    let n = root.components.len();
    let mut starts: Vec<usize> = Vec::new();
    let mut i: usize = 0;
    while i < n
        invariant
            i <= n,
            n == root.components@.len(),
            forall|k: int| 0 <= k < starts@.len() ==> starts@[k] < i,
            forall|j: int| 0 <= j < i ==> (starts@.contains(j as usize) <==> spec_has_link(*comp, #[trigger] root.components@[j].0@)),
        decreases n - i,
    {
        let ghost old_starts = starts@;
        let b = has_link_to_name(comp, root.components[i].0.as_str());
        if b {
            starts.push(i);
        }
        proof {
            if b {
                assert(starts@ == old_starts.push(i));
            } else {
                assert(starts@ == old_starts);
            }
            assert forall|j: int| 0 <= j < i + 1 implies (starts@.contains(j as usize) <==> spec_has_link(*comp, #[trigger] root.components@[j].0@)) by {
                if starts@.contains(j as usize) {
                    let k = choose|k: int| 0 <= k < starts@.len() && starts@[k] == j as usize;
                    if k < old_starts.len() {
                        assert(old_starts[k] == j as usize);
                        assert(old_starts.contains(j as usize));
                    }
                }
                if spec_has_link(*comp, root.components@[j].0@) {
                    if j < i {
                        assert(old_starts.contains(j as usize));
                        let k = choose|k: int| 0 <= k < old_starts.len() && old_starts[k] == j as usize;
                        assert(starts@[k] == j as usize);
                    } else {
                        assert(starts@[starts@.len() - 1] == i);
                    }
                }
            }
        }
        i += 1;
    }
    let reached = reachable_components(root, &starts);
    let mut seen: Vec<bool> = Vec::new();
    let mut m: usize = 0;
    while m < n
        invariant
            m <= n,
            seen@.len() == m,
            forall|x: int| 0 <= x < m ==> (seen@[x] <==> reached@.contains(x as usize)),
        decreases n - m,
    {
        let mut found = false;
        let mut q: usize = 0;
        while q < reached.len()
            invariant
                q <= reached@.len(),
                found <==> exists|t: int| 0 <= t < q && reached@[t] == m,
            decreases reached.len() - q,
        {
            if reached[q] == m {
                found = true;
            }
            q += 1;
        }
        seen.push(found);
        m += 1;
    }
    proof {
        assert forall|x: int| 0 <= x < n implies (#[trigger] seen@[x] <==> linked_reach(*root, *comp, x)) by {
            lemma_starts_reach(*root, *comp, starts@, x);
        }
    }
    let mut j: usize = 0;
    while j < n
        invariant
            j <= n,
            n == root.components@.len(),
            seen@.len() == n,
            comp.kind@ == "exe"@,
            forall|x: int| 0 <= x < n ==> (seen@[x] <==> linked_reach(*root, *comp, x)),
            views(lines@) == dll_lines_upto(*root, *comp, j as int),
        decreases n - j,
    {
        if seen[j] {
            let libs = windows_libs_exec(&root.components[j].1);
            push_dll_blocks(&mut lines, root.components[j].0.as_str(), &libs);
        }
        assert(views(lines@) =~= dll_lines_upto(*root, *comp, j + 1));
        j += 1;
    }
    lines
}

} // verus!
