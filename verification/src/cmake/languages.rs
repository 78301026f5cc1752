//! Which languages (C, C++) the components use, judged by the extensions of
//! their source files, and the standards that apply.
//!
//! The files under a component's `src` directory are listed by the caller;
//! the extra `sources` of a component come from the model.

use vstd::prelude::*;
use crate::models::{TritonRoot, TritonComponent, opt_view, clone_opt};
use crate::text::{
    views, trim, lower, replace_char, starts_with, chars_of, string_from_range, to_lower,
    str_eq, trim_str, replace_char_str, is_blank, to_owned,
};

verus! {

/// Languages of one component and the standards that apply to them.
#[derive(Debug)]
pub struct ComponentLanguageSettings {
    pub uses_c: bool,
    pub uses_cxx: bool,
    pub c_std: Option<String>,
    pub cxx_std: Option<String>,
}

/// Languages used anywhere in the project.
#[derive(Debug)]
pub struct GraphLanguageSettings {
    pub uses_c: bool,
    pub uses_cxx: bool,
}

impl GraphLanguageSettings {
    /// The `LANGUAGES` clause of the root `project()`: C++ unless only C is
    /// used, and both when both are.
    pub fn cmake_languages_clause(&self) -> (res: &'static str)
        ensures
            res@ == (if self.uses_c && self.uses_cxx {
                "C CXX"@
            } else if self.uses_c {
                "C"@
            } else {
                "CXX"@
            }),
    {
        if self.uses_c && self.uses_cxx {
            "C CXX"
        } else if self.uses_c {
            "C"
        } else {
            "CXX"
        }
    }
}

/// A path separator.
pub open spec fn is_sep(c: char) -> bool {
    c == '/' || c == '\\'
}

/// The path without trailing separators.
pub open spec fn strip_trailing_seps(p: Seq<char>) -> Seq<char>
    decreases p.len(),
{
    if p.len() > 0 && is_sep(p.last()) {
        strip_trailing_seps(p.drop_last())
    } else {
        p
    }
}

/// The last component of a path: what follows its last separator.
pub open spec fn last_component(p: Seq<char>) -> Seq<char>
    decreases p.len(),
{
    if p.len() == 0 {
        p
    } else if is_sep(p.last()) {
        Seq::empty()
    } else {
        last_component(p.drop_last()).push(p.last())
    }
}

/// Index of the last `.` in a name, if any.
pub open spec fn last_dot(n: Seq<char>) -> Option<int>
    decreases n.len(),
{
    if n.len() == 0 {
        None
    } else if n.last() == '.' {
        Some(n.len() - 1)
    } else {
        last_dot(n.drop_last())
    }
}

/// The extension of a path: what follows the last `.` of its file name,
/// unless the name starts with its only `.`; a path ending in `..` has none.
pub open spec fn path_extension(p: Seq<char>) -> Option<Seq<char>> {
    let name = last_component(strip_trailing_seps(p));
    match last_dot(name) {
        Some(i) => if i > 0 {
            Some(name.skip(i + 1))
        } else {
            None
        },
        None => None,
    }
}

/// A C source file (`.c`, any ASCII case).
pub open spec fn is_c_source(p: Seq<char>) -> bool {
    match path_extension(p) {
        Some(e) => lower(e) == "c"@,
        None => false,
    }
}

/// A C++ source file (`.cc`, `.cpp`, `.cxx`, `.ixx`, any ASCII case).
pub open spec fn is_cxx_source(p: Seq<char>) -> bool {
    match path_extension(p) {
        Some(e) => lower(e) == "cc"@ || lower(e) == "cpp"@ || lower(e) == "cxx"@ || lower(e) == "ixx"@,
        None => false,
    }
}

/// A source path of the model with `\` made `/`, without a leading `@root/`
/// (which only selects the directory it is resolved against).
pub open spec fn normalized_source(raw: Seq<char>) -> Seq<char> {
    let n = replace_char(trim(raw), '\\', '/');
    if starts_with(n, "@root/"@) {
        n.skip(6)
    } else {
        n
    }
}

/// The paths a component's languages are judged by: the files found under
/// its `src` directory, then its non-blank extra sources.
pub open spec fn judged_paths(c: TritonComponent, src_files: Seq<Seq<char>>) -> Seq<Seq<char>> {
    src_files + crate::cmake::staging::nonblank(c.sources@).map_values(|s: Seq<char>| normalized_source(s))
}

/// The language settings of a component whose `src` directory holds the given
/// files: C when a C source is among the judged paths, C++ when a C++ source
/// is; the C standard of the component (else of the project) when C is used,
/// the C++ standard of the component (else of the project) when C++ is.
pub open spec fn spec_component_languages(
    r: TritonRoot,
    c: TritonComponent,
    src_files: Seq<Seq<char>>,
) -> (bool, bool, Option<Seq<char>>, Option<Seq<char>>) {
    let ps = judged_paths(c, src_files);
    let uses_c = exists|i: int| 0 <= i < ps.len() && is_c_source(#[trigger] ps[i]);
    let uses_cxx = exists|i: int| 0 <= i < ps.len() && is_cxx_source(#[trigger] ps[i]);
    (
        uses_c,
        uses_cxx,
        if uses_c {
            match opt_view(c.c_std) {
                Some(s) => Some(s),
                None => opt_view(r.c_std),
            }
        } else {
            None
        },
        if uses_cxx {
            match opt_view(c.cxx_std) {
                Some(s) => Some(s),
                None => Some(r.cxx_std@),
            }
        } else {
            None
        },
    )
}

fn strip_trailing_seps_len(v: &Vec<char>) -> (n: usize)
    ensures
        n <= v@.len(),
        strip_trailing_seps(v@) == v@.take(n as int),
{
    let mut n = v.len();
    assert(v@.take(n as int) =~= v@);
    while n > 0 && (v[n - 1] == '/' || v[n - 1] == '\\')
        invariant
            n <= v@.len(),
            strip_trailing_seps(v@) == strip_trailing_seps(v@.take(n as int)),
        decreases n,
    {
        assert(v@.take(n as int).drop_last() =~= v@.take(n - 1));
        n -= 1;
    }
    n
}

fn last_component_start(v: &Vec<char>, n: usize) -> (s: usize)
    requires
        n <= v@.len(),
    ensures
        s <= n,
        last_component(v@.take(n as int)) == v@.subrange(s as int, n as int),
{
    let mut s = n;
    assert(v@.subrange(n as int, n as int) =~= Seq::<char>::empty());
    while s > 0 && !(v[s - 1] == '/' || v[s - 1] == '\\')
        invariant
            s <= n <= v@.len(),
            forall|k: int| s <= k < n ==> !is_sep(v@[k]),
            last_component(v@.take(n as int)) == last_component(v@.take(s as int)) + v@.subrange(s as int, n as int),
        decreases s,
    {
        proof {
            assert(v@.take(s as int).drop_last() =~= v@.take(s - 1));
            assert(v@.subrange(s - 1, n as int) =~= seq![v@[s - 1]] + v@.subrange(s as int, n as int));
            lemma_last_component_append(v@.take(s - 1), v@[s - 1], v@.subrange(s as int, n as int));
        }
        s -= 1;
    }
    proof {
        if s > 0 {
            assert(is_sep(v@.take(s as int).last()));
        }
        assert(last_component(v@.take(s as int)) =~= Seq::<char>::empty());
    }
    s
}

proof fn lemma_last_component_append(a: Seq<char>, x: char, b: Seq<char>)
    requires
        !is_sep(x),
    ensures
        last_component(a.push(x)) + b == last_component(a) + (seq![x] + b),
{
    assert(a.push(x).drop_last() =~= a);
    assert(last_component(a).push(x) + b =~= last_component(a) + (seq![x] + b));
}

fn last_dot_exec(v: &Vec<char>, from: usize, to: usize) -> (res: Option<usize>)
    requires
        from <= to <= v@.len(),
    ensures
        match res {
            Some(i) => from <= i < to && last_dot(v@.subrange(from as int, to as int)) == Some(i - from),
            None => last_dot(v@.subrange(from as int, to as int)) is None,
        },
{
    let mut j = to;
    while j > from
        invariant
            from <= j <= to <= v@.len(),
            last_dot(v@.subrange(from as int, to as int)) == last_dot(v@.subrange(from as int, j as int)),
        decreases j,
    {
        if v[j - 1] == '.' {
            return Some(j - 1);
        }
        assert(v@.subrange(from as int, j as int).drop_last() =~= v@.subrange(from as int, j - 1));
        j -= 1;
    }
    assert(v@.subrange(from as int, from as int) =~= Seq::<char>::empty());
    None
}

/// The extension of a path (see `path_extension`).
pub fn extension_of(p: &str) -> (res: Option<String>)
    ensures
        crate::text::opt_view_s(res) == path_extension(p@),
{
    let v = chars_of(p);
    let n = strip_trailing_seps_len(&v);
    let s = last_component_start(&v, n);
    match last_dot_exec(&v, s, n) {
        Some(i) => {
            if i > s {
                let e = string_from_range(&v, i + 1, n);
                assert(v@.subrange(s as int, n as int).skip(i - s + 1) =~= v@.subrange(i + 1, n as int));
                Some(e)
            } else {
                None
            }
        },
        None => None,
    }
}

/// Classifies a path as a C source, a C++ source, or neither.
pub fn classify_path(p: &str) -> (res: (bool, bool))
    ensures
        res.0 == is_c_source(p@),
        res.1 == is_cxx_source(p@),
{
    match extension_of(p) {
        Some(e) => {
            let l = to_lower(e.as_str());
            let c = str_eq(l.as_str(), "c");
            let cxx = str_eq(l.as_str(), "cc") || str_eq(l.as_str(), "cpp") || str_eq(l.as_str(), "cxx")
                || str_eq(l.as_str(), "ixx");
            (c, cxx)
        },
        None => (false, false),
    }
}

fn normalize_source_path(raw: &str) -> (res: String)
    ensures
        res@ == normalized_source(raw@),
{
    let t = trim_str(raw);
    let n = replace_char_str(t.as_str(), '\\', '/');
    if crate::text::str_starts_with(n.as_str(), "@root/") {
        proof {
            reveal_strlit("@root/");
        }
        let v = chars_of(n.as_str());
        let r = string_from_range(&v, 6, v.len());
        assert(v@.subrange(6, v@.len() as int) =~= n@.skip(6));
        r
    } else {
        n
    }
}

/// The languages of a component whose `src` directory holds `src_files`.
pub fn detect_component_languages(
    root: &TritonRoot,
    comp: &TritonComponent,
    src_files: &Vec<String>,
) -> (res: ComponentLanguageSettings)
    ensures
        (res.uses_c, res.uses_cxx, opt_view(res.c_std), opt_view(res.cxx_std)) == spec_component_languages(
            *root,
            *comp,
            views(src_files@),
        ),
{
    let mut paths: Vec<String> = Vec::new();
    let mut i: usize = 0;
    while i < src_files.len()
        invariant
            i <= src_files@.len(),
            views(paths@) == views(src_files@.take(i as int)),
        decreases src_files.len() - i,
    {
        crate::text::push_line(&mut paths, src_files[i].clone());
        assert(views(src_files@.take(i + 1)) =~= views(src_files@.take(i as int)).push(src_files@[i as int]@));
        i += 1;
    }
    assert(src_files@.take(src_files@.len() as int) =~= src_files@);
    let extra = crate::cmake::staging::nonblank_exec(&comp.sources);
    let ghost head = views(paths@);
    let mut k: usize = 0;
    while k < extra.len()
        invariant
            k <= extra@.len(),
            views(paths@) == head + views(extra@).take(k as int).map_values(|s: Seq<char>| normalized_source(s)),
        decreases extra.len() - k,
    {
        crate::text::push_line(&mut paths, normalize_source_path(extra[k].as_str()));
        assert(views(extra@).take(k + 1).map_values(|s: Seq<char>| normalized_source(s)) =~= views(extra@).take(
            k as int,
        ).map_values(|s: Seq<char>| normalized_source(s)).push(normalized_source(extra@[k as int]@)));
        k += 1;
    }
    assert(views(extra@).take(extra@.len() as int) =~= views(extra@));
    let ghost ps = views(paths@);
    assert(ps =~= judged_paths(*comp, views(src_files@)));
    let mut uses_c = false;
    let mut uses_cxx = false;
    let mut j: usize = 0;
    while j < paths.len()
        invariant
            j <= paths@.len(),
            ps == views(paths@),
            uses_c == exists|q: int| 0 <= q < j && is_c_source(#[trigger] ps[q]),
            uses_cxx == exists|q: int| 0 <= q < j && is_cxx_source(#[trigger] ps[q]),
        decreases paths.len() - j,
    {
        let (c, cxx) = classify_path(paths[j].as_str());
        assert(ps[j as int] == paths@[j as int]@);
        if c {
            uses_c = true;
        }
        if cxx {
            uses_cxx = true;
        }
        j += 1;
    }
    let c_std = if uses_c {
        match &comp.c_std {
            Some(s) => Some(s.clone()),
            None => clone_opt(&root.c_std),
        }
    } else {
        None
    };
    let cxx_std = if uses_cxx {
        match &comp.cxx_std {
            Some(s) => Some(s.clone()),
            None => Some(root.cxx_std.clone()),
        }
    } else {
        None
    };
    ComponentLanguageSettings { uses_c, uses_cxx, c_std, cxx_std }
}

/// The languages of the whole project: component `i` holds the files
/// `src_files[i]` under its `src` directory.
pub fn detect_graph_languages(root: &TritonRoot, src_files: &Vec<Vec<String>>) -> (res: GraphLanguageSettings)
    requires
        src_files@.len() == root.components@.len(),
    ensures
        res.uses_c == exists|i: int|
            0 <= i < root.components@.len() && (#[trigger] spec_component_languages(
                *root,
                root.components@[i].1,
                views(src_files@[i]@),
            )).0,
        res.uses_cxx == exists|i: int|
            0 <= i < root.components@.len() && (#[trigger] spec_component_languages(
                *root,
                root.components@[i].1,
                views(src_files@[i]@),
            )).1,
{
    let mut uses_c = false;
    let mut uses_cxx = false;
    let mut i: usize = 0;
    while i < root.components.len()
        invariant
            i <= root.components@.len(),
            src_files@.len() == root.components@.len(),
            uses_c == exists|q: int|
                0 <= q < i && (#[trigger] spec_component_languages(
                    *root,
                    root.components@[q].1,
                    views(src_files@[q]@),
                )).0,
            uses_cxx == exists|q: int|
                0 <= q < i && (#[trigger] spec_component_languages(
                    *root,
                    root.components@[q].1,
                    views(src_files@[q]@),
                )).1,
        decreases root.components.len() - i,
    {
        let s = detect_component_languages(root, &root.components[i].1, &src_files[i]);
        if s.uses_c {
            uses_c = true;
        }
        if s.uses_cxx {
            uses_cxx = true;
        }
        i += 1;
    }
    GraphLanguageSettings { uses_c, uses_cxx }
}

} // verus!
