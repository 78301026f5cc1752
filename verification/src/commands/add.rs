//! `triton add`: reading a package argument, telling git dependencies from
//! vcpkg packages, and recording them in the model.

use vstd::prelude::*;
use crate::models::{
    TritonRoot, TritonComponent, DepSpec, GitDep, DepDetailed, LinkEntry, root_wf, has_component,
    clone_strings, clone_opt,
};
use crate::commands::generate::{
    DepV, dep_view, deps_view, clone_dep, merge_features, features_union, comma_list, comma_list_exec,
};
use crate::text::{
    trim, find, find_char, starts_with, ends_with, contains, views, opt_view_s, to_owned, trim_str,
    chars_of, string_from_range, find_chars, find_char_in, str_starts_with, str_ends_with,
    str_contains, str_eq, concat2, push_str, is_blank,
};
use crate::commands::edit::{ensure_component, with_component, same_but_components, component_index};
use crate::commands::link::{same_but_links, links_updated};

verus! {

/// `str::split_once` with a pattern.
pub open spec fn split_once(s: Seq<char>, p: Seq<char>) -> Option<(Seq<char>, Seq<char>)> {
    match find(s, p) {
        Some(i) => Some((s.take(i), s.skip(i + p.len()))),
        None => None,
    }
}

/// The trimmed text, when it is not empty.
pub open spec fn nonempty_trim(s: Seq<char>) -> Option<Seq<char>> {
    if trim(s).len() > 0 {
        Some(trim(s))
    } else {
        None
    }
}

/// A package argument that starts like a URL (`https:`, `http:`, `git:`,
/// `ssh:` or `git@`).
pub open spec fn url_like(s: Seq<char>) -> bool {
    starts_with(s, "https:"@) || starts_with(s, "http:"@) || starts_with(s, "git:"@) || starts_with(s, "ssh:"@)
        || starts_with(s, "git@"@)
}

/// The package and the component to link it to, read from `pkg->Comp`,
/// `pkg:Comp`, or for a URL `url@branch:Comp`; otherwise the package as given
/// and the separately given component (trimmed, when not blank).
pub open spec fn spec_parse_pkg(pkg: Seq<char>, comp: Option<Seq<char>>) -> (Seq<char>, Option<Seq<char>>) {
    let fallback = match comp {
        Some(c) => nonempty_trim(c),
        None => None,
    };
    match split_once(pkg, "->"@) {
        Some((p, c)) => (trim(p), nonempty_trim(c)),
        None => if url_like(pkg) {
            match find_char(pkg, '@') {
                Some(a) => match find_char(pkg.skip(a + 1), ':') {
                    Some(ci) => if nonempty_trim(pkg.skip(a + 1).skip(ci + 1)) is Some {
                        (pkg.take(a + 1 + ci), nonempty_trim(pkg.skip(a + 1).skip(ci + 1)))
                    } else {
                        (pkg, fallback)
                    },
                    None => (pkg, fallback),
                },
                None => (pkg, fallback),
            }
        } else {
            match split_once(pkg, ":"@) {
                Some((p, c)) => (trim(p), nonempty_trim(c)),
                None => (pkg, fallback),
            }
        },
    }
}

fn nonempty_trim_exec(s: &str) -> (res: Option<String>)
    ensures
        opt_view_s(res) == nonempty_trim(s@),
{
    let t = trim_str(s);
    if chars_of(t.as_str()).len() > 0 {
        Some(t)
    } else {
        None
    }
}

fn split_once_exec(s: &str, p: &str) -> (res: Option<(String, String)>)
    ensures
        match res {
            Some((a, b)) => split_once(s@, p@) == Some((a@, b@)),
            None => split_once(s@, p@) is None,
        },
{
    let v = chars_of(s);
    let q = chars_of(p);
    match find_chars(&v, &q) {
        Some(i) => {
            assert(crate::text::occurs_at(v@, q@, i as int));
            assert(i + q.len() <= v.len());
            let a = string_from_range(&v, 0, i);
            let b = string_from_range(&v, i + q.len(), v.len());
            assert(a@ =~= s@.take(i as int));
            assert(b@ =~= s@.skip(i + p@.len()));
            Some((a, b))
        },
        None => None,
    }
}

fn skip_str(s: &str, n: usize) -> (res: String)
    requires
        n <= s@.len(),
    ensures
        res@ == s@.skip(n as int),
{
    let v = chars_of(s);
    let r = string_from_range(&v, n, v.len());
    assert(r@ =~= s@.skip(n as int));
    r
}

fn take_str(s: &str, n: usize) -> (res: String)
    requires
        n <= s@.len(),
    ensures
        res@ == s@.take(n as int),
{
    let v = chars_of(s);
    let r = string_from_range(&v, 0, n);
    assert(r@ =~= s@.take(n as int));
    r
}

fn url_like_exec(s: &str) -> (res: bool)
    ensures
        res == url_like(s@),
{
    str_starts_with(s, "https:") || str_starts_with(s, "http:") || str_starts_with(s, "git:")
        || str_starts_with(s, "ssh:") || str_starts_with(s, "git@")
}

/// Reads a package argument (see `spec_parse_pkg`).
pub fn parse_pkg_and_component(pkg: &str, component_opt: Option<&str>) -> (res: (String, Option<String>))
    ensures
        (res.0@, opt_view_s(res.1)) == spec_parse_pkg(
            pkg@,
            match component_opt {
                Some(c) => Some(c@),
                None => None,
            },
        ),
{
    let fallback = match component_opt {
        Some(c) => nonempty_trim_exec(c),
        None => None,
    };
    match split_once_exec(pkg, "->") {
        Some((p, c)) => return (trim_str(p.as_str()), nonempty_trim_exec(c.as_str())),
        None => {},
    }
    if url_like_exec(pkg) {
        let v = chars_of(pkg);
        match find_char_in(&v, '@') {
            Some(a) => {
                let after = skip_str(pkg, a + 1);
                let w = chars_of(after.as_str());
                match find_char_in(&w, ':') {
                    Some(ci) => {
                        let comp = nonempty_trim_exec(skip_str(after.as_str(), ci + 1).as_str());
                        if comp.is_some() {
                            return (take_str(pkg, a + 1 + ci), comp);
                        }
                    },
                    None => {},
                }
            },
            None => {},
        }
        return (to_owned(pkg), fallback);
    }
    match split_once_exec(pkg, ":") {
        Some((p, c)) => (trim_str(p.as_str()), nonempty_trim_exec(c.as_str())),
        None => (to_owned(pkg), fallback),
    }
}

// ---------------------------------------------------------------------------
// Git dependencies
// ---------------------------------------------------------------------------

/// A full repository URL (`https://`, `http://`, `git://`, `ssh://`,
/// `git@`).
pub open spec fn full_url(s: Seq<char>) -> bool {
    starts_with(s, "https://"@) || starts_with(s, "http://"@) || starts_with(s, "git://"@) || starts_with(
        s,
        "ssh://"@,
    ) || starts_with(s, "git@"@)
}

/// A git dependency: a full URL, or a shorthand with `/` and no `\`.
pub open spec fn spec_is_git_dep(s: Seq<char>) -> bool {
    full_url(s) || (contains(s, "/"@) && !contains(s, "\\"@))
}

fn full_url_exec(s: &str) -> (res: bool)
    ensures
        res == full_url(s@),
{
    str_starts_with(s, "https://") || str_starts_with(s, "http://") || str_starts_with(s, "git://")
        || str_starts_with(s, "ssh://") || str_starts_with(s, "git@")
}

/// Whether a package argument is a git dependency (see `spec_is_git_dep`).
pub fn is_git_dep(s: &str) -> (res: bool)
    ensures
        res == spec_is_git_dep(s@),
{
    full_url_exec(s) || (str_contains(s, "/") && !str_contains(s, "\\"))
}

/// The text without trailing `/`.
pub open spec fn trim_end_slashes(s: Seq<char>) -> Seq<char>
    decreases s.len(),
{
    if s.len() > 0 && s.last() == '/' {
        trim_end_slashes(s.drop_last())
    } else {
        s
    }
}

/// What follows the last `/`.
pub open spec fn last_segment(s: Seq<char>) -> Seq<char>
    decreases s.len(),
{
    if s.len() == 0 {
        s
    } else if s.last() == '/' {
        Seq::empty()
    } else {
        last_segment(s.drop_last()).push(s.last())
    }
}

/// The text without a `.git` ending.
pub open spec fn strip_git(s: Seq<char>) -> Seq<char> {
    if ends_with(s, ".git"@) {
        s.take(s.len() - 4)
    } else {
        s
    }
}

/// `org/repo` of a `https://github.com/org/repo[.git]` URL.
pub open spec fn spec_github_shorthand(url: Seq<char>) -> Option<Seq<char>> {
    let pre = "https://github.com/"@;
    if starts_with(url, pre) {
        let s = strip_git(url.skip(pre.len() as int));
        if contains(s, "/"@) {
            Some(s)
        } else {
            None
        }
    } else {
        None
    }
}

/// The parts of a git dependency argument: the `repo` field recorded in the
/// model, the URL to clone, the short name (last path segment without
/// `.git`), and the branch after `@`.
pub open spec fn spec_parse_git_dep(raw: Seq<char>) -> (Seq<char>, Seq<char>, Seq<char>, Option<Seq<char>>) {
    let repo_part = match find_char(raw, '@') {
        Some(i) => raw.take(i),
        None => raw,
    };
    let branch = match find_char(raw, '@') {
        Some(i) => Some(raw.skip(i + 1)),
        None => None,
    };
    let full = full_url(repo_part);
    let clone_url = if full {
        repo_part
    } else {
        "https://github.com/"@ + if ends_with(repo_part, ".git"@) { repo_part } else { repo_part + ".git"@ }
    };
    let name = strip_git(last_segment(trim_end_slashes(repo_part)));
    let repo_field = if full {
        match spec_github_shorthand(repo_part) {
            Some(s) => s,
            None => repo_part,
        }
    } else {
        strip_git(repo_part)
    };
    (repo_field, clone_url, name, branch)
}

fn strip_git_exec(s: &str) -> (res: String)
    ensures
        res@ == strip_git(s@),
{
    if str_ends_with(s, ".git") {
        proof {
            reveal_strlit(".git");
        }
        let v = chars_of(s);
        let r = string_from_range(&v, 0, v.len() - 4);
        assert(r@ =~= s@.take(s@.len() - 4));
        r
    } else {
        to_owned(s)
    }
}

/// `org/repo` of a GitHub URL (see `spec_github_shorthand`).
pub fn extract_github_shorthand(url: &str) -> (res: Option<String>)
    ensures
        opt_view_s(res) == spec_github_shorthand(url@),
{
    if !str_starts_with(url, "https://github.com/") {
        return None;
    }
    proof {
        reveal_strlit("https://github.com/");
    }
    let rest = skip_str(url, 19);
    let s = strip_git_exec(rest.as_str());
    if str_contains(s.as_str(), "/") {
        Some(s)
    } else {
        None
    }
}

fn last_segment_exec(s: &str) -> (res: String)
    ensures
        res@ == last_segment(trim_end_slashes(s@)),
{
    let v = chars_of(s);
    let mut n = v.len();
    assert(v@.take(n as int) =~= s@);
    while n > 0 && v[n - 1] == '/'
        invariant
            n <= v@.len(),
            v@ == s@,
            trim_end_slashes(s@) == trim_end_slashes(v@.take(n as int)),
        decreases n,
    {
        assert(v@.take(n as int).drop_last() =~= v@.take(n - 1));
        n -= 1;
    }
    assert(trim_end_slashes(v@.take(n as int)) == v@.take(n as int));
    let mut b = n;
    assert(v@.subrange(n as int, n as int) =~= Seq::<char>::empty());
    while b > 0 && v[b - 1] != '/'
        invariant
            b <= n <= v@.len(),
            last_segment(v@.take(n as int)) == last_segment(v@.take(b as int)) + v@.subrange(b as int, n as int),
        decreases b,
    {
        proof {
            assert(v@.take(b as int).drop_last() =~= v@.take(b - 1));
            assert(last_segment(v@.take(b - 1)).push(v@[b - 1]) + v@.subrange(b as int, n as int) =~= last_segment(
                v@.take(b - 1),
            ) + v@.subrange(b - 1, n as int));
        }
        b -= 1;
    }
    proof {
        if b > 0 {
            assert(v@.take(b as int).last() == '/');
        }
        assert(last_segment(v@.take(b as int)) =~= Seq::<char>::empty());
    }
    let r = string_from_range(&v, b, n);
    assert(r@ =~= last_segment(v@.take(n as int)));
    r
}

/// Reads a git dependency argument (see `spec_parse_git_dep`).
pub fn parse_git_dep(raw: &str) -> (res: (String, String, String, Option<String>))
    ensures
        (res.0@, res.1@, res.2@, opt_view_s(res.3)) == spec_parse_git_dep(raw@),
{
    let v = chars_of(raw);
    let (repo_part, branch) = match find_char_in(&v, '@') {
        Some(i) => (take_str(raw, i), Some(skip_str(raw, i + 1))),
        None => (to_owned(raw), None),
    };
    let full = full_url_exec(repo_part.as_str());
    let clone_url = if full {
        to_owned(repo_part.as_str())
    } else {
        let mut u = to_owned("https://github.com/");
        push_str(&mut u, repo_part.as_str());
        if !str_ends_with(repo_part.as_str(), ".git") {
            push_str(&mut u, ".git");
        }
        u
    };
    let name = strip_git_exec(last_segment_exec(repo_part.as_str()).as_str());
    let repo_field = if full {
        match extract_github_shorthand(repo_part.as_str()) {
            Some(s) => s,
            None => to_owned(repo_part.as_str()),
        }
    } else {
        strip_git_exec(repo_part.as_str())
    };
    (repo_field, clone_url, name, branch)
}

// ---------------------------------------------------------------------------
// Recording dependencies
// ---------------------------------------------------------------------------

/// The component's link list has a plain entry naming `n` exactly.
pub open spec fn has_plain_link(c: TritonComponent, n: Seq<char>) -> bool {
    exists|i: int| 0 <= i < c.link@.len() && (#[trigger] c.link@[i] matches LinkEntry::Name(s) && s@ == n)
}

/// The link list after adding a plain entry for `n` unless one is there.
pub open spec fn plain_link_added(before: Seq<LinkEntry>, after: Seq<LinkEntry>, n: Seq<char>) -> bool {
    if exists|i: int| 0 <= i < before.len() && (#[trigger] before[i] matches LinkEntry::Name(s) && s@ == n) {
        after == before
    } else {
        &&& after.len() == before.len() + 1
        &&& after.take(before.len() as int) == before
        &&& after.last() matches LinkEntry::Name(s) && s@ == n
    }
}

fn has_plain_link_exec(c: &TritonComponent, n: &str) -> (res: bool)
    ensures
        res == has_plain_link(*c, n@),
{
    let mut i: usize = 0;
    while i < c.link.len()
        invariant
            i <= c.link@.len(),
            forall|k: int| 0 <= k < i ==> !(#[trigger] c.link@[k] matches LinkEntry::Name(s) && s@ == n@),
        decreases c.link.len() - i,
    {
        match &c.link[i] {
            LinkEntry::Name(s) => {
                if str_eq(s.as_str(), n) {
                    return true;
                }
            },
            _ => {},
        }
        i += 1;
    }
    false
}

/// The component `dest` exists (added as a library when missing) and links
/// `n` with a plain entry.
pub open spec fn linked_into(
    before: Seq<(String, TritonComponent)>,
    after: Seq<(String, TritonComponent)>,
    dest: Seq<char>,
    n: Seq<char>,
) -> bool {
    exists|mid: Seq<(String, TritonComponent)>, t: int, l: Seq<LinkEntry>| {
        &&& with_component(before, mid, dest)
        &&& mid[t].0@ == dest
        &&& links_updated(mid, after, t, l)
        &&& plain_link_added(mid[t].1.link@, l, n)
    }
}

fn link_plain(root: &mut TritonRoot, dest: &str, n: &str)
    requires
        root_wf(*old(root)),
    ensures
        root_wf(*final(root)),
        same_but_components(*old(root), *final(root)),
        linked_into(old(root).components@, final(root).components@, dest@, n@),
{
    ensure_component(root, dest);
    let ghost mid = root.components@;
    let t = match component_index(root, dest) {
        Some(t) => t,
        None => {
            assert(false);
            0
        },
    };
    let (key, mut comp) = root.components.remove(t);
    let ghost oc = comp;
    if !has_plain_link_exec(&comp, n) {
        comp.link.push(LinkEntry::Name(to_owned(n)));
        assert(comp.link@.take(oc.link@.len() as int) =~= oc.link@);
    }
    root.components.insert(t, (key, comp));
    proof {
        assert(root.components@ =~= mid.update(t as int, (key, comp)));
        assert(links_updated(mid, root.components@, t as int, comp.link@));
        assert(plain_link_added(mid[t as int].1.link@, comp.link@, n@));
    }
}

/// Some git dependency has this name or this repository.
pub open spec fn has_git_dep(r: TritonRoot, name: Seq<char>, repo: Seq<char>) -> bool {
    exists|i: int| 0 <= i < r.deps@.len() && (#[trigger] r.deps@[i] matches DepSpec::Git(g) && (g.name@ == name || g.repo@ == repo))
}

/// The view of an optional string slice.
pub open spec fn opt_str_view(o: Option<&str>) -> Option<Seq<char>> {
    match o {
        Some(w) => Some(w@),
        None => None,
    }
}

/// `after` is `before` with the git dependency recorded (unless one of its
/// name or repository is there) and linked into `link_to` when given.
pub open spec fn git_recorded(
    before: TritonRoot,
    after: TritonRoot,
    repo: Seq<char>,
    name: Seq<char>,
    branch: Option<Seq<char>>,
    link_to: Option<Seq<char>>,
) -> bool {
    &&& after.app_name == before.app_name
    &&& after.scripts == before.scripts
    &&& has_git_dep(after, name, repo)
    &&& has_git_dep(before, name, repo) ==> after.deps == before.deps
    &&& !has_git_dep(before, name, repo) ==> {
        &&& after.deps@.len() == before.deps@.len() + 1
        &&& after.deps@.take(before.deps@.len() as int) == before.deps@
        &&& after.deps@.last() matches DepSpec::Git(g) && g.name@ == name && g.repo@ == repo
            && opt_view_s(g.branch) == branch && g.cmake@.len() == 0
    }
    &&& match link_to {
        Some(d) => linked_into(before.components@, after.components@, d, name),
        None => after.components == before.components,
    }
}

/// Records a git dependency unless one with its name or repository is
/// there, and links it into `link_to` when given.
pub fn add_git_dependency(
    root: &mut TritonRoot,
    repo: &str,
    name: &str,
    branch: Option<&str>,
    link_to: Option<&str>,
)
    requires
        root_wf(*old(root)),
    ensures
        root_wf(*final(root)),
        git_recorded(*old(root), *final(root), repo@, name@, opt_str_view(branch), opt_str_view(link_to)),
{
    let mut found = false;
    let mut i: usize = 0;
    while i < root.deps.len()
        invariant
            i <= root.deps@.len(),
            found == exists|k: int| 0 <= k < i && (#[trigger] root.deps@[k] matches DepSpec::Git(g) && (g.name@ == name@ || g.repo@ == repo@)),
        decreases root.deps.len() - i,
    {
        match &root.deps[i] {
            DepSpec::Git(g) => {
                if str_eq(g.name.as_str(), name) || str_eq(g.repo.as_str(), repo) {
                    found = true;
                }
            },
            _ => {},
        }
        i += 1;
    }
    if !found {
        let b = match branch {
            Some(b) => Some(to_owned(b)),
            None => None,
        };
        let ghost od = root.deps@;
        root.deps.push(DepSpec::Git(GitDep { repo: to_owned(repo), name: to_owned(name), branch: b, cmake: Vec::new() }));
        assert(root.deps@.take(od.len() as int) =~= od);
        assert(root.deps@[od.len() as int] == root.deps@.last());
    }
    match link_to {
        Some(d) => link_plain(root, d, name),
        None => {},
    }
}

/// Some plain dependency is exactly `pkg`.
pub open spec fn has_simple_dep(r: TritonRoot, pkg: Seq<char>) -> bool {
    exists|i: int| 0 <= i < r.deps@.len() && (#[trigger] r.deps@[i] matches DepSpec::Simple(n) && n@ == pkg)
}

/// A plain or detailed dependency named `pkg`.
pub open spec fn is_vcpkg_named(d: DepV, pkg: Seq<char>) -> bool {
    match d {
        DepV::Simple(n) => n == pkg,
        DepV::Detailed { name, .. } => name == pkg,
        _ => false,
    }
}

/// Index of the first plain or detailed dependency named `pkg` among the
/// first `k`.
pub open spec fn first_vcpkg_upto(s: Seq<DepV>, pkg: Seq<char>, k: int) -> Option<int>
    decreases k,
{
    if k <= 0 {
        None
    } else {
        match first_vcpkg_upto(s, pkg, k - 1) {
            Some(i) => Some(i),
            None => if is_vcpkg_named(s[k - 1], pkg) {
                Some(k - 1)
            } else {
                None
            },
        }
    }
}

/// A dependency given more features: a plain one becomes detailed, and the
/// features of a detailed one are united with the new ones.
pub open spec fn with_features(d: DepV, feats: Seq<Seq<char>>) -> DepV {
    match d {
        DepV::Simple(n) => DepV::Detailed {
            name: n,
            os: Seq::empty(),
            package: None,
            triplet: Seq::empty(),
            features: merge_features(Seq::empty(), feats),
        },
        DepV::Detailed { name, os, package, triplet, features } => DepV::Detailed {
            name,
            os,
            package,
            triplet,
            features: merge_features(features, feats),
        },
        _ => d,
    }
}

/// The features asked for: the trimmed, non-empty pieces of the list.
pub open spec fn requested_features(features: Option<Seq<char>>) -> Seq<Seq<char>> {
    match features {
        Some(f) => comma_list(f),
        None => Seq::empty(),
    }
}

/// What a vcpkg dependency with these features does to the dependencies:
/// the first plain or detailed entry of that name gets the features, and
/// with none a detailed entry is appended.
pub open spec fn deps_with_features(s: Seq<DepV>, pkg: Seq<char>, feats: Seq<Seq<char>>) -> Seq<DepV> {
    match first_vcpkg_upto(s, pkg, s.len() as int) {
        Some(i) => s.update(i, with_features(s[i], feats)),
        None => s.push(with_features(DepV::Simple(pkg), feats)),
    }
}

fn add_plain_dependency(root: &mut TritonRoot, pkg: &str)
    ensures
        final(root).app_name == old(root).app_name,
        final(root).scripts == old(root).scripts,
        final(root).components == old(root).components,
        has_simple_dep(*final(root), pkg@),
        has_simple_dep(*old(root), pkg@) ==> final(root).deps == old(root).deps,
        !has_simple_dep(*old(root), pkg@) ==> {
            &&& final(root).deps@.len() == old(root).deps@.len() + 1
            &&& final(root).deps@.take(old(root).deps@.len() as int) == old(root).deps@
            &&& final(root).deps@.last() matches DepSpec::Simple(n) && n@ == pkg@
        },
{
    let mut found = false;
    let mut i: usize = 0;
    while i < root.deps.len()
        invariant
            i <= root.deps@.len(),
            found == exists|k: int| 0 <= k < i && (#[trigger] root.deps@[k] matches DepSpec::Simple(n) && n@ == pkg@),
        decreases root.deps.len() - i,
    {
        match &root.deps[i] {
            DepSpec::Simple(n) => {
                if str_eq(n.as_str(), pkg) {
                    found = true;
                }
            },
            _ => {},
        }
        i += 1;
    }
    if !found {
        let ghost od = root.deps@;
        root.deps.push(DepSpec::Simple(to_owned(pkg)));
        assert(root.deps@.take(od.len() as int) =~= od);
        assert(root.deps@[od.len() as int] == root.deps@.last());
    }
}

fn add_featured_dependency(root: &mut TritonRoot, pkg: &str, feats: &Vec<String>)
    ensures
        final(root).app_name == old(root).app_name,
        final(root).scripts == old(root).scripts,
        final(root).components == old(root).components,
        deps_view(final(root).deps@) == deps_with_features(deps_view(old(root).deps@), pkg@, views(feats@)),
{
    let ghost s = deps_view(root.deps@);
    let mut idx: Option<usize> = None;
    let mut i: usize = 0;
    while i < root.deps.len()
        invariant
            i <= root.deps@.len(),
            s == deps_view(root.deps@),
            idx matches Some(t) ==> t < i,
            match idx {
                Some(t) => first_vcpkg_upto(s, pkg@, i as int) == Some(t as int),
                None => first_vcpkg_upto(s, pkg@, i as int) is None,
            },
        decreases root.deps.len() - i,
    {
        if idx.is_none() {
            let hit = match &root.deps[i] {
                DepSpec::Simple(n) => str_eq(n.as_str(), pkg),
                DepSpec::Detailed(d) => str_eq(d.name.as_str(), pkg),
                _ => false,
            };
            assert(s[i as int] == dep_view(root.deps@[i as int]));
            if hit {
                idx = Some(i);
            }
        }
        i += 1;
    }
    let empty: Vec<String> = Vec::new();
    assert(views(empty@) =~= Seq::<Seq<char>>::empty());
    match idx {
        Some(t) => {
            let replacement = match &root.deps[t] {
                DepSpec::Simple(n) => DepSpec::Detailed(DepDetailed {
                    name: n.clone(),
                    os: Vec::new(),
                    package: None,
                    triplet: Vec::new(),
                    features: features_union(&empty, feats),
                }),
                DepSpec::Detailed(d) => DepSpec::Detailed(DepDetailed {
                    name: d.name.clone(),
                    os: clone_strings(&d.os),
                    package: clone_opt(&d.package),
                    triplet: clone_strings(&d.triplet),
                    features: features_union(&d.features, feats),
                }),
                DepSpec::Git(_) => clone_dep(&root.deps[t]),
            };
            assert(s[t as int] == dep_view(root.deps@[t as int]));
            assert(dep_view(replacement) == with_features(s[t as int], views(feats@))) by {
                assert(views(Seq::<String>::empty()) =~= Seq::<Seq<char>>::empty());
            }
            root.deps.set(t, replacement);
            assert(deps_view(root.deps@) =~= s.update(t as int, with_features(s[t as int], views(feats@))));
        },
        None => {
            let d = DepSpec::Detailed(DepDetailed {
                name: to_owned(pkg),
                os: Vec::new(),
                package: None,
                triplet: Vec::new(),
                features: features_union(&empty, feats),
            });
            assert(dep_view(d) == with_features(DepV::Simple(pkg@), views(feats@))) by {
                assert(views(Seq::<String>::empty()) =~= Seq::<Seq<char>>::empty());
            }
            root.deps.push(d);
            assert(deps_view(root.deps@) =~= s.push(with_features(DepV::Simple(pkg@), views(feats@))));
        },
    }
}

/// `after` is `before` with the vcpkg package recorded and linked into
/// `link_to` when given. Without features a plain entry is appended unless
/// one of that name is there; with features the first plain or detailed
/// entry of that name gets them, or a detailed entry is appended.
pub open spec fn vcpkg_recorded(
    before: TritonRoot,
    after: TritonRoot,
    pkg: Seq<char>,
    features: Option<Seq<char>>,
    link_to: Option<Seq<char>>,
) -> bool {
    let fs = requested_features(features);
    &&& after.app_name == before.app_name
    &&& after.scripts == before.scripts
    &&& fs.len() == 0 ==> {
        &&& has_simple_dep(after, pkg)
        &&& has_simple_dep(before, pkg) ==> after.deps == before.deps
        &&& !has_simple_dep(before, pkg) ==> {
            &&& after.deps@.len() == before.deps@.len() + 1
            &&& after.deps@.take(before.deps@.len() as int) == before.deps@
            &&& after.deps@.last() matches DepSpec::Simple(n) && n@ == pkg
        }
    }
    &&& fs.len() > 0 ==> deps_view(after.deps@) == deps_with_features(deps_view(before.deps@), pkg, fs)
    &&& match link_to {
        Some(d) => linked_into(before.components@, after.components@, d, pkg),
        None => after.components == before.components,
    }
}

/// Records a vcpkg package and links it into `link_to` when given. Without
/// features it is appended as a plain dependency unless one of that name is
/// there; with features the first plain or detailed entry of that name
/// becomes detailed with the features united, or a detailed entry is
/// appended.
pub fn add_vcpkg_dependency(root: &mut TritonRoot, pkg: &str, features: Option<&str>, link_to: Option<&str>)
    requires
        root_wf(*old(root)),
    ensures
        root_wf(*final(root)),
        vcpkg_recorded(*old(root), *final(root), pkg@, opt_str_view(features), opt_str_view(link_to)),
{
    let feats = match features {
        Some(f) => comma_list_exec(f),
        None => Vec::new(),
    };
    assert(views(feats@) == requested_features(match features {
        Some(f) => Some(f@),
        None => None,
    }));
    if feats.len() == 0 {
        add_plain_dependency(root, pkg);
    } else {
        add_featured_dependency(root, pkg, &feats);
    }
    match link_to {
        Some(d) => link_plain(root, d, pkg),
        None => {},
    }
}

/// Two component lists with the same names, in the same order, and
/// components that agree in every field and every link.
pub open spec fn same_components(a: Seq<(String, TritonComponent)>, b: Seq<(String, TritonComponent)>) -> bool {
    &&& a.len() == b.len()
    &&& forall|k: int| 0 <= k < a.len() ==> {
        &&& (#[trigger] a[k]).0 == b[k].0
        &&& same_but_links(a[k].1, b[k].1)
        &&& a[k].1.link@ == b[k].1.link@
    }
}

/// After a package was linked into `dest`, `dest` links it by a plain entry.
proof fn lemma_linked_into_has_link(before: Seq<(String, TritonComponent)>, after: Seq<(String, TritonComponent)>, dest: Seq<char>, n: Seq<char>)
    requires
        linked_into(before, after, dest, n),
    ensures
        exists|t: int, i: int| 0 <= t < after.len() && after[t].0@ == dest && 0 <= i < after[t].1.link@.len()
            && (#[trigger] after[t].1.link@[i] matches LinkEntry::Name(s) && s@ == n),
{
    let (mid, t, l) = choose|mid: Seq<(String, TritonComponent)>, t: int, l: Seq<LinkEntry>| {
        &&& with_component(before, mid, dest)
        &&& mid[t].0@ == dest
        &&& links_updated(mid, after, t, l)
        &&& plain_link_added(mid[t].1.link@, l, n)
    };
    let o = mid[t].1.link@;
    if exists|i: int| 0 <= i < o.len() && (#[trigger] o[i] matches LinkEntry::Name(s) && s@ == n) {
        let i = choose|i: int| 0 <= i < o.len() && (#[trigger] o[i] matches LinkEntry::Name(s) && s@ == n);
        assert(after[t].1.link@[i] == o[i]);
    } else {
        assert(after[t].1.link@[l.len() - 1] == l.last());
    }
}

proof fn lemma_merge_covers(a: Seq<Seq<char>>, b: Seq<Seq<char>>)
    ensures
        forall|j: int| 0 <= j < b.len() ==> merge_features(a, b).contains(#[trigger] b[j]),
        forall|x: Seq<char>| a.contains(x) ==> #[trigger] merge_features(a, b).contains(x),
    decreases b.len(),
{
    if b.len() > 0 {
        lemma_merge_covers(a, b.drop_last());
        let m = merge_features(a, b.drop_last());
        assert forall|j: int| 0 <= j < b.len() implies merge_features(a, b).contains(#[trigger] b[j]) by {
            if j < b.len() - 1 {
                assert(m.contains(b.drop_last()[j]));
                if !m.contains(b.last()) {
                    let q = choose|q: int| 0 <= q < m.len() && m[q] == b[j];
                    assert(m.push(b.last())[q] == b[j]);
                }
            } else if !m.contains(b.last()) {
                assert(m.push(b.last())[m.len() as int] == b.last());
            }
        }
        assert forall|x: Seq<char>| a.contains(x) implies #[trigger] merge_features(a, b).contains(x) by {
            assert(m.contains(x));
            if !m.contains(b.last()) {
                let q = choose|q: int| 0 <= q < m.len() && m[q] == x;
                assert(m.push(b.last())[q] == x);
            }
        }
    }
}

proof fn lemma_merge_nothing_new(c: Seq<Seq<char>>, b: Seq<Seq<char>>)
    requires
        forall|j: int| 0 <= j < b.len() ==> c.contains(#[trigger] b[j]),
    ensures
        merge_features(c, b) == c,
    decreases b.len(),
{
    if b.len() > 0 {
        assert forall|j: int| 0 <= j < b.drop_last().len() implies c.contains(#[trigger] b.drop_last()[j]) by {
            assert(b.drop_last()[j] == b[j]);
        }
        lemma_merge_nothing_new(c, b.drop_last());
        assert(c.contains(b[b.len() - 1]));
    }
}

/// Merging the same features a second time adds nothing.
proof fn lemma_merge_twice(a: Seq<Seq<char>>, b: Seq<Seq<char>>)
    ensures
        merge_features(merge_features(a, b), b) == merge_features(a, b),
{
    lemma_merge_covers(a, b);
    lemma_merge_nothing_new(merge_features(a, b), b);
}

proof fn lemma_first_vcpkg_is(s: Seq<DepV>, pkg: Seq<char>, k: int)
    ensures
        match first_vcpkg_upto(s, pkg, k) {
            Some(i) => 0 <= i < k && is_vcpkg_named(s[i], pkg) && forall|j: int| 0 <= j < i ==> !is_vcpkg_named(#[trigger] s[j], pkg),
            None => forall|j: int| 0 <= j < k ==> !is_vcpkg_named(#[trigger] s[j], pkg),
        },
    decreases k,
{
    if k > 0 {
        lemma_first_vcpkg_is(s, pkg, k - 1);
    }
}

proof fn lemma_first_vcpkg_at(s: Seq<DepV>, pkg: Seq<char>, k: int, i: int)
    requires
        0 <= i < k <= s.len(),
        is_vcpkg_named(s[i], pkg),
        forall|j: int| 0 <= j < i ==> !is_vcpkg_named(#[trigger] s[j], pkg),
    ensures
        first_vcpkg_upto(s, pkg, k) == Some(i),
    decreases k,
{
    if k - 1 > i {
        lemma_first_vcpkg_at(s, pkg, k - 1, i);
    } else {
        lemma_first_vcpkg_is(s, pkg, k - 1);
    }
}

/// Giving a package the same features twice changes nothing the second time.
proof fn lemma_features_twice(s: Seq<DepV>, pkg: Seq<char>, fs: Seq<Seq<char>>)
    ensures
        deps_with_features(deps_with_features(s, pkg, fs), pkg, fs) == deps_with_features(s, pkg, fs),
{
    let s1 = deps_with_features(s, pkg, fs);
    lemma_first_vcpkg_is(s, pkg, s.len() as int);
    let i = match first_vcpkg_upto(s, pkg, s.len() as int) {
        Some(i) => i,
        None => s.len() as int,
    };
    let d = if i < s.len() { s[i] } else { DepV::Simple(pkg) };
    assert(s1[i] == with_features(d, fs));
    assert forall|j: int| 0 <= j < i implies !is_vcpkg_named(#[trigger] s1[j], pkg) by {
        assert(s1[j] == s[j]);
    }
    match d {
        DepV::Detailed { features, .. } => lemma_merge_twice(features, fs),
        _ => lemma_merge_twice(Seq::empty(), fs),
    }
    lemma_first_vcpkg_at(s1, pkg, s1.len() as int, i);
    assert(with_features(s1[i], fs) == s1[i]);
    assert(s1.update(i, with_features(s1[i], fs)) =~= s1);
}

/// Adding the same package twice, with the same features and linked into the
/// same component or into none, changes nothing the second time: the
/// dependencies are the same (without features, the very same entries), and
/// so are the components and their links.
pub proof fn lemma_add_twice(
    r0: TritonRoot,
    r1: TritonRoot,
    r2: TritonRoot,
    pkg: Seq<char>,
    features: Option<Seq<char>>,
    link_to: Option<Seq<char>>,
)
    requires
        root_wf(r1),
        vcpkg_recorded(r0, r1, pkg, features, link_to),
        vcpkg_recorded(r1, r2, pkg, features, link_to),
    ensures
        deps_view(r2.deps@) == deps_view(r1.deps@),
        requested_features(features).len() == 0 ==> r2.deps == r1.deps,
        r2.app_name == r1.app_name,
        r2.scripts == r1.scripts,
        same_components(r2.components@, r1.components@),
{
    let fs = requested_features(features);
    if fs.len() > 0 {
        lemma_features_twice(deps_view(r0.deps@), pkg, fs);
    }
    match link_to {
        None => {},
        Some(d) => {
            crate::models::lemma_sorted_distinct(r1.components@);
            lemma_linked_into_has_link(r0.components@, r1.components@, d, pkg);
            let (t1, i1) = choose|t: int, i: int| 0 <= t < r1.components@.len() && r1.components@[t].0@ == d
                && 0 <= i < r1.components@[t].1.link@.len()
                && (#[trigger] r1.components@[t].1.link@[i] matches LinkEntry::Name(s) && s@ == pkg);
            let (mid, t, l) = choose|mid: Seq<(String, TritonComponent)>, t: int, l: Seq<LinkEntry>| {
                &&& with_component(r1.components@, mid, d)
                &&& mid[t].0@ == d
                &&& links_updated(mid, r2.components@, t, l)
                &&& plain_link_added(mid[t].1.link@, l, pkg)
            };
            assert(mid == r1.components@);
            assert(t == t1);
            assert(l == mid[t].1.link@);
            assert forall|k: int| 0 <= k < r2.components@.len() implies {
                &&& (#[trigger] r2.components@[k]).0 == r1.components@[k].0
                &&& same_but_links(r2.components@[k].1, r1.components@[k].1)
                &&& r2.components@[k].1.link@ == r1.components@[k].1.link@
            } by {
                if k != t {
                    assert(r2.components@[k] == r1.components@[k]);
                }
            }
        },
    }
}

/// What `triton add` recorded for one item, for the caller's clone and
/// manifest work.
#[derive(Debug)]
pub enum AddedItem {
    /// A git dependency, to be cloned from `clone_url` into
    /// `third_party/<name>`.
    Git { clone_url: String, name: String, branch: Option<String>, link_to: Option<String> },
    /// A vcpkg package.
    Vcpkg { pkg: String, link_to: Option<String> },
}

/// Records one item of `triton add`: `pkg`, `pkg:Component` or
/// `pkg->Component`, where `pkg` is a vcpkg package or a git repository
/// (`org/repo`, a URL, either with `@branch`).
pub fn add_item(root: &mut TritonRoot, item: &str, features: Option<&str>) -> (res: AddedItem)
    requires
        root_wf(*old(root)),
    ensures
        root_wf(*final(root)),
        ({
            let (pkg, link) = spec_parse_pkg(item@, None);
            if spec_is_git_dep(pkg) {
                let (repo, url, name, branch) = spec_parse_git_dep(pkg);
                &&& res matches AddedItem::Git { clone_url, name: n, branch: b, link_to }
                &&& clone_url@ == url && n@ == name && opt_view_s(b) == branch && opt_view_s(link_to) == link
                &&& git_recorded(*old(root), *final(root), repo, name, branch, link)
            } else {
                &&& res matches AddedItem::Vcpkg { pkg: p, link_to }
                &&& p@ == pkg && opt_view_s(link_to) == link
                &&& vcpkg_recorded(*old(root), *final(root), pkg, opt_str_view(features), link)
            }
        }),
{
    let (pkg, link_to) = parse_pkg_and_component(item, None);
    if is_git_dep(pkg.as_str()) {
        let (repo, clone_url, name, branch) = parse_git_dep(pkg.as_str());
        let b: Option<&str> = match &branch {
            Some(x) => Some(x.as_str()),
            None => None,
        };
        let l: Option<&str> = match &link_to {
            Some(x) => Some(x.as_str()),
            None => None,
        };
        add_git_dependency(root, repo.as_str(), name.as_str(), b, l);
        AddedItem::Git { clone_url, name, branch, link_to }
    } else {
        let l: Option<&str> = match &link_to {
            Some(x) => Some(x.as_str()),
            None => None,
        };
        add_vcpkg_dependency(root, pkg.as_str(), features, l);
        AddedItem::Vcpkg { pkg, link_to }
    }
}

/// A dependency of the vcpkg manifest: its name, its features, and whether
/// it is written as an object rather than as a bare name.
#[derive(Debug)]
pub struct ManifestDep {
    pub name: String,
    pub features: Vec<String>,
    pub object: bool,
}

/// The change that adding a package makes to the manifest's dependencies.
#[derive(Debug)]
pub enum ManifestEdit {
    /// Nothing changes.
    Keep,
    /// The bare name is appended.
    PushName,
    /// An object with these features is appended.
    PushObject(Vec<String>),
    /// The entry at this index becomes an object with these features.
    SetObject(usize, Vec<String>),
}

/// Index of the first manifest dependency named `pkg` among the first `k`.
pub open spec fn first_manifest_upto(deps: Seq<ManifestDep>, pkg: Seq<char>, k: int) -> Option<int>
    decreases k,
{
    if k <= 0 {
        None
    } else {
        match first_manifest_upto(deps, pkg, k - 1) {
            Some(i) => Some(i),
            None => if deps[k - 1].name@ == pkg {
                Some(k - 1)
            } else {
                None
            },
        }
    }
}

/// Decides how the manifest's dependencies change when `pkg` is added with
/// the features `feats`: without features the bare name is appended unless
/// it is there as a bare name; with features the first entry of that name
/// becomes an object whose features are united with them, or such an
/// object is appended.
pub fn manifest_edit(deps: &Vec<ManifestDep>, pkg: &str, feats: &Vec<String>) -> (res: ManifestEdit)
    ensures
        feats@.len() == 0 ==> (res is Keep <==> exists|i: int| 0 <= i < deps@.len() && !deps@[i].object && #[trigger] deps@[i].name@ == pkg@),
        feats@.len() == 0 ==> (res is Keep || res is PushName),
        feats@.len() > 0 ==> match first_manifest_upto(deps@, pkg@, deps@.len() as int) {
            Some(i) => res matches ManifestEdit::SetObject(j, f) && j == i
                && views(f@) == merge_features(views(deps@[i].features@), views(feats@)),
            None => res matches ManifestEdit::PushObject(f)
                && views(f@) == merge_features(Seq::empty(), views(feats@)),
        },
{
    if feats.len() == 0 {
        let mut i: usize = 0;
        while i < deps.len()
            invariant
                i <= deps@.len(),
                feats@.len() == 0,
                forall|k: int| 0 <= k < i ==> deps@[k].object || #[trigger] deps@[k].name@ != pkg@,
            decreases deps.len() - i,
        {
            if !deps[i].object && str_eq(deps[i].name.as_str(), pkg) {
                return ManifestEdit::Keep;
            }
            i += 1;
        }
        return ManifestEdit::PushName;
    }
    let mut idx: Option<usize> = None;
    let mut i: usize = 0;
    while i < deps.len()
        invariant
            i <= deps@.len(),
            idx matches Some(t) ==> t < i,
            match idx {
                Some(t) => first_manifest_upto(deps@, pkg@, i as int) == Some(t as int),
                None => first_manifest_upto(deps@, pkg@, i as int) is None,
            },
        decreases deps.len() - i,
    {
        if idx.is_none() && str_eq(deps[i].name.as_str(), pkg) {
            idx = Some(i);
        }
        i += 1;
    }
    match idx {
        Some(t) => ManifestEdit::SetObject(t, features_union(&deps[t].features, feats)),
        None => {
            let empty: Vec<String> = Vec::new();
            assert(views(empty@) =~= Seq::<Seq<char>>::empty());
            ManifestEdit::PushObject(features_union(&empty, feats))
        },
    }
}

/// A manifest dependency as a value: name, features, written as an object.
pub type ManifestDepV = (Seq<char>, Seq<Seq<char>>, bool);

pub open spec fn manifest_view(s: Seq<ManifestDep>) -> Seq<ManifestDepV> {
    s.map_values(|d: ManifestDep| (d.name@, views(d.features@), d.object))
}

/// Index of the first entry named `pkg` among the first `k`.
pub open spec fn first_named_upto(s: Seq<ManifestDepV>, pkg: Seq<char>, k: int) -> Option<int>
    decreases k,
{
    if k <= 0 {
        None
    } else {
        match first_named_upto(s, pkg, k - 1) {
            Some(i) => Some(i),
            None => if s[k - 1].0 == pkg {
                Some(k - 1)
            } else {
                None
            },
        }
    }
}

/// The manifest's dependencies after adding `pkg` with the features `fs`:
/// without features the bare name is appended unless it is there as a bare
/// name; with features the first entry of that name becomes an object whose
/// features are united with them, or such an object is appended.
pub open spec fn manifest_added(s: Seq<ManifestDepV>, pkg: Seq<char>, fs: Seq<Seq<char>>) -> Seq<ManifestDepV> {
    if fs.len() == 0 {
        if exists|i: int| 0 <= i < s.len() && !s[i].2 && #[trigger] s[i].0 == pkg {
            s
        } else {
            s.push((pkg, Seq::empty(), false))
        }
    } else {
        match first_named_upto(s, pkg, s.len() as int) {
            Some(i) => s.update(i, (s[i].0, merge_features(s[i].1, fs), true)),
            None => s.push((pkg, merge_features(Seq::empty(), fs), true)),
        }
    }
}

proof fn lemma_first_named_view(deps: Seq<ManifestDep>, pkg: Seq<char>, k: int)
    requires
        k <= deps.len(),
    ensures
        first_manifest_upto(deps, pkg, k) == first_named_upto(manifest_view(deps), pkg, k),
    decreases k,
{
    if k > 0 {
        lemma_first_named_view(deps, pkg, k - 1);
    }
}

/// Adds `pkg` with the features `feats` to the manifest's dependencies, as
/// `manifest_edit` decides (see `manifest_added`).
pub fn add_to_manifest(deps: &mut Vec<ManifestDep>, pkg: &str, feats: &Vec<String>)
    ensures
        manifest_view(final(deps)@) == manifest_added(manifest_view(old(deps)@), pkg@, views(feats@)),
{
    let ghost s = manifest_view(deps@);
    proof {
        lemma_first_named_view(deps@, pkg@, deps@.len() as int);
        lemma_first_named_is(s, pkg@, deps@.len() as int);
    }
    let edit = manifest_edit(deps, pkg, feats);
    match edit {
        ManifestEdit::Keep => {
            proof {
                let i = choose|i: int| 0 <= i < deps@.len() && !deps@[i].object && #[trigger] deps@[i].name@ == pkg@;
                assert(!s[i].2 && s[i].0 == pkg@);
            }
        },
        ManifestEdit::PushName => {
            let d = ManifestDep { name: to_owned(pkg), features: Vec::new(), object: false };
            deps.push(d);
            proof {
                assert(views(d.features@) =~= Seq::<Seq<char>>::empty());
                assert forall|i: int| 0 <= i < s.len() && !s[i].2 implies #[trigger] s[i].0 != pkg@ by {
                    assert(s[i].0 == old(deps)@[i].name@);
                }
                assert(manifest_view(deps@) =~= s.push((pkg@, Seq::empty(), false)));
            }
        },
        ManifestEdit::PushObject(f) => {
            let d = ManifestDep { name: to_owned(pkg), features: f, object: true };
            deps.push(d);
            assert(manifest_view(deps@) =~= s.push((pkg@, views(d.features@), true)));
        },
        ManifestEdit::SetObject(i, f) => {
            let name = to_owned(deps[i].name.as_str());
            deps.set(i, ManifestDep { name, features: f, object: true });
            assert(manifest_view(deps@) =~= s.update(i as int, (s[i as int].0, merge_features(s[i as int].1, views(feats@)), true)));
        },
    }
}

proof fn lemma_first_named_is(s: Seq<ManifestDepV>, pkg: Seq<char>, k: int)
    ensures
        match first_named_upto(s, pkg, k) {
            Some(i) => 0 <= i < k && s[i].0 == pkg && forall|j: int| 0 <= j < i ==> #[trigger] s[j].0 != pkg,
            None => forall|j: int| 0 <= j < k ==> #[trigger] s[j].0 != pkg,
        },
    decreases k,
{
    if k > 0 {
        lemma_first_named_is(s, pkg, k - 1);
    }
}

proof fn lemma_first_named_at(s: Seq<ManifestDepV>, pkg: Seq<char>, k: int, i: int)
    requires
        0 <= i < k <= s.len(),
        s[i].0 == pkg,
        forall|j: int| 0 <= j < i ==> #[trigger] s[j].0 != pkg,
    ensures
        first_named_upto(s, pkg, k) == Some(i),
    decreases k,
{
    if k - 1 > i {
        lemma_first_named_at(s, pkg, k - 1, i);
    } else {
        lemma_first_named_is(s, pkg, k - 1);
    }
}

/// Adding the same package with the same features to the manifest a second
/// time changes nothing.
pub proof fn lemma_manifest_add_twice(s: Seq<ManifestDepV>, pkg: Seq<char>, fs: Seq<Seq<char>>)
    ensures
        manifest_added(manifest_added(s, pkg, fs), pkg, fs) == manifest_added(s, pkg, fs),
{
    let s1 = manifest_added(s, pkg, fs);
    if fs.len() == 0 {
        if !(exists|i: int| 0 <= i < s.len() && !s[i].2 && #[trigger] s[i].0 == pkg) {
            assert(!s1[s.len() as int].2 && s1[s.len() as int].0 == pkg);
        }
    } else {
        lemma_first_named_is(s, pkg, s.len() as int);
        let i = match first_named_upto(s, pkg, s.len() as int) {
            Some(i) => i,
            None => s.len() as int,
        };
        let a = if i < s.len() { s[i].1 } else { Seq::empty() };
        assert(s1[i] == (pkg, merge_features(a, fs), true));
        assert forall|j: int| 0 <= j < i implies #[trigger] s1[j].0 != pkg by {
            assert(s1[j] == s[j]);
        }
        lemma_first_named_at(s1, pkg, s1.len() as int, i);
        lemma_merge_twice(a, fs);
        assert(s1.update(i, (s1[i].0, merge_features(s1[i].1, fs), true)) =~= s1);
    }
}

} // verus!
