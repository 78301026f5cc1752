//! Installing or upgrading CMake: version comparison, which package managers
//! are tried on each platform and with which commands, and how each attempt
//! and the whole installation are judged. The caller runs the commands and
//! asks the user.

use vstd::prelude::*;
use crate::text::{
    views, trim, trim_end, starts_with, split_char, parse_unsigned, is_digit, push_line, push_lit,
    push_str, to_owned, trim_str, chars_of, string_from_range, split_str, parse_unsigned_str,
    str_starts_with, cat3, cat5, concat2, lemma_views_push, join,
};
use crate::cmake::platform::HostOs;

verus! {

// ---------------------------------------------------------------------------
// Versions
// ---------------------------------------------------------------------------

/// The text without every leading occurrence of the pattern (`trim_start_matches`).
pub open spec fn strip_prefixes(s: Seq<char>, p: Seq<char>) -> Seq<char>
    decreases s.len(),
{
    if p.len() > 0 && starts_with(s, p) {
        strip_prefixes(s.skip(p.len() as int), p)
    } else {
        s
    }
}

/// The version a user asked for: trimmed, without leading `>=`, trimmed
/// again; nothing when that leaves nothing.
pub open spec fn spec_requested_version(o: Option<Seq<char>>) -> Option<Seq<char>> {
    match o {
        Some(s) => {
            let v = trim(strip_prefixes(trim(s), ">="@));
            if v.len() > 0 {
                Some(v)
            } else {
                None
            }
        },
        None => None,
    }
}

/// The requested version of `triton cmake install [version]`.
pub fn requested_version(version_override: Option<&str>) -> (res: Option<String>)
    ensures
        crate::text::opt_view_s(res) == spec_requested_version(
            match version_override {
                Some(s) => Some(s@),
                None => None,
            },
        ),
{
    match version_override {
        None => None,
        Some(s) => {
            let t = trim_str(s);
            let v = chars_of(t.as_str());
            let mut i: usize = 0;
            assert(v@.skip(0) =~= t@);
            while v.len() - i >= 2 && v[i] == '>' && v[i + 1] == '='
                invariant
                    i <= v@.len(),
                    v@ == t@,
                    strip_prefixes(t@, ">="@) == strip_prefixes(v@.skip(i as int), ">="@),
                decreases v.len() - i,
            {
                proof {
                    reveal_strlit(">=");
                    assert(v@.skip(i as int).take(2) =~= ">="@);
                    assert(v@.skip(i as int).skip(2) =~= v@.skip(i + 2));
                }
                i += 2;
            }
            proof {
                reveal_strlit(">=");
                if v@.skip(i as int).len() >= 2 && starts_with(v@.skip(i as int), ">="@) {
                    assert(v@.skip(i as int).take(2)[0] == '>');
                    assert(v@.skip(i as int).take(2)[1] == '=');
                }
            }
            let rest = string_from_range(&v, i, v.len());
            assert(rest@ =~= v@.skip(i as int));
            let r = trim_str(rest.as_str());
            if chars_of(r.as_str()).len() == 0 {
                None
            } else {
                Some(r)
            }
        },
    }
}

/// The numeric prefix of a version (digits and dots), or the whole text when
/// it has none.
pub open spec fn numeric_prefix_len(s: Seq<char>, k: int) -> int
    decreases s.len() - k,
{
    if k < 0 || k >= s.len() {
        s.len() as int
    } else if is_digit(s[k]) || s[k] == '.' {
        numeric_prefix_len(s, k + 1)
    } else {
        k
    }
}

/// A version reduced to its numeric dotted prefix (`3.30.5-rc1` becomes
/// `3.30.5`); a version without such a prefix stays as it is.
pub open spec fn spec_normalize_version(s: Seq<char>) -> Seq<char> {
    let n = numeric_prefix_len(s, 0);
    if n > 0 {
        s.take(n)
    } else {
        s
    }
}

/// Keeps only the numeric dot-separated prefix of a version.
pub fn normalize_version_string(ver: &str) -> (res: String)
    ensures
        res@ == spec_normalize_version(ver@),
{
    let v = chars_of(ver);
    let mut i: usize = 0;
    while i < v.len() && (('0' <= v[i] && v[i] <= '9') || v[i] == '.')
        invariant
            i <= v@.len(),
            v@ == ver@,
            numeric_prefix_len(ver@, 0) == numeric_prefix_len(ver@, i as int),
        decreases v.len() - i,
    {
        i += 1;
    }
    if i > 0 {
        let r = string_from_range(&v, 0, i);
        assert(r@ =~= ver@.take(i as int));
        r
    } else {
        to_owned(ver)
    }
}

/// The number of one part of a version: 0 when it is not a number.
pub open spec fn version_number(p: Seq<char>) -> nat {
    match parse_unsigned(p, u64::MAX as nat) {
        Some(n) => n,
        None => 0,
    }
}

/// The numbers of a dotted version.
pub open spec fn spec_parse_version(s: Seq<char>) -> Seq<nat> {
    split_char(s, '.').map_values(|p: Seq<char>| version_number(p))
}

/// The numbers of a dotted version (see `spec_parse_version`).
pub fn parse_version(v: &str) -> (res: Vec<u64>)
    ensures
        res@.len() == spec_parse_version(v@).len(),
        forall|i: int| 0 <= i < res@.len() ==> res@[i] as nat == spec_parse_version(v@)[i],
{
    let parts = split_str(v, '.');
    let ghost p = split_char(v@, '.');
    let mut out: Vec<u64> = Vec::new();
    let mut k: usize = 0;
    while k < parts.len()
        invariant
            k <= parts@.len(),
            views(parts@) == p,
            p == split_char(v@, '.'),
            p.len() == parts@.len(),
            spec_parse_version(v@).len() == p.len(),
            out@.len() == k,
            forall|q: int| 0 <= q < k ==> out@[q] as nat == spec_parse_version(v@)[q],
        decreases parts.len() - k,
    {
        let n = parse_unsigned_str(parts[k].as_str(), u64::MAX);
        assert(parts@[k as int]@ == p[k as int]);
        let x: u64 = match n {
            Some(x) => x,
            None => 0,
        };
        proof {
            let q = parse_unsigned(p[k as int], u64::MAX as nat);
            match q {
                Some(m) => {
                    assert(m <= u64::MAX);
                    assert(x as nat == m);
                },
                None => {},
            }
            assert(spec_parse_version(v@)[k as int] == version_number(p[k as int]));
        }
        out.push(x);
        k += 1;
    }
    out
}

/// Component `i` of a version, 0 past its end.
pub open spec fn part(a: Seq<nat>, i: int) -> nat {
    if 0 <= i < a.len() {
        a[i]
    } else {
        0
    }
}

pub open spec fn max_len(a: Seq<nat>, b: Seq<nat>) -> int {
    if a.len() >= b.len() {
        a.len() as int
    } else {
        b.len() as int
    }
}

/// From component `i` on, `a` is at least `b`, comparing numerically and
/// padding with zeros.
pub open spec fn ge_from(a: Seq<nat>, b: Seq<nat>, i: int) -> bool
    decreases max_len(a, b) - i,
{
    if i < 0 || i >= max_len(a, b) {
        true
    } else if part(a, i) > part(b, i) {
        true
    } else if part(a, i) < part(b, i) {
        false
    } else {
        ge_from(a, b, i + 1)
    }
}

/// Version `a` is at least version `b`.
pub open spec fn spec_version_ge(a: Seq<char>, b: Seq<char>) -> bool {
    ge_from(spec_parse_version(a), spec_parse_version(b), 0)
}

/// Versions with the same numbers (and as many of them).
pub open spec fn spec_version_eq(a: Seq<char>, b: Seq<char>) -> bool {
    spec_parse_version(a) == spec_parse_version(b)
}

/// `a >= b` for dotted versions.
pub fn version_ge(a: &str, b: &str) -> (res: bool)
    ensures
        res == spec_version_ge(a@, b@),
{
    let av = parse_version(a);
    let bv = parse_version(b);
    let ghost sa = spec_parse_version(a@);
    let ghost sb = spec_parse_version(b@);
    let n = if av.len() >= bv.len() { av.len() } else { bv.len() };
    assert(sa.len() == av@.len() && sb.len() == bv@.len());
    assert(ge_from(sa, sb, 0) == ge_from(sa, sb, 0));
    let mut i: usize = 0;
    while i < n
        invariant
            i <= n,
            n == max_len(sa, sb),
            sa == spec_parse_version(a@),
            sb == spec_parse_version(b@),
            sa.len() == av@.len(),
            sb.len() == bv@.len(),
            forall|q: int| 0 <= q < av@.len() ==> av@[q] as nat == sa[q],
            forall|q: int| 0 <= q < bv@.len() ==> bv@[q] as nat == sb[q],
            ge_from(sa, sb, 0) == ge_from(sa, sb, i as int),
        decreases n - i,
    {
        let ai: u64 = if i < av.len() { av[i] } else { 0 };
        let bi: u64 = if i < bv.len() { bv[i] } else { 0 };
        proof {
            if i < av.len() {
                assert(sa[i as int] == av@[i as int] as nat);
            }
            if i < bv.len() {
                assert(sb[i as int] == bv@[i as int] as nat);
            }
        }
        assert(ai == part(sa, i as int) && bi == part(sb, i as int));
        if ai > bi {
            return true;
        }
        if ai < bi {
            return false;
        }
        i += 1;
    }
    true
}

/// Dotted versions with the same numbers.
pub fn version_eq(a: &str, b: &str) -> (res: bool)
    ensures
        res == spec_version_eq(a@, b@),
{
    let av = parse_version(a);
    let bv = parse_version(b);
    let ghost sa = spec_parse_version(a@);
    let ghost sb = spec_parse_version(b@);
    if av.len() != bv.len() {
        assert(sa.len() != sb.len());
        return false;
    }
    let mut i: usize = 0;
    while i < av.len()
        invariant
            i <= av@.len(),
            av@.len() == bv@.len(),
            sa == spec_parse_version(a@),
            sb == spec_parse_version(b@),
            sa.len() == av@.len(),
            sb.len() == bv@.len(),
            forall|q: int| 0 <= q < av@.len() ==> av@[q] as nat == sa[q],
            forall|q: int| 0 <= q < bv@.len() ==> bv@[q] as nat == sb[q],
            forall|k: int| 0 <= k < i ==> sa[k] == sb[k],
        decreases av.len() - i,
    {
        if av[i] != bv[i] {
            assert(sa[i as int] == av@[i as int] as nat);
            assert(sb[i as int] == bv@[i as int] as nat);
            assert(sa[i as int] != sb[i as int]);
            return false;
        }
        assert(sa[i as int] == av@[i as int] as nat);
        assert(sb[i as int] == bv@[i as int] as nat);
        i += 1;
    }
    assert(sa =~= sb);
    true
}

/// `a > b`: at least and not equal.
pub fn version_gt(a: &str, b: &str) -> (res: bool)
    ensures
        res == (spec_version_ge(a@, b@) && !spec_version_eq(a@, b@)),
{
    version_ge(a, b) && !version_eq(a, b)
}

/// `a < b`: not at least.
pub fn version_lt(a: &str, b: &str) -> (res: bool)
    ensures
        res == !spec_version_ge(a@, b@),
{
    !version_ge(a, b)
}

/// Versions are totally ordered by `version_ge`: of two versions one is at
/// least the other.
pub proof fn lemma_version_ge_total(a: Seq<char>, b: Seq<char>)
    ensures
        spec_version_ge(a, b) || spec_version_ge(b, a),
{
    lemma_ge_from_total(spec_parse_version(a), spec_parse_version(b), 0);
}

proof fn lemma_ge_from_total(a: Seq<nat>, b: Seq<nat>, i: int)
    ensures
        ge_from(a, b, i) || ge_from(b, a, i),
    decreases max_len(a, b) - i,
{
    if 0 <= i < max_len(a, b) && part(a, i) == part(b, i) {
        lemma_ge_from_total(a, b, i + 1);
    }
}

/// Every version is at least itself.
pub proof fn lemma_version_ge_reflexive(a: Seq<char>)
    ensures
        spec_version_ge(a, a),
{
    lemma_ge_from_refl(spec_parse_version(a), 0);
}

proof fn lemma_ge_from_refl(a: Seq<nat>, i: int)
    ensures
        ge_from(a, a, i),
    decreases max_len(a, a) - i,
{
    if 0 <= i < max_len(a, a) {
        lemma_ge_from_refl(a, i + 1);
    }
}

/// `version_ge` is transitive.
pub proof fn lemma_version_ge_transitive(a: Seq<char>, b: Seq<char>, c: Seq<char>)
    requires
        spec_version_ge(a, b),
        spec_version_ge(b, c),
    ensures
        spec_version_ge(a, c),
{
    let (x, y, z) = (spec_parse_version(a), spec_parse_version(b), spec_parse_version(c));
    let l = max_len(x, y) + max_len(y, z) + max_len(x, z);
    lemma_ge_upto_eq(x, y, 0, l);
    lemma_ge_upto_eq(y, z, 0, l);
    lemma_ge_upto_eq(x, z, 0, l);
    lemma_ge_upto_trans(x, y, z, 0, l);
}

/// The comparison from `i` with a bound `l` on the parts compared.
spec fn ge_upto(a: Seq<nat>, b: Seq<nat>, i: int, l: int) -> bool
    decreases l - i,
{
    if i < 0 || i >= l {
        true
    } else if part(a, i) > part(b, i) {
        true
    } else if part(a, i) < part(b, i) {
        false
    } else {
        ge_upto(a, b, i + 1, l)
    }
}

proof fn lemma_ge_upto_zero(a: Seq<nat>, b: Seq<nat>, i: int, l: int)
    requires
        i >= max_len(a, b),
    ensures
        ge_upto(a, b, i, l),
    decreases l - i,
{
    if i < l {
        lemma_ge_upto_zero(a, b, i + 1, l);
    }
}

proof fn lemma_ge_upto_eq(a: Seq<nat>, b: Seq<nat>, i: int, l: int)
    requires
        0 <= i,
        l >= max_len(a, b),
    ensures
        ge_upto(a, b, i, l) == ge_from(a, b, i),
    decreases l - i,
{
    if i >= max_len(a, b) {
        lemma_ge_upto_zero(a, b, i, l);
    } else if part(a, i) == part(b, i) {
        lemma_ge_upto_eq(a, b, i + 1, l);
    }
}

proof fn lemma_ge_upto_trans(a: Seq<nat>, b: Seq<nat>, c: Seq<nat>, i: int, l: int)
    requires
        ge_upto(a, b, i, l),
        ge_upto(b, c, i, l),
    ensures
        ge_upto(a, c, i, l),
    decreases l - i,
{
    if 0 <= i < l && part(a, i) == part(b, i) && part(b, i) == part(c, i) {
        lemma_ge_upto_trans(a, b, c, i + 1, l);
    }
}

/// Equal versions are each at least the other.
pub proof fn lemma_version_eq_ge(a: Seq<char>, b: Seq<char>)
    requires
        spec_version_eq(a, b),
    ensures
        spec_version_ge(a, b),
        spec_version_ge(b, a),
{
    lemma_version_ge_reflexive(a);
}

// ---------------------------------------------------------------------------
// The request
// ---------------------------------------------------------------------------

/// How a requested version relates to the installed one.
#[derive(Debug)]
pub enum RequestKind {
    /// CMake is not installed.
    NotInstalled,
    /// The installed version is newer than the request.
    Downgrade,
    /// The installed version is older than the request.
    Upgrade,
    /// The installed version equals the request.
    Same,
}

/// Classifies a request against the installed version.
pub fn classify_request(current: Option<&str>, req: &str) -> (res: RequestKind)
    ensures
        match current {
            None => res is NotInstalled,
            Some(cur) => if spec_version_ge(cur@, req@) && !spec_version_eq(cur@, req@) {
                res is Downgrade
            } else if !spec_version_ge(cur@, req@) {
                res is Upgrade
            } else {
                res is Same
            },
        },
{
    match current {
        None => RequestKind::NotInstalled,
        Some(cur) => {
            if version_gt(cur, req) {
                RequestKind::Downgrade
            } else if version_lt(cur, req) {
                RequestKind::Upgrade
            } else {
                RequestKind::Same
            }
        },
    }
}

/// A found version fulfils a request: it equals it or is at least it.
pub fn request_fulfilled(found: &str, req: &str) -> (res: bool)
    ensures
        res == (spec_version_eq(found@, req@) || spec_version_ge(found@, req@)),
{
    version_eq(found, req) || version_ge(found, req)
}

// ---------------------------------------------------------------------------
// Installers
// ---------------------------------------------------------------------------

/// A package manager that can install CMake.
#[derive(Debug, PartialEq, Eq, Structural, Clone, Copy)]
pub enum Installer {
    Winget,
    Choco,
    Scoop,
    Brew,
    Macports,
    Apt,
    Dnf,
    Yum,
    Pacman,
    Zypper,
    Apk,
    Snap,
}

/// The installers tried, in order, on each platform.
pub open spec fn spec_installers(os: HostOs) -> Seq<Installer> {
    match os {
        HostOs::Windows => seq![Installer::Winget, Installer::Choco, Installer::Scoop],
        HostOs::Macos => seq![Installer::Brew, Installer::Macports],
        HostOs::Linux => seq![
            Installer::Apt,
            Installer::Dnf,
            Installer::Yum,
            Installer::Pacman,
            Installer::Zypper,
            Installer::Apk,
            Installer::Snap,
        ],
        HostOs::Other => seq![
            Installer::Brew,
            Installer::Apt,
            Installer::Dnf,
            Installer::Yum,
            Installer::Pacman,
            Installer::Zypper,
            Installer::Apk,
            Installer::Snap,
        ],
    }
}

/// The installers to try, in order, on a platform.
pub fn installers_for(os: HostOs) -> (res: Vec<Installer>)
    ensures
        res@ == spec_installers(os),
{
    let mut v: Vec<Installer> = Vec::new();
    match os {
        HostOs::Windows => {
            v.push(Installer::Winget);
            v.push(Installer::Choco);
            v.push(Installer::Scoop);
        },
        HostOs::Macos => {
            v.push(Installer::Brew);
            v.push(Installer::Macports);
        },
        HostOs::Linux => {
            v.push(Installer::Apt);
            v.push(Installer::Dnf);
            v.push(Installer::Yum);
            v.push(Installer::Pacman);
            v.push(Installer::Zypper);
            v.push(Installer::Apk);
            v.push(Installer::Snap);
        },
        HostOs::Other => {
            v.push(Installer::Brew);
            v.push(Installer::Apt);
            v.push(Installer::Dnf);
            v.push(Installer::Yum);
            v.push(Installer::Pacman);
            v.push(Installer::Zypper);
            v.push(Installer::Apk);
            v.push(Installer::Snap);
        },
    }
    assert(v@ =~= spec_installers(os));
    v
}

/// The name an installer is reported under.
pub open spec fn spec_installer_name(i: Installer) -> Seq<char> {
    match i {
        Installer::Winget => "winget"@,
        Installer::Choco => "choco"@,
        Installer::Scoop => "scoop"@,
        Installer::Brew => "brew"@,
        Installer::Macports => "macports"@,
        Installer::Apt => "apt"@,
        Installer::Dnf => "dnf"@,
        Installer::Yum => "yum"@,
        Installer::Pacman => "pacman"@,
        Installer::Zypper => "zypper"@,
        Installer::Apk => "apk"@,
        Installer::Snap => "snap"@,
    }
}

/// The name an installer is reported under.
pub fn installer_name(i: Installer) -> (res: &'static str)
    ensures
        res@ == spec_installer_name(i),
{
    match i {
        Installer::Winget => "winget",
        Installer::Choco => "choco",
        Installer::Scoop => "scoop",
        Installer::Brew => "brew",
        Installer::Macports => "macports",
        Installer::Apt => "apt",
        Installer::Dnf => "dnf",
        Installer::Yum => "yum",
        Installer::Pacman => "pacman",
        Installer::Zypper => "zypper",
        Installer::Apk => "apk",
        Installer::Snap => "snap",
    }
}

/// One command of an installation: the program, its arguments, and whether
/// it runs through `sudo` (where `sudo` exists and the platform is not
/// Windows).
#[derive(Debug)]
pub struct InstallCommand {
    pub program: String,
    pub args: Vec<String>,
    pub sudo: bool,
}

/// The view of a command.
pub open spec fn command_view(c: InstallCommand) -> (Seq<char>, Seq<Seq<char>>, bool) {
    (c.program@, views(c.args@), c.sudo)
}

/// The tool whose presence an installer needs (for APT, `apt-get` or else
/// `apt`).
pub open spec fn spec_installer_tool(i: Installer, has_apt_get: bool) -> Seq<char> {
    match i {
        Installer::Macports => "port"@,
        Installer::Apt => if has_apt_get { "apt-get"@ } else { "apt"@ },
        _ => spec_installer_name(i),
    }
}

/// The commands that install CMake with an installer, pinned to a version
/// where the installer supports it.
pub open spec fn spec_install_commands(i: Installer, pin: Option<Seq<char>>, has_apt_get: bool) -> Seq<(Seq<char>, Seq<Seq<char>>, bool)> {
    match i {
        Installer::Winget => seq![("winget"@, seq!["install"@, "--id"@, "Kitware.CMake"@, "-e"@, "--source"@, "winget"@] + match pin {
            Some(v) => seq!["--version"@, v],
            None => Seq::empty(),
        }, false)],
        Installer::Choco => seq![("choco"@, seq!["install"@, "cmake"@, "--yes"@, "--installargs"@, "ADD_CMAKE_TO_PATH=System"@] + match pin {
            Some(v) => seq!["--version"@, v],
            None => Seq::empty(),
        }, false)],
        Installer::Scoop => seq![("scoop"@, seq!["install"@, match pin {
            Some(v) => "cmake@"@ + v,
            None => "cmake"@,
        }], false)],
        Installer::Brew => seq![("brew"@, seq!["update"@], false), ("brew"@, seq!["install"@, "cmake"@], false)],
        Installer::Macports => seq![("port"@, seq!["selfupdate"@], true), ("port"@, match pin {
            Some(v) => seq!["install"@, "cmake"@, "@"@ + v],
            None => seq!["install"@, "cmake"@],
        }, true)],
        Installer::Apt => {
            let tool = spec_installer_tool(i, has_apt_get);
            seq![(tool, seq!["update"@], true), (tool, seq!["install"@, "-y"@, "cmake"@], true)]
        },
        Installer::Dnf => seq![("dnf"@, seq!["install"@, "-y"@, "cmake"@], true)],
        Installer::Yum => seq![("yum"@, seq!["install"@, "-y"@, "cmake"@], true)],
        Installer::Pacman => seq![("pacman"@, seq!["-Sy"@, "--noconfirm"@, "cmake"@], true)],
        Installer::Zypper => seq![("zypper"@, seq!["install"@, "-y"@, "cmake"@], true)],
        Installer::Apk => seq![("apk"@, seq!["add"@, "cmake"@], true)],
        Installer::Snap => seq![("snap"@, seq!["install"@, "cmake"@, "--classic"@], true)],
    }
}

fn lits(a: &str, b: &str, c: &str, n: usize) -> (res: Vec<String>)
    requires
        1 <= n <= 3,
    ensures
        views(res@) == seq![a@, b@, c@].take(n as int),
{
    let mut v: Vec<String> = Vec::new();
    push_lit(&mut v, a);
    if n >= 2 {
        push_lit(&mut v, b);
    }
    if n >= 3 {
        push_lit(&mut v, c);
    }
    assert(views(v@) =~= seq![a@, b@, c@].take(n as int));
    v
}

fn command(program: &str, args: Vec<String>, sudo: bool) -> (res: InstallCommand)
    ensures
        command_view(res) == (program@, views(args@), sudo),
{
    InstallCommand { program: to_owned(program), args, sudo }
}

fn push_pin(args: &mut Vec<String>, pin: Option<&str>)
    ensures
        views(final(args)@) == views(old(args)@) + match pin {
            Some(v) => seq!["--version"@, v@],
            None => Seq::<Seq<char>>::empty(),
        },
{
    let ghost before = views(args@);
    match pin {
        Some(v) => {
            push_lit(args, "--version");
            push_line(args, to_owned(v));
            assert(views(args@) =~= before + seq!["--version"@, v@]);
        },
        None => {
            assert(views(args@) =~= before + Seq::<Seq<char>>::empty());
        },
    }
}

/// The commands that install CMake with an installer (see
/// `spec_install_commands`); `has_apt_get` tells whether `apt-get` exists.
pub fn install_commands(i: Installer, pin: Option<&str>, has_apt_get: bool) -> (res: Vec<InstallCommand>)
    ensures
        res@.map_values(|c: InstallCommand| command_view(c)) == spec_install_commands(
            i,
            match pin {
                Some(v) => Some(v@),
                None => None,
            },
            has_apt_get,
        ),
{
    let ghost p = match pin {
        Some(v) => Some(v@),
        None => None::<Seq<char>>,
    };
    let mut out: Vec<InstallCommand> = Vec::new();
    match i {
        Installer::Winget => {
            let mut a = lits("install", "--id", "Kitware.CMake", 3);
            crate::text::extend_lines(&mut a, &lits("-e", "--source", "winget", 3));
            push_pin(&mut a, pin);
            assert(views(a@) =~= seq!["install"@, "--id"@, "Kitware.CMake"@, "-e"@, "--source"@, "winget"@] + match p {
                Some(v) => seq!["--version"@, v],
                None => Seq::<Seq<char>>::empty(),
            });
            out.push(command("winget", a, false));
        },
        Installer::Choco => {
            let mut a = lits("install", "cmake", "--yes", 3);
            crate::text::extend_lines(&mut a, &lits("--installargs", "ADD_CMAKE_TO_PATH=System", "", 2));
            push_pin(&mut a, pin);
            assert(views(a@) =~= seq!["install"@, "cmake"@, "--yes"@, "--installargs"@, "ADD_CMAKE_TO_PATH=System"@] + match p {
                Some(v) => seq!["--version"@, v],
                None => Seq::<Seq<char>>::empty(),
            });
            out.push(command("choco", a, false));
        },
        Installer::Scoop => {
            let mut a = lits("install", "", "", 1);
            match pin {
                Some(v) => push_line(&mut a, concat2("cmake@", v)),
                None => push_lit(&mut a, "cmake"),
            }
            out.push(command("scoop", a, false));
        },
        Installer::Brew => {
            out.push(command("brew", lits("update", "", "", 1), false));
            out.push(command("brew", lits("install", "cmake", "", 2), false));
        },
        Installer::Macports => {
            out.push(command("port", lits("selfupdate", "", "", 1), true));
            let mut a = lits("install", "cmake", "", 2);
            match pin {
                Some(v) => push_line(&mut a, concat2("@", v)),
                None => {},
            }
            out.push(command("port", a, true));
        },
        Installer::Apt => {
            let tool = if has_apt_get { "apt-get" } else { "apt" };
            out.push(command(tool, lits("update", "", "", 1), true));
            out.push(command(tool, lits("install", "-y", "cmake", 3), true));
        },
        Installer::Dnf => out.push(command("dnf", lits("install", "-y", "cmake", 3), true)),
        Installer::Yum => out.push(command("yum", lits("install", "-y", "cmake", 3), true)),
        Installer::Pacman => out.push(command("pacman", lits("-Sy", "--noconfirm", "cmake", 3), true)),
        Installer::Zypper => out.push(command("zypper", lits("install", "-y", "cmake", 3), true)),
        Installer::Apk => out.push(command("apk", lits("add", "cmake", "", 2), true)),
        Installer::Snap => out.push(command("snap", lits("install", "cmake", "--classic", 3), true)),
    }
    proof {
        let m = out@.map_values(|c: InstallCommand| command_view(c));
        let sp = spec_install_commands(i, p, has_apt_get);
        assert(m.len() == sp.len());
        assert forall|q: int| 0 <= q < m.len() implies m[q] == sp[q] by {
            assert(m[q].1 =~= sp[q].1);
        }
        assert(m =~= sp);
    }
    out
}

// ---------------------------------------------------------------------------
// Judging attempts
// ---------------------------------------------------------------------------

/// What an installer attempt came to: CMake is good enough, or a line for
/// the failure summary.
pub open spec fn spec_attempt_outcome(
    name: Seq<char>,
    ran: Result<(), Seq<char>>,
    found: Option<Seq<char>>,
    pin: Option<Seq<char>>,
    minimal: Seq<char>,
) -> Option<Seq<char>> {
    match ran {
        Err(e) => Some(name + ": "@ + e),
        Ok(_) => match found {
            None => Some(name + ": installer ran, but cmake not found on PATH."@),
            Some(ver) => match pin {
                Some(req) => if spec_version_eq(ver, req) || spec_version_ge(ver, minimal) {
                    None
                } else {
                    Some(name + ": installer ran, but cmake is "@ + ver + " (not requested "@ + req + ")."@)
                },
                None => if spec_version_ge(ver, minimal) {
                    None
                } else {
                    Some(name + ": installer ran, but cmake is "@ + ver + " (< "@ + minimal + ")."@)
                },
            },
        },
    }
}

/// Judges one installer attempt from whether it ran (or its error) and the
/// CMake version found afterwards: `None` when the installation is done,
/// else the line to log.
pub fn attempt_outcome(
    name: &str,
    ran: Result<(), &str>,
    found: Option<&str>,
    pin: Option<&str>,
    minimal: &str,
) -> (res: Option<String>)
    ensures
        crate::text::opt_view_s(res) == spec_attempt_outcome(
            name@,
            match ran {
                Ok(_) => Ok(()),
                Err(e) => Err(e@),
            },
            match found {
                Some(v) => Some(v@),
                None => None,
            },
            match pin {
                Some(v) => Some(v@),
                None => None,
            },
            minimal@,
        ),
{
    match ran {
        Err(e) => Some(cat3(name, ": ", e)),
        Ok(_) => match found {
            None => Some(concat2(name, ": installer ran, but cmake not found on PATH.")),
            Some(ver) => match pin {
                Some(req) => {
                    if version_eq(ver, req) || version_ge(ver, minimal) {
                        None
                    } else {
                        let mut m = cat5(name, ": installer ran, but cmake is ", ver, " (not requested ", req);
                        push_str(&mut m, ").");
                        Some(m)
                    }
                },
                None => {
                    if version_ge(ver, minimal) {
                        None
                    } else {
                        let mut m = cat5(name, ": installer ran, but cmake is ", ver, " (< ", minimal);
                        push_str(&mut m, ").");
                        Some(m)
                    }
                },
            },
        },
    }
}

/// The lines of the failure summary, each after `  - `, on separate lines.
pub open spec fn summary_lines(log: Seq<Seq<char>>) -> Seq<char>
    decreases log.len(),
{
    if log.len() == 0 {
        Seq::empty()
    } else {
        summary_lines(log.drop_last()) + "  - "@ + log.last() + "\n"@
    }
}

/// The message after every installer failed: the requested version if any,
/// then one line per attempt, without trailing white space.
pub open spec fn spec_failure_summary(pin: Option<Seq<char>>, log: Seq<Seq<char>>) -> Seq<char> {
    trim_end(
        "Unable to install the requested CMake.\n"@ + match pin {
            Some(v) => "Requested version: "@ + v + "\n"@,
            None => Seq::empty(),
        } + "Tried multiple installers; all attempts failed. Summary:\n"@ + summary_lines(log),
    )
}

/// The message after every installer failed (see `spec_failure_summary`).
pub fn failure_summary(pin: Option<&str>, log: &Vec<String>) -> (res: String)
    ensures
        res@ == spec_failure_summary(
            match pin {
                Some(v) => Some(v@),
                None => None,
            },
            views(log@),
        ),
{
    let mut s = to_owned("Unable to install the requested CMake.\n");
    match pin {
        Some(v) => {
            push_str(&mut s, "Requested version: ");
            push_str(&mut s, v);
            push_str(&mut s, "\n");
        },
        None => {},
    }
    push_str(&mut s, "Tried multiple installers; all attempts failed. Summary:\n");
    let ghost head = s@;
    let mut i: usize = 0;
    while i < log.len()
        invariant
            i <= log@.len(),
            s@ == head + summary_lines(views(log@.take(i as int))),
        decreases log.len() - i,
    {
        push_str(&mut s, "  - ");
        push_str(&mut s, log[i].as_str());
        push_str(&mut s, "\n");
        proof {
            lemma_views_push(log@.take(i as int), log@[i as int]);
            assert(log@.take(i + 1) =~= log@.take(i as int).push(log@[i as int]));
            assert(views(log@.take(i + 1)).drop_last() =~= views(log@.take(i as int)));
        }
        i += 1;
    }
    assert(log@.take(log@.len() as int) =~= log@);
    assert(s@ =~= "Unable to install the requested CMake.\n"@ + match pin {
        Some(v) => "Requested version: "@ + v@ + "\n"@,
        None => Seq::<char>::empty(),
    } + "Tried multiple installers; all attempts failed. Summary:\n"@ + summary_lines(views(log@)));
    crate::text::trim_end_str(s.as_str())
}


// ---------------------------------------------------------------------------
// Installer messages and removal of an installed CMake
// ---------------------------------------------------------------------------

/// How an installer is named in progress messages: the tool, and what it
/// installs.
pub fn installer_label(i: Installer) -> (res: &'static str)
    ensures
        res@ == match i {
            Installer::Winget => "winget (Kitware.CMake)"@,
            Installer::Choco => "Chocolatey (cmake)"@,
            Installer::Scoop => "Scoop (cmake)"@,
            Installer::Brew => "Homebrew (cmake)"@,
            Installer::Macports => "MacPorts (cmake)"@,
            Installer::Apt => "APT (cmake)"@,
            Installer::Dnf => "DNF (cmake)"@,
            Installer::Yum => "YUM (cmake)"@,
            Installer::Pacman => "Pacman (cmake)"@,
            Installer::Zypper => "Zypper (cmake)"@,
            Installer::Apk => "Alpine APK (cmake)"@,
            Installer::Snap => "Snap (cmake)"@,
        },
{
    match i {
        Installer::Winget => "winget (Kitware.CMake)",
        Installer::Choco => "Chocolatey (cmake)",
        Installer::Scoop => "Scoop (cmake)",
        Installer::Brew => "Homebrew (cmake)",
        Installer::Macports => "MacPorts (cmake)",
        Installer::Apt => "APT (cmake)",
        Installer::Dnf => "DNF (cmake)",
        Installer::Yum => "YUM (cmake)",
        Installer::Pacman => "Pacman (cmake)",
        Installer::Zypper => "Zypper (cmake)",
        Installer::Apk => "Alpine APK (cmake)",
        Installer::Snap => "Snap (cmake)",
    }
}

/// The error of an installer whose tool is missing.
pub fn installer_missing_message(i: Installer) -> (res: &'static str)
    ensures
        res@ == match i {
            Installer::Brew => "Homebrew not found"@,
            Installer::Macports => "MacPorts not found"@,
            _ => spec_installer_name(i) + " not found"@,
        },
{
    proof {
        reveal_strlit(" not found");
        reveal_strlit("winget");
        reveal_strlit("winget not found");
        reveal_strlit("choco");
        reveal_strlit("choco not found");
        reveal_strlit("scoop");
        reveal_strlit("scoop not found");
        reveal_strlit("apt");
        reveal_strlit("apt not found");
        reveal_strlit("dnf");
        reveal_strlit("dnf not found");
        reveal_strlit("yum");
        reveal_strlit("yum not found");
        reveal_strlit("pacman");
        reveal_strlit("pacman not found");
        reveal_strlit("zypper");
        reveal_strlit("zypper not found");
        reveal_strlit("apk");
        reveal_strlit("apk not found");
        reveal_strlit("snap");
        reveal_strlit("snap not found");
    }
    let r = match i {
        Installer::Winget => "winget not found",
        Installer::Choco => "choco not found",
        Installer::Scoop => "scoop not found",
        Installer::Brew => "Homebrew not found",
        Installer::Macports => "MacPorts not found",
        Installer::Apt => "apt not found",
        Installer::Dnf => "dnf not found",
        Installer::Yum => "yum not found",
        Installer::Pacman => "pacman not found",
        Installer::Zypper => "zypper not found",
        Installer::Apk => "apk not found",
        Installer::Snap => "snap not found",
    };
    assert(r@ =~= match i {
        Installer::Brew => "Homebrew not found"@,
        Installer::Macports => "MacPorts not found"@,
        _ => spec_installer_name(i) + " not found"@,
    });
    r
}

/// The installers with which an installed CMake is removed before a
/// downgrade, in order, on each platform.
pub open spec fn spec_uninstallers(os: HostOs) -> Seq<Installer> {
    match os {
        HostOs::Windows => seq![Installer::Winget, Installer::Choco, Installer::Scoop],
        HostOs::Macos => seq![Installer::Brew, Installer::Macports],
        _ => seq![
            Installer::Apt,
            Installer::Dnf,
            Installer::Yum,
            Installer::Pacman,
            Installer::Zypper,
            Installer::Apk,
            Installer::Snap,
        ],
    }
}

/// See `spec_uninstallers`.
pub fn uninstallers_for(os: HostOs) -> (res: Vec<Installer>)
    ensures
        res@ == spec_uninstallers(os),
{
    let mut v: Vec<Installer> = Vec::new();
    match os {
        HostOs::Windows => {
            v.push(Installer::Winget);
            v.push(Installer::Choco);
            v.push(Installer::Scoop);
        },
        HostOs::Macos => {
            v.push(Installer::Brew);
            v.push(Installer::Macports);
        },
        _ => {
            v.push(Installer::Apt);
            v.push(Installer::Dnf);
            v.push(Installer::Yum);
            v.push(Installer::Pacman);
            v.push(Installer::Zypper);
            v.push(Installer::Apk);
            v.push(Installer::Snap);
        },
    }
    assert(v@ =~= spec_uninstallers(os));
    v
}

/// The command that removes CMake with an installer.
pub open spec fn spec_uninstall_command(i: Installer, has_apt_get: bool) -> (Seq<char>, Seq<Seq<char>>, bool) {
    match i {
        Installer::Winget => ("winget"@, seq!["uninstall"@, "--id"@, "Kitware.CMake"@, "-e"@], false),
        Installer::Choco => ("choco"@, seq!["uninstall"@, "cmake"@, "-y"@], false),
        Installer::Scoop => ("scoop"@, seq!["uninstall"@, "cmake"@], false),
        Installer::Brew => ("brew"@, seq!["uninstall"@, "cmake"@], false),
        Installer::Macports => ("port"@, seq!["uninstall"@, "cmake"@], true),
        Installer::Apt => (spec_installer_tool(i, has_apt_get), seq!["remove"@, "-y"@, "cmake"@], true),
        Installer::Dnf => ("dnf"@, seq!["remove"@, "-y"@, "cmake"@], true),
        Installer::Yum => ("yum"@, seq!["remove"@, "-y"@, "cmake"@], true),
        Installer::Pacman => ("pacman"@, seq!["-R"@, "--noconfirm"@, "cmake"@], true),
        Installer::Zypper => ("zypper"@, seq!["remove"@, "-y"@, "cmake"@], true),
        Installer::Apk => ("apk"@, seq!["del"@, "cmake"@], true),
        Installer::Snap => ("snap"@, seq!["remove"@, "cmake"@], true),
    }
}

/// See `spec_uninstall_command`; `has_apt_get` tells whether `apt-get`
/// exists.
pub fn uninstall_command(i: Installer, has_apt_get: bool) -> (res: InstallCommand)
    ensures
        command_view(res) == spec_uninstall_command(i, has_apt_get),
{
    match i {
        Installer::Winget => {
            let mut a = lits("uninstall", "--id", "Kitware.CMake", 3);
            push_lit(&mut a, "-e");
            assert(views(a@) =~= seq!["uninstall"@, "--id"@, "Kitware.CMake"@, "-e"@]);
            command("winget", a, false)
        },
        Installer::Choco => command("choco", lits("uninstall", "cmake", "-y", 3), false),
        Installer::Scoop => command("scoop", lits("uninstall", "cmake", "", 2), false),
        Installer::Brew => command("brew", lits("uninstall", "cmake", "", 2), false),
        Installer::Macports => command("port", lits("uninstall", "cmake", "", 2), true),
        Installer::Apt => {
            let tool = if has_apt_get { "apt-get" } else { "apt" };
            command(tool, lits("remove", "-y", "cmake", 3), true)
        },
        Installer::Dnf => command("dnf", lits("remove", "-y", "cmake", 3), true),
        Installer::Yum => command("yum", lits("remove", "-y", "cmake", 3), true),
        Installer::Pacman => command("pacman", lits("-R", "--noconfirm", "cmake", 3), true),
        Installer::Zypper => command("zypper", lits("remove", "-y", "cmake", 3), true),
        Installer::Apk => command("apk", lits("del", "cmake", "", 2), true),
        Installer::Snap => command("snap", lits("remove", "cmake", "", 2), true),
    }
}

} // verus!
