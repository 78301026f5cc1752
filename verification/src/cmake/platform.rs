//! Host platforms, target architectures and vcpkg triplets.

use vstd::prelude::*;
use crate::models::{DepSpec, dep_name};
use crate::text::{
    lower, trim, eq_ic, starts_with, to_lower, trim_str, str_eq, eq_ignore_case, str_starts_with,
    cat3, to_owned,
};

verus! {

/// Operating system of the host (the build target of this program).
#[derive(Debug, PartialEq, Eq, Structural, Clone, Copy)]
pub enum HostOs {
    Windows,
    Macos,
    Linux,
    Other,
}

/// Processor architecture of the host.
#[derive(Debug, PartialEq, Eq, Structural, Clone, Copy)]
pub enum HostCpu {
    X86_64,
    Aarch64,
    Other,
}

// ---------------------------------------------------------------------------
// Specifications
// ---------------------------------------------------------------------------

/// The canonical OS for a configured OS name (any ASCII case), if it is one
/// of the accepted names.
pub open spec fn os_canon(os: Seq<char>) -> Option<Seq<char>> {
    let l = lower(os);
    if l == "win"@ || l == "windows"@ {
        Some("windows"@)
    } else if l == "mac"@ || l == "osx"@ || l == "darwin"@ || l == "macos"@ {
        Some("macos"@)
    } else if l == "linux"@ {
        Some("linux"@)
    } else {
        None
    }
}

/// The arch-suffixed names that are rejected with a dedicated message.
pub open spec fn is_arch_suffixed_os(l: Seq<char>) -> bool {
    l == "win32"@ || l == "win64"@ || l == "mac32"@ || l == "mac64"@ || l == "linux32"@ || l
        == "linux64"@
}

/// The message for an OS name that is not accepted.
pub open spec fn os_error_message(os: Seq<char>) -> Seq<char> {
    let l = lower(os);
    if is_arch_suffixed_os(l) {
        "Invalid OS identifier '"@ + l + "'. Use only 'windows', 'macos', or 'linux'."@
    } else {
        "Unknown OS identifier '"@ + l + "'. Allowed: windows, macos, linux."@
    }
}

/// What `any` over the OS list of a dependency gives when it stops at the
/// first entry equal to the host: `None` when it meets an unaccepted entry
/// first (the project cannot be judged on this host then).
pub open spec fn os_scan(list: Seq<String>, host: Seq<char>) -> Option<bool>
    decreases list.len(),
{
    if list.len() == 0 {
        Some(false)
    } else {
        match os_canon(list[0]@) {
            None => None,
            Some(c) => if c == host {
                Some(true)
            } else {
                os_scan(list.drop_first(), host)
            },
        }
    }
}

/// `dep_is_active` can decide without aborting on a bad OS name.
pub open spec fn dep_active_defined(dep: DepSpec, name: Seq<char>, host_os: Seq<char>) -> bool {
    match dep {
        DepSpec::Detailed(d) => eq_ic(d.name@, name) ==> (os_canon(host_os) is Some && (d.os@.len()
            == 0 || os_scan(d.os@, os_canon(host_os).unwrap()) is Some)),
        _ => true,
    }
}

/// A dependency is active for a name, host OS and triplet: its name matches
/// (ignoring ASCII case) and, for a detailed dependency, its OS list is empty
/// or names the host and its triplet list is empty or names the triplet.
pub open spec fn spec_dep_is_active(dep: DepSpec, name: Seq<char>, host_os: Seq<char>, triplet: Seq<char>) -> bool {
    match dep {
        DepSpec::Simple(s) => eq_ic(s@, name),
        DepSpec::Git(g) => eq_ic(g.name@, name),
        DepSpec::Detailed(d) => {
            &&& eq_ic(d.name@, name)
            &&& (d.os@.len() == 0 || os_scan(d.os@, os_canon(host_os).unwrap()) == Some(true))
            &&& (d.triplet@.len() == 0 || exists|k: int|
                0 <= k < d.triplet@.len() && eq_ic(d.triplet@[k]@, triplet))
        },
    }
}

/// The host's default target architecture.
pub open spec fn spec_host_default_arch(os: HostOs, cpu: HostCpu) -> Seq<char> {
    match os {
        HostOs::Windows => match cpu {
            HostCpu::X86_64 => "x64"@,
            HostCpu::Aarch64 => "arm64"@,
            HostCpu::Other => "x86"@,
        },
        HostOs::Macos | HostOs::Linux => match cpu {
            HostCpu::Aarch64 => "arm64"@,
            _ => "x64"@,
        },
        HostOs::Other => "x64"@,
    }
}

/// The canonical architecture for a name (trimmed, any ASCII case).
pub open spec fn arch_canon(a: Seq<char>) -> Option<Seq<char>> {
    let l = lower(trim(a));
    if l == "x86"@ || l == "win32"@ || l == "i686"@ || l == "32"@ {
        Some("x86"@)
    } else if l == "x64"@ || l == "amd64"@ || l == "64"@ {
        Some("x64"@)
    } else if l == "arm64"@ || l == "aarch64"@ {
        Some("arm64"@)
    } else {
        None
    }
}

/// The vcpkg triplet for a canonical architecture on a host OS, or `None`
/// where the pair is unsupported (x86 on macOS).
pub open spec fn triplet_for(os: HostOs, arch: Seq<char>) -> Option<Seq<char>> {
    match os {
        HostOs::Windows => Some(arch + "-windows"@),
        HostOs::Macos => if arch == "x86"@ {
            None
        } else {
            Some(arch + "-osx"@)
        },
        _ => Some(arch + "-linux"@),
    }
}

/// The architecture label of a triplet.
pub open spec fn spec_arch_label(triplet: Seq<char>) -> Seq<char> {
    let l = lower(triplet);
    if starts_with(l, "x86-"@) {
        "x86"@
    } else if starts_with(l, "arm64-"@) {
        "arm64"@
    } else {
        "x64"@
    }
}

// ---------------------------------------------------------------------------
// Executable functions
// ---------------------------------------------------------------------------

/// Normalizes a configured OS name to `windows`, `macos` or `linux`, or gives
/// the message that rejects it.
pub fn normalize_os(os: &str) -> (res: Result<&'static str, String>)
    ensures
        match res {
            Ok(c) => os_canon(os@) == Some(c@),
            Err(m) => os_canon(os@) is None && m@ == os_error_message(os@),
        },
{
    let l = to_lower(os);
    let s = l.as_str();
    if str_eq(s, "win") || str_eq(s, "windows") {
        Ok("windows")
    } else if str_eq(s, "mac") || str_eq(s, "osx") || str_eq(s, "darwin") || str_eq(s, "macos") {
        Ok("macos")
    } else if str_eq(s, "linux") {
        Ok("linux")
    } else if str_eq(s, "win32") || str_eq(s, "win64") || str_eq(s, "mac32") || str_eq(s, "mac64")
        || str_eq(s, "linux32") || str_eq(s, "linux64") {
        Err(cat3("Invalid OS identifier '", s, "'. Use only 'windows', 'macos', or 'linux'."))
    } else {
        Err(cat3("Unknown OS identifier '", s, "'. Allowed: windows, macos, linux."))
    }
}

/// Whether a dependency is active for this host OS and triplet.
pub fn dep_is_active(dep: &DepSpec, name: &str, host_os: &str, triplet: &str) -> (res: bool)
    requires
        dep_active_defined(*dep, name@, host_os@),
    ensures
        res == spec_dep_is_active(*dep, name@, host_os@, triplet@),
{
    match dep {
        DepSpec::Simple(s) => eq_ignore_case(s.as_str(), name),
        DepSpec::Git(g) => eq_ignore_case(g.name.as_str(), name),
        DepSpec::Detailed(d) => {
            if !eq_ignore_case(d.name.as_str(), name) {
                return false;
            }
            let host_norm = match normalize_os(host_os) {
                Ok(h) => h,
                Err(_) => {
                    return false;
                },
            };
            let mut os_ok = d.os.len() == 0;
            if !os_ok {
                let mut k: usize = 0;
                let mut found = false;
                assert(d.os@.skip(0) =~= d.os@);
                while k < d.os.len() && !found
                    invariant
                        k <= d.os@.len(),
                        os_scan(d.os@, host_norm@) is Some,
                        found ==> os_scan(d.os@, host_norm@) == Some(true),
                        !found ==> os_scan(d.os@.skip(k as int), host_norm@) == os_scan(d.os@, host_norm@),
                    decreases d.os.len() - k,
                {
                    proof {
                        assert(d.os@.skip(k as int).drop_first() =~= d.os@.skip(k + 1));
                        assert(d.os@.skip(k as int)[0] == d.os@[k as int]);
                    }
                    match normalize_os(d.os[k].as_str()) {
                        Ok(c) => {
                            if str_eq(c, host_norm) {
                                found = true;
                            }
                        },
                        Err(_) => {
                            return false;
                        },
                    }
                    k += 1;
                }
                proof {
                    if !found {
                        assert(d.os@.skip(d.os@.len() as int) =~= Seq::<String>::empty());
                    }
                }
                os_ok = found;
            }
            let mut trip_ok = d.triplet.len() == 0;
            if !trip_ok {
                let mut k: usize = 0;
                while k < d.triplet.len() && !trip_ok
                    invariant
                        k <= d.triplet@.len(),
                        trip_ok ==> exists|m: int| 0 <= m < d.triplet@.len() && eq_ic(d.triplet@[m]@, triplet@),
                        !trip_ok ==> forall|m: int| 0 <= m < k ==> !eq_ic(d.triplet@[m]@, triplet@),
                    decreases d.triplet.len() - k,
                {
                    if eq_ignore_case(d.triplet[k].as_str(), triplet) {
                        trip_ok = true;
                    }
                    k += 1;
                }
            }
            os_ok && trip_ok
        },
    }
}

/// The host's default architecture.
pub fn host_default_arch(os: HostOs, cpu: HostCpu) -> (res: &'static str)
    ensures
        res@ == spec_host_default_arch(os, cpu),
{
    match os {
        HostOs::Windows => match cpu {
            HostCpu::X86_64 => "x64",
            HostCpu::Aarch64 => "arm64",
            HostCpu::Other => "x86",
        },
        HostOs::Macos | HostOs::Linux => match cpu {
            HostCpu::Aarch64 => "arm64",
            _ => "x64",
        },
        HostOs::Other => "x64",
    }
}

/// Normalizes a target architecture (the host's default when none is given)
/// to `x86`, `x64` or `arm64`, or gives the message that rejects it.
pub fn normalize_target_arch(arch: Option<&str>, os: HostOs, cpu: HostCpu) -> (res: Result<&'static str, String>)
    ensures
        ({
            let a = match arch {
                Some(a) => a@,
                None => spec_host_default_arch(os, cpu),
            };
            match res {
                Ok(c) => arch_canon(a) == Some(c@),
                Err(m) => arch_canon(a) is None && m@ == "Unsupported target architecture '"@
                    + lower(trim(a)) + "'. Allowed values: x86, x64, arm64."@,
            }
        }),
{
    let a = match arch {
        Some(a) => a,
        None => host_default_arch(os, cpu),
    };
    let t = trim_str(a);
    let l = to_lower(t.as_str());
    let s = l.as_str();
    if str_eq(s, "x86") || str_eq(s, "win32") || str_eq(s, "i686") || str_eq(s, "32") {
        Ok("x86")
    } else if str_eq(s, "x64") || str_eq(s, "amd64") || str_eq(s, "64") {
        Ok("x64")
    } else if str_eq(s, "arm64") || str_eq(s, "aarch64") {
        Ok("arm64")
    } else {
        Err(cat3("Unsupported target architecture '", s, "'. Allowed values: x86, x64, arm64."))
    }
}

/// The vcpkg triplet for an architecture on the host OS.
pub fn detect_vcpkg_triplet_for_arch(arch: &str, os: HostOs, cpu: HostCpu) -> (res: Result<String, String>)
    ensures
        match res {
            Ok(t) => exists|c: Seq<char>| arch_canon(arch@) == Some(c) && triplet_for(os, c) == Some(t@),
            Err(m) => {
                ||| arch_canon(arch@) is None && m@ == "Unsupported target architecture '"@
                    + lower(trim(arch@)) + "'. Allowed values: x86, x64, arm64."@
                ||| os == HostOs::Macos && arch_canon(arch@) == Some("x86"@)
                    && m@ == "x86 builds are not supported on macOS"@
            },
        },
{
    let a = match normalize_target_arch(Some(arch), os, cpu) {
        Ok(a) => a,
        Err(m) => {
            return Err(m);
        },
    };
    assert(arch_canon(arch@) == Some(a@));
    match os {
        HostOs::Windows => {
            let t = crate::text::concat2(a, "-windows");
            assert(triplet_for(os, a@) == Some(t@));
            Ok(t)
        },
        HostOs::Macos => {
            if str_eq(a, "x86") {
                Err(to_owned("x86 builds are not supported on macOS"))
            } else {
                let t = crate::text::concat2(a, "-osx");
                assert(triplet_for(os, a@) == Some(t@));
                Ok(t)
            }
        },
        _ => {
            let t = crate::text::concat2(a, "-linux");
            assert(triplet_for(os, a@) == Some(t@));
            Ok(t)
        },
    }
}

/// The vcpkg triplet for the host's default architecture.
pub fn detect_vcpkg_triplet(os: HostOs, cpu: HostCpu) -> (res: String)
    ensures
        triplet_for(os, spec_host_default_arch(os, cpu)) == Some(res@),
{
    let a = host_default_arch(os, cpu);
    proof {
        reveal_strlit("x64");
        reveal_strlit("x86");
        reveal_strlit("arm64");
        assert("x64"@ != "x86"@) by {
            assert("x64"@[1] != "x86"@[1]);
        }
        assert("arm64"@ != "x86"@) by {
            assert("arm64"@.len() != "x86"@.len());
        }
    }
    match os {
        HostOs::Windows => crate::text::concat2(a, "-windows"),
        HostOs::Macos => crate::text::concat2(a, "-osx"),
        _ => crate::text::concat2(a, "-linux"),
    }
}

/// The architecture label of a triplet: `x86`, `arm64`, else `x64`.
pub fn arch_label_for_triplet(triplet: &str) -> (res: &'static str)
    ensures
        res@ == spec_arch_label(triplet@),
{
    let l = to_lower(triplet);
    if str_starts_with(l.as_str(), "x86-") {
        "x86"
    } else if str_starts_with(l.as_str(), "arm64-") {
        "arm64"
    } else {
        "x64"
    }
}

/// The CMake generator platform for a triplet (Visual Studio generators on
/// Windows only).
pub fn cmake_generator_platform_for_triplet(triplet: &str, os: HostOs) -> (res: Option<&'static str>)
    ensures
        os != HostOs::Windows ==> res is None,
        os == HostOs::Windows ==> res is Some && res->0@ == (if spec_arch_label(triplet@) == "x86"@ {
            "Win32"@
        } else if spec_arch_label(triplet@) == "arm64"@ {
            "ARM64"@
        } else {
            "x64"@
        }),
{
    if os != HostOs::Windows {
        return None;
    }
    let label = arch_label_for_triplet(triplet);
    if str_eq(label, "x86") {
        Some("Win32")
    } else if str_eq(label, "arm64") {
        Some("ARM64")
    } else {
        Some("x64")
    }
}

} // verus!
