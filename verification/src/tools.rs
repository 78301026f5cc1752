//! Finding and installing Ninja: where it usually lies, which package
//! managers can install it, and the portable download (which archive, from
//! where, and the command that fetches and unpacks it). Running the
//! commands is the caller's part.

use vstd::prelude::*;
use crate::cmake::platform::HostOs;
use crate::text::{starts_with, ends_with, replace_all, to_owned, concat2, cat3, cat5, push_str, str_starts_with, str_ends_with, chars_of, string_from_range, replace_str, views, push_lit, push_line};

verus! {

/// The release archive of Ninja for a platform.
pub open spec fn spec_ninja_archive(os: HostOs) -> Seq<char> {
    match os {
        HostOs::Windows => "ninja-win.zip"@,
        HostOs::Macos => "ninja-mac.zip"@,
        _ => "ninja-linux.zip"@,
    }
}

/// The release archive of Ninja for a platform.
pub fn ninja_archive(os: HostOs) -> (res: &'static str)
    ensures
        res@ == spec_ninja_archive(os),
{
    match os {
        HostOs::Windows => "ninja-win.zip",
        HostOs::Macos => "ninja-mac.zip",
        _ => "ninja-linux.zip",
    }
}

/// Where the latest release archive of Ninja is downloaded from.
pub fn ninja_download_url(os: HostOs) -> (res: String)
    ensures
        res@ == "https://github.com/ninja-build/ninja/releases/latest/download/"@ + spec_ninja_archive(os),
{
    concat2("https://github.com/ninja-build/ninja/releases/latest/download/", ninja_archive(os))
}

/// The Ninja executable's file name.
pub fn ninja_bin_name(windows: bool) -> (res: &'static str)
    ensures
        res@ == if windows { "ninja.exe"@ } else { "ninja"@ },
{
    if windows {
        "ninja.exe"
    } else {
        "ninja"
    }
}

/// The shell command that downloads the archive and unpacks it.
pub fn posix_fetch_command(url: &str, zip: &str, dst: &str) -> (res: String)
    ensures
        res@ == "curl -L '"@ + url@ + "' -o '"@ + zip@ + "' && unzip -o '"@ + zip@ + "' -d '"@ + dst@ + "'"@,
{
    let mut s = cat5("curl -L '", url, "' -o '", zip, "' && unzip -o '");
    push_str(&mut s, zip);
    push_str(&mut s, "' -d '");
    push_str(&mut s, dst);
    push_str(&mut s, "'");
    s
}

/// A Windows path as PowerShell takes it inside the script: without a
/// leading `\\?\`, with each `\` doubled.
pub open spec fn spec_ps_path(p: Seq<char>) -> Seq<char> {
    let t = if starts_with(p, "\\\\?\\"@) { p.skip(4) } else { p };
    replace_all(t, "\\"@, "\\\\"@)
}

/// A Windows path for the PowerShell script (see `spec_ps_path`).
pub fn ps_path(p: &str) -> (res: String)
    ensures
        res@ == spec_ps_path(p@),
{
    proof {
        reveal_strlit("\\\\?\\");
        reveal_strlit("\\");
    }
    let t = if str_starts_with(p, "\\\\?\\") {
        let v = chars_of(p);
        let r = string_from_range(&v, 4, v.len());
        assert(r@ =~= p@.skip(4));
        r
    } else {
        to_owned(p)
    };
    replace_str(t.as_str(), "\\", "\\\\")
}

/// The PowerShell script that downloads the archive and unpacks it.
pub fn powershell_fetch_script(url: &str, zip: &str, dst: &str) -> (res: String)
    ensures
        res@ == "\n$ProgressPreference = 'SilentlyContinue';\nInvoke-WebRequest -Uri '"@ + url@ + "' -OutFile '"@ + zip@
            + "';\nExpand-Archive -Path '"@ + zip@ + "' -DestinationPath '"@ + dst@ + "' -Force;\n"@,
{
    let mut s = cat5("\n$ProgressPreference = 'SilentlyContinue';\nInvoke-WebRequest -Uri '", url, "' -OutFile '", zip, "';\nExpand-Archive -Path '");
    push_str(&mut s, zip);
    push_str(&mut s, "' -DestinationPath '");
    push_str(&mut s, dst);
    push_str(&mut s, "' -Force;\n");
    s
}


// ---------------------------------------------------------------------------
// Where Ninja usually lies
// ---------------------------------------------------------------------------

/// A Windows path `b` under the directory `a`.
pub open spec fn win_join(a: Seq<char>, b: Seq<char>) -> Seq<char> {
    if ends_with(a, "\\"@) || ends_with(a, "/"@) { a + b } else { a + "\\"@ + b }
}

fn win_join_exec(a: &str, b: &str) -> (res: String)
    ensures
        res@ == win_join(a@, b@),
{
    if str_ends_with(a, "\\") || str_ends_with(a, "/") {
        concat2(a, b)
    } else {
        cat3(a, "\\", b)
    }
}

/// The directories where package managers put Ninja on a platform: on
/// Windows those of WinGet (under `%LOCALAPPDATA%`), Chocolatey, Scoop
/// (under `%USERPROFILE%`), Git for Windows (under `%ProgramFiles%`) and a
/// plain install, each that needs a variable only when it is set.
pub open spec fn spec_known_ninja_dirs(
    os: HostOs,
    local_app_data: Option<Seq<char>>,
    user_profile: Option<Seq<char>>,
    program_files: Option<Seq<char>>,
) -> Seq<Seq<char>> {
    match os {
        HostOs::Windows => (match local_app_data {
            Some(l) => seq![win_join(l, "Microsoft\\WinGet\\Links"@)],
            None => Seq::empty(),
        }) + seq!["C:\\ProgramData\\chocolatey\\bin"@] + (match user_profile {
            Some(h) => seq![win_join(h, "scoop\\shims"@), win_join(h, "scoop\\apps\\ninja\\current"@)],
            None => Seq::empty(),
        }) + (match program_files {
            Some(p) => seq![win_join(p, "Git\\usr\\bin"@)],
            None => Seq::empty(),
        }) + seq!["C:\\Program Files\\Ninja"@],
        HostOs::Macos => seq!["/opt/homebrew/bin"@, "/usr/local/bin"@],
        _ => seq!["/usr/bin"@, "/usr/local/bin"@],
    }
}

/// See `spec_known_ninja_dirs`.
pub fn known_ninja_dirs(
    os: HostOs,
    local_app_data: Option<&str>,
    user_profile: Option<&str>,
    program_files: Option<&str>,
) -> (res: Vec<String>)
    ensures
        views(res@) == spec_known_ninja_dirs(
            os,
            match local_app_data { Some(t) => Some(t@), None => None },
            match user_profile { Some(t) => Some(t@), None => None },
            match program_files { Some(t) => Some(t@), None => None },
        ),
{
    let mut v: Vec<String> = Vec::new();
    match os {
        HostOs::Windows => {
            match local_app_data {
                Some(l) => push_line(&mut v, win_join_exec(l, "Microsoft\\WinGet\\Links")),
                None => {},
            }
            push_lit(&mut v, "C:\\ProgramData\\chocolatey\\bin");
            match user_profile {
                Some(h) => {
                    push_line(&mut v, win_join_exec(h, "scoop\\shims"));
                    push_line(&mut v, win_join_exec(h, "scoop\\apps\\ninja\\current"));
                },
                None => {},
            }
            match program_files {
                Some(p) => push_line(&mut v, win_join_exec(p, "Git\\usr\\bin")),
                None => {},
            }
            push_lit(&mut v, "C:\\Program Files\\Ninja");
            assert(views(v@) =~= spec_known_ninja_dirs(
                os,
                match local_app_data { Some(t) => Some(t@), None => None },
                match user_profile { Some(t) => Some(t@), None => None },
                match program_files { Some(t) => Some(t@), None => None },
            ));
        },
        HostOs::Macos => {
            push_lit(&mut v, "/opt/homebrew/bin");
            push_lit(&mut v, "/usr/local/bin");
            assert(views(v@) =~= seq!["/opt/homebrew/bin"@, "/usr/local/bin"@]);
        },
        _ => {
            push_lit(&mut v, "/usr/bin");
            push_lit(&mut v, "/usr/local/bin");
            assert(views(v@) =~= seq!["/usr/bin"@, "/usr/local/bin"@]);
        },
    }
    v
}

// ---------------------------------------------------------------------------
// Installing Ninja with a package manager
// ---------------------------------------------------------------------------

/// A package manager that can install Ninja.
#[derive(Debug, PartialEq, Eq, Structural, Clone, Copy)]
pub enum NinjaManager {
    Winget,
    Choco,
    Scoop,
    Brew,
    AptGet,
    Dnf,
    Pacman,
    Zypper,
}

/// The package managers tried on a platform, in order; the first one
/// present installs Ninja.
pub open spec fn spec_ninja_managers(os: HostOs) -> Seq<NinjaManager> {
    match os {
        HostOs::Windows => seq![NinjaManager::Winget, NinjaManager::Choco, NinjaManager::Scoop],
        HostOs::Macos => seq![NinjaManager::Brew],
        _ => seq![NinjaManager::AptGet, NinjaManager::Dnf, NinjaManager::Pacman, NinjaManager::Zypper],
    }
}

/// See `spec_ninja_managers`.
pub fn ninja_managers(os: HostOs) -> (res: Vec<NinjaManager>)
    ensures
        res@ == spec_ninja_managers(os),
{
    let mut v: Vec<NinjaManager> = Vec::new();
    match os {
        HostOs::Windows => {
            v.push(NinjaManager::Winget);
            v.push(NinjaManager::Choco);
            v.push(NinjaManager::Scoop);
        },
        HostOs::Macos => {
            v.push(NinjaManager::Brew);
        },
        _ => {
            v.push(NinjaManager::AptGet);
            v.push(NinjaManager::Dnf);
            v.push(NinjaManager::Pacman);
            v.push(NinjaManager::Zypper);
        },
    }
    assert(v@ =~= spec_ninja_managers(os));
    v
}

/// The program that tells whether a package manager is present, and the
/// argument it is run with.
pub fn ninja_manager_probe(m: NinjaManager) -> (res: (&'static str, &'static str))
    ensures
        (res.0@, res.1@) == match m {
            NinjaManager::Winget => ("winget"@, "--version"@),
            NinjaManager::Choco => ("choco"@, "--version"@),
            NinjaManager::Scoop => ("scoop"@, "--version"@),
            NinjaManager::Brew => ("brew"@, "--version"@),
            NinjaManager::AptGet => ("apt-get"@, "--version"@),
            NinjaManager::Dnf => ("dnf"@, "--version"@),
            NinjaManager::Pacman => ("pacman"@, "-V"@),
            NinjaManager::Zypper => ("zypper"@, "--version"@),
        },
{
    match m {
        NinjaManager::Winget => ("winget", "--version"),
        NinjaManager::Choco => ("choco", "--version"),
        NinjaManager::Scoop => ("scoop", "--version"),
        NinjaManager::Brew => ("brew", "--version"),
        NinjaManager::AptGet => ("apt-get", "--version"),
        NinjaManager::Dnf => ("dnf", "--version"),
        NinjaManager::Pacman => ("pacman", "-V"),
        NinjaManager::Zypper => ("zypper", "--version"),
    }
}

/// The command that installs Ninja with a package manager: the program and
/// its arguments (on Linux through `sudo`, for APT both the index update and
/// the install in one `bash -lc` line).
pub open spec fn spec_ninja_install_command(m: NinjaManager) -> (Seq<char>, Seq<Seq<char>>) {
    match m {
        NinjaManager::Winget => ("winget"@, seq!["install"@, "-e"@, "--id"@, "Ninja-build.Ninja"@]),
        NinjaManager::Choco => ("choco"@, seq!["install"@, "-y"@, "ninja"@]),
        NinjaManager::Scoop => ("scoop"@, seq!["install"@, "ninja"@]),
        NinjaManager::Brew => ("brew"@, seq!["install"@, "ninja"@]),
        NinjaManager::AptGet => ("bash"@, seq!["-lc"@, "sudo apt-get update && sudo apt-get install -y ninja-build"@]),
        NinjaManager::Dnf => ("sudo"@, seq!["dnf"@, "install"@, "-y"@, "ninja-build"@]),
        NinjaManager::Pacman => ("sudo"@, seq!["pacman"@, "-S"@, "--noconfirm"@, "ninja"@]),
        NinjaManager::Zypper => ("sudo"@, seq!["zypper"@, "install"@, "-y"@, "ninja"@]),
    }
}

fn words(ws: &[&str]) -> (res: Vec<String>)
    ensures
        res@.len() == ws@.len(),
        forall|i: int| 0 <= i < ws@.len() ==> #[trigger] res@[i]@ == ws@[i]@,
{
    let mut v: Vec<String> = Vec::new();
    let mut i: usize = 0;
    while i < ws.len()
        invariant
            i <= ws@.len(),
            v@.len() == i,
            forall|j: int| 0 <= j < i ==> #[trigger] v@[j]@ == ws@[j]@,
        decreases ws.len() - i,
    {
        v.push(to_owned(ws[i]));
        i += 1;
    }
    v
}

/// See `spec_ninja_install_command`.
pub fn ninja_install_command(m: NinjaManager) -> (res: (String, Vec<String>))
    ensures
        (res.0@, views(res.1@)) == spec_ninja_install_command(m),
{
    let (p, a): (&str, Vec<String>) = match m {
        NinjaManager::Winget => ("winget", words(&["install", "-e", "--id", "Ninja-build.Ninja"])),
        NinjaManager::Choco => ("choco", words(&["install", "-y", "ninja"])),
        NinjaManager::Scoop => ("scoop", words(&["install", "ninja"])),
        NinjaManager::Brew => ("brew", words(&["install", "ninja"])),
        NinjaManager::AptGet => ("bash", words(&["-lc", "sudo apt-get update && sudo apt-get install -y ninja-build"])),
        NinjaManager::Dnf => ("sudo", words(&["dnf", "install", "-y", "ninja-build"])),
        NinjaManager::Pacman => ("sudo", words(&["pacman", "-S", "--noconfirm", "ninja"])),
        NinjaManager::Zypper => ("sudo", words(&["zypper", "install", "-y", "ninja"])),
    };
    assert(views(a@) =~= spec_ninja_install_command(m).1);
    (to_owned(p), a)
}

} // verus!
