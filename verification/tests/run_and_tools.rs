use triton::commands::cmake_install::{
    installer_label, installer_missing_message, installer_name, uninstall_command, uninstallers_for, Installer,
};
use triton::cmake::HostOs;
use triton::cmake::platform::{detect_vcpkg_triplet_for_arch, host_default_arch, normalize_target_arch, HostCpu};
use triton::tools::{known_ninja_dirs, ninja_install_command, ninja_manager_probe, ninja_managers, NinjaManager};
use triton::cli::parse_unlink_edge;
use triton::commands::build_cmd::{
    build_tree_has_target, install_state_fresh, msvc_batch_text, msvc_cl_relative,
};
use triton::commands::run::{
    is_source_extension, prepend_missing, run_needs_build, runtime_search_dirs,
};

fn strings(v: &[&str]) -> Vec<String> {
    v.iter().map(|s| s.to_string()).collect()
}

#[test]
fn runtime_dirs_for_debug_include_debug_binaries() {
    let dirs = runtime_search_dirs("/p/build/x64/debug", "x64-linux", "debug", "/p/build/x64/debug/App");
    assert_eq!(
        dirs,
        strings(&[
            "/p/build/x64/debug/App",
            "/p/build/x64/debug/vcpkg_installed/x64-linux/debug/bin",
            "/p/build/x64/debug/vcpkg_installed/x64-linux/bin",
        ])
    );
}

#[test]
fn runtime_dirs_for_release_skip_debug_binaries() {
    let dirs = runtime_search_dirs("/p/build/x64/release/", "x64-linux", "release", "/e");
    assert_eq!(dirs, strings(&["/e", "/p/build/x64/release/vcpkg_installed/x64-linux/bin"]));
}

#[test]
fn prepend_missing_puts_new_dirs_first_in_order() {
    let parts = strings(&["/usr/bin", "/bin"]);
    let dirs = strings(&["/a", "/bin", "/b"]);
    assert_eq!(prepend_missing(&parts, &dirs), strings(&["/a", "/b", "/usr/bin", "/bin"]));
}

#[test]
fn prepend_missing_keeps_path_when_all_present() {
    let parts = strings(&["/a", "/b"]);
    assert_eq!(prepend_missing(&parts, &strings(&["/b", "/a"])), parts);
    assert_eq!(prepend_missing(&parts, &vec![]), parts);
}

#[test]
fn run_builds_when_inputs_are_newer_or_nothing_is_built() {
    assert!(run_needs_build(false, Some(10), 5));
    assert!(run_needs_build(true, None, 5));
    assert!(run_needs_build(true, Some(10), 11));
    assert!(!run_needs_build(true, Some(10), 10));
    assert!(!run_needs_build(true, Some(10), 3));
}

#[test]
fn source_extensions_ignore_case() {
    assert!(is_source_extension("cpp"));
    assert!(is_source_extension("HPP"));
    assert!(is_source_extension("ixx"));
    assert!(!is_source_extension("txt"));
    assert!(!is_source_extension("cppx"));
}

#[test]
fn install_state_is_fresh_only_with_a_newer_stamp() {
    assert!(!install_state_fresh(None, &vec![Some(1)]));
    assert!(install_state_fresh(Some(10), &vec![Some(10), None, Some(3)]));
    assert!(!install_state_fresh(Some(10), &vec![Some(3), Some(11)]));
    assert!(install_state_fresh(Some(0), &vec![]));
}

#[test]
fn build_tree_target_is_found_in_the_ninja_file() {
    assert!(build_tree_has_target(Some("build App: phony"), "App"));
    assert!(!build_tree_has_target(Some("build Core: phony"), "App"));
    assert!(!build_tree_has_target(None, "App"));
}

#[test]
fn msvc_compiler_path_follows_the_target() {
    assert_eq!(msvc_cl_relative("x86"), "bin\\Hostx64\\x86\\cl.exe");
    assert_eq!(msvc_cl_relative("arm64"), "bin\\Hostx64\\arm64\\cl.exe");
    assert_eq!(msvc_cl_relative("x64"), "bin\\Hostx64\\x64\\cl.exe");
}

#[test]
fn msvc_batch_loads_the_environment_and_stops_on_failure() {
    let text = msvc_batch_text("C:\\VS\\VsDevCmd.bat", "x64", Some("C:\\ninja"), &strings(&["cmake --build"]));
    let expected = "@echo off\r\nsetlocal\r\n\
set PATH=%SystemRoot%\\System32;%SystemRoot%;%SystemRoot%\\System32\\Wbem;%SystemRoot%\\System32\\WindowsPowerShell\\v1.0;%PATH%\r\n\
call \"C:\\VS\\VsDevCmd.bat\" -arch=x64\r\n\
set PATH=C:\\ninja;%PATH%\r\n\
set CC=\r\nset CXX=\r\n\
cmake --build\r\nif errorlevel 1 exit /b %errorlevel%\r\n\
endlocal\r\n";
    assert_eq!(text, expected);
    let bare = msvc_batch_text("v.bat", "x86", None, &vec![]);
    assert!(!bare.contains("set PATH=v"));
    assert!(bare.ends_with("set CC=\r\nset CXX=\r\nendlocal\r\n"));
}

#[test]
fn unlink_edge_reads_pairs_and_single_names() {
    assert_eq!(parse_unlink_edge("sdl2:Game", None).unwrap(), ("sdl2".to_string(), Some("Game".to_string())));
    assert_eq!(parse_unlink_edge("sdl2", Some("Game")).unwrap(), ("sdl2".to_string(), Some("Game".to_string())));
    assert_eq!(parse_unlink_edge(" sdl2 ", None).unwrap(), ("sdl2".to_string(), None));
    assert!(parse_unlink_edge("sdl2:", None).is_err());
    assert!(parse_unlink_edge("  ", None).is_err());
}

#[test]
fn ninja_dirs_follow_the_platform() {
    assert_eq!(known_ninja_dirs(HostOs::Linux, None, None, None), strings(&["/usr/bin", "/usr/local/bin"]));
    assert_eq!(known_ninja_dirs(HostOs::Macos, Some("x"), None, None), strings(&["/opt/homebrew/bin", "/usr/local/bin"]));
    assert_eq!(
        known_ninja_dirs(HostOs::Windows, Some("C:\\L"), Some("C:\\U\\"), None),
        strings(&[
            "C:\\L\\Microsoft\\WinGet\\Links",
            "C:\\ProgramData\\chocolatey\\bin",
            "C:\\U\\scoop\\shims",
            "C:\\U\\scoop\\apps\\ninja\\current",
            "C:\\Program Files\\Ninja",
        ])
    );
}

#[test]
fn ninja_package_managers_and_commands() {
    assert_eq!(ninja_managers(HostOs::Macos), vec![NinjaManager::Brew]);
    assert_eq!(
        ninja_managers(HostOs::Linux),
        vec![NinjaManager::AptGet, NinjaManager::Dnf, NinjaManager::Pacman, NinjaManager::Zypper]
    );
    assert_eq!(ninja_manager_probe(NinjaManager::Pacman), ("pacman", "-V"));
    assert_eq!(
        ninja_install_command(NinjaManager::Winget),
        ("winget".to_string(), strings(&["install", "-e", "--id", "Ninja-build.Ninja"]))
    );
    assert_eq!(
        ninja_install_command(NinjaManager::AptGet),
        ("bash".to_string(), strings(&["-lc", "sudo apt-get update && sudo apt-get install -y ninja-build"]))
    );
}

#[test]
fn cmake_removal_commands_follow_the_platform() {
    let mac = uninstallers_for(HostOs::Macos);
    assert_eq!(mac.len(), 2);
    assert_eq!(installer_name(mac[1]), "macports");
    let apt = uninstall_command(Installer::Apt, false);
    assert_eq!(apt.program, "apt");
    assert_eq!(apt.args, strings(&["remove", "-y", "cmake"]));
    assert!(apt.sudo);
    let winget = uninstall_command(Installer::Winget, true);
    assert_eq!(winget.args, strings(&["uninstall", "--id", "Kitware.CMake", "-e"]));
    assert!(!winget.sudo);
    assert_eq!(installer_label(Installer::Apk), "Alpine APK (cmake)");
    assert_eq!(installer_missing_message(Installer::Brew), "Homebrew not found");
    assert_eq!(installer_missing_message(Installer::Dnf), "dnf not found");
}

#[test]
fn triplet_for_arch_follows_the_host() {
    assert_eq!(detect_vcpkg_triplet_for_arch("amd64", HostOs::Linux, HostCpu::X86_64), Ok("x64-linux".to_string()));
    assert_eq!(detect_vcpkg_triplet_for_arch("aarch64", HostOs::Macos, HostCpu::Aarch64), Ok("arm64-osx".to_string()));
    assert_eq!(detect_vcpkg_triplet_for_arch("Win32", HostOs::Windows, HostCpu::X86_64), Ok("x86-windows".to_string()));
    assert_eq!(
        detect_vcpkg_triplet_for_arch("x86", HostOs::Macos, HostCpu::X86_64),
        Err("x86 builds are not supported on macOS".to_string())
    );
    let err = detect_vcpkg_triplet_for_arch(" MIPS ", HostOs::Linux, HostCpu::X86_64).unwrap_err();
    assert_eq!(err, "Unsupported target architecture 'mips'. Allowed values: x86, x64, arm64.");
    assert_eq!(Err(err), normalize_target_arch(Some(" MIPS "), HostOs::Linux, HostCpu::X86_64).map(|a| a.to_string()));
}

#[test]
fn default_arch_of_an_unknown_os_is_x64() {
    assert_eq!(host_default_arch(HostOs::Other, HostCpu::Aarch64), "x64");
    assert_eq!(host_default_arch(HostOs::Other, HostCpu::Other), "x64");
    assert_eq!(host_default_arch(HostOs::Linux, HostCpu::Aarch64), "arm64");
    assert_eq!(host_default_arch(HostOs::Macos, HostCpu::Aarch64), "arm64");
    assert_eq!(host_default_arch(HostOs::Windows, HostCpu::Other), "x86");
}
