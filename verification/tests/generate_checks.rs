use triton::cmake::{
    dep_is_active, detect_vcpkg_triplet, effective_cmake_version, parse_cmake_version, HostCpu,
    HostOs, MIN_CMAKE_VERSION,
};
use triton::models::{DepDetailed, DepSpec, GitDep};

fn detailed(name: &str, os: &[&str], triplet: &[&str]) -> DepSpec {
    DepSpec::Detailed(DepDetailed {
        name: name.into(),
        os: os.iter().map(|s| s.to_string()).collect(),
        package: None,
        triplet: triplet.iter().map(|s| s.to_string()).collect(),
        features: vec![],
    })
}

// parse_cmake_version

#[test]
fn parse_cmake_version_full() {
    assert_eq!(parse_cmake_version("3.30.1"), (3, 30, 1));
}

#[test]
fn parse_cmake_version_major_minor() {
    assert_eq!(parse_cmake_version("3.30"), (3, 30, 0));
}

#[test]
fn parse_cmake_version_major_only() {
    assert_eq!(parse_cmake_version("3"), (3, 0, 0));
}

#[test]
fn parse_cmake_version_empty() {
    assert_eq!(parse_cmake_version(""), (0, 0, 0));
}

#[test]
fn parse_cmake_version_large_numbers() {
    assert_eq!(parse_cmake_version("12.345.678"), (12, 345, 678));
}

#[test]
fn parse_cmake_version_non_numeric_parts() {
    assert_eq!(parse_cmake_version("abc.def.ghi"), (0, 0, 0));
}

#[test]
fn parse_cmake_version_trailing_dots() {
    assert_eq!(parse_cmake_version("3.30."), (3, 30, 0));
}

#[test]
fn min_cmake_version_is_valid() {
    let (maj, min, pat) = parse_cmake_version(MIN_CMAKE_VERSION);
    assert!(maj >= 3, "MIN_CMAKE_VERSION major should be >= 3");
    assert!(min > 0 || pat > 0, "MIN_CMAKE_VERSION should have nonzero minor or patch");
}

#[test]
fn effective_cmake_version_at_least_minimum() {
    let min = parse_cmake_version(MIN_CMAKE_VERSION);
    for sys in [None, Some("3.20.0"), Some("3.31.2"), Some("4.0")] {
        let eff = effective_cmake_version(sys);
        assert!(eff >= min, "effective_cmake_version should be >= MIN_CMAKE_VERSION");
    }
    assert_eq!(effective_cmake_version(Some("3.31.2")), (3, 31, 2));
    assert_eq!(effective_cmake_version(Some("3.20.0")), min);
    assert_eq!(effective_cmake_version(None), min);
}

#[test]
fn detect_vcpkg_triplet_returns_nonempty() {
    for os in [HostOs::Windows, HostOs::Macos, HostOs::Linux] {
        for cpu in [HostCpu::X86_64, HostCpu::Aarch64, HostCpu::Other] {
            let triplet = detect_vcpkg_triplet(os, cpu);
            assert!(!triplet.is_empty());
            assert!(
                triplet.contains("windows") || triplet.contains("linux") || triplet.contains("osx"),
                "triplet should contain a platform identifier, got: {}",
                triplet
            );
        }
    }
    assert_eq!(detect_vcpkg_triplet(HostOs::Windows, HostCpu::X86_64), "x64-windows");
    assert_eq!(detect_vcpkg_triplet(HostOs::Macos, HostCpu::Aarch64), "arm64-osx");
    assert_eq!(detect_vcpkg_triplet(HostOs::Linux, HostCpu::X86_64), "x64-linux");
}

// dep_is_active

#[test]
fn dep_is_active_simple_matches_name() {
    let dep = DepSpec::Simple("glm".into());
    assert!(dep_is_active(&dep, "glm", "windows", "x64-windows"));
}

#[test]
fn dep_is_active_simple_case_insensitive() {
    let dep = DepSpec::Simple("GLM".into());
    assert!(dep_is_active(&dep, "glm", "windows", "x64-windows"));
}

#[test]
fn dep_is_active_simple_no_match() {
    let dep = DepSpec::Simple("glm".into());
    assert!(!dep_is_active(&dep, "sdl2", "windows", "x64-windows"));
}

#[test]
fn dep_is_active_detailed_no_filters() {
    let dep = detailed("sdl2", &[], &[]);
    assert!(dep_is_active(&dep, "sdl2", "windows", "x64-windows"));
    assert!(dep_is_active(&dep, "sdl2", "linux", "x64-linux"));
}

#[test]
fn dep_is_active_detailed_windows_only() {
    let dep = detailed("d3d12", &["windows"], &[]);
    assert!(dep_is_active(&dep, "d3d12", "windows", "x64-windows"));
    assert!(!dep_is_active(&dep, "d3d12", "linux", "x64-linux"));
    assert!(!dep_is_active(&dep, "d3d12", "macos", "arm64-osx"));
}

#[test]
fn dep_is_active_detailed_linux_only() {
    let dep = detailed("x11", &["linux"], &[]);
    assert!(!dep_is_active(&dep, "x11", "windows", "x64-windows"));
    assert!(dep_is_active(&dep, "x11", "linux", "x64-linux"));
}

#[test]
fn dep_is_active_detailed_macos_aliases() {
    for alias in &["mac", "osx", "darwin", "macos"] {
        let dep = detailed("metal", &[alias], &[]);
        assert!(
            dep_is_active(&dep, "metal", "macos", "arm64-osx"),
            "alias '{}' should match macos",
            alias
        );
    }
}

#[test]
fn dep_is_active_detailed_windows_alias_win() {
    let dep = detailed("dx", &["win"], &[]);
    assert!(dep_is_active(&dep, "dx", "windows", "x64-windows"));
}

#[test]
fn dep_is_active_detailed_triplet_filter() {
    let dep = detailed("sdl2", &[], &["x64-windows"]);
    assert!(dep_is_active(&dep, "sdl2", "windows", "x64-windows"));
    assert!(!dep_is_active(&dep, "sdl2", "windows", "arm64-windows"));
}

#[test]
fn dep_is_active_detailed_triplet_case_insensitive() {
    let dep = detailed("sdl2", &[], &["X64-WINDOWS"]);
    assert!(dep_is_active(&dep, "sdl2", "windows", "x64-windows"));
}

#[test]
fn dep_is_active_detailed_os_and_triplet_combined() {
    let dep = detailed("vulkan", &["windows"], &["x64-windows"]);
    assert!(dep_is_active(&dep, "vulkan", "windows", "x64-windows"));
    assert!(!dep_is_active(&dep, "vulkan", "windows", "arm64-windows"));
    assert!(!dep_is_active(&dep, "vulkan", "linux", "x64-windows"));
    assert!(!dep_is_active(&dep, "vulkan", "linux", "x64-linux"));
}

#[test]
fn dep_is_active_detailed_multiple_os() {
    let dep = detailed("vulkan", &["windows", "linux"], &[]);
    assert!(dep_is_active(&dep, "vulkan", "windows", "x64-windows"));
    assert!(dep_is_active(&dep, "vulkan", "linux", "x64-linux"));
    assert!(!dep_is_active(&dep, "vulkan", "macos", "arm64-osx"));
}

#[test]
fn dep_is_active_detailed_wrong_name() {
    let dep = detailed("sdl2", &[], &[]);
    assert!(!dep_is_active(&dep, "glm", "windows", "x64-windows"));
}

#[test]
fn dep_is_active_detailed_name_case_insensitive() {
    let dep = detailed("SDL2", &[], &[]);
    assert!(dep_is_active(&dep, "sdl2", "windows", "x64-windows"));
}

#[test]
fn dep_is_active_git_dep() {
    let dep = DepSpec::Git(GitDep {
        repo: "google/filament".into(),
        name: "filament".into(),
        branch: None,
        cmake: vec![],
    });
    assert!(dep_is_active(&dep, "filament", "windows", "x64-windows"));
    assert!(!dep_is_active(&dep, "other", "windows", "x64-windows"));
}

#[test]
fn dep_is_active_git_dep_case_insensitive() {
    let dep = DepSpec::Git(GitDep {
        repo: "google/filament".into(),
        name: "Filament".into(),
        branch: None,
        cmake: vec![],
    });
    assert!(dep_is_active(&dep, "filament", "windows", "x64-windows"));
}

#[test]
fn written_versions_read_back() {
    for (a, b, c) in [(0u32, 0u32, 0u32), (3, 30, 1), (4294967295, 7, 10), (12, 0, 99)] {
        assert_eq!(parse_cmake_version(&format!("{a}.{b}.{c}")), (a, b, c));
        assert_eq!(parse_cmake_version(&format!("{a}.{b}.{c}.rc1")), (a, b, c));
        assert_eq!(parse_cmake_version(&format!("{a}.{b}.{c}.")), (a, b, c));
    }
}
