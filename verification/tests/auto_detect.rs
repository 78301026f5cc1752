use triton::commands::install::find_target_advice;
use triton::models::{DepSpec, LinkEntry, TritonComponent, TritonRoot};
use triton::util::validation::{detect_cycles, validate_triton_root, ValidationError};
use triton::util::vcpkg::{discover_cmake_targets, match_dep_to_packages};
use triton::commands::install::find_target_report;

/// The packages of a share directory holding a `<Pkg>Config.cmake` each.
fn fake_share(packages: &[&str]) -> Vec<(String, String)> {
    packages
        .iter()
        .map(|p| (p.to_string(), format!("vcpkg/installed/x64-windows/share/{p}/{p}Config.cmake")))
        .collect()
}

fn make_root_with(deps: Vec<DepSpec>, components: Vec<(&str, TritonComponent)>) -> TritonRoot {
    let mut comps: Vec<(String, TritonComponent)> =
        components.into_iter().map(|(n, c)| (n.to_string(), c)).collect();
    comps.sort_by(|a, b| a.0.cmp(&b.0));
    TritonRoot {
        app_name: "demo".into(),
        generator: "Ninja".into(),
        cxx_std: "20".into(),
        c_std: None,
        deps,
        components: comps,
        scripts: vec![],
    }
}

fn lib(links: &[&str]) -> TritonComponent {
    TritonComponent {
        kind: "lib".into(),
        link: links.iter().map(|l| LinkEntry::Name(l.to_string())).collect(),
        ..Default::default()
    }
}

// match_dep_to_packages

#[test]
fn match_exact_case_insensitive() {
    let all = fake_share(&["DirectXTex", "SDL2"]);
    let matches = match_dep_to_packages("directxtex", &all);
    assert_eq!(matches.len(), 1);
    assert_eq!(matches[0].0, "DirectXTex");
}

#[test]
fn match_hyphen_underscore_normalized() {
    let all = fake_share(&["SDL2_mixer", "SDL2"]);
    let matches = match_dep_to_packages("sdl2-mixer", &all);
    assert!(!matches.is_empty());
    assert_eq!(matches[0].0, "SDL2_mixer", "exact normalized match should be first");
}

#[test]
fn match_returns_multiple_when_ambiguous() {
    let all = fake_share(&["SDL2", "SDL2_mixer", "SDL2_image", "SDL2_ttf"]);
    let matches = match_dep_to_packages("sdl2", &all);
    assert!(matches.len() >= 2, "should find multiple matches for 'sdl2'");
    assert_eq!(matches[0].0, "SDL2");
}

#[test]
fn match_returns_empty_for_unknown() {
    let all = fake_share(&["SDL2", "glm"]);
    let matches = match_dep_to_packages("boost", &all);
    assert!(matches.is_empty());
}

// find-target: matching, then the advice for a single match

#[test]
fn find_target_single_match() {
    let all = fake_share(&["OpenAL"]);
    let matches = match_dep_to_packages("openal-soft", &all);
    assert_eq!(matches.len(), 1);
    let advice = find_target_advice("openal-soft", &matches[0].0, &Vec::new());
    assert_eq!(
        advice,
        "Use in triton.json:\n  { \"name\": \"openal-soft\", \"package\": \"OpenAL\" }"
    );
}

#[test]
fn find_target_multiple_matches() {
    let all = fake_share(&["SDL2", "SDL2_mixer", "SDL2_image"]);
    let matches = match_dep_to_packages("sdl2", &all);
    let names: Vec<&str> = matches.iter().map(|m| m.0.as_str()).collect();
    assert_eq!(names, vec!["SDL2", "SDL2_mixer", "SDL2_image"]);
}

#[test]
fn find_target_no_match() {
    let all = fake_share(&["SDL2"]);
    assert!(match_dep_to_packages("nonexistent", &all).is_empty());
}

#[test]
fn find_target_no_share_dir() {
    let all: Vec<(String, String)> = Vec::new();
    assert!(match_dep_to_packages("anything", &all).is_empty());
}

#[test]
fn find_target_case_insensitive() {
    let all = fake_share(&["DirectXTex"]);
    let matches = match_dep_to_packages("directxtex", &all);
    assert_eq!(matches.len(), 1);
    let targets = discover_cmake_targets(&vec![(
        "DirectXTex-targets.cmake".to_string(),
        "add_library(Microsoft::DirectXTex SHARED IMPORTED)\n".to_string(),
    )]);
    assert_eq!(targets, vec!["Microsoft::DirectXTex"]);
    let advice = find_target_advice("directxtex", &matches[0].0, &targets);
    assert_eq!(
        advice,
        "Use in triton.json:\n  { \"name\": \"directxtex\", \"package\": \"DirectXTex\", \"targets\": [\"Microsoft::DirectXTex\"] }"
    );
    let same = find_target_advice("directxtex", "DirectXTex", &Vec::new());
    assert!(same.starts_with("Package name matches dep name"));
}

// validate_triton_root

#[test]
fn validate_accepts_valid_config() {
    let root = make_root_with(
        vec![DepSpec::Simple("glm".into())],
        vec![
            ("App", TritonComponent { kind: "exe".into(), ..lib(&["glm", "Core"]) }),
            ("Core", lib(&["glm"])),
        ],
    );
    assert!(validate_triton_root(&root).is_ok());
}

#[test]
fn validate_rejects_empty_app_name() {
    let mut root = make_root_with(vec![], vec![]);
    root.app_name = "".into();
    let err = validate_triton_root(&root).unwrap_err();
    let msg = err.message();
    assert!(msg.contains("app_name cannot be empty"), "got: {msg}");
}

#[test]
fn validate_rejects_invalid_kind() {
    let root = make_root_with(
        vec![],
        vec![("Bad", TritonComponent { kind: "shared_lib".into(), ..Default::default() })],
    );
    let msg = validate_triton_root(&root).unwrap_err().message();
    assert!(msg.contains("invalid kind"), "got: {msg}");
    assert!(msg.contains("shared_lib"), "got: {msg}");
}

#[test]
fn validate_rejects_self_link() {
    let root = make_root_with(vec![], vec![("Core", lib(&["Core"]))]);
    let msg = validate_triton_root(&root).unwrap_err().message();
    assert!(msg.contains("cannot link to itself"), "got: {msg}");
}

#[test]
fn validate_rejects_unknown_link_target() {
    let root = make_root_with(
        vec![],
        vec![("App", TritonComponent { kind: "exe".into(), ..lib(&["ghost_dep"]) })],
    );
    let msg = validate_triton_root(&root).unwrap_err().message();
    assert!(msg.contains("ghost_dep"), "got: {msg}");
    assert!(msg.contains("not a known dep or component"), "got: {msg}");
}

#[test]
fn validate_rejects_circular_deps() {
    let root = make_root_with(vec![], vec![("A", lib(&["B"])), ("B", lib(&["A"]))]);
    let err = validate_triton_root(&root).unwrap_err();
    let msg = err.message();
    assert!(msg.contains("Circular dependency"), "got: {msg}");
    assert_eq!(msg, "Circular dependency detected: A -> B -> A");
    assert!(matches!(err, ValidationError::Circular { .. }));
}

#[test]
fn validate_allows_deps_in_links() {
    let root = make_root_with(
        vec![DepSpec::Simple("glm".into())],
        vec![("App", TritonComponent { kind: "exe".into(), ..lib(&["glm"]) })],
    );
    assert!(validate_triton_root(&root).is_ok());
}

// detect_cycles

#[test]
fn detect_cycles_finds_direct_cycle() {
    let root = make_root_with(vec![], vec![("A", lib(&["B"])), ("B", lib(&["A"]))]);
    let cycle = detect_cycles(&root);
    assert!(cycle.is_some(), "should detect A <-> B cycle");
    let path = cycle.unwrap();
    assert!(path.len() >= 3, "cycle path should be at least [A, B, A]");
}

#[test]
fn detect_cycles_finds_indirect_cycle() {
    let root = make_root_with(
        vec![],
        vec![("A", lib(&["B"])), ("B", lib(&["C"])), ("C", lib(&["A"]))],
    );
    let cycle = detect_cycles(&root);
    assert!(cycle.is_some(), "should detect A -> B -> C -> A cycle");
    assert_eq!(cycle.unwrap(), vec!["A", "B", "C", "A"]);
}

#[test]
fn detect_cycles_no_cycle() {
    let root = make_root_with(vec![], vec![("A", lib(&["B"])), ("B", lib(&[]))]);
    assert!(detect_cycles(&root).is_none());
}

#[test]
fn detect_cycles_ignores_dep_links() {
    let root = make_root_with(vec![], vec![("A", lib(&["glm"]))]);
    assert!(detect_cycles(&root).is_none());
}

#[test]
fn detect_cycles_skips_when_link_target_is_also_a_dep() {
    let root = make_root_with(
        vec![DepSpec::Simple("directxtex".into())],
        vec![("directxtex", lib(&["valeria_render"])), ("valeria_render", lib(&["directxtex"]))],
    );
    assert!(
        detect_cycles(&root).is_none(),
        "Should not detect cycle when link target is also a dep"
    );
}

// dep name collision

#[test]
fn dep_and_component_same_name_is_valid() {
    let root = make_root_with(
        vec![DepSpec::Simple("directxtex".into())],
        vec![("directxtex", lib(&["directxtex"]))],
    );
    assert!(
        validate_triton_root(&root).is_ok(),
        "Component with same name as dep should be allowed to link to the dep"
    );
}

#[test]
fn self_link_still_rejected_when_not_a_dep() {
    let root = make_root_with(vec![], vec![("Core", lib(&["Core"]))]);
    assert!(validate_triton_root(&root).is_err(), "Pure self-link should still be rejected");
}

#[test]
fn matches_keep_exact_then_partial_in_given_order() {
    let all = fake_share(&["sdl2_image", "Zlib", "SDL2", "sdl2-mixer", "sdl"]);
    let matches = match_dep_to_packages("SDL2", &all);
    let names: Vec<&str> = matches.iter().map(|m| m.0.as_str()).collect();
    assert_eq!(names, vec!["SDL2", "sdl2_image", "sdl2-mixer", "sdl"]);
    assert!(matches.len() <= all.len());
}

#[test]
fn find_target_reports_each_outcome() {
    let all = fake_share(&["SDL2", "SDL2_mixer", "zlib"]);
    let none = find_target_report("glm", &all, &vec![], &vec![]);
    assert_eq!(
        none,
        vec![
            "No CMake package found matching 'glm'.",
            "",
            "Available packages:",
            "  SDL2",
            "  SDL2_mixer",
            "  zlib",
            "",
            "Specify the correct one in triton.json:\n  { \"name\": \"glm\", \"package\": \"<PackageName>\" }",
        ]
    );

    let one = match_dep_to_packages("zlib", &all);
    let report = find_target_report("zlib", &all, &one, &vec![vec!["ZLIB::ZLIB".to_string()]]);
    assert_eq!(report[0], "Found: zlib");
    assert_eq!(report[1], "  Config: vcpkg/installed/x64-windows/share/zlib/zlibConfig.cmake");
    assert_eq!(report[2], "  Targets:");
    assert_eq!(report[3], "    ZLIB::ZLIB");
    assert_eq!(report[4], "");
    assert_eq!(report[5], "Use in triton.json:\n  { \"name\": \"zlib\", \"package\": \"zlib\", \"targets\": [\"ZLIB::ZLIB\"] }");

    let many = match_dep_to_packages("sdl2", &all);
    let report = find_target_report(
        "sdl2",
        &all,
        &many,
        &vec![vec!["SDL2::SDL2".to_string(), "SDL2::SDL2main".to_string()], vec![]],
    );
    assert_eq!(
        report,
        vec![
            "Found multiple candidates:",
            "  1. SDL2  targets: [SDL2::SDL2, SDL2::SDL2main]",
            "  2. SDL2_mixer",
            "",
            "Specify the correct one in triton.json:\n  { \"name\": \"sdl2\", \"package\": \"<PackageName>\", \"targets\": [\"<Target>\"] }",
        ]
    );
}
