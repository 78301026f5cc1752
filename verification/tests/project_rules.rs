use triton::cli::parse_edge;
use triton::cmake::languages::{classify_path, detect_component_languages, detect_graph_languages, extension_of};
use triton::cmake::staging::gen_component_resources_lines;
use triton::cmake::version::cmake_version_from_output;
use triton::cmake::HostOs;
use triton::commands::cmake_install::{
    classify_request, failure_summary, installer_name, installers_for, normalize_version_string, parse_version,
    request_fulfilled, requested_version, version_eq, version_ge, version_gt, version_lt, Installer, RequestKind,
};
use triton::commands::generate::{
    dedup_deps, fix_malformed_deps, fix_malformed_links, handle_generate, vcpkg_manifest_entries, vcpkg_manifest_name,
};
use triton::commands::init::{
    add_app_component, add_discovered_component, add_tests_component, is_minimal_init, new_root, seed_root,
};
use triton::commands::remove::vcpkg_manifest_deps;
use triton::commands::run::{exe_name_for, run_component};
use triton::models::{find_component, DepDetailed, DepSpec, GitDep, LinkEntry, TritonComponent, TritonRoot};
use triton::tools::{ninja_bin_name, ninja_download_url, posix_fetch_command, ps_path};
use triton::util::files::{change_for, needs_write, Change};
use triton::util::vars::expand_placeholders;

fn root_with(deps: Vec<DepSpec>, components: Vec<(&str, TritonComponent)>) -> TritonRoot {
    let mut r = new_root("demo", "Ninja", "20");
    r.deps = deps;
    let mut comps: Vec<(String, TritonComponent)> =
        components.into_iter().map(|(n, c)| (n.to_string(), c)).collect();
    comps.sort_by(|a, b| a.0.cmp(&b.0));
    r.components = comps;
    r
}

fn kind(k: &str) -> TritonComponent {
    TritonComponent { kind: k.into(), ..Default::default() }
}

fn detailed(name: &str, os: &[&str], features: &[&str]) -> DepSpec {
    DepSpec::Detailed(DepDetailed {
        name: name.into(),
        os: os.iter().map(|s| s.to_string()).collect(),
        package: None,
        triplet: vec![],
        features: features.iter().map(|s| s.to_string()).collect(),
    })
}

// Link edges

#[test]
fn edges_are_read_from_either_form() {
    assert_eq!(parse_edge("glm", Some("Core")).unwrap(), ("glm".to_string(), "Core".to_string()));
    assert_eq!(parse_edge(" glm : Core ", None).unwrap(), ("glm".to_string(), "Core".to_string()));
    let err = parse_edge("glm", None).unwrap_err();
    assert_eq!(err.message(), "Use `triton link A B` or `triton link A:B`");
    assert!(parse_edge("glm: ", None).is_err());
}

// Placeholders

#[test]
fn placeholders_expand_from_project_config_and_env() {
    let env = vec![("HOME".to_string(), "/home/u".to_string())];
    let out = expand_placeholders(
        "${app_name}-${generator} ${CONFIG} ${config} ${HOME} ${NOPE} ${open",
        Some(("demo", "Ninja")),
        Some("Release"),
        &env,
    );
    assert_eq!(out, "demo-Ninja Release Release /home/u ${NOPE} ${open");
    assert_eq!(expand_placeholders("${CONFIG} ${app_name}", None, None, &vec![]), "${CMAKE_BUILD_TYPE} ${app_name}");
    assert_eq!(expand_placeholders("no placeholders here", None, None, &env), "no placeholders here");
}

// Versions of CMake

#[test]
fn cmake_version_numbers() {
    assert_eq!(normalize_version_string("3.30.5-rc1"), "3.30.5");
    assert_eq!(normalize_version_string("v3"), "v3");
    assert_eq!(parse_version("3.x.7"), vec![3, 0, 7]);
    assert!(version_ge("3.30.5", "3.30"));
    assert!(version_ge("3.30", "3.30.0"));
    assert!(!version_eq("3.30", "3.30.0"));
    assert!(version_gt("3.30", "3.30.0"));
    assert!(version_lt("3.29.9", "3.30"));
    assert!(version_eq("3.30.1", "3.30.1"));
    assert!(matches!(classify_request(None, "3.30"), RequestKind::NotInstalled));
    assert!(matches!(classify_request(Some("3.31.0"), "3.30.0"), RequestKind::Downgrade));
    assert!(matches!(classify_request(Some("3.28.1"), "3.30.0"), RequestKind::Upgrade));
    assert!(matches!(classify_request(Some("3.30.0"), "3.30.0"), RequestKind::Same));
    assert!(request_fulfilled("3.31.2", "3.30"));
    assert!(!request_fulfilled("3.29", "3.30"));
    assert_eq!(requested_version(Some("  >= 3.30 ")), Some("3.30".to_string()));
    assert_eq!(requested_version(Some(">=")), None);
    assert_eq!(requested_version(None), None);
    assert_eq!(cmake_version_from_output("cmake version 3.30.2\n\nCMake suite"), Some("3.30.2".to_string()));
    assert_eq!(cmake_version_from_output("something else"), None);
}

#[test]
fn installers_by_platform() {
    let names: Vec<&str> = installers_for(HostOs::Windows).into_iter().map(installer_name).collect();
    assert_eq!(names, vec!["winget", "choco", "scoop"]);
    assert_eq!(installers_for(HostOs::Macos), vec![Installer::Brew, Installer::Macports]);
    assert_eq!(installers_for(HostOs::Linux).len(), 7);
    let summary = failure_summary(Some("3.30.1"), &vec!["winget: failed".to_string()]);
    assert!(summary.contains("3.30.1"));
    assert!(summary.contains("winget: failed"));
}

// Files

#[test]
fn writes_happen_only_for_changed_text() {
    assert_eq!(change_for(None, "hello"), Change::Created);
    assert_eq!(change_for(Some("old"), "new"), Change::Modified);
    assert_eq!(change_for(Some("content"), "content"), Change::Unchanged);
    assert!(needs_write(Change::Created) && needs_write(Change::Modified) && !needs_write(Change::Unchanged));
}

// Ninja download

#[test]
fn ninja_download_commands() {
    assert_eq!(
        ninja_download_url(HostOs::Linux),
        "https://github.com/ninja-build/ninja/releases/latest/download/ninja-linux.zip"
    );
    assert!(ninja_download_url(HostOs::Windows).ends_with("ninja-win.zip"));
    assert_eq!(ninja_bin_name(true), "ninja.exe");
    assert_eq!(ninja_bin_name(false), "ninja");
    assert_eq!(
        posix_fetch_command("u", "z.zip", "d"),
        "curl -L 'u' -o 'z.zip' && unzip -o 'z.zip' -d 'd'"
    );
    assert_eq!(ps_path(r"\\?\C:\tools\x"), r"C:\\tools\\x");
}

// triton init

#[test]
fn init_seeds_the_model() {
    assert!(is_minimal_init(None));
    assert!(is_minimal_init(Some(".")));
    assert!(!is_minimal_init(Some("game")));
    let mut r = new_root("", "", "");
    r.cxx_std = "17".into();
    seed_root(&mut r, "game", "Ninja", "20");
    assert_eq!((r.app_name.as_str(), r.generator.as_str(), r.cxx_std.as_str()), ("game", "Ninja", "17"));
    add_app_component(&mut r, "game");
    add_tests_component(&mut r);
    add_discovered_component(&mut r, "Engine", true, false);
    add_discovered_component(&mut r, "Tool", true, true);
    add_discovered_component(&mut r, "Loose", false, true);
    add_discovered_component(&mut r, "tests", true, true);
    let names: Vec<&str> = r.components.iter().map(|c| c.0.as_str()).collect();
    assert_eq!(names, vec!["Engine", "Tool", "game", "tests"]);
    assert_eq!(r.components[find_component(&r, "game").unwrap()].1.kind, "exe");
    assert_eq!(r.components[find_component(&r, "Engine").unwrap()].1.kind, "lib");
    assert_eq!(r.components[find_component(&r, "Tool").unwrap()].1.kind, "exe");
    let tests = &r.components[find_component(&r, "tests").unwrap()].1;
    assert_eq!(tests.kind, "exe");
    add_app_component(&mut r, "game");
    assert_eq!(r.components.len(), 4);
}

// triton run

#[test]
fn run_picks_the_component() {
    let r = root_with(vec![], vec![("Core", kind("lib")), ("Game", kind("exe")), ("Zed", kind("exe"))]);
    assert_eq!(run_component(&r, None), "Game");
    assert_eq!(run_component(&r, Some("Zed")), "Zed");
    assert_eq!(run_component(&root_with(vec![], vec![("Core", kind("lib"))]), None), "app");
    assert_eq!(exe_name_for("Game", true), "Game.exe");
    assert_eq!(exe_name_for("Game", false), "Game");
}

// Languages

#[test]
fn source_languages() {
    assert_eq!(classify_path("src/a.c"), (true, false));
    assert_eq!(classify_path("src/b.CPP"), (false, true));
    assert_eq!(classify_path("src/h.hpp"), (false, false));
    assert_eq!(extension_of("dir.d/file"), None);
    assert_eq!(extension_of(".hidden"), None);
    assert_eq!(extension_of("a/b.tar.gz"), Some("gz".to_string()));
    let mut c = kind("lib");
    c.sources = vec!["@root/third_party/x.c".into(), "  ".into()];
    let r = root_with(vec![], vec![("Core", c.clone())]);
    let langs = detect_component_languages(&r, &c, &vec!["main.cpp".to_string()]);
    assert!(langs.uses_c && langs.uses_cxx);
    assert_eq!(langs.cxx_std.as_deref(), Some("20"));
    assert_eq!(langs.c_std, None);
    let g = detect_graph_languages(&r, &vec![vec![]]);
    assert!(g.uses_c && !g.uses_cxx);
}

// Resources, through the file-name wrapper

#[test]
fn resources_copy_to_their_last_path_component() {
    let mut c = kind("exe");
    c.resources = vec!["assets/textures".into(), "plain".into(), "  ".into()];
    let lines = gen_component_resources_lines(&c).join("\n");
    assert!(lines.contains("textures"));
    assert!(!lines.contains("$<TARGET_FILE_DIR:${_comp_name}>/assets/textures"));
    assert!(lines.contains("\"$<TARGET_FILE_DIR:${_comp_name}>/textures\""));
    assert!(lines.contains("\"$<TARGET_FILE_DIR:${_comp_name}>/plain\""));
}

// triton generate

#[test]
fn generate_repairs_and_merges_dependencies() {
    let mut r = root_with(
        vec![
            DepSpec::Simple("sdl2[vulkan, x11]".into()),
            DepSpec::Simple("glm".into()),
            detailed("glm", &[], &["a"]),
            detailed("glm", &[], &["b", "a"]),
            DepSpec::Simple("glm".into()),
        ],
        vec![],
    );
    assert!(fix_malformed_deps(&mut r));
    match &r.deps[0] {
        DepSpec::Detailed(d) => {
            assert_eq!(d.name, "sdl2");
            assert_eq!(d.features, vec!["vulkan", "x11"]);
        }
        other => panic!("expected a detailed dependency, got {:?}", other),
    }
    assert!(dedup_deps(&mut r));
    assert_eq!(r.deps.len(), 2);
    match &r.deps[1] {
        DepSpec::Detailed(d) => assert_eq!(d.features, vec!["a", "b"]),
        other => panic!("expected a detailed dependency, got {:?}", other),
    }
    assert!(!dedup_deps(&mut r));
}

#[test]
fn generate_repairs_links_and_validates() {
    let mut app = kind("exe");
    app.link = vec![LinkEntry::Name("directxtex[dx12]".into()), LinkEntry::Name("directxtex".into())];
    let mut r = root_with(vec![DepSpec::Simple("directxtex".into())], vec![("App", app)]);
    assert!(fix_malformed_links(&mut r));
    let links: Vec<String> = r.components[0].1.link.iter().map(|e| e.normalize().0).collect();
    assert_eq!(links, vec!["directxtex"]);
    assert_eq!(handle_generate(&mut r).ok(), Some(false));

    let mut bad = root_with(vec![], vec![("Bad", kind("typo"))]);
    let err = handle_generate(&mut bad).unwrap_err();
    assert!(err.message().contains("invalid kind"));
}

#[test]
fn generate_with_detailed_dep_features_produces_vcpkg_object() {
    let r = root_with(
        vec![
            detailed("sdl2", &[], &["vulkan", "x11"]),
            DepSpec::Git(GitDep { repo: "google/filament".into(), name: "filament".into(), branch: None, cmake: vec![] }),
            DepSpec::Simple("glm".into()),
            detailed("d3d12", &["windows"], &[]),
        ],
        vec![],
    );
    let entries = vcpkg_manifest_entries(&r, "linux", "x64-linux");
    let names: Vec<&str> = entries.iter().map(|e| e.name.as_str()).collect();
    assert_eq!(names, vec!["sdl2", "glm"]);
    assert_eq!(entries[0].features, vec!["vulkan", "x11"]);
    assert!(entries[1].features.is_empty());
    assert_eq!(vcpkg_manifest_entries(&r, "windows", "x64-windows").len(), 3);
    assert_eq!(vcpkg_manifest_name("My_Game"), "my-game");
}

#[test]
fn remove_preserves_features_in_vcpkg_json() {
    let r = root_with(
        vec![detailed("directxtex", &[], &["dx12"]), detailed("x11", &["linux"], &[])],
        vec![],
    );
    let entries = vcpkg_manifest_deps(&r);
    assert_eq!(entries.len(), 1);
    assert_eq!(entries[0].name, "directxtex");
    assert_eq!(entries[0].features, vec!["dx12"]);
}

#[test]
fn generate_asks_to_save_only_after_a_repair() {
    let mut app = kind("exe");
    app.link = vec![LinkEntry::Name("glm".into())];
    let mut r = root_with(vec![DepSpec::Simple("glm[core]".into())], vec![("App", app)]);
    r.scripts = vec![("fmt".to_string(), "clang-format -i".to_string())];
    r.c_std = Some("11".into());
    assert_eq!(handle_generate(&mut r).ok(), Some(true));
    assert_eq!(r.generator, "Ninja");
    assert_eq!(r.cxx_std, "20");
    assert_eq!(r.c_std.as_deref(), Some("11"));
    assert_eq!(r.scripts, vec![("fmt".to_string(), "clang-format -i".to_string())]);
    // A second pass finds nothing left to repair.
    assert_eq!(handle_generate(&mut r).ok(), Some(false));

    let mut dup = root_with(
        vec![DepSpec::Simple("fmt".into()), DepSpec::Simple("fmt".into())],
        vec![("App", kind("exe"))],
    );
    assert_eq!(handle_generate(&mut dup).ok(), Some(true));
    assert_eq!(dup.deps.len(), 1);
}
