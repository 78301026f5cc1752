use triton::cmake::{arch_label_for_triplet, detect_vcpkg_triplet, HostCpu, HostOs};
use triton::commands::build_cmd::{
    build_args, build_dir_for, build_dir_for_triplet, build_tree_has_valid_compiler_id,
    cache_has_nonempty_value, collect_build_arches, component_names_for_arch, configure_args,
    effective_generator, filtered_root_for_arch, filtered_root_for_component, is_configured_for_generator,
    needs_configure, normalize_config, preset_for, resolve_build_arch, resolve_generator_for_preset,
    validate_all_component_arch_graphs, validate_component_arch_graph, windows_build_line,
    windows_configure_line, BuildError, Preset,
};
use triton::models::{LinkEntry, TritonComponent, TritonRoot};

fn preset(name: &str, generator: Option<&str>, inherits: &[&str]) -> Preset {
    Preset {
        name: name.into(),
        generator: generator.map(|g| g.to_string()),
        inherits: inherits.iter().map(|s| s.to_string()).collect(),
    }
}

fn comp(arch: Option<&str>, links: &[&str]) -> TritonComponent {
    TritonComponent {
        kind: "lib".into(),
        arch: arch.map(|a| a.to_string()),
        link: links.iter().map(|l| LinkEntry::Name(l.to_string())).collect(),
        ..Default::default()
    }
}

fn project(components: Vec<(&str, TritonComponent)>) -> TritonRoot {
    let mut comps: Vec<(String, TritonComponent)> =
        components.into_iter().map(|(n, c)| (n.to_string(), c)).collect();
    comps.sort_by(|a, b| a.0.cmp(&b.0));
    TritonRoot {
        app_name: "demo".into(),
        generator: "Ninja".into(),
        cxx_std: "20".into(),
        c_std: None,
        deps: vec![],
        components: comps,
        scripts: vec![],
    }
}

fn names(r: &TritonRoot) -> Vec<String> {
    r.components.iter().map(|c| c.0.clone()).collect()
}

#[test]
fn normalize_and_preset_helpers() {
    assert_eq!(normalize_config("release"), "release");
    assert_eq!(normalize_config("REL"), "release");
    assert_eq!(normalize_config("debug"), "debug");
    assert_eq!(normalize_config("whatever"), "debug");

    assert_eq!(preset_for("release"), "release");
    assert_eq!(preset_for("rel"), "release");
    assert_eq!(preset_for("debug"), "debug");
    assert_eq!(preset_for("other"), "debug");

    assert_eq!(normalize_config("  R "), "release");
    assert_eq!(normalize_config("d"), "debug");
}

#[test]
fn build_dir_for_joins_correctly() {
    let os = HostOs::Linux;
    let cpu = HostCpu::X86_64;
    let triplet = detect_vcpkg_triplet(os, cpu);
    let arch = arch_label_for_triplet(&triplet);
    assert_eq!(build_dir_for("/tmp/myproj", "debug", os, cpu), format!("/tmp/myproj/build/{}/debug", arch));
    assert_eq!(build_dir_for("/tmp/myproj", "release", os, cpu), format!("/tmp/myproj/build/{}/release", arch));
    assert_eq!(build_dir_for_triplet("/tmp/p/", "debug", "arm64-osx"), "/tmp/p/build/arm64/debug");
    assert_eq!(build_dir_for_triplet("", "debug", "x86-windows"), "build/x86/debug");
}

#[test]
fn load_presets_and_resolve_direct_generator() {
    let map = vec![preset("debug", Some("Ninja"), &[])];
    let mut guard = Vec::new();
    let g = resolve_generator_for_preset(&map, "debug", &mut guard).unwrap();
    assert_eq!(g, "Ninja");
    assert_eq!(guard, vec!["debug"]);
}

#[test]
fn resolve_generator_with_inheritance_chain() {
    let map = vec![
        preset("base", Some("Ninja"), &[]),
        preset("mid", None, &["base"]),
        preset("dbg", None, &["mid"]),
    ];
    let mut guard = Vec::new();
    let g = resolve_generator_for_preset(&map, "dbg", &mut guard).unwrap();
    assert_eq!(g, "Ninja");
    assert_eq!(guard, vec!["dbg", "mid", "base"]);
}

#[test]
fn resolve_generator_handles_missing_and_cycles_gracefully() {
    let map = vec![preset("a", None, &["b"]), preset("b", None, &["a"])];
    let mut guard = Vec::new();
    assert!(resolve_generator_for_preset(&map, "a", &mut guard).is_none());
    let mut guard2 = Vec::new();
    assert!(resolve_generator_for_preset(&map, "missing", &mut guard2).is_none());
}

#[test]
fn resolve_generator_stops_after_the_visit_limit() {
    let mut map = Vec::new();
    for i in 0..40 {
        map.push(preset(&format!("p{i}"), None, &[&format!("p{}", i + 1)]));
    }
    map.push(preset("p40", Some("Ninja"), &[]));
    let mut guard = Vec::new();
    assert!(resolve_generator_for_preset(&map, "p0", &mut guard).is_none());
    assert_eq!(guard.len(), 33);
    let mut near = Vec::new();
    assert_eq!(resolve_generator_for_preset(&map, "p10", &mut near).as_deref(), Some("Ninja"));
}

#[test]
fn effective_generator_falls_back_to_default_then_ninja() {
    let with_default = vec![preset("debug", None, &[]), preset("default", Some("Unix Makefiles"), &[])];
    assert_eq!(effective_generator(&with_default, "debug"), "Unix Makefiles");
    let neither = vec![preset("debug", None, &[])];
    assert_eq!(effective_generator(&neither, "debug"), "Ninja");
    let own = vec![preset("release", Some("Visual Studio 17 2022"), &[])];
    assert_eq!(effective_generator(&own, "release"), "Visual Studio 17 2022");
}

#[test]
fn configured_check_detects_ninja() {
    assert!(!is_configured_for_generator(false, false, false, "Ninja"));
    assert!(!is_configured_for_generator(true, false, false, "Ninja"));
    assert!(is_configured_for_generator(true, true, false, "Ninja"));
}

#[test]
fn configured_check_detects_unix_makefiles() {
    assert!(is_configured_for_generator(true, false, true, "Unix Makefiles"));
    assert!(!is_configured_for_generator(true, true, false, "Unix Makefiles"));
    assert!(is_configured_for_generator(true, false, false, "Visual Studio 17 2022"));
}

#[test]
fn cache_values_and_compiler_ids() {
    let text = "# comment\nCMAKE_C_COMPILER_ID:STRING=\nCMAKE_CXX_COMPILER_ID:STRING= GNU \r\nOTHER:BOOL=ON\n";
    assert!(!cache_has_nonempty_value(text, "CMAKE_C_COMPILER_ID"));
    assert!(cache_has_nonempty_value(text, "CMAKE_CXX_COMPILER_ID"));
    assert!(cache_has_nonempty_value(text, "OTHER"));
    assert!(!cache_has_nonempty_value(text, "MISSING"));
    assert!(build_tree_has_valid_compiler_id(text));
    assert!(!build_tree_has_valid_compiler_id("CMAKE_C_COMPILER_ID:STRING=\n"));
    assert!(needs_configure(false, false, false, false));
    assert!(needs_configure(true, false, true, false));
    assert!(!needs_configure(true, false, true, true));
    assert!(needs_configure(true, true, false, false));
}

#[test]
fn cmake_argument_lists() {
    assert_eq!(
        configure_args("debug", "/v/scripts/buildsystems/vcpkg.cmake", true, Some("/n/ninja")),
        vec![
            "--preset",
            "debug",
            "-DCMAKE_TOOLCHAIN_FILE=\"/v/scripts/buildsystems/vcpkg.cmake\"",
            "-DVCPKG_MANIFEST_INSTALL=OFF",
            "-DCMAKE_MAKE_PROGRAM=/n/ninja",
        ]
    );
    assert_eq!(configure_args("release", "t", false, None), vec!["--preset", "release", "-DCMAKE_TOOLCHAIN_FILE=\"t\""]);
    assert_eq!(build_args("debug", Some("App")), vec!["--build", "--preset=debug", "--target", "App"]);
    assert_eq!(build_args("release", None), vec!["--build", "--preset=release"]);
    assert_eq!(
        windows_configure_line("C:\\cmake.exe", "debug", "C:\\t.cmake", true, Some("C:\\n\\ninja.exe"), "C:\\cl.exe", false, true),
        "\"C:\\cmake.exe\" --preset debug -DCMAKE_TOOLCHAIN_FILE=\"C:\\t.cmake\" -DVCPKG_MANIFEST_INSTALL=OFF -DCMAKE_MAKE_PROGRAM=\"C:\\n\\ninja.exe\" -DCMAKE_CXX_COMPILER=\"C:\\cl.exe\""
    );
    assert_eq!(windows_build_line("cmake", "debug", Some("App")), "\"cmake\" --build --preset=debug --target App");
}

#[test]
fn build_arch_of_component_and_request() {
    let root = project(vec![("App", comp(Some("x86"), &[])), ("Tool", comp(None, &[]))]);
    let (os, cpu) = (HostOs::Windows, HostCpu::X86_64);
    assert_eq!(resolve_build_arch(&root, Some("App"), None, os, cpu).ok(), Some("x86"));
    assert_eq!(resolve_build_arch(&root, Some("Tool"), None, os, cpu).ok(), Some("x64"));
    assert_eq!(resolve_build_arch(&root, Some("Tool"), Some("ARM64"), os, cpu).ok(), Some("arm64"));
    assert_eq!(resolve_build_arch(&root, None, None, os, cpu).ok(), Some("x64"));
    match resolve_build_arch(&root, Some("App"), Some("x64"), os, cpu) {
        Err(e @ BuildError::ArchMismatch { .. }) => assert_eq!(
            e.message(),
            "component 'App' targets x86 but the requested build architecture is x64. Triton cannot mix x86/x64/arm64 in one component build."
        ),
        _ => panic!("expected a mismatch"),
    }
    match resolve_build_arch(&root, Some("Ghost"), None, os, cpu) {
        Err(e) => assert_eq!(e.message(), "component 'Ghost' was not found in triton.json/components"),
        Ok(_) => panic!("expected an error"),
    }
    match resolve_build_arch(&root, None, Some("sparc"), os, cpu) {
        Err(e) => assert_eq!(e.message(), "Unsupported target architecture 'sparc'. Allowed values: x86, x64, arm64."),
        Ok(_) => panic!("expected an error"),
    }
}

#[test]
fn arch_graph_conflicts_name_the_chain() {
    let root = project(vec![
        ("App", comp(Some("x64"), &["Core", "glm"])),
        ("Core", comp(None, &["Legacy"])),
        ("Legacy", comp(Some("x86"), &[])),
        ("Other", comp(Some("x86"), &[])),
    ]);
    match validate_component_arch_graph(&root, "App", "x64") {
        Err(e @ BuildError::ArchConflict { .. }) => assert_eq!(
            e.message(),
            "component architecture conflict: 'Legacy' requires x86 but dependency chain 'App -> Core -> Legacy' resolves inside a x64 build. Triton cannot link x86 to x64 or x64 to x86."
        ),
        _ => panic!("expected a conflict"),
    }
    assert!(validate_component_arch_graph(&root, "Legacy", "x86").is_ok());
    assert!(validate_component_arch_graph(&root, "Core", "x86").is_ok());
    assert!(matches!(validate_component_arch_graph(&root, "Nope", "x64"), Err(BuildError::MissingComponent(_))));
    let (os, cpu) = (HostOs::Linux, HostCpu::X86_64);
    assert!(validate_all_component_arch_graphs(&root, Some("x86"), os, cpu).is_ok());
    assert!(validate_all_component_arch_graphs(&root, None, os, cpu).is_err());
}

#[test]
fn arch_graph_of_a_cycle_terminates() {
    let root = project(vec![("A", comp(None, &["B"])), ("B", comp(None, &["A"]))]);
    assert!(validate_component_arch_graph(&root, "A", "x64").is_ok());
    assert!(matches!(validate_component_arch_graph(&root, "A", "arm64"), Ok(())));
    let bad = project(vec![("A", comp(None, &["B"])), ("B", comp(Some("mips"), &[]))]);
    match validate_component_arch_graph(&bad, "A", "x64") {
        Err(BuildError::UnsupportedArch(m)) => assert!(m.contains("'mips'")),
        _ => panic!("expected an unsupported architecture"),
    }
}

#[test]
fn batches_by_architecture() {
    let root = project(vec![
        ("App", comp(Some("x64"), &["Core"])),
        ("Core", comp(None, &[])),
        ("Legacy", comp(Some("Win32"), &[])),
        ("Phone", comp(Some("aarch64"), &[])),
    ]);
    let (os, cpu) = (HostOs::Windows, HostCpu::X86_64);
    assert_eq!(collect_build_arches(&root, None, os, cpu).unwrap(), vec!["arm64", "x64", "x86"]);
    assert_eq!(collect_build_arches(&root, Some("AMD64"), os, cpu).unwrap(), vec!["x64"]);
    assert_eq!(collect_build_arches(&project(vec![]), None, os, HostCpu::Aarch64).unwrap(), vec!["arm64"]);
    assert_eq!(component_names_for_arch(&root, "x64", os, cpu).unwrap(), vec!["App", "Core"]);
    assert_eq!(names(&filtered_root_for_arch(root.clone(), "x86", os, cpu)), vec!["Legacy"]);
    assert_eq!(names(&filtered_root_for_component(root.clone(), "App").ok().unwrap()), vec!["App", "Core"]);
    assert!(filtered_root_for_component(root.clone(), "Nope").is_err());
    let broken = project(vec![("A", comp(Some("z80"), &[]))]);
    assert!(collect_build_arches(&broken, None, os, cpu).is_err());
    assert!(component_names_for_arch(&broken, "x64", os, cpu).is_err());
    assert!(names(&filtered_root_for_arch(broken, "x64", os, cpu)).is_empty());
}
