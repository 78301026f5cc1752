use triton::models::{
    CMakeCacheEntry, CMakeOverride, DepDetailed, DepSpec, GitDep, LinkEntry, LinkHint, LinkOptions,
    TritonComponent, TritonRoot, VendorLibs,
};
use triton::util::cmake_helpers::{cmake_quote, infer_cmake_type, normalize_path, split_kv};
use triton::util::validation::{has_link_to_name, is_dep, is_dep_case_insensitive};

fn sample_root() -> TritonRoot {
    let engine = TritonComponent {
        kind: "lib".into(),
        link: vec![
            LinkEntry::Name("glm".into()),
            LinkEntry::Named {
                name: "sdl2".into(),
                package: Some("SDL2".into()),
                targets: Some(vec!["SDL2::SDL2".into()]),
                visibility: None,
            },
        ],
        defines: vec!["GLM_ENABLE_EXPERIMENTAL".into()],
        exports: vec!["glm".into()],
        resources: vec!["resources".into()],
        link_options: LinkOptions::All(vec!["-Wl,--export-dynamic".into()]),
        vendor_libs: VendorLibs::Unset,
        assets: vec!["shaders".into()],
        ..Default::default()
    };
    TritonRoot {
        app_name: "demo".into(),
        generator: "Ninja".into(),
        cxx_std: "20".into(),
        c_std: None,
        deps: vec![
            DepSpec::Simple("glm".into()),
            DepSpec::Git(GitDep {
                repo: "https://github.com/example/imgui.git".into(),
                name: "imgui".into(),
                branch: Some("docking".into()),
                cmake: vec![
                    CMakeOverride::KV("IMGUI_BUILD_EXAMPLES=OFF".into()),
                    CMakeOverride::Entry(CMakeCacheEntry {
                        var: "IMGUI_ENABLE_FREETYPE".into(),
                        val: "ON".into(),
                        typ: "BOOL".into(),
                    }),
                ],
            }),
            DepSpec::Detailed(DepDetailed {
                name: "sdl2".into(),
                os: vec!["windows".into(), "linux".into()],
                package: Some("SDL2".into()),
                triplet: vec!["x64-windows".into()],
                features: vec!["vulkan".into()],
            }),
        ],
        components: vec![("Engine".into(), engine)],
        scripts: vec![("build".into(), "cargo build".into())],
    }
}

// LinkEntry::normalize

#[test]
fn normalize_name_variant() {
    let entry = LinkEntry::Name("glm".into());
    let (name, pkg) = entry.normalize();
    assert_eq!(name, "glm");
    assert!(pkg.is_none());
}

#[test]
fn normalize_named_variant() {
    let entry = LinkEntry::Named {
        name: "sdl2".into(),
        package: Some("SDL2".into()),
        targets: Some(vec!["SDL2::SDL2".into()]),
        visibility: None,
    };
    let (name, pkg) = entry.normalize();
    assert_eq!(name, "sdl2");
    assert_eq!(pkg.as_deref(), Some("SDL2"));
}

#[test]
fn normalize_named_no_package() {
    let entry = LinkEntry::Named { name: "lua".into(), package: None, targets: None, visibility: None };
    let (name, pkg) = entry.normalize();
    assert_eq!(name, "lua");
    assert!(pkg.is_none());
}

#[test]
fn normalize_map_variant() {
    let entry = LinkEntry::Keyed(vec![(
        "filament".into(),
        LinkHint { package: Some("Filament".into()), targets: None, visibility: None },
    )]);
    let (name, pkg) = entry.normalize();
    assert_eq!(name, "filament");
    assert_eq!(pkg.as_deref(), Some("Filament"));
}

#[test]
fn normalize_empty_map() {
    let entry = LinkEntry::Keyed(vec![]);
    let (name, pkg) = entry.normalize();
    assert_eq!(name, "");
    assert!(pkg.is_none());
}

// LinkEntry::all_targets

#[test]
fn all_targets_name_variant() {
    let entry = LinkEntry::Name("glm".into());
    assert!(entry.all_targets().is_empty());
}

#[test]
fn all_targets_named_with_targets() {
    let entry = LinkEntry::Named {
        name: "sdl2".into(),
        package: None,
        targets: Some(vec!["SDL2::SDL2".into(), "SDL2::SDL2main".into()]),
        visibility: None,
    };
    assert_eq!(entry.all_targets(), vec!["SDL2::SDL2", "SDL2::SDL2main"]);
}

#[test]
fn all_targets_named_no_targets() {
    let entry = LinkEntry::Named { name: "lua".into(), package: None, targets: None, visibility: None };
    assert!(entry.all_targets().is_empty());
}

#[test]
fn all_targets_map_variant() {
    let entry = LinkEntry::Keyed(vec![(
        "filament".into(),
        LinkHint {
            package: None,
            targets: Some(vec!["filament".into(), "utils".into(), "math".into()]),
            visibility: None,
        },
    )]);
    assert_eq!(entry.all_targets(), vec!["filament", "utils", "math"]);
}

#[test]
fn all_targets_empty_map() {
    let entry = LinkEntry::Keyed(vec![]);
    assert!(entry.all_targets().is_empty());
}

// cmake_quote

#[test]
fn cmake_quote_normal() {
    assert_eq!(cmake_quote("hello"), r#""hello""#);
}

#[test]
fn cmake_quote_with_inner_quotes() {
    assert_eq!(cmake_quote(r#"say "hi""#), r#""say \"hi\"""#);
}

#[test]
fn cmake_quote_empty() {
    assert_eq!(cmake_quote(""), r#""""#);
}

#[test]
fn cmake_quote_trims_whitespace() {
    assert_eq!(cmake_quote("  foo  "), r#""foo""#);
}

// infer_cmake_type

#[test]
fn infer_cmake_type_bool_values() {
    for v in &["ON", "OFF", "TRUE", "FALSE", "YES", "NO"] {
        assert_eq!(infer_cmake_type(v), "BOOL", "expected BOOL for {v}");
    }
}

#[test]
fn infer_cmake_type_case_insensitive() {
    assert_eq!(infer_cmake_type("on"), "BOOL");
    assert_eq!(infer_cmake_type("Off"), "BOOL");
    assert_eq!(infer_cmake_type("true"), "BOOL");
    assert_eq!(infer_cmake_type("False"), "BOOL");
    assert_eq!(infer_cmake_type("yes"), "BOOL");
    assert_eq!(infer_cmake_type("No"), "BOOL");
}

#[test]
fn infer_cmake_type_string_values() {
    assert_eq!(infer_cmake_type("Release"), "STRING");
    assert_eq!(infer_cmake_type("/usr/local"), "STRING");
    assert_eq!(infer_cmake_type("42"), "STRING");
    assert_eq!(infer_cmake_type(""), "STRING");
}

// split_kv

#[test]
fn split_kv_simple() {
    let (k, v) = split_kv("FOO=bar");
    assert_eq!(k, "FOO");
    assert_eq!(v, "bar");
}

#[test]
fn split_kv_strips_outer_quotes() {
    let (k, v) = split_kv(r#"FOO="bar""#);
    assert_eq!(k, "FOO");
    assert_eq!(v, "bar");
}

#[test]
fn split_kv_bare_key() {
    let (k, v) = split_kv("FOO");
    assert_eq!(k, "FOO");
    assert_eq!(v, "ON");
}

#[test]
fn split_kv_empty_value() {
    let (k, v) = split_kv("FOO=");
    assert_eq!(k, "FOO");
    assert_eq!(v, "ON", "empty value defaults to ON");
}

#[test]
fn split_kv_value_with_equals() {
    let (k, v) = split_kv("PATH=/usr/local/bin");
    assert_eq!(k, "PATH");
    assert_eq!(v, "/usr/local/bin");
}

#[test]
fn split_kv_whitespace_trimmed() {
    let (k, v) = split_kv("  FOO  =  bar  ");
    assert_eq!(k, "FOO");
    assert_eq!(v, "bar");
}

// normalize_path (host with forward slashes)

#[test]
fn normalize_path_strips_verbatim_prefix_backslash() {
    let result = normalize_path(r"\\?\C:\Users\test", false);
    assert!(!result.contains(r"\\?\"), "verbatim prefix should be stripped");
    assert!(result.contains("C:") || result.contains("Users"));
}

#[test]
fn normalize_path_strips_verbatim_prefix_forward() {
    let result = normalize_path("//?/C:/Users/test", false);
    assert!(!result.contains("//?/"), "verbatim prefix should be stripped");
}

#[test]
fn normalize_path_plain_path() {
    let result = normalize_path("some/path/to/file", false);
    assert!(result.contains('/'), "Unix should use forward slashes: {result}");
}

#[test]
fn normalize_path_uses_backslashes_on_windows() {
    assert_eq!(normalize_path(r"\\?\C:/Users/test", true), r"C:\Users\test");
    assert_eq!(normalize_path("a/b\\c", false), "a/b/c");
}

// is_dep

#[test]
fn is_dep_finds_simple() {
    let root = sample_root();
    assert!(is_dep(&root, "glm"));
}

#[test]
fn is_dep_finds_git() {
    let root = sample_root();
    assert!(is_dep(&root, "imgui"));
}

#[test]
fn is_dep_finds_detailed() {
    let root = sample_root();
    assert!(is_dep(&root, "sdl2"));
}

#[test]
fn is_dep_returns_false_for_unknown() {
    let root = sample_root();
    assert!(!is_dep(&root, "nonexistent"));
}

#[test]
fn is_dep_case_insensitive_ignores_case_only() {
    let root = sample_root();
    assert!(is_dep_case_insensitive(&root, "GLM"));
    assert!(!is_dep(&root, "GLM"));
    assert!(!is_dep_case_insensitive(&root, "glmx"));
}

// has_link_to_name

#[test]
fn has_link_to_name_finds_name_variant() {
    let comp = TritonComponent {
        kind: "lib".into(),
        link: vec![LinkEntry::Name("glm".into())],
        ..Default::default()
    };
    assert!(has_link_to_name(&comp, "glm"));
    assert!(!has_link_to_name(&comp, "sdl2"));
}

#[test]
fn has_link_to_name_finds_named_variant() {
    let comp = TritonComponent {
        kind: "exe".into(),
        link: vec![LinkEntry::Named {
            name: "sdl2".into(),
            package: Some("SDL2".into()),
            targets: None,
            visibility: None,
        }],
        ..Default::default()
    };
    assert!(has_link_to_name(&comp, "sdl2"));
    assert!(!has_link_to_name(&comp, "SDL2"), "should match name, not package");
}

#[test]
fn has_link_to_name_finds_map_variant() {
    let comp = TritonComponent {
        kind: "lib".into(),
        link: vec![LinkEntry::Keyed(vec![("filament".into(), LinkHint::default())])],
        ..Default::default()
    };
    assert!(has_link_to_name(&comp, "filament"));
    assert!(!has_link_to_name(&comp, "other"));
}

#[test]
fn has_link_to_name_empty_link() {
    let comp = TritonComponent { kind: "lib".into(), ..Default::default() };
    assert!(!has_link_to_name(&comp, "anything"));
}

// Defaults and small model queries

#[test]
fn component_default_is_empty() {
    let c = TritonComponent::default();
    assert_eq!(c.kind, "");
    assert!(c.link.is_empty() && c.defines.is_empty() && c.assets.is_empty());
    assert!(c.link_options.is_none());
    assert!(c.vendor_libs.is_none());
    assert!(!LinkOptions::All(vec![]).is_none());
}

#[test]
fn dep_spec_name_of_each_variant() {
    let root = sample_root();
    let names: Vec<&str> = root.deps.iter().map(|d| d.name().as_str()).collect();
    assert_eq!(names, vec!["glm", "imgui", "sdl2"]);
}

#[test]
fn link_entry_visibility_private_is_not_public() {
    let private = LinkEntry::Named {
        name: "x".into(),
        package: None,
        targets: None,
        visibility: Some(" Private ".into()),
    };
    let public = LinkEntry::Named { name: "x".into(), package: None, targets: None, visibility: None };
    assert!(!private.is_public());
    assert!(public.is_public());
}
