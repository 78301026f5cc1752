use triton::cmake::rewrite::{regenerate_root_cmake, render_component_cmake, rewrite_component_cmake};
use triton::cmake::resolution::build_effective_vcpkg_specs;
use triton::models::{
    DepSpec, GitDep, LinkEntry, LinkOptions, TritonComponent, TritonRoot, VendorLibs,
};

/// The CMakeLists.txt that a scaffolded component starts with.
const SCAFFOLD: &str = r#"cmake_minimum_required(VERSION 3.25)
get_filename_component(_comp_name "${CMAKE_CURRENT_SOURCE_DIR}" NAME)
add_executable(${_comp_name})
set(_is_exe ON)
target_include_directories(${_comp_name} PRIVATE "include")
# ## triton:deps begin
# ## triton:deps end
"#;

fn component(kind: &str) -> TritonComponent {
    TritonComponent { kind: kind.into(), ..Default::default() }
}

fn project(app: &str, deps: Vec<DepSpec>, components: Vec<(&str, TritonComponent)>) -> TritonRoot {
    let mut comps: Vec<(String, TritonComponent)> =
        components.into_iter().map(|(n, c)| (n.to_string(), c)).collect();
    comps.sort_by(|a, b| a.0.cmp(&b.0));
    TritonRoot {
        app_name: app.into(),
        generator: "Ninja".into(),
        cxx_std: "20".into(),
        c_std: None,
        deps,
        components: comps,
        scripts: vec![],
    }
}

/// The component file after a rewrite of the scaffolded one.
fn rewrite(name: &str, root: &TritonRoot) -> String {
    let comp = &root.components.iter().find(|c| c.0 == name).unwrap().1;
    rewrite_component_cmake(name, root, comp, (3, 30, 1), Some(SCAFFOLD))
}

#[test]
fn rewrite_component_cmake_with_defines() {
    let comp = TritonComponent { defines: vec!["MY_DEFINE".into(), "FEATURE_X=1".into()], ..component("exe") };
    let root = project("testapp", vec![], vec![("App", comp)]);
    let cm = rewrite("App", &root);
    assert!(cm.contains("target_compile_definitions(${_comp_name} PRIVATE"));
    assert!(cm.contains("MY_DEFINE"));
    assert!(cm.contains("FEATURE_X=1"));
}

#[test]
fn rewrite_component_cmake_with_resources() {
    let comp = TritonComponent { resources: vec!["resources".into(), "data/textures".into()], ..component("exe") };
    let root = project("testapp", vec![], vec![("Game", comp)]);
    let cm = rewrite("Game", &root);
    assert!(cm.contains("copy_directory"));
    assert!(cm.contains("resources"));
    assert!(cm.contains("textures"));
}

#[test]
fn rewrite_component_cmake_with_link_options_all() {
    let comp = TritonComponent {
        link_options: LinkOptions::All(vec!["-Wl,--export-dynamic".into(), "-lpthread".into()]),
        ..component("exe")
    };
    let root = project("testapp", vec![], vec![("Server", comp)]);
    let cm = rewrite("Server", &root);
    assert!(cm.contains("target_link_options(${_comp_name} PRIVATE"));
    assert!(cm.contains("--export-dynamic"));
    assert!(cm.contains("lpthread"));
}

#[test]
fn rewrite_component_cmake_with_link_options_per_platform() {
    let comp = TritonComponent {
        link_options: LinkOptions::PerPlatform(vec![
            ("linux".into(), vec!["-Wl,--export-dynamic".into()]),
            ("macos".into(), vec!["-framework".into(), "Cocoa".into()]),
            ("windows".into(), vec!["/SUBSYSTEM:WINDOWS".into()]),
        ]),
        ..component("exe")
    };
    let root = project("testapp", vec![], vec![("App", comp)]);
    let cm = rewrite("App", &root);
    assert!(cm.contains("if(WIN32)"));
    assert!(cm.contains("if(APPLE)"));
    assert!(cm.contains("if(UNIX AND NOT APPLE)"));
    assert!(cm.contains("SUBSYSTEM:WINDOWS"));
    assert!(cm.contains("Cocoa"));
    assert!(cm.contains("export-dynamic"));
}

#[test]
fn rewrite_component_cmake_with_vendor_libs_all() {
    let comp = TritonComponent {
        vendor_libs: VendorLibs::All(vec!["vendor/lib/libfoo.a".into(), "vendor/lib/libbar.a".into()]),
        ..component("exe")
    };
    let root = project("testapp", vec![], vec![("App", comp)]);
    let cm = rewrite("App", &root);
    assert!(cm.contains("target_link_libraries(${_comp_name} PRIVATE"));
    assert!(cm.contains("vendor/lib/libfoo.a"));
    assert!(cm.contains("vendor/lib/libbar.a"));
}

#[test]
fn rewrite_component_cmake_with_vendor_libs_per_platform() {
    let comp = TritonComponent {
        vendor_libs: VendorLibs::PerPlatform(vec![
            ("linux".into(), vec!["vendor/linux/libnethost.a".into()]),
            ("windows".into(), vec!["vendor/win/nethost.lib".into()]),
        ]),
        ..component("exe")
    };
    let root = project("testapp", vec![], vec![("App", comp)]);
    let cm = rewrite("App", &root);
    assert!(cm.contains("if(WIN32)"));
    assert!(cm.contains("if(UNIX AND NOT APPLE)"));
    assert!(cm.contains("vendor/win/nethost.lib"));
    assert!(cm.contains("vendor/linux/libnethost.a"));
}

#[test]
fn rewrite_component_cmake_with_assets() {
    let comp = TritonComponent { assets: vec!["shaders".into(), "config.ini".into()], ..component("exe") };
    let root = project("testapp", vec![], vec![("App", comp)]);
    let cm = rewrite("App", &root);
    assert!(cm.contains("triton: stage component assets"));
    assert!(cm.contains("_triton_asset_stamps"));
    assert!(cm.contains("_triton_asset_src_shaders"));
    assert!(cm.contains("_triton_asset_src_config_ini"));
    assert!(cm.contains("${_comp_name}_assets"));
    assert!(cm.contains("add_dependencies(${_comp_name} ${_comp_name}_assets)"));
}

#[test]
fn rewrite_component_cmake_with_exports_marks_public() {
    let comp = TritonComponent {
        link: vec![LinkEntry::Named {
            name: "glm".into(),
            package: Some("glm".into()),
            targets: Some(vec!["glm::glm".into()]),
            visibility: None,
        }],
        exports: vec!["glm".into()],
        ..component("lib")
    };
    let root = project("testapp", vec![DepSpec::Simple("glm".into())], vec![("Engine", comp)]);
    let cm = rewrite("Engine", &root);
    assert!(cm.contains("PUBLIC"));
    assert!(cm.contains("find_package(glm CONFIG REQUIRED)"));
}

#[test]
fn rewrite_component_cmake_updates_cmake_minimum_required() {
    let root = project("testapp", vec![], vec![("App", component("exe"))]);
    let comp = &root.components[0].1;
    let cm1 = rewrite_component_cmake("App", &root, comp, (3, 28, 0), Some(SCAFFOLD));
    assert!(cm1.contains("cmake_minimum_required(VERSION 3.28.0)"));
    let cm2 = rewrite_component_cmake("App", &root, comp, (3, 30, 1), Some(&cm1));
    assert!(cm2.contains("cmake_minimum_required(VERSION 3.30.1)"));
    assert!(!cm2.contains("VERSION 3.28.0"));
}

#[test]
fn rewrite_component_cmake_with_empty_defines_no_output() {
    let root = project("testapp", vec![], vec![("App", component("exe"))]);
    assert!(!rewrite("App", &root).contains("target_compile_definitions"));
}

#[test]
fn rewrite_component_cmake_with_empty_assets_no_output() {
    let root = project("testapp", vec![], vec![("App", component("exe"))]);
    assert!(!rewrite("App", &root).contains("_triton_asset_stamps"));
}

#[test]
fn rewrite_component_cmake_with_git_dep_generates_subdirectory() {
    let comp = TritonComponent {
        link: vec![LinkEntry::Named {
            name: "filament".into(),
            package: None,
            targets: Some(vec!["filament".into(), "utils".into()]),
            visibility: None,
        }],
        ..component("exe")
    };
    let git = DepSpec::Git(GitDep {
        repo: "google/filament".into(),
        name: "filament".into(),
        branch: Some("main".into()),
        cmake: vec![],
    });
    let root = project("testapp", vec![git], vec![("App", comp)]);
    let cm = rewrite("App", &root);
    assert!(cm.contains("third_party/filament"));
    assert!(cm.contains("add_subdirectory"));
}

#[test]
fn rewrite_keeps_text_outside_the_managed_block() {
    let comp = TritonComponent { defines: vec!["A=1".into()], ..component("exe") };
    let root = project("testapp", vec![], vec![("App", comp)]);
    let once = rewrite("App", &root);
    assert!(once.contains("add_executable(${_comp_name})"));
    assert!(once.contains("# ## triton:deps begin"));
    assert!(once.contains("# ## triton:deps end"));
    let comp = &root.components[0].1;
    let twice = rewrite_component_cmake("App", &root, comp, (3, 30, 1), Some(&once));
    assert_eq!(once, twice);
}

#[test]
fn render_replaces_only_the_managed_block() {
    let existing = "cmake_minimum_required(VERSION 3.30.1)\nproject(x)\n# ## triton:deps begin\nold line\n# ## triton:deps end\ntail()\n";
    let lines = vec!["new line".to_string()];
    let once = render_component_cmake("core", Some(existing), (3, 30, 1), &lines);
    // The header pass rejoins the lines, so the final line break goes.
    assert_eq!(
        once,
        "cmake_minimum_required(VERSION 3.30.1)\nproject(x)\n# ## triton:deps begin\nnew line\n# ## triton:deps end\ntail()"
    );
    let twice = render_component_cmake("core", Some(&once), (3, 30, 1), &lines);
    assert_eq!(once, twice);
}

#[test]
fn regenerate_root_cmake_includes_subdirectories() {
    let root = project(
        "myapp",
        vec![],
        vec![("Engine", component("lib")), ("Game", component("exe")), ("tests", component("exe"))],
    );
    let cm = regenerate_root_cmake(&root, (3, 30, 1), &vec![true, true, true]);
    assert!(cm.contains("cmake_minimum_required(VERSION"));
    assert!(cm.contains("project(myapp LANGUAGES CXX)"));
    assert!(cm.contains("# ## triton:components begin"));
    assert!(cm.contains("# ## triton:components end"));
    assert!(cm.contains("add_subdirectory(Engine)"));
    assert!(cm.contains("add_subdirectory(Game)"));
    assert!(cm.contains("add_subdirectory(tests)"));
}

#[test]
fn regenerate_root_cmake_skips_components_without_dir() {
    let root = project("myapp", vec![], vec![("Engine", component("lib")), ("Phantom", component("exe"))]);
    let cm = regenerate_root_cmake(&root, (3, 30, 1), &vec![true, false]);
    assert!(cm.contains("add_subdirectory(Engine)"));
    assert!(!cm.contains("add_subdirectory(Phantom)"));
}

#[test]
fn regenerate_root_cmake_sanitizes_app_name_with_hyphens() {
    let root = project("my-cool-app", vec![], vec![]);
    let cm = regenerate_root_cmake(&root, (3, 30, 1), &vec![]);
    assert!(cm.contains("project(my_cool_app LANGUAGES CXX)"));
}

#[test]
fn regenerate_root_cmake_components_sorted_alphabetically() {
    let root = project(
        "sorttest",
        vec![],
        vec![("Zebra", component("lib")), ("Alpha", component("lib")), ("Middle", component("lib"))],
    );
    let cm = regenerate_root_cmake(&root, (3, 30, 1), &vec![true, true, true]);
    let alpha = cm.find("add_subdirectory(Alpha)").unwrap();
    let middle = cm.find("add_subdirectory(Middle)").unwrap();
    let zebra = cm.find("add_subdirectory(Zebra)").unwrap();
    assert!(alpha < middle && middle < zebra);
}

#[test]
fn effective_specs_name_each_dependency_once() {
    let mut app = component("exe");
    app.link = vec![
        LinkEntry::Name("glm".into()),
        LinkEntry::Name("fmt".into()),
        LinkEntry::Name("glm".into()),
    ];
    app.exports = vec!["glm".into(), "fmt".into()];
    let root = project(
        "demo",
        vec![DepSpec::Simple("glm".into()), DepSpec::Simple("fmt".into())],
        vec![("App", app)],
    );
    let app = &root.components[0].1;
    let specs = build_effective_vcpkg_specs(&root, "App", app);
    let names: Vec<&str> = specs.iter().map(|s| s.name.as_str()).collect();
    assert_eq!(names, vec!["glm", "fmt"]);
    assert!(specs.iter().all(|s| s.public));
}

#[test]
fn generate_vendor_libs_all_platforms() {
    let app = TritonComponent { vendor_libs: VendorLibs::All(vec!["vendor/libfoo.a".into()]), ..component("exe") };
    let root = project("demo", vec![], vec![("App", app)]);
    let cm = rewrite("App", &root);
    assert!(cm.contains("vendor/libfoo.a"), "vendor_libs should appear in generated CMake");
    assert!(cm.contains("target_link_libraries"), "vendor_libs should use target_link_libraries");
}

#[test]
fn exports_field_generates_public_link() {
    let mut core = component("lib");
    core.link = vec![LinkEntry::Name("glm".into())];
    core.exports = vec!["glm".into()];
    let root = project("demo", vec![DepSpec::Simple("glm".into())], vec![("Core", core)]);
    let cm = rewrite("Core", &root);
    assert!(cm.contains("glm"), "Core CMake should reference glm");
    assert!(cm.contains("PUBLIC"), "an exported dependency is linked publicly");
}
