use triton::cmake::languages::ComponentLanguageSettings;
use triton::cmake::staging::{gen_component_assets_lines, gen_component_resources_lines};
use triton::cmake::settings::{
    gen_component_extra_sources_lines, gen_component_include_dirs_lines, gen_component_system_libs_lines,
    generate_component_language_block, staged_source_expr,
};
use triton::models::TritonComponent;

fn component(kind: &str) -> TritonComponent {
    TritonComponent { kind: kind.into(), ..Default::default() }
}

#[test]
fn staged_paths_resolve_against_component_or_project() {
    assert_eq!(
        staged_source_expr(" assets\\img ", "${CMAKE_CURRENT_SOURCE_DIR}"),
        ("${CMAKE_CURRENT_SOURCE_DIR}/assets/img".to_string(), "assets/img".to_string())
    );
    assert_eq!(
        staged_source_expr("@root/shared/inc", "${X}"),
        ("${CMAKE_SOURCE_DIR}/../shared/inc".to_string(), "shared/inc".to_string())
    );
}

#[test]
fn include_dirs_are_private_to_executables() {
    let exe = TritonComponent { include_dirs: vec!["inc".into(), "  ".into(), "@root/common".into()], ..component("exe") };
    assert_eq!(
        gen_component_include_dirs_lines(&exe),
        vec![
            "set_property(TARGET ${_comp_name} PROPERTY TRITON_MANUAL_INCLUDE_DIRS TRUE)".to_string(),
            "target_include_directories(${_comp_name} PRIVATE \"${CMAKE_CURRENT_SOURCE_DIR}/inc\")".to_string(),
            "target_include_directories(${_comp_name} PRIVATE \"${CMAKE_SOURCE_DIR}/../common\")".to_string(),
        ]
    );
    let lib = TritonComponent { include_dirs: vec!["inc".into()], ..component("lib") };
    assert_eq!(gen_component_include_dirs_lines(&lib)[1], "target_include_directories(${_comp_name} PUBLIC \"${CMAKE_CURRENT_SOURCE_DIR}/inc\")");
    assert!(gen_component_include_dirs_lines(&component("lib")).is_empty());
}

#[test]
fn extra_sources_are_added_when_present() {
    let c = TritonComponent { sources: vec!["gen/a.cpp".into()], ..component("lib") };
    assert_eq!(
        gen_component_extra_sources_lines(&c),
        vec![
            "set_property(TARGET ${_comp_name} PROPERTY TRITON_MANUAL_SOURCES TRUE)".to_string(),
            "if(EXISTS \"${CMAKE_CURRENT_SOURCE_DIR}/gen/a.cpp\")".to_string(),
            "  target_sources(${_comp_name} PRIVATE \"${CMAKE_CURRENT_SOURCE_DIR}/gen/a.cpp\")".to_string(),
            "else()".to_string(),
            "  message(WARNING \"triton: source path not found for '${_comp_name}': gen/a.cpp\")".to_string(),
            "endif()".to_string(),
        ]
    );
    assert!(gen_component_extra_sources_lines(&component("lib")).is_empty());
}

#[test]
fn system_libs_skip_blank_names() {
    let c = TritonComponent { system_libs: vec!["ws2_32".into(), " ".into(), "m".into()], ..component("exe") };
    assert_eq!(
        gen_component_system_libs_lines(&c),
        vec![
            "target_link_libraries(${_comp_name} PRIVATE".to_string(),
            "    \"ws2_32\"".to_string(),
            "    \"m\"".to_string(),
            ")".to_string(),
        ]
    );
    let blank = TritonComponent { system_libs: vec!["".into()], ..component("exe") };
    assert!(gen_component_system_libs_lines(&blank).is_empty());
}

#[test]
fn language_block_sets_the_standards_in_use() {
    let both = ComponentLanguageSettings { uses_c: true, uses_cxx: true, c_std: Some("11".into()), cxx_std: Some("20".into()) };
    assert_eq!(
        generate_component_language_block(&both),
        "set_property(TARGET ${_comp_name} PROPERTY C_STANDARD 11)\nset_property(TARGET ${_comp_name} PROPERTY CXX_STANDARD 20)"
    );
    let none = ComponentLanguageSettings { uses_c: false, uses_cxx: false, c_std: None, cxx_std: None };
    assert_eq!(generate_component_language_block(&none), "");
}

#[test]
fn resources_and_assets_are_staged_from_their_cleaned_paths() {
    let c = TritonComponent {
        resources: vec!["@root/shared/fonts".into(), "data\\maps".into()],
        ..component("exe")
    };
    let lines = gen_component_resources_lines(&c);
    assert_eq!(
        lines[0],
        "add_custom_command(TARGET ${_comp_name} POST_BUILD\n    COMMAND ${CMAKE_COMMAND} -E copy_directory\n        \"${CMAKE_SOURCE_DIR}/../shared/fonts\"\n        \"$<TARGET_FILE_DIR:${_comp_name}>/fonts\"\n    COMMENT \"Copying 'shared/fonts' next to executable\"\n)"
    );
    assert!(lines[2].contains("\"${CMAKE_CURRENT_SOURCE_DIR}/data/maps\""));
    assert!(lines[2].contains("$<TARGET_FILE_DIR:${_comp_name}>/maps\""));

    let a = TritonComponent { assets: vec!["@root/shared/logo.png".into()], ..component("exe") };
    let lines = gen_component_assets_lines(&a);
    assert_eq!(lines[2], "set(_triton_asset_src_shared_logo_png \"${CMAKE_SOURCE_DIR}/../shared/logo.png\")");
    assert!(lines.contains(&"  message(WARNING \"triton: asset path not found for '${_comp_name}': shared/logo.png\")".to_string()));
}

#[test]
fn resource_copy_names_follow_the_final_component() {
    let c = TritonComponent {
        resources: vec!["/opt/data".into(), "../shared".into(), "assets/./tex/".into(), "..".into()],
        ..component("exe")
    };
    let lines = gen_component_resources_lines(&c);
    assert!(lines[0].contains("\"$<TARGET_FILE_DIR:${_comp_name}>/data\""));
    assert!(lines[2].contains("\"$<TARGET_FILE_DIR:${_comp_name}>/shared\""));
    assert!(lines[4].contains("\"$<TARGET_FILE_DIR:${_comp_name}>/tex\""));
    assert!(lines[6].contains("\"$<TARGET_FILE_DIR:${_comp_name}>/..\""));
}
