use triton::cmake::rewrite::rewrite_component_cmake;
use triton::commands::link::{link, unlink, LinkError, LinkOutcome, UnlinkOutcome};
use triton::models::{find_component, DepDetailed, DepSpec, LinkEntry, TritonComponent, TritonRoot};

fn project(deps: Vec<DepSpec>, components: Vec<(&str, &[&str])>) -> TritonRoot {
    let mut comps: Vec<(String, TritonComponent)> = components
        .into_iter()
        .map(|(n, l)| {
            (
                n.to_string(),
                TritonComponent {
                    kind: "lib".into(),
                    link: l.iter().map(|x| LinkEntry::Name(x.to_string())).collect(),
                    ..Default::default()
                },
            )
        })
        .collect();
    comps.sort_by(|a, b| a.0.cmp(&b.0));
    TritonRoot {
        app_name: "demo".into(),
        generator: "Ninja".into(),
        cxx_std: "20".into(),
        c_std: None,
        deps,
        components: comps,
        scripts: vec![],
    }
}

fn comp<'a>(r: &'a TritonRoot, name: &str) -> &'a TritonComponent {
    &r.components[find_component(r, name).expect("component exists")].1
}

fn links(r: &TritonRoot, c: &str, name: &str) -> usize {
    comp(r, c).link.iter().filter(|e| e.normalize().0 == name).count()
}

fn simple(names: &[&str]) -> Vec<DepSpec> {
    names.iter().map(|n| DepSpec::Simple(n.to_string())).collect()
}

/// Game links glm, sdl2 and Core; Core links glm; Render links sdl2.
fn seeded() -> TritonRoot {
    project(
        simple(&["glm", "sdl2"]),
        vec![("Game", &["glm", "sdl2", "Core"]), ("Core", &["glm"]), ("Render", &["sdl2"])],
    )
}

// triton link

#[test]
fn link_dep_into_component_adds_dep_and_generates_cmake() {
    let mut r = project(simple(&["glm"]), vec![]);
    let out = link(&mut r, "glm", "Core", "linux", "x64-linux").unwrap();
    assert!(matches!(out, LinkOutcome::Linked));
    assert_eq!(links(&r, "Core", "glm"), 1);
    let cm = rewrite_component_cmake("Core", &r, comp(&r, "Core"), (3, 30, 1), None);
    assert!(cm.contains("find_package(glm") || cm.contains("triton_find_vcpkg_and_link_strict(${_comp_name} \"glm\")"));
}

#[test]
fn link_component_to_component_is_rhs_directional() {
    let mut r = project(vec![], vec![("Engine", &[])]);
    link(&mut r, "Engine", "Game", "linux", "x64-linux").unwrap();
    assert_eq!(links(&r, "Game", "Engine"), 1);
    assert_eq!(links(&r, "Engine", "Game"), 0);
    let cm = rewrite_component_cmake("Game", &r, comp(&r, "Game"), (3, 30, 1), None);
    assert!(cm.contains("target_link_libraries(${_comp_name} PRIVATE Engine)"));
    assert!(cm.contains("${CMAKE_SOURCE_DIR}/Engine/include"));
}

#[test]
fn rhs_cannot_be_a_dep() {
    let mut r = project(simple(&["sdl2"]), vec![]);
    let err = link(&mut r, "Engine", "sdl2", "linux", "x64-linux").err().expect("should error");
    assert!(matches!(err, LinkError::TargetIsDep(_)));
    let msg = err.message();
    assert!(msg.contains("Right-hand side") && msg.contains("must be a component"), "got: {msg}");
    assert!(r.components.is_empty());
}

#[test]
fn link_rejects_self_link() {
    let mut r = project(vec![], vec![]);
    let err = link(&mut r, "Core", "Core", "linux", "x64-linux").unwrap_err();
    assert!(err.message().contains("cannot link to itself"));
    assert!(r.components.is_empty());
}

#[test]
fn linking_is_idempotent() {
    let mut r = project(vec![], vec![]);
    link(&mut r, "A", "B", "linux", "x64-linux").unwrap();
    link(&mut r, "A", "B", "linux", "x64-linux").unwrap();
    assert_eq!(links(&r, "B", "A"), 1);
    assert!(find_component(&r, "A").is_some());
}

#[test]
fn link_multiple_deps_sequentially() {
    let mut r = project(simple(&["glm", "sdl2"]), vec![]);
    link(&mut r, "glm", "Core", "linux", "x64-linux").unwrap();
    link(&mut r, "sdl2", "Core", "linux", "x64-linux").unwrap();
    assert_eq!(links(&r, "Core", "glm"), 1);
    assert_eq!(links(&r, "Core", "sdl2"), 1);
    assert_eq!(r.components.len(), 1);
}

#[test]
fn link_skips_dependency_inactive_on_host() {
    let d3d = DepSpec::Detailed(DepDetailed {
        name: "d3d12".into(),
        os: vec!["windows".into()],
        package: None,
        triplet: vec![],
        features: vec![],
    });
    let mut r = project(vec![d3d], vec![]);
    let out = link(&mut r, "d3d12", "Render", "linux", "x64-linux").unwrap();
    assert!(matches!(out, LinkOutcome::DepInactive));
    assert_eq!(links(&r, "Render", "d3d12"), 0);
    let out2 = link(&mut r, "d3d12", "Render", "windows", "x64-windows").unwrap();
    assert!(matches!(out2, LinkOutcome::Linked));
    assert_eq!(links(&r, "Render", "d3d12"), 1);
}

// triton unlink

#[test]
fn unlink_from_specific_component() {
    let mut r = seeded();
    let out = unlink(&mut r, "sdl2", Some("Game")).unwrap();
    assert!(matches!(out, UnlinkOutcome::Unlinked));
    assert_eq!(links(&r, "Game", "sdl2"), 0);
    assert_eq!(links(&r, "Game", "glm"), 1);
    assert_eq!(links(&r, "Game", "Core"), 1);
    assert_eq!(links(&r, "Render", "sdl2"), 1);
}

#[test]
fn unlink_from_all_components() {
    let mut r = seeded();
    match unlink(&mut r, "sdl2", None).unwrap() {
        UnlinkOutcome::UnlinkedFrom(names) => assert_eq!(names, vec!["Game", "Render"]),
        other => panic!("expected the components unlinked, got {:?}", other),
    }
    for (name, c) in &r.components {
        assert!(!c.link.iter().any(|e| e.normalize().0 == "sdl2"), "{name} still links sdl2");
    }
    assert_eq!(links(&r, "Game", "glm"), 1);
}

#[test]
fn unlink_nonexistent_link_is_noop() {
    let mut r = seeded();
    let out = unlink(&mut r, "boost", Some("Game")).unwrap();
    assert!(matches!(out, UnlinkOutcome::NotLinked));
    assert_eq!(comp(&r, "Game").link.len(), 3);
    assert!(matches!(unlink(&mut r, "boost", None).unwrap(), UnlinkOutcome::NotLinkedAnywhere));
}

#[test]
fn unlink_from_missing_component_errors() {
    let mut r = seeded();
    let err = unlink(&mut r, "glm", Some("NonExistent")).unwrap_err();
    let msg = err.message();
    assert!(msg.contains("No such component"), "got: {msg}");
}

#[test]
fn unlink_component_dep_preserves_deps_list() {
    let mut r = seeded();
    unlink(&mut r, "glm", Some("Core")).unwrap();
    assert!(r.deps.iter().any(|d| d.name() == "glm"));
    assert_eq!(links(&r, "Core", "glm"), 0);
}

#[test]
fn unlink_case_insensitive() {
    let mut r = seeded();
    unlink(&mut r, "GLM", Some("Game")).unwrap();
    assert!(!comp(&r, "Game").link.iter().any(|e| e.normalize().0.eq_ignore_ascii_case("glm")));
}

#[test]
fn link_then_unlink_restores_links() {
    let mut r = seeded();
    let before: Vec<String> = comp(&r, "Render").link.iter().map(|e| e.normalize().0).collect();
    link(&mut r, "glm", "Render", "linux", "x64-linux").unwrap();
    assert_eq!(links(&r, "Render", "glm"), 1);
    unlink(&mut r, "glm", Some("Render")).unwrap();
    let after: Vec<String> = comp(&r, "Render").link.iter().map(|e| e.normalize().0).collect();
    assert_eq!(before, after);
}

#[test]
fn link_then_unlink_restores_the_links() {
    let mut r = project(simple(&["glm"]), vec![("App", &["glm"][..]), ("Core", &[][..])]);
    let before: Vec<String> = comp(&r, "App").link.iter().map(|e| e.normalize().0).collect();
    assert!(matches!(link(&mut r, "Core", "App", "linux", "x64-linux"), Ok(LinkOutcome::Linked)));
    assert_eq!(links(&r, "App", "Core"), 1);
    assert!(matches!(unlink(&mut r, "Core", Some("App")), Ok(UnlinkOutcome::Unlinked)));
    let after: Vec<String> = comp(&r, "App").link.iter().map(|e| e.normalize().0).collect();
    assert_eq!(before, after);
}

#[test]
fn component_can_link_to_itself() {
    let mut r = project(vec![], vec![("Core", &[])]);
    let result = link(&mut r, "Core", "Core", "linux", "x64-linux");
    assert!(result.is_err(), "Self-link should be rejected");
    let msg = result.unwrap_err().message();
    assert!(msg.contains("cannot link to itself"), "got: {msg}");
    assert_eq!(links(&r, "Core", "Core"), 0);
}

#[test]
fn circular_component_deps_accepted() {
    let mut r = project(vec![], vec![("A", &[]), ("B", &[])]);
    // A depends on B: accepted.
    assert!(matches!(link(&mut r, "B", "A", "linux", "x64-linux"), Ok(LinkOutcome::Linked)));
    // B depends on A: closes a circle and is refused.
    let result = link(&mut r, "A", "B", "linux", "x64-linux");
    assert!(result.is_err(), "Circular dependency should be rejected");
    let msg = result.unwrap_err().message();
    assert!(msg.contains("Circular dependency"), "got: {msg}");
    assert_eq!(msg, "Circular dependency detected: A -> B -> A");
}

#[test]
fn link_refuses_a_longer_cycle() {
    let mut r = project(vec![], vec![("A", &["B"]), ("B", &["C"]), ("C", &[])]);
    match link(&mut r, "A", "C", "linux", "x64-linux") {
        Err(LinkError::Circular(c)) => assert_eq!(c, vec!["A", "B", "C", "A"]),
        other => panic!("expected a cycle, got {:?}", other),
    }
}
