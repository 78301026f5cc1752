use triton::commands::add::{add_item, add_to_manifest, manifest_edit, AddedItem, ManifestDep, ManifestEdit};
use triton::commands::generate::comma_list_exec;
use triton::commands::remove::{remove_component, remove_dependency};
use triton::models::{find_component, DepDetailed, DepSpec, LinkEntry, TritonComponent, TritonRoot};

fn min_root() -> TritonRoot {
    TritonRoot {
        app_name: "demo".into(),
        generator: "Ninja".into(),
        cxx_std: "20".into(),
        c_std: None,
        deps: vec![],
        components: vec![],
        scripts: vec![],
    }
}

fn comp<'a>(r: &'a TritonRoot, name: &str) -> Option<&'a TritonComponent> {
    find_component(r, name).map(|i| &r.components[i].1)
}

fn links(c: &TritonComponent, name: &str) -> usize {
    c.link.iter().filter(|e| e.normalize().0 == name).count()
}

/// The manifest's dependencies after an edit: a bare name or an object.
/// `triton add` on the model and on the manifest's dependencies.
fn add(root: &mut TritonRoot, manifest: &mut Vec<ManifestDep>, items: &[&str], features: Option<&str>) {
    for it in items {
        match add_item(root, it, features) {
            AddedItem::Vcpkg { pkg, .. } => {
                let feats = match features {
                    Some(f) => comma_list_exec(f),
                    None => vec![],
                };
                add_to_manifest(manifest, &pkg, &feats);
            }
            AddedItem::Git { .. } => {}
        }
    }
}

fn has_plain(manifest: &[ManifestDep], name: &str) -> bool {
    manifest.iter().any(|d| !d.object && d.name == name)
}

fn object<'a>(manifest: &'a [ManifestDep], name: &str) -> Option<&'a ManifestDep> {
    manifest.iter().find(|d| d.object && d.name == name)
}

fn find_dep<'a>(r: &'a TritonRoot, name: &str) -> Option<&'a DepSpec> {
    r.deps.iter().find(|d| d.name() == name)
}

// triton add

#[test]
fn add_vcpkg_dep_updates_triton_and_manifest_and_calls_stub_vcpkg() {
    let mut t = min_root();
    let mut mani = vec![];
    add(&mut t, &mut mani, &["glm"], None);
    assert!(t.deps.iter().any(|d| matches!(d, DepSpec::Simple(n) if n == "glm")));
    assert!(has_plain(&mani, "glm"));
}

#[test]
fn add_vcpkg_dep_with_component_scaffolds_and_links() {
    let mut t = min_root();
    let mut mani = vec![];
    add(&mut t, &mut mani, &["sdl2:Game"], None);
    let game = comp(&t, "Game").unwrap();
    assert_eq!(game.kind, "lib");
    assert!(game.link.iter().any(|e| matches!(e, LinkEntry::Name(n) if n == "sdl2")));
    assert!(has_plain(&mani, "sdl2"));
}

#[test]
fn add_vcpkg_dep_is_idempotent() {
    let mut t = min_root();
    let mut mani = vec![];
    add(&mut t, &mut mani, &["entt"], None);
    add(&mut t, &mut mani, &["entt"], None);
    let count = t.deps.iter().filter(|d| matches!(d, DepSpec::Simple(n) if n == "entt")).count();
    assert_eq!(count, 1);
    assert_eq!(mani.iter().filter(|d| d.name == "entt").count(), 1);
}

#[test]
fn add_multiple_deps_at_once() {
    let mut t = min_root();
    let mut mani = vec![];
    add(&mut t, &mut mani, &["glm", "sdl2", "entt"], None);
    for n in ["glm", "sdl2", "entt"] {
        assert!(t.deps.iter().any(|d| matches!(d, DepSpec::Simple(x) if x == n)));
        assert!(has_plain(&mani, n));
    }
}

#[test]
fn add_with_arrow_syntax() {
    let mut t = min_root();
    let mut mani = vec![];
    add(&mut t, &mut mani, &["lua->Engine"], None);
    assert!(t.deps.iter().any(|d| matches!(d, DepSpec::Simple(n) if n == "lua")));
    let engine = comp(&t, "Engine").expect("Engine component should exist");
    assert!(engine.link.iter().any(|e| matches!(e, LinkEntry::Name(n) if n == "lua")));
}

#[test]
fn add_git_dep_records_and_links_without_clone_when_already_present() {
    let mut t = min_root();
    let r = add_item(&mut t, "google/filament@main:UI", None);
    match r {
        AddedItem::Git { clone_url, name, branch, link_to } => {
            assert_eq!(clone_url, "https://github.com/google/filament.git");
            assert_eq!(name, "filament");
            assert_eq!(branch.as_deref(), Some("main"));
            assert_eq!(link_to.as_deref(), Some("UI"));
        }
        AddedItem::Vcpkg { .. } => panic!("expected a git dependency"),
    }
    assert!(t.deps.iter().any(|d| matches!(d,
        DepSpec::Git(g) if g.name == "filament" && g.repo == "google/filament"
    )));
    let ui = comp(&t, "UI").unwrap();
    assert!(ui.link.iter().any(|e| matches!(e, LinkEntry::Name(n) if n == "filament")));
}

#[test]
fn add_git_dep_full_url() {
    let mut t = min_root();
    add_item(&mut t, "https://github.com/ocornut/imgui.git@docking->UI", None);
    let git_dep = t.deps.iter().find(|d| matches!(d, DepSpec::Git(g) if g.name == "imgui"));
    match git_dep {
        Some(DepSpec::Git(g)) => {
            assert_eq!(g.branch.as_deref(), Some("docking"));
            assert_eq!(g.repo, "ocornut/imgui");
        }
        _ => panic!("imgui git dep should exist"),
    }
    let ui = comp(&t, "UI").expect("UI component should exist");
    assert!(ui.link.iter().any(|e| matches!(e, LinkEntry::Name(n) if n == "imgui")));
}

#[test]
fn add_git_dep_shorthand_no_branch() {
    let mut t = min_root();
    add_item(&mut t, "google/filament:Render", None);
    match t.deps.iter().find(|d| matches!(d, DepSpec::Git(g) if g.name == "filament")) {
        Some(DepSpec::Git(g)) => assert!(g.branch.is_none()),
        _ => panic!("filament git dep should exist"),
    }
    let render = comp(&t, "Render").expect("Render component should exist");
    assert!(render.link.iter().any(|e| matches!(e, LinkEntry::Name(n) if n == "filament")));
}

#[test]
fn add_to_existing_component_preserves_other_links() {
    let mut t = min_root();
    t.deps.push(DepSpec::Simple("glm".into()));
    t.components.push((
        "Game".into(),
        TritonComponent { kind: "exe".into(), link: vec![LinkEntry::Name("glm".into())], ..Default::default() },
    ));
    let mut mani = vec![];
    add(&mut t, &mut mani, &["sdl2:Game"], None);
    let game = comp(&t, "Game").expect("Game component should exist");
    assert_eq!(game.kind, "exe");
    assert_eq!(links(game, "glm"), 1);
    assert_eq!(links(game, "sdl2"), 1);
}

#[test]
fn add_creates_vcpkg_json_if_missing() {
    let mut t = min_root();
    let mut mani: Vec<ManifestDep> = Vec::new();
    assert!(mani.is_empty());
    add(&mut t, &mut mani, &["glm"], None);
    assert!(has_plain(&mani, "glm"));
}

#[test]
fn add_with_features_creates_detailed_dep_in_triton_json() {
    let mut t = min_root();
    let mut mani = vec![];
    add(&mut t, &mut mani, &["directxtex"], Some("dx12"));
    match find_dep(&t, "directxtex") {
        Some(DepSpec::Detailed(d)) => assert!(d.features.contains(&"dx12".to_string())),
        other => panic!("expected DepDetailed, got: {:?}", other),
    }
}

#[test]
fn add_with_features_writes_object_form_to_vcpkg_json() {
    let mut t = min_root();
    let mut mani = vec![];
    add(&mut t, &mut mani, &["directxtex"], Some("dx12,dx11"));
    let dtex = object(&mani, "directxtex").expect("directxtex should be an object");
    assert!(dtex.features.contains(&"dx11".to_string()));
    assert!(dtex.features.contains(&"dx12".to_string()));
}

#[test]
fn add_without_features_creates_simple_dep() {
    let mut t = min_root();
    let mut mani = vec![];
    add(&mut t, &mut mani, &["glm"], None);
    assert!(matches!(find_dep(&t, "glm"), Some(DepSpec::Simple(_))));
    assert!(has_plain(&mani, "glm"));
}

#[test]
fn add_features_to_existing_simple_dep_upgrades_to_detailed() {
    let mut t = min_root();
    let mut mani = vec![];
    add(&mut t, &mut mani, &["directxtex"], None);
    assert!(matches!(find_dep(&t, "directxtex"), Some(DepSpec::Simple(_))));
    add(&mut t, &mut mani, &["directxtex"], Some("dx12"));
    match find_dep(&t, "directxtex") {
        Some(DepSpec::Detailed(d)) => assert!(d.features.contains(&"dx12".to_string())),
        other => panic!("expected DepDetailed after upgrade, got: {:?}", other),
    }
    assert!(object(&mani, "directxtex").is_some(), "object form after upgrade");
    assert_eq!(t.deps.len(), 1);
}

#[test]
fn add_features_merges_with_existing_features() {
    let mut t = min_root();
    let mut mani = vec![];
    add(&mut t, &mut mani, &["directxtex"], Some("dx11"));
    add(&mut t, &mut mani, &["directxtex"], Some("dx12"));
    match find_dep(&t, "directxtex") {
        Some(DepSpec::Detailed(d)) => assert_eq!(d.features, vec!["dx11", "dx12"]),
        other => panic!("expected DepDetailed with merged features, got: {:?}", other),
    }
    let dtex = object(&mani, "directxtex").expect("directxtex object should exist");
    assert_eq!(dtex.features, vec!["dx11", "dx12"]);
}

#[test]
fn add_same_dep_twice_is_idempotent_in_triton_json() {
    let mut t = min_root();
    let mut mani = vec![];
    add(&mut t, &mut mani, &["directxtex"], Some("dx12"));
    add(&mut t, &mut mani, &["directxtex"], Some("dx12"));
    let count = t.deps.iter().filter(|d| d.name() == "directxtex").count();
    assert_eq!(count, 1);
    match find_dep(&t, "directxtex") {
        Some(DepSpec::Detailed(d)) => assert_eq!(d.features, vec!["dx12"]),
        other => panic!("expected DepDetailed, got: {:?}", other),
    }
}

#[test]
fn add_same_dep_twice_with_link_is_idempotent() {
    let mut t = min_root();
    let mut mani = vec![];
    add(&mut t, &mut mani, &["glm:App"], None);
    add(&mut t, &mut mani, &["glm:App"], None);
    assert_eq!(t.deps.iter().filter(|d| d.name() == "glm").count(), 1);
    assert_eq!(links(comp(&t, "App").unwrap(), "glm"), 1);
    assert_eq!(mani.iter().filter(|d| !d.object && d.name == "glm").count(), 1);
}

#[test]
fn add_features_list_is_trimmed_and_blank_pieces_dropped() {
    assert_eq!(comma_list_exec(" dx12 , ,dx11,"), vec!["dx12", "dx11"]);
    let mut t = min_root();
    let mut mani = vec![];
    add(&mut t, &mut mani, &["glm"], Some(" , "));
    assert!(matches!(find_dep(&t, "glm"), Some(DepSpec::Simple(_))));
}

// triton remove

fn root_with_components(components: Vec<(&str, TritonComponent)>) -> TritonRoot {
    let mut r = min_root();
    r.deps = vec![DepSpec::Simple("glm".into()), DepSpec::Simple("sdl2".into())];
    let mut comps: Vec<(String, TritonComponent)> =
        components.into_iter().map(|(n, c)| (n.to_string(), c)).collect();
    comps.sort_by(|a, b| a.0.cmp(&b.0));
    r.components = comps;
    r
}

fn lib(kind: &str, l: &[&str]) -> TritonComponent {
    TritonComponent {
        kind: kind.into(),
        link: l.iter().map(|x| LinkEntry::Name(x.to_string())).collect(),
        ..Default::default()
    }
}

#[test]
fn remove_unlinks_only_from_target_component_when_component_opt_is_used() {
    let mut t = root_with_components(vec![("A", lib("lib", &["glm", "sdl2"])), ("B", lib("lib", &["glm"]))]);
    remove_dependency(&mut t, "glm", Some("A")).unwrap();
    assert!(t.deps.iter().any(|d| matches!(d, DepSpec::Simple(n) if n == "glm")));
    let a = comp(&t, "A").unwrap();
    assert_eq!(links(a, "glm"), 0);
    assert_eq!(links(a, "sdl2"), 1);
    assert_eq!(links(comp(&t, "B").unwrap(), "glm"), 1);
}

#[test]
fn remove_from_missing_component_returns_error() {
    let mut t = min_root();
    t.deps = vec![DepSpec::Simple("glm".into())];
    let err = remove_dependency(&mut t, "glm", Some("NoSuchComponent")).unwrap_err();
    let msg = err.message();
    assert!(msg.contains("No such component"), "got: {msg}");
    assert_eq!(t.deps.len(), 1);
}

#[test]
fn remove_twice_is_idempotent() {
    let mut t = root_with_components(vec![("App", lib("exe", &["glm", "sdl2"]))]);
    remove_dependency(&mut t, "glm", None).unwrap();
    remove_dependency(&mut t, "glm", None).unwrap();
    assert!(!t.deps.iter().any(|d| d.name() == "glm"));
    assert!(t.deps.iter().any(|d| d.name() == "sdl2"));
    let app = comp(&t, "App").unwrap();
    assert_eq!(links(app, "glm"), 0);
    assert_eq!(links(app, "sdl2"), 1);
}

#[test]
fn remove_matches_name_ignoring_case_and_git_repo() {
    let mut t = root_with_components(vec![("App", lib("exe", &["GLM", "sdl2"]))]);
    remove_dependency(&mut t, "Glm", None).unwrap();
    assert!(!t.deps.iter().any(|d| d.name() == "glm"));
    assert_eq!(links(comp(&t, "App").unwrap(), "GLM"), 0);
    let mut g = min_root();
    add_item(&mut g, "google/filament", None);
    remove_dependency(&mut g, "google/filament", None).unwrap();
    assert!(g.deps.is_empty());
}

// triton remove-component

#[test]
fn remove_component_deletes_from_triton_json_and_disk() {
    let mut t = root_with_components(vec![("Core", lib("lib", &[])), ("App", lib("exe", &[]))]);
    remove_component(&mut t, "Core").unwrap();
    assert!(comp(&t, "Core").is_none(), "Core should be removed");
    assert!(comp(&t, "App").is_some(), "App should still exist");
}

#[test]
fn remove_component_unlinks_from_dependents() {
    let mut t = root_with_components(vec![("Engine", lib("lib", &["glm"])), ("Game", lib("exe", &["Engine", "sdl2"]))]);
    remove_component(&mut t, "Engine").unwrap();
    assert!(comp(&t, "Engine").is_none());
    let game = comp(&t, "Game").expect("Game should still exist");
    assert_eq!(links(game, "Engine"), 0);
    assert_eq!(links(game, "sdl2"), 1);
}

#[test]
fn remove_component_clears_exports_referencing_it() {
    let mut app = lib("exe", &["Core"]);
    app.exports = vec!["Core".into()];
    let mut t = root_with_components(vec![("Core", lib("lib", &[])), ("App", app)]);
    remove_component(&mut t, "Core").unwrap();
    let app = comp(&t, "App").unwrap();
    assert!(!app.exports.contains(&"Core".to_string()));
    assert_eq!(links(app, "Core"), 0);
}

#[test]
fn remove_nonexistent_component_returns_error() {
    let mut t = root_with_components(vec![("App", lib("exe", &[]))]);
    let err = remove_component(&mut t, "Ghost").unwrap_err();
    let msg = err.message();
    assert!(msg.contains("No such component"), "got: {msg}");
    assert_eq!(msg, "No such component 'Ghost'");
}

#[test]
fn remove_component_preserves_deps() {
    let mut t = root_with_components(vec![("Core", lib("lib", &["glm"]))]);
    remove_component(&mut t, "Core").unwrap();
    assert!(t.deps.iter().any(|d| d.name() == "glm"));
    assert!(t.deps.iter().any(|d| d.name() == "sdl2"));
}

#[test]
fn add_same_dep_twice_with_features_changes_nothing_more() {
    let mut t = min_root();
    let mut mani = vec![];
    add(&mut t, &mut mani, &["directxtex:App"], Some("dx12,dx11"));
    let once: Vec<String> = match find_dep(&t, "directxtex") {
        Some(DepSpec::Detailed(d)) => d.features.clone(),
        other => panic!("expected a detailed dep, got {:?}", other),
    };
    add(&mut t, &mut mani, &["directxtex:App"], Some("dx12,dx11"));
    assert_eq!(t.deps.iter().filter(|d| d.name() == "directxtex").count(), 1);
    match find_dep(&t, "directxtex") {
        Some(DepSpec::Detailed(d)) => assert_eq!(d.features, once),
        other => panic!("expected a detailed dep, got {:?}", other),
    }
    assert_eq!(once, vec!["dx12", "dx11"]);
    assert_eq!(links(comp(&t, "App").unwrap(), "directxtex"), 1);
}

#[test]
fn remove_detailed_dep_globally() {
    let mut t = min_root();
    t.deps = vec![DepSpec::Detailed(DepDetailed {
        name: "sdl2".into(),
        os: vec!["windows".into()],
        package: Some("SDL2".into()),
        triplet: vec![],
        features: vec!["vulkan".into()],
    })];
    t.components = vec![("App".to_string(), lib("exe", &["sdl2"]))];
    remove_dependency(&mut t, "sdl2", None).unwrap();
    assert!(
        !t.deps.iter().any(|d| match d {
            DepSpec::Detailed(dd) => dd.name == "sdl2",
            _ => false,
        }),
        "Detailed dep 'sdl2' should be removed"
    );
    assert_eq!(links(comp(&t, "App").unwrap(), "sdl2"), 0, "sdl2 should be unlinked from App");
}

#[test]
fn add_same_dep_to_two_components_no_duplicate_in_deps() {
    let mut t = min_root();
    let mut mani = vec![];
    add(&mut t, &mut mani, &["glm:A"], None);
    add(&mut t, &mut mani, &["glm:B"], None);
    let glm_count = t.deps.iter().filter(|d| matches!(d, DepSpec::Simple(n) if n == "glm")).count();
    assert_eq!(glm_count, 1, "glm should appear exactly once in deps");
    assert_eq!(links(comp(&t, "A").unwrap(), "glm"), 1, "A should link glm");
    assert_eq!(links(comp(&t, "B").unwrap(), "glm"), 1, "B should link glm");
    assert_eq!(mani.iter().filter(|d| d.name == "glm").count(), 1);
}

#[test]
fn manifest_add_twice_changes_nothing_more() {
    let mut mani = vec![ManifestDep { name: "fmt".into(), features: vec![], object: false }];
    let feats = vec!["dx12".to_string(), "dx11".to_string()];
    add_to_manifest(&mut mani, "directxtex", &feats);
    add_to_manifest(&mut mani, "glm", &vec![]);
    assert_eq!(mani.len(), 3);
    add_to_manifest(&mut mani, "directxtex", &feats);
    add_to_manifest(&mut mani, "glm", &vec![]);
    assert_eq!(mani.len(), 3);
    assert_eq!(mani[1].name, "directxtex");
    assert!(mani[1].object);
    assert_eq!(mani[1].features, feats);
    assert!(!mani[2].object);
    assert!(matches!(manifest_edit(&mani, "glm", &vec![]), ManifestEdit::Keep));
}
