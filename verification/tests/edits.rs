use superwork::bump;
use superwork::fix_dual_spec as fix;
use superwork::manifest::read_manifest;
use superwork::patch;
use toml_edit::DocumentMut;
use superwork::config::CrateClass;
use superwork::discover::{CrateInfo, DepSection, Ecosystem, InternalDep};
use superwork::text_map::TextMap;

fn s(t: &str) -> String {
    t.to_string()
}

fn info(name: &str, repo: &str) -> CrateInfo {
    CrateInfo {
        name: s(name),
        version: s("0.1.0"),
        manifest_path: format!("/w/{repo}/{name}/Cargo.toml"),
        repo_dir: s(repo),
        publishable: true,
        github_url: None,
        workspace_root: None,
        inline_ci: None,
        inline_checks: None,
        class: CrateClass::Library,
    }
}

fn dep(from: &str, to: &str) -> InternalDep {
    InternalDep {
        from_crate: s(from),
        to_crate: s(to),
        dep_key: s(to),
        section: DepSection::Dependencies,
        has_version: true,
        has_path: true,
        is_optional: false,
        path_value: Some(format!("../{to}")),
        version_value: Some(s("0.1")),
        manifest_path: format!("/w/{from}/{from}/Cargo.toml"),
    }
}

fn ecosystem(crates: Vec<CrateInfo>, deps: Vec<InternalDep>) -> Ecosystem {
    let mut map = TextMap::new();
    for c in crates {
        map.insert(c.name.clone(), c);
    }
    Ecosystem { root: s("/w"), crates: map, deps }
}

fn doc(content: &str) -> DocumentMut {
    match read_manifest("Cargo.toml", content) {
        Ok(d) => d,
        Err(e) => panic!("{e}"),
    }
}

#[test]
fn only_known_crates_are_bumped() {
    let eco = ecosystem(vec![info("a", "x")], Vec::new());
    assert_eq!(bump::bump_target(&eco, "a").map(|c| c.name.clone()), Ok(s("a")));
    assert_eq!(
        bump::bump_target(&eco, "b").map(|c| c.name.clone()),
        Err(s("crate 'b' not found in ecosystem"))
    );
}

#[test]
fn dependents_are_those_with_a_version() {
    let mut path_only = dep("z", "a");
    path_only.has_version = false;
    let eco = ecosystem(
        vec![info("a", "x")],
        vec![dep("c", "a"), path_only, dep("b", "a"), dep("b", "q")],
    );
    let found = bump::dependents(&eco, "a");
    let names: Vec<&str> = found.iter().map(|g| g.deps[0].from_crate.as_str()).collect();
    assert_eq!(names, vec!["b", "c"]);
    assert_eq!(found[0].deps.len(), 1);
}

#[test]
fn requirements_follow_a_bump() {
    let mut d = doc(
        "[dependencies]\na = { version = \"0.1\", path = \"../a\" }\n\n\
         [dev-dependencies]\na = \"0.1\"\n\n[workspace.dependencies]\na = \"0.1\"\n",
    );
    let mut dev = dep("b", "a");
    dev.section = DepSection::DevDependencies;
    let mut ws = dep("b", "a");
    ws.section = DepSection::WorkspaceDependencies;
    let deps = vec![dep("b", "a"), dev, ws];
    assert_eq!(bump::update_requirements(&mut d, &deps, "a", "0.2.0"), 3);
    assert_eq!(d["dependencies"]["a"]["version"].as_str(), Some("0.2.0"));
    assert_eq!(d["dependencies"]["a"]["path"].as_str(), Some("../a"));
    assert_eq!(d["dev-dependencies"]["a"].as_str(), Some("0.2.0"));
    assert_eq!(d["workspace"]["dependencies"]["a"].as_str(), Some("0.2.0"));
    // Only the workspace entry counts again
    assert_eq!(bump::update_requirements(&mut d, &deps, "a", "0.2.0"), 1);
}

#[test]
fn patching_points_at_the_crates() {
    let eco = ecosystem(vec![info("a", "x"), info("b", "y")], Vec::new());
    let mut d = doc("[dependencies]\na = \"0.1\"\nb = { version = \"0.1\" }\n");
    let deps = vec![dep("c", "a"), dep("c", "b"), dep("c", "unknown")];
    let targets = patch::patch_targets(&deps, &eco);
    assert_eq!(targets.len(), 2);
    assert_eq!(targets[0].name, "a");
    assert_eq!(targets[0].dir, "/w/x/a");
    assert_eq!(patch::patch_manifest(&mut d, "/w/z/c", &targets), 2);
    assert_eq!(d["dependencies"]["a"]["path"].as_str(), Some("../../x/a"));
    assert_eq!(d["dependencies"]["a"]["version"].as_str(), Some("0.1"));
    assert_eq!(d["dependencies"]["b"]["path"].as_str(), Some("../../y/b"));
    assert_eq!(patch::patch_manifest(&mut d, "/w/z/c", &targets), 0);
}

#[test]
fn unpatching_undoes_patching() {
    let eco = ecosystem(vec![info("a", "x")], Vec::new());
    let before = "[dependencies]\na = { version = \"0.1\" }\n";
    let mut d = doc(before);
    let deps = vec![dep("c", "a")];
    patch::patch_manifest(&mut d, "/w/z/c", &patch::patch_targets(&deps, &eco));
    assert!(d.to_string().contains("path"));
    let undone = patch::unpatch_manifest(&mut d, &deps, &eco);
    assert_eq!(undone.changes, 1);
    assert!(undone.blocked.is_empty());
    assert!(!d.to_string().contains("path"));
    assert_eq!(d["dependencies"]["a"]["version"].as_str(), Some("0.1"));
}

#[test]
fn path_only_deps_block_unpatching() {
    let mut private = info("tool", "x");
    private.publishable = false;
    let eco = ecosystem(vec![info("a", "x"), private], Vec::new());
    let mut to_a = dep("c", "a");
    to_a.has_version = false;
    let mut to_tool = dep("c", "tool");
    to_tool.has_version = false;
    let mut no_path = dep("c", "b");
    no_path.has_path = false;
    let text = "[dependencies]\na = { path = \"../a\" }\ntool = { path = \"../tool\" }\nb = \"1\"\n";
    let mut d = doc(text);
    let outcome = patch::unpatch_manifest(&mut d, &vec![to_a, to_tool, no_path], &eco);
    assert_eq!(outcome.changes, 0);
    assert_eq!(outcome.blocked, vec![(s("c"), s("a"))]);
    assert_eq!(d.to_string(), text);
}

fn path_only(from: &str, to: &str) -> InternalDep {
    let mut d = dep(from, to);
    d.has_version = false;
    d.version_value = None;
    d
}

#[test]
fn path_only_deps_between_published_crates_are_fixed() {
    let mut private = info("tool", "x");
    private.publishable = false;
    let eco = ecosystem(
        vec![info("zenpng", "x"), info("zenjpeg", "x"), info("base", "x"), private],
        vec![
            path_only("zenpng", "base"),
            path_only("zenjpeg", "base"),
            path_only("zenpng", "zenjpeg"),
            path_only("tool", "base"),
            path_only("zenpng", "tool"),
            dep("zenpng", "base"),
        ],
    );
    let found = |filter: Option<&str>, target: Option<&str>| -> Vec<(String, String)> {
        fix::deps_to_fix(&eco, filter, target)
            .iter()
            .map(|d| (d.from_crate.clone(), d.to_crate.clone()))
            .collect()
    };
    assert_eq!(found(None, None).len(), 3);
    assert_eq!(found(Some("*jpeg"), None), vec![(s("zenjpeg"), s("base"))]);
    assert_eq!(found(Some("zen*g"), Some("zenjpeg")), vec![(s("zenpng"), s("zenjpeg"))]);
    assert!(found(Some("nothing"), None).is_empty());
}

#[test]
fn inherited_entries_are_recognized() {
    let content = "[dependencies]\na = { workspace = true }\nb = \"1\"\n";
    let inherited = |name: &str| fix::is_dep_workspace_inherited("x", content, "dependencies", name);
    assert_eq!(inherited("a"), Ok(true));
    assert_eq!(inherited("b"), Ok(false));
    assert_eq!(inherited("c"), Ok(false));
    match fix::is_dep_workspace_inherited("x", "[", "dependencies", "a") {
        Err(e) => assert!(e.starts_with("parsing x: ")),
        Ok(_) => panic!("not a manifest"),
    }
    assert_eq!(fix::member_section(DepSection::BuildDependencies), "build-dependencies");
    assert_eq!(fix::member_section(DepSection::WorkspaceDependencies), "dependencies");
}

#[test]
fn workspace_entries_are_scheduled_once() {
    let mut a = info("a", "x");
    a.workspace_root = Some(s("/w/x/Cargo.toml"));
    let mut b = info("b", "x");
    b.workspace_root = Some(s("/w/x/Cargo.toml"));
    let mut base = info("base", "y");
    base.version = s("0.7.0");
    let eco = ecosystem(vec![a, b, base], Vec::new());
    let mut edits = Vec::new();
    assert_eq!(fix::plan_edit(&mut edits, &path_only("a", "base"), &eco, true), Ok(()));
    assert_eq!(fix::plan_edit(&mut edits, &path_only("b", "base"), &eco, true), Ok(()));
    assert_eq!(fix::plan_edit(&mut edits, &path_only("b", "base"), &eco, false), Ok(()));
    assert_eq!(edits.len(), 2);
    assert!(edits[0].workspace_dep && !edits[1].workspace_dep);
    assert_eq!(edits[0].version, "0.7.0");
    assert_eq!(fix::manifests_to_edit(&edits), vec![s("/w/b/b/Cargo.toml"), s("/w/x/Cargo.toml")]);

    let mut ws = doc("[workspace.dependencies]\nbase = { path = \"../y/base\" }\n");
    let fixed = fix::apply_edits(&mut ws, &edits, "/w/x/Cargo.toml");
    assert_eq!(fixed.changes, 1);
    assert_eq!(fixed.names, vec![s("base")]);
    assert_eq!(ws["workspace"]["dependencies"]["base"]["version"].as_str(), Some("0.7.0"));
    let mut own = doc("[dependencies]\nbase = { path = \"../y/base\" }\n");
    assert_eq!(fix::apply_edits(&mut own, &edits, "/w/b/b/Cargo.toml").changes, 1);
    assert_eq!(own["dependencies"]["base"]["path"].as_str(), Some("../y/base"));
    assert_eq!(own["dependencies"]["base"]["version"].as_str(), Some("0.7.0"));
}

#[test]
fn inherited_entries_need_a_workspace() {
    let eco = ecosystem(vec![info("a", "x"), info("base", "y")], Vec::new());
    let mut edits = Vec::new();
    assert_eq!(
        fix::plan_edit(&mut edits, &path_only("a", "base"), &eco, true),
        Err(s("a -> base: workspace-inherited dep but no workspace root found"))
    );
    assert!(edits.is_empty());
}
