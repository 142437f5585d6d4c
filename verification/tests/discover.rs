use superwork::discover;
use superwork::discover::{GlobPlan, MetadataBase};
use superwork::value::{parse_toml, Toml};
use superwork::config::{
    ChecksConfig, CiConfig, CiStrategy, ReleaseConfig, SuperworkConfig, SuperworkspaceMeta,
    UnpublishedConfig,
};
use superwork::config::CrateClass;
use superwork::discover::{CrateInfo, DepSection, Ecosystem, InternalDep};
use superwork::text_map::TextMap;

fn s(t: &str) -> String {
    t.to_string()
}

fn config() -> SuperworkConfig {
    SuperworkConfig {
        superworkspace: SuperworkspaceMeta {
            name: Some(s("zen")),
            default_github_org: s("imazen"),
            extra_roots: Vec::new(),
            owned_orgs: Vec::new(),
        },
        repo: Vec::new(),
        unpublished: UnpublishedConfig { crates: Vec::new() },
        ci: CiConfig {
            default_strategy: CiStrategy::GitUrl,
            overrides: TextMap::new(),
            patch_repos: TextMap::new(),
        },
        checks: ChecksConfig { commands: TextMap::new(), repo_overrides: TextMap::new() },
        release: ReleaseConfig::default(),
        ecosystem: None,
    }
}

fn info(name: &str, repo: &str) -> CrateInfo {
    CrateInfo {
        name: s(name),
        version: s("0.1.0"),
        manifest_path: format!("/w/{repo}/{name}/Cargo.toml"),
        repo_dir: s(repo),
        publishable: true,
        github_url: None,
        workspace_root: None,
        inline_ci: None,
        inline_checks: None,
        class: CrateClass::Library,
    }
}

fn dep(from: &str, to: &str) -> InternalDep {
    InternalDep {
        from_crate: s(from),
        to_crate: s(to),
        dep_key: s(to),
        section: DepSection::Dependencies,
        has_version: true,
        has_path: true,
        is_optional: false,
        path_value: Some(format!("../{to}")),
        version_value: Some(s("0.1")),
        manifest_path: format!("/w/{from}/{from}/Cargo.toml"),
    }
}

fn ecosystem(crates: Vec<CrateInfo>, deps: Vec<InternalDep>) -> Ecosystem {
    let mut map = TextMap::new();
    for c in crates {
        map.insert(c.name.clone(), c);
    }
    Ecosystem { root: s("/w"), crates: map, deps }
}

fn toml(content: &str) -> Toml {
    match parse_toml(content) {
        Ok(v) => v,
        Err(e) => panic!("{e}"),
    }
}

fn scan(content: &str, workspace_root: Option<&str>, has_lib_file: bool) -> CrateInfo {
    let mut crates = TextMap::new();
    let result = discover::scan_single_crate(
        content,
        "/w/zenpng/Cargo.toml",
        "zenpng",
        &config(),
        workspace_root,
        has_lib_file,
        None,
        &mut crates,
    );
    assert_eq!(result, Ok(()));
    assert_eq!(crates.len(), 1);
    let name = crates.key_at(0).clone();
    crates.remove(&name).unwrap()
}

#[test]
fn a_crate_is_read_from_its_manifest() {
    let c = scan("[package]\nname = \"zenpng\"\nversion = \"1.2.3\"\n", Some("/w/ws/Cargo.toml"), true);
    assert_eq!(c.name, "zenpng");
    assert_eq!(c.version, "1.2.3");
    assert_eq!(c.manifest_path, "/w/zenpng/Cargo.toml");
    assert_eq!(c.repo_dir, "zenpng");
    assert!(c.publishable);
    assert_eq!(c.github_url, Some(s("https://github.com/imazen/zenpng")));
    assert_eq!(c.workspace_root, Some(s("/w/ws/Cargo.toml")));
    assert_eq!(c.class, CrateClass::Library);
    assert!(c.inline_checks.is_none());
    assert_eq!(scan("[package]\nname = \"x\"\n", None, true).version, "0.0.0");
}

#[test]
fn publishing_can_be_switched_off() {
    let with = |line: &str| {
        scan(&format!("[package]\nname = \"x\"\npublish = {line}\n"), None, true).publishable
    };
    assert!(!with("false"));
    assert!(with("true"));
    assert!(!with("[]"));
    assert!(with("[\"internal\"]"));
    assert!(with("\"odd\""));

    let mut c = config();
    c.unpublished.crates = vec![s("x")];
    let mut crates = TextMap::new();
    let content = "[package]\nname = \"x\"\n";
    discover::scan_single_crate(content, "/w/x/Cargo.toml", "x", &c, None, true, None, &mut crates)
        .unwrap();
    assert!(!crates.get("x").unwrap().publishable);
}

#[test]
fn classes_are_guessed() {
    let bin = "[package]\nname = \"tool\"\n\n[[bin]]\nname = \"tool\"\n";
    assert_eq!(scan(bin, None, false).class, CrateClass::Binary);
    assert_eq!(scan(bin, None, true).class, CrateClass::Library);
    let lib = format!("{bin}\n[lib]\nname = \"tool\"\n");
    assert_eq!(scan(&lib, None, false).class, CrateClass::Library);
    for name in ["imageflow_abi", "x-ffi", "x_ffi"] {
        let content = format!("[package]\nname = \"{name}\"\n");
        assert_eq!(scan(&content, None, true).class, CrateClass::Abi);
    }
    let mut c = config();
    c.release.crate_class.insert(s("x-ffi"), CrateClass::Binary);
    let mut crates = TextMap::new();
    let content = "[package]\nname = \"x-ffi\"\n";
    discover::scan_single_crate(content, "/w/x/Cargo.toml", "x", &c, None, true, None, &mut crates)
        .unwrap();
    assert_eq!(crates.get("x-ffi").unwrap().class, CrateClass::Binary);
}

#[test]
fn check_overrides_are_read_inline() {
    let content = "[package]\nname = \"x\"\n\n[package.metadata.superwork.checks]\n\
                   test = \"just test\"\nodd = 3\n";
    let checks = scan(content, None, true).inline_checks.unwrap();
    assert_eq!(checks.len(), 1);
    assert_eq!(checks.get("test"), Some(&s("just test")));
}

#[test]
fn scanning_fails_on_bad_manifests() {
    let mut crates: TextMap<CrateInfo> = TextMap::new();
    let mut run = |content: &str| {
        discover::scan_single_crate(
            content,
            "/w/x/Cargo.toml",
            "x",
            &config(),
            None,
            true,
            None,
            &mut crates,
        )
    };
    assert_eq!(run("[package]\n"), Err(s("no package.name in /w/x/Cargo.toml")));
    match run("[package") {
        Err(e) => assert!(e.starts_with("parsing /w/x/Cargo.toml: ")),
        Ok(()) => panic!("not a manifest"),
    }
    assert_eq!(run("[workspace]\n"), Ok(()));
    assert_eq!(crates.len(), 0);
}

#[test]
fn metadata_lies_with_the_package_or_the_workspace() {
    let package = toml("[package.metadata.superwork]\nx = 1\n[workspace.metadata.superwork]\n");
    assert!(matches!(discover::inline_metadata_base(&package, false), Some(MetadataBase::Package)));
    let workspace = toml("[package]\nname = \"x\"\n[workspace.metadata.superwork]\nx = 1\n");
    assert!(matches!(
        discover::inline_metadata_base(&workspace, false),
        Some(MetadataBase::Workspace)
    ));
    assert!(discover::inline_metadata_base(&workspace, true).is_none());
}

fn scan_deps(content: &str, ws: Option<&str>) -> Vec<InternalDep> {
    let mut crates = TextMap::new();
    for name in ["zenflate", "zenpng"] {
        crates.insert(s(name), info(name, name));
    }
    let ws_doc = ws.map(toml);
    let table = ws_doc.as_ref().and_then(discover::workspace_dep_table);
    let mut deps = Vec::new();
    let result = discover::scan_deps_in_manifest(
        content,
        "/w/a/Cargo.toml",
        "a",
        &crates,
        table,
        &mut deps,
    );
    assert_eq!(result, Ok(()));
    deps
}

#[test]
fn internal_deps_are_found() {
    let deps = scan_deps(
        "[dependencies]\nzenflate = \"0.3\"\nserde = \"1\"\n\
         png = { package = \"zenpng\", path = \"../zenpng\", optional = true }\n\
         odd = { path = \"../odd\" }\ninner = { path = \"inner\" }\n\n\
         [dev-dependencies]\nzenpng = { version = \"0.1\" }\n\n\
         [build-dependencies]\nzenflate = { path = \"../zenflate\" }\n",
        None,
    );
    let found: Vec<(&str, &str, &str)> = deps
        .iter()
        .map(|d| (d.to_crate.as_str(), d.dep_key.as_str(), d.section.name()))
        .collect();
    assert_eq!(
        found,
        vec![
            ("odd", "odd", "dependencies"),
            ("zenpng", "png", "dependencies"),
            ("zenflate", "zenflate", "dependencies"),
            ("zenpng", "zenpng", "dev-dependencies"),
            ("zenflate", "zenflate", "build-dependencies"),
        ]
    );
    assert!(deps[1].is_optional && deps[1].has_path && !deps[1].has_version);
    assert_eq!(deps[1].path_value, Some(s("../zenpng")));
    assert_eq!(deps[2].version_value, Some(s("0.3")));
    assert!(!deps[2].has_path);
    assert_eq!(deps[3].version_value, Some(s("0.1")));
    assert_eq!(deps[0].from_crate, "a");
    assert_eq!(deps[0].manifest_path, "/w/a/Cargo.toml");
}

#[test]
fn inherited_deps_are_resolved() {
    let content = "[dependencies]\nzenflate = { workspace = true, optional = true }\n";
    let ws = "[workspace.dependencies]\nzenflate = { version = \"0.3\", path = \"../zenflate\" }\n";
    let deps = scan_deps(content, Some(ws));
    assert_eq!(deps.len(), 1);
    assert!(deps[0].has_version && deps[0].has_path && deps[0].is_optional);
    assert_eq!(deps[0].version_value, Some(s("0.3")));
    assert_eq!(scan_deps(content, None).len(), 0);
    assert_eq!(scan_deps(content, Some("[workspace.dependencies]\n")).len(), 0);
    // Not inherited: a false is no reference to the workspace
    assert_eq!(scan_deps("[dependencies]\nzenflate = { workspace = false }\n", None).len(), 1);
}

#[test]
fn a_repo_lists_its_members() {
    let c = discover::scan_repo_manifest(
        "Cargo.toml",
        "[workspace]\nmembers = [\"a\", 3, \"crates/*\"]\n\n[package]\nname = \"x\"\n",
    )
    .ok()
    .unwrap();
    assert_eq!(c.members, vec![s("a"), s("crates/*")]);
    assert!(c.is_package);
    let bare = discover::scan_repo_manifest("Cargo.toml", "[workspace]\n").ok().unwrap();
    assert!(bare.members.is_empty() && !bare.is_package);
    assert!(discover::scan_repo_manifest("Cargo.toml", "[").is_err());
    let doc = toml("[dependencies]\npng = { package = \"zenpng\" }\n");
    let entry = doc.get("dependencies").and_then(|d| d.get("png")).unwrap();
    assert_eq!(discover::package_name(entry, "png"), "zenpng");
}

#[test]
fn build_outputs_are_not_scanned() {
    for name in ["target", ".cargo", "retired"] {
        assert!(discover::skips_dir(name));
    }
    assert!(!discover::skips_dir("zenpng"));
}

#[test]
fn directories_are_relative_to_the_root() {
    assert_eq!(discover::relative_dir("/w/zenpng", "/w", None), "zenpng");
    assert_eq!(
        discover::relative_dir("/x/archmage", "/w", Some((s("/x/archmage"), s("/w")))),
        "../x/archmage"
    );
    assert_eq!(
        discover::relative_dir("/link/z", "/w", Some((s("/real/z"), s("/real")))),
        "z"
    );
    assert_eq!(discover::relative_dir("/x/a", "/w", None), "/x/a");
}

#[test]
fn member_patterns_are_expanded() {
    assert!(matches!(discover::glob_paths("/w/a"), GlobPlan::Literal));
    assert!(matches!(discover::glob_paths("/w/*/x*"), GlobPlan::Nothing));
    assert!(matches!(discover::glob_paths("/w/a?"), GlobPlan::Nothing));
    match discover::glob_paths("/w/crates/*") {
        GlobPlan::Walk { parent, suffix } => {
            assert!(superwork::path::same_path(&parent, "/w/crates"));
            assert_eq!(suffix, "");
        }
        _ => panic!("a walk"),
    }
    match discover::glob_paths("/w/crates/zen*//sub") {
        GlobPlan::Walk { parent, suffix } => {
            assert!(superwork::path::same_path(&parent, "/w/crates"));
            assert_eq!(suffix, "sub");
        }
        _ => panic!("a walk"),
    }
}

#[test]
fn an_ecosystem_is_summed_up() {
    let mut path_only = dep("b", "a");
    path_only.has_version = false;
    let mut version_only = dep("c", "b");
    version_only.has_path = false;
    let eco = ecosystem(
        vec![info("c", "two"), info("a", "one"), info("b", "two")],
        vec![dep("c", "a"), path_only, version_only],
    );
    assert_eq!(discover::count_specified(&eco.deps, true, true), 1);
    assert_eq!(discover::count_specified(&eco.deps, false, true), 1);
    assert_eq!(discover::count_specified(&eco.deps, true, false), 1);
    let groups = discover::crates_by_repo(&eco);
    assert_eq!(groups.len(), 2);
    assert_eq!((groups[0].key.as_str(), groups[0].members.len()), ("one", 1));
    assert_eq!(groups[1].members, vec![1, 2]);
    let popular = discover::most_depended_on(&eco.deps);
    assert_eq!((popular[0].name.as_str(), popular[0].dependents), ("a", 2));
    assert_eq!((popular[1].name.as_str(), popular[1].dependents), ("b", 1));
    let odd = ecosystem(
        vec![CrateInfo { manifest_path: s("/"), ..info("x", "x") }, info("y", "y")],
        Vec::new(),
    );
    assert!(!discover::all_placed(&vec![s("y"), s("x")], &odd));
    assert!(discover::all_placed(&vec![s("y"), s("unknown")], &odd));
}

#[test]
fn deps_are_grouped_by_manifest() {
    let mut twin = dep("a", "c");
    twin.manifest_path = s("/w//a/a/Cargo.toml");
    let groups = discover::deps_by_manifest(&vec![dep("z", "b"), dep("a", "b"), twin]);
    assert_eq!(groups.len(), 2);
    assert_eq!(groups[0].manifest_path, "/w/a/a/Cargo.toml");
    assert_eq!(groups[0].deps.len(), 2);
    assert_eq!(groups[1].deps[0].from_crate, "z");
    assert_eq!(discover::copy_dep(&groups[1].deps[0]).to_crate, "b");
    assert_eq!(
        discover::ordered_paths(&vec![s("/b"), s("/a/x"), s("/a//x"), s("/a-b")]),
        vec![s("/a/x"), s("/a-b"), s("/b")]
    );
}
