use superwork::ci::{self, CiStep};
use superwork::config::{MergedCiOverride, RepoOverride};
use superwork::manifest::read_manifest;
use superwork::value::parse_toml;
use toml_edit::DocumentMut;
use superwork::config::{
    ChecksConfig, CiConfig, CiStrategy, ReleaseConfig, SuperworkConfig, SuperworkspaceMeta,
    UnpublishedConfig,
};
use superwork::config::CrateClass;
use superwork::discover::{CrateInfo, DepSection, Ecosystem, InternalDep};
use superwork::config::CiCrateOverride;
use superwork::text_map::TextMap;

fn s(t: &str) -> String {
    t.to_string()
}

fn config() -> SuperworkConfig {
    SuperworkConfig {
        superworkspace: SuperworkspaceMeta {
            name: Some(s("zen")),
            default_github_org: s("imazen"),
            extra_roots: Vec::new(),
            owned_orgs: Vec::new(),
        },
        repo: Vec::new(),
        unpublished: UnpublishedConfig { crates: Vec::new() },
        ci: CiConfig {
            default_strategy: CiStrategy::GitUrl,
            overrides: TextMap::new(),
            patch_repos: TextMap::new(),
        },
        checks: ChecksConfig { commands: TextMap::new(), repo_overrides: TextMap::new() },
        release: ReleaseConfig::default(),
        ecosystem: None,
    }
}

fn info(name: &str, repo: &str) -> CrateInfo {
    CrateInfo {
        name: s(name),
        version: s("0.1.0"),
        manifest_path: format!("/w/{repo}/{name}/Cargo.toml"),
        repo_dir: s(repo),
        publishable: true,
        github_url: None,
        workspace_root: None,
        inline_ci: None,
        inline_checks: None,
        class: CrateClass::Library,
    }
}

fn dep(from: &str, to: &str) -> InternalDep {
    InternalDep {
        from_crate: s(from),
        to_crate: s(to),
        dep_key: s(to),
        section: DepSection::Dependencies,
        has_version: true,
        has_path: true,
        is_optional: false,
        path_value: Some(format!("../{to}")),
        version_value: Some(s("0.1")),
        manifest_path: format!("/w/{from}/{from}/Cargo.toml"),
    }
}

fn ecosystem(crates: Vec<CrateInfo>, deps: Vec<InternalDep>) -> Ecosystem {
    let mut map = TextMap::new();
    for c in crates {
        map.insert(c.name.clone(), c);
    }
    Ecosystem { root: s("/w"), crates: map, deps }
}

fn no_override() -> CiCrateOverride {
    CiCrateOverride {
        default_strategy: None,
        git_url_override: Vec::new(),
        delete: Vec::new(),
        delete_sections: Vec::new(),
        delete_members: Vec::new(),
        delete_workspace_deps: Vec::new(),
        delete_crate_deps: TextMap::new(),
        strip_features: TextMap::new(),
        blank_keys: TextMap::new(),
    }
}

fn doc(content: &str) -> DocumentMut {
    match read_manifest("Cargo.toml", content) {
        Ok(d) => d,
        Err(e) => panic!("{e}"),
    }
}

#[test]
fn git_urls_come_from_the_ecosystem_the_path_or_the_name() {
    let mut c = config();
    c.repo = vec![RepoOverride {
        dir: s("../zensally"),
        github: Some(s("imazen/zensally-rs")),
        no_remote: false,
    }];
    let eco = ecosystem(vec![info("zenpng", "zen/png")], Vec::new());
    let url = |name: &str, path: Option<&str>| ci::dep_git_url(name, path, &eco, &c);
    assert_eq!(url("zenpng", Some("../x")), Some(s("https://github.com/imazen/png")));
    assert_eq!(
        url("zensally-zentract", Some("../zensally/crates/zensally-zentract")),
        Some(s("https://github.com/imazen/zensally-rs"))
    );
    assert_eq!(url("other", Some("other")), Some(s("https://github.com/imazen/other")));
    assert_eq!(url("other", None), Some(s("https://github.com/imazen/other")));
}

const MANIFEST: &str = "\
[dependencies]
one = { version = \"0.1\", path = \"../one\" }
two = { path = \"../two\" }
three = { path = \"../three\", optional = true }
near = { path = \"../near\" }

[features]
full = [\"dep:three\", \"std\"]

[patch.crates-io]
x = { path = \"x\" }
";

fn three_deps() -> Vec<InternalDep> {
    let mut deps = vec![dep("app", "one"), dep("app", "two"), dep("app", "three"), dep("app", "near")];
    for d in &mut deps {
        d.manifest_path = s("/w/app/app/Cargo.toml");
    }
    deps[1].has_version = false;
    deps
}

#[test]
fn ci_preparation_replaces_strips_and_deletes() {
    let mut c = config();
    let mut o = no_override();
    o.default_strategy = Some(CiStrategy::StripPath);
    o.delete = vec![s("three")];
    o.delete_sections = vec![s("patch.crates-io")];
    c.ci.overrides.insert(s("app"), o);
    let mut inline = no_override();
    inline.git_url_override = vec![s("one")];
    let mut app = info("app", "app");
    app.inline_ci = Some(inline);
    let eco = ecosystem(
        vec![app, info("one", "one"), info("two", "two"), info("near", "app")],
        three_deps(),
    );
    let mut d = doc(MANIFEST);
    let prepared = ci::apply_ci_transforms(&mut d, "/w/app/app/Cargo.toml", "app", &eco, &c);
    // one: git; two: stripped; three: deleted, with its feature; the section
    assert_eq!(prepared.changes, 5);
    assert_eq!(prepared.warnings, vec![s("strip_path on app->two but no version specified")]);
    assert_eq!(
        d["dependencies"]["one"]["git"].as_str(),
        Some("https://github.com/imazen/one")
    );
    assert!(d["dependencies"]["one"].get("path").is_none());
    assert!(d["dependencies"]["two"].get("path").is_none());
    assert!(d["dependencies"].get("three").is_none());
    assert_eq!(d["features"]["full"].as_array().unwrap().len(), 1);
    assert!(!d.contains_key("patch"));
    // A crate of the same repo keeps its path
    assert_eq!(d["dependencies"]["near"]["path"].as_str(), Some("../near"));
}

#[test]
fn ci_preparation_warns_without_a_url() {
    let mut c = config();
    c.repo = vec![RepoOverride { dir: s("one"), github: None, no_remote: true }];
    let eco = ecosystem(vec![info("app", "app"), info("one", "one")], three_deps());
    let mut d = doc(MANIFEST);
    let prepared = ci::apply_ci_transforms(&mut d, "/w/app/app/Cargo.toml", "app", &eco, &c);
    assert_eq!(prepared.warnings, vec![s("no git URL for one (dep of app), skipping")]);
    assert_eq!(d["dependencies"]["one"]["path"].as_str(), Some("../one"));
    assert_eq!(prepared.changes, 3);
    // Nothing for a manifest of another crate
    let mut e = doc(MANIFEST);
    assert_eq!(ci::apply_ci_transforms(&mut e, "/other/Cargo.toml", "app", &eco, &c).changes, 0);
    assert_eq!(e.to_string(), MANIFEST);
}

#[test]
fn workspace_settings_are_applied() {
    let mut o = no_override();
    o.delete_members = vec![s("fuzz"), s("nothing")];
    o.delete_workspace_deps = vec![s("private")];
    o.delete_sections = vec![s("patch.crates-io")];
    let merged = MergedCiOverride { inline: Some(&o), central: None };
    let mut d = doc(
        "[workspace]\nmembers = [\"a\", \"fuzz\"]\n\n[workspace.dependencies]\nprivate = \"1\"\n\n\
         [patch.crates-io]\nx = \"1\"\n",
    );
    assert_eq!(ci::apply_workspace_transforms(&mut d, &merged), 3);
    assert_eq!(ci::apply_workspace_transforms(&mut d, &merged), 0);
    assert_eq!(d["workspace"]["members"].as_array().unwrap().len(), 1);
}

#[test]
fn workspace_paths_out_of_the_repo_become_urls() {
    let content = "[workspace.dependencies]\n\
                   inner = { path = \"crates/inner\" }\n\
                   loop = { path = \"../ws/crates/loop\" }\n\
                   outer = { path = \"../outer\", version = \"1\" }\n\
                   renamed = { path = \"../deep/x\", package = \"real\" }\n\
                   plain = \"1\"\n\n[patch.crates-io]\nz = { path = \"z\" }\n";
    let eco = ecosystem(vec![info("outer", "outer")], Vec::new());
    let parsed = parse_toml(content).ok().unwrap();
    let urls = ci::workspace_git_urls(&parsed, "/w/ws", &eco, &config());
    assert_eq!(
        urls,
        vec![
            (s("outer"), s("https://github.com/imazen/outer")),
            (s("renamed"), s("https://github.com/imazen/deep")),
        ]
    );
    let outcome =
        ci::transform_workspace_deps("/w/ws/Cargo.toml", content, &eco, &config()).ok().unwrap();
    assert_eq!(outcome.changes, 3);
    assert_eq!(outcome.names, vec![s("outer"), s("renamed")]);
    let d = outcome.doc.unwrap();
    let deps = &d["workspace"]["dependencies"];
    assert_eq!(deps["outer"]["git"].as_str(), Some("https://github.com/imazen/outer"));
    assert_eq!(deps["outer"]["version"].as_str(), Some("1"));
    assert_eq!(deps["inner"]["path"].as_str(), Some("crates/inner"));
    assert!(!d.contains_key("patch"));

    // Patches of any kind go
    let forked = content.replace("z = { path = \"z\" }", "z = { git = \"u\" }");
    let outcome =
        ci::transform_workspace_deps("/w/ws/Cargo.toml", &forked, &eco, &config()).ok().unwrap();
    assert_eq!(outcome.changes, 3);
    assert!(!outcome.doc.unwrap().contains_key("patch"));
}

#[test]
fn workspaces_without_outer_paths_stay() {
    let eco = ecosystem(Vec::new(), Vec::new());
    for content in ["[package]\nname = \"x\"\n", "[workspace.dependencies]\na = \"1\"\n"] {
        let outcome =
            ci::transform_workspace_deps("/w/ws/Cargo.toml", content, &eco, &config()).ok().unwrap();
        assert_eq!(outcome.changes, 0);
        assert!(outcome.doc.is_none());
    }
    match ci::transform_workspace_deps("/w/ws/Cargo.toml", "[", &eco, &config()) {
        Err(e) => assert!(e.starts_with("parsing /w/ws/Cargo.toml: ")),
        Ok(_) => panic!("not a manifest"),
    }
    let mut d = doc("[workspace.dependencies]\na = { path = \"../a\" }\nb = \"1\"\n");
    let urls = vec![(s("a"), s("u")), (s("b"), s("u")), (s("c"), s("u"))];
    assert_eq!(ci::apply_workspace_urls(&mut d, &urls), 1);
}

#[test]
fn members_lose_deps_features_and_values() {
    let mut o = no_override();
    o.strip_features.insert(s("m"), vec![s("png")]);
    let mut blanks: TextMap<String> = TextMap::new();
    blanks.insert(s("layout"), s("[]"));
    o.blank_keys.insert(s("m"), blanks);
    let merged = MergedCiOverride { inline: None, central: Some(&o) };
    let mut d = doc(
        "[dependencies]\ngone = \"1\"\nlayout = \"1\"\nz = { features = [\"png\", \"x\"] }\n\n\
         [dev-dependencies]\ngone = \"1\"\n",
    );
    let delete = vec![s("gone")];
    assert_eq!(ci::apply_member_transforms(&mut d, "m", &delete, &merged), 4);
    assert!(!d.to_string().contains("gone"));
    assert_eq!(d["dependencies"]["layout"].as_array().unwrap().len(), 0);
    assert_eq!(d["dependencies"]["z"]["features"].as_array().unwrap().len(), 1);
    let mut e = doc("[dependencies]\nlayout = \"1\"\n");
    assert_eq!(ci::apply_member_transforms(&mut e, "other", &delete, &merged), 0);
}

#[test]
fn crates_with_paths_are_processed() {
    let mut plain = dep("z", "a");
    plain.has_path = false;
    let eco = ecosystem(
        vec![info("a", "x"), info("b", "x")],
        vec![dep("b", "a"), plain, dep("a", "q"), dep("b", "q")],
    );
    assert_eq!(ci::crates_to_process(&eco, None), Ok(vec![s("a"), s("b")]));
    assert_eq!(ci::crates_to_process(&eco, Some("b")), Ok(vec![s("b")]));
    assert_eq!(
        ci::crates_to_process(&eco, Some("q")),
        Err(s("crate 'q' not found in ecosystem"))
    );
}

#[test]
fn each_workspace_is_prepared_once() {
    let member = |name: &str| CrateInfo {
        workspace_root: Some(s("/w/ws/Cargo.toml")),
        ..info(name, "ws")
    };
    let mut c = config();
    let mut o = no_override();
    o.delete_crate_deps.insert(s("sub"), vec![s("gone")]);
    c.ci.overrides.insert(s("a"), o);
    let eco = ecosystem(vec![member("a"), member("b"), info("solo", "solo")], Vec::new());
    let steps = ci::plan_steps(&vec![s("a"), s("b"), s("unknown")], &eco, &c);
    let shown: Vec<String> = steps
        .iter()
        .map(|step| match step {
            CiStep::Own { crate_name, .. } => format!("own {crate_name}"),
            CiStep::Workspace { crate_name, root, own, overrides } => {
                format!("workspace {crate_name} {root} {own} {overrides}")
            }
            CiStep::Member { crate_name, member } => format!("member {crate_name} {member}"),
            CiStep::Root { root } => format!("root {root}"),
        })
        .collect();
    assert_eq!(
        shown,
        vec![
            s("own a"),
            s("workspace a /w/ws/Cargo.toml false true"),
            s("member a sub"),
            s("own b"),
            s("root /w/solo/solo/Cargo.toml"),
        ]
    );
}

#[test]
fn workspace_files_are_counted() {
    assert_eq!(ci::files_for_workspace(true, 2, 1), 2);
    assert_eq!(ci::files_for_workspace(true, 0, 1), 1);
    assert_eq!(ci::files_for_workspace(false, 2, 1), 1);
    assert_eq!(ci::files_for_workspace(false, 0, 0), 0);
    assert!(ci::names_package("[package]\nname = \"x\"\n", "x"));
    assert!(!ci::names_package("[package]\nname = \"x\"\n", "y"));
    assert!(!ci::names_package("[", "x"));
}
