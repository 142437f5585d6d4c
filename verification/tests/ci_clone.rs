use superwork::ci_clone::{self, CloneAction, Cloning, CratePlaces, MemberPlace};
use superwork::config::RepoOverride;
use superwork::manifest::read_manifest;
use superwork::value::{parse_toml, Toml};
use toml_edit::DocumentMut;
use superwork::config::{
    ChecksConfig, CiConfig, CiStrategy, ReleaseConfig, SuperworkConfig, SuperworkspaceMeta,
    UnpublishedConfig,
};
use superwork::text_map::TextMap;

fn s(t: &str) -> String {
    t.to_string()
}

fn config() -> SuperworkConfig {
    SuperworkConfig {
        superworkspace: SuperworkspaceMeta {
            name: Some(s("zen")),
            default_github_org: s("imazen"),
            extra_roots: Vec::new(),
            owned_orgs: Vec::new(),
        },
        repo: Vec::new(),
        unpublished: UnpublishedConfig { crates: Vec::new() },
        ci: CiConfig {
            default_strategy: CiStrategy::GitUrl,
            overrides: TextMap::new(),
            patch_repos: TextMap::new(),
        },
        checks: ChecksConfig { commands: TextMap::new(), repo_overrides: TextMap::new() },
        release: ReleaseConfig::default(),
        ecosystem: None,
    }
}

fn doc(content: &str) -> DocumentMut {
    match read_manifest("Cargo.toml", content) {
        Ok(d) => d,
        Err(e) => panic!("{e}"),
    }
}

fn raw(content: &str) -> Toml {
    parse_toml(content).ok().unwrap()
}

fn clone_config() -> SuperworkConfig {
    let mut c = config();
    c.repo = vec![
        RepoOverride { dir: s("../jxl"), github: Some(s("imazen/zenjxl")), no_remote: false },
        RepoOverride { dir: s("secret"), github: None, no_remote: true },
    ];
    for (name, url) in [
        ("zenjxl", "https://github.com/imazen/zenjxl"),
        ("zenpng", "https://github.com/imazen/zenpng-rs"),
        ("odd", "git@elsewhere:odd"),
    ] {
        c.ci.patch_repos.insert(s(name), s(url));
    }
    c
}

#[test]
fn crates_map_to_sibling_dirs() {
    let map = ci_clone::build_crate_repo_map(&clone_config());
    let dir = |name: &str| map.get(name).map(|e| e.0.as_str());
    assert_eq!(dir("zenjxl"), Some("jxl"));
    assert_eq!(dir("zenpng"), Some("zenpng-rs"));
    assert_eq!(dir("odd"), Some("odd"));
    assert_eq!(dir("unknown"), None);
    assert_eq!(ci_clone::crates_in_dirs(&map, &vec![s("jxl"), s("odd")]), vec![s("odd"), s("zenjxl")]);
}

#[test]
fn sibling_dirs_are_taken_from_paths() {
    let of = |p: &str| ci_clone::extract_sibling_dir(p);
    assert_eq!(of("../zenresize"), Some(s("zenresize")));
    assert_eq!(of("../zenjpeg/zenjpeg"), Some(s("zenjpeg")));
    assert_eq!(of("../../imageflow/imageflow_core"), Some(s("imageflow")));
    assert_eq!(of("crates/x"), None);
    assert_eq!(of("../.."), None);
    assert_eq!(of("x"), None);
}

#[test]
fn needed_dirs_are_collected_in_order() {
    let map = ci_clone::build_crate_repo_map(&clone_config());
    let mut needed = Vec::new();
    ci_clone::collect_needed_dirs(
        "[dependencies]\nzenpng = \"1\"\nserde = \"1\"\nx = { path = \"../alpha/x\" }\n\
         inner = { path = \"inner\" }\n\n[workspace.dependencies]\n\
         j = { package = \"zenjxl\" }\n",
        &map,
        &mut needed,
    );
    assert_eq!(needed, vec![s("alpha"), s("jxl"), s("zenpng-rs")]);
    ci_clone::collect_needed_dirs("not [ toml", &map, &mut needed);
    assert_eq!(needed.len(), 3);
}

#[test]
fn cloning_goes_on_until_nothing_is_pending() {
    let map = ci_clone::build_crate_repo_map(&clone_config());
    let mut cloning = Cloning::begin(Some("me"));
    cloning.collect("[dependencies]\na = { path = \"../a\" }\nb = { path = \"../me/b\" }\n", &map);
    assert_eq!(cloning.pending(), vec![s("a")]);
    cloning.mark("a");
    assert!(cloning.pending().is_empty());
    cloning.collect("[dependencies]\nzenpng = \"1\"\n", &map);
    assert_eq!(cloning.pending(), vec![s("zenpng-rs")]);
    cloning.mark("zenpng-rs");
    assert!(cloning.pending().is_empty());
    assert_eq!(cloning.processed, vec![s("a"), s("me"), s("zenpng-rs")]);
    assert!(Cloning::begin(None).processed.is_empty());
}

#[test]
fn repos_are_cloned_from_their_url() {
    let c = clone_config();
    assert_eq!(ci_clone::find_repo_url("jxl", &c), Some(s("https://github.com/imazen/zenjxl")));
    assert_eq!(ci_clone::find_repo_url("secret", &c), None);
    assert_eq!(
        ci_clone::find_repo_url("zenpng-rs", &c),
        Some(s("https://github.com/imazen/zenpng-rs"))
    );
    assert_eq!(ci_clone::find_repo_url("else", &c), Some(s("https://github.com/imazen/else")));
    assert!(matches!(ci_clone::clone_action(true, "secret", &c), CloneAction::Exists));
    assert!(matches!(ci_clone::clone_action(false, "secret", &c), CloneAction::Skip));
    match ci_clone::clone_action(false, "jxl", &c) {
        CloneAction::Clone(url) => assert_eq!(url, "https://github.com/imazen/zenjxl"),
        _ => panic!("to be cloned"),
    }
}

fn shown(places: &[MemberPlace]) -> Vec<String> {
    places
        .iter()
        .map(|p| match p {
            MemberPlace::At(d) => format!("at {d}"),
            MemberPlace::Within(d) => format!("within {d}"),
        })
        .collect()
}

#[test]
fn manifests_are_looked_for_at_the_members() {
    let content = "[workspace]\nmembers = [\"a\", \"crates/*\"]\n\n[package]\nname = \"root\"\n";
    assert_eq!(
        shown(&ci_clone::find_manifests(content)),
        vec![s("at a"), s("at crates/*"), s("within crates/")]
    );
    assert!(ci_clone::find_manifests("[package]\n").is_empty());
    assert!(matches!(ci_clone::find_crate(content, "root"), CratePlaces::Root));
    match ci_clone::find_crate(content, "x") {
        CratePlaces::Among(places) => {
            assert_eq!(shown(&places), vec![s("at a"), s("within crates/")])
        }
        CratePlaces::Root => panic!("not at the root"),
    }
    assert_eq!(ci_clone::sibling_path("/w/me/Cargo.toml", "jxl"), Some(s("/w/jxl")));
    assert_eq!(ci_clone::sibling_path("/Cargo.toml", "jxl"), None);
}

#[test]
fn path_overrides_are_added_with_any_version() {
    let content = "[dependencies]\na = \"1\"\nb = { version = \"1\", path = \"mine\" }\nc = \"1\"\n\n\
                   [workspace.dependencies]\na = { version = \"1\" }\n";
    let mut found: TextMap<String> = TextMap::new();
    found.insert(s("a"), s("../a"));
    found.insert(s("b"), s("../b"));
    let crates = vec![s("a"), s("b"), s("c")];

    let mut d = doc(content);
    assert_eq!(ci_clone::add_path_overrides(&mut d, &raw(content), &crates, &found), 1);
    assert_eq!(d["dependencies"]["a"]["path"].as_str(), Some("../a"));
    assert_eq!(d["dependencies"]["a"]["version"].as_str(), Some("*"));
    assert_eq!(d["dependencies"]["b"]["path"].as_str(), Some("mine"));
    assert_eq!(d["dependencies"]["c"].as_str(), Some("1"));
    assert!(d["workspace"]["dependencies"]["a"].get("path").is_none());

    let mut e = doc(content);
    assert_eq!(ci_clone::add_path_overrides_to_repo(&mut e, &raw(content), &found), 2);
    assert_eq!(e["workspace"]["dependencies"]["a"]["path"].as_str(), Some("../a"));
    assert_eq!(e["workspace"]["dependencies"]["a"]["version"].as_str(), Some("*"));

    let one = ci_clone::override_paths_in("Cargo.toml", content, &crates, &found).ok().unwrap();
    assert_eq!((one.changes, one.doc.to_string()), (1, d.to_string()));
    let two = ci_clone::override_repo_paths_in("Cargo.toml", content, &found).ok().unwrap();
    assert_eq!((two.changes, two.doc.to_string()), (2, e.to_string()));
    match ci_clone::override_repo_paths_in("a/Cargo.toml", "[", &found) {
        Err(m) => assert!(m.starts_with("parsing a/Cargo.toml: ")),
        Ok(_) => panic!("not a manifest"),
    }
}

#[test]
fn deps_to_delete_are_listed_inline() {
    assert_eq!(
        ci_clone::read_delete_list(
            "[package.metadata.superwork.ci]\ndelete = [\"a\", 1, \"b\"]\n\
             [workspace.metadata.superwork.ci]\ndelete = [\"c\"]\n"
        ),
        vec![s("a"), s("b")]
    );
    assert_eq!(
        ci_clone::read_delete_list("[workspace.metadata.superwork.ci]\ndelete = [\"c\"]\n"),
        vec![s("c")]
    );
    assert!(ci_clone::read_delete_list("[").is_empty());
    let mut d = doc(
        "[dependencies]\na = \"1\"\n[build-dependencies]\na = \"1\"\n[features]\nf = [\"dep:a\"]\n",
    );
    assert_eq!(ci_clone::delete_deps_from_manifest(&mut d, &vec![s("a"), s("z")]), 3);
}

#[test]
fn versions_of_path_deps_become_wildcards() {
    let content = "[dependencies]\na = { version = \"1\", path = \"../a\" }\nb = \"1\"\n\
                   c = { path = \"../c\" }\n\n[workspace.dependencies]\n\
                   a = { version = \"1\", path = \"../a\" }\nb = { version = \"*\", path = \"../b\" }\n";
    let mut d = doc(content);
    assert_eq!(ci_clone::wildcard_path_dep_versions(&mut d, &raw(content)), 2);
    assert_eq!(d["dependencies"]["a"]["version"].as_str(), Some("*"));
    assert_eq!(d["dependencies"]["b"].as_str(), Some("1"));
    assert!(d["dependencies"]["c"].get("version").is_none());
    assert_eq!(d["workspace"]["dependencies"]["a"]["version"].as_str(), Some("*"));
    let now = d.to_string();
    let edited = ci_clone::wildcard_versions_in("Cargo.toml", content).ok().unwrap();
    assert_eq!((edited.changes, edited.doc.to_string()), (2, now.clone()));
    assert_eq!(ci_clone::wildcard_path_dep_versions(&mut d, &raw(&now)), 0);
}
