use superwork::config::RepoOverride;
use superwork::setup;
use superwork::config::{
    ChecksConfig, CiConfig, CiStrategy, ReleaseConfig, SuperworkConfig, SuperworkspaceMeta,
    UnpublishedConfig,
};
use superwork::config::CrateClass;
use superwork::discover::{CrateInfo, DepSection, Ecosystem, InternalDep};
use superwork::text_map::TextMap;

fn s(t: &str) -> String {
    t.to_string()
}

fn config() -> SuperworkConfig {
    SuperworkConfig {
        superworkspace: SuperworkspaceMeta {
            name: Some(s("zen")),
            default_github_org: s("imazen"),
            extra_roots: Vec::new(),
            owned_orgs: Vec::new(),
        },
        repo: Vec::new(),
        unpublished: UnpublishedConfig { crates: Vec::new() },
        ci: CiConfig {
            default_strategy: CiStrategy::GitUrl,
            overrides: TextMap::new(),
            patch_repos: TextMap::new(),
        },
        checks: ChecksConfig { commands: TextMap::new(), repo_overrides: TextMap::new() },
        release: ReleaseConfig::default(),
        ecosystem: None,
    }
}

fn info(name: &str, repo: &str) -> CrateInfo {
    CrateInfo {
        name: s(name),
        version: s("0.1.0"),
        manifest_path: format!("/w/{repo}/{name}/Cargo.toml"),
        repo_dir: s(repo),
        publishable: true,
        github_url: None,
        workspace_root: None,
        inline_ci: None,
        inline_checks: None,
        class: CrateClass::Library,
    }
}

fn dep(from: &str, to: &str) -> InternalDep {
    InternalDep {
        from_crate: s(from),
        to_crate: s(to),
        dep_key: s(to),
        section: DepSection::Dependencies,
        has_version: true,
        has_path: true,
        is_optional: false,
        path_value: Some(format!("../{to}")),
        version_value: Some(s("0.1")),
        manifest_path: format!("/w/{from}/{from}/Cargo.toml"),
    }
}

fn ecosystem(crates: Vec<CrateInfo>, deps: Vec<InternalDep>) -> Ecosystem {
    let mut map = TextMap::new();
    for c in crates {
        map.insert(c.name.clone(), c);
    }
    Ecosystem { root: s("/w"), crates: map, deps }
}

#[test]
fn clone_urls_have_two_forms() {
    assert_eq!(setup::format_clone_url("zenpng", "imazen", false), "https://github.com/imazen/zenpng");
    assert_eq!(setup::format_clone_url("zenpng", "imazen", true), "git@github.com:imazen/zenpng.git");
    assert_eq!(setup::format_clone_url("a/b", "imazen", true), "git@github.com:a/b.git");
}

#[test]
fn repos_to_clone_are_listed_once() {
    let mut c = config();
    c.repo = vec![
        RepoOverride { dir: s("../zeta"), github: Some(s("lilith/zeta")), no_remote: false },
        RepoOverride { dir: s("local"), github: None, no_remote: true },
        RepoOverride { dir: s("sub/plain"), github: None, no_remote: false },
    ];
    let mut found = info("a", "alpha");
    found.github_url = Some(s("https://github.com/imazen/alpha"));
    let mut twin = info("b", "alpha");
    twin.github_url = Some(s("https://github.com/imazen/alpha"));
    let mut known = info("z", "../zeta");
    known.github_url = Some(s("https://github.com/imazen/zeta"));
    let eco = ecosystem(vec![found, twin, known, info("no-url", "none")], Vec::new());
    let repos = setup::list_repos(&c, Some(&eco), false);
    assert_eq!(
        repos,
        vec![
            (s("../zeta"), s("https://github.com/lilith/zeta")),
            (s("sub/plain"), s("https://github.com/imazen/plain")),
            (s("alpha"), s("https://github.com/imazen/alpha")),
        ]
    );
    assert_eq!(setup::order_repos(&repos), vec![0, 2, 1]);
    assert_eq!(setup::list_repos(&c, None, true).len(), 2);
    assert_eq!(
        setup::list_repos(&c, Some(&eco), true)[2].1,
        "git@github.com:imazen/alpha.git"
    );
}
