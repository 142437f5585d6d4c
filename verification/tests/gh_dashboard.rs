use superwork::gh_dashboard::{self, CiIcon, RepoSlug};
use superwork::config::{
    ChecksConfig, CiConfig, CiStrategy, ReleaseConfig, SuperworkConfig, SuperworkspaceMeta,
    UnpublishedConfig,
};
use superwork::config::CrateClass;
use superwork::discover::{CrateInfo, DepSection, Ecosystem, InternalDep};
use superwork::text_map::TextMap;

fn s(t: &str) -> String {
    t.to_string()
}

fn config() -> SuperworkConfig {
    SuperworkConfig {
        superworkspace: SuperworkspaceMeta {
            name: Some(s("zen")),
            default_github_org: s("imazen"),
            extra_roots: Vec::new(),
            owned_orgs: Vec::new(),
        },
        repo: Vec::new(),
        unpublished: UnpublishedConfig { crates: Vec::new() },
        ci: CiConfig {
            default_strategy: CiStrategy::GitUrl,
            overrides: TextMap::new(),
            patch_repos: TextMap::new(),
        },
        checks: ChecksConfig { commands: TextMap::new(), repo_overrides: TextMap::new() },
        release: ReleaseConfig::default(),
        ecosystem: None,
    }
}

fn info(name: &str, repo: &str) -> CrateInfo {
    CrateInfo {
        name: s(name),
        version: s("0.1.0"),
        manifest_path: format!("/w/{repo}/{name}/Cargo.toml"),
        repo_dir: s(repo),
        publishable: true,
        github_url: None,
        workspace_root: None,
        inline_ci: None,
        inline_checks: None,
        class: CrateClass::Library,
    }
}

fn dep(from: &str, to: &str) -> InternalDep {
    InternalDep {
        from_crate: s(from),
        to_crate: s(to),
        dep_key: s(to),
        section: DepSection::Dependencies,
        has_version: true,
        has_path: true,
        is_optional: false,
        path_value: Some(format!("../{to}")),
        version_value: Some(s("0.1")),
        manifest_path: format!("/w/{from}/{from}/Cargo.toml"),
    }
}

fn ecosystem(crates: Vec<CrateInfo>, deps: Vec<InternalDep>) -> Ecosystem {
    let mut map = TextMap::new();
    for c in crates {
        map.insert(c.name.clone(), c);
    }
    Ecosystem { root: s("/w"), crates: map, deps }
}

fn slug(alias: &str, slug: &str) -> RepoSlug {
    RepoSlug { alias: s(alias), display: s(alias), slug: s(slug) }
}

#[test]
fn aliases_are_graphql_names() {
    assert_eq!(gh_dashboard::sanitize_alias("fast-ssim2"), "fast_ssim2");
    assert_eq!(gh_dashboard::sanitize_alias("lib.rs"), "lib_rs");
    assert_eq!(gh_dashboard::sanitize_alias("7zip"), "r7zip");
    assert_eq!(gh_dashboard::sanitize_alias("\u{e9}co \u{662f}!"), "_co___");
}

#[test]
fn slugs_are_collected_once_per_repo() {
    let eco = ecosystem(
        vec![info("b", "two"), info("a", "two"), info("c", "../x/one-1")],
        Vec::new(),
    );
    let slugs = gh_dashboard::collect_slugs(&eco, &config());
    let shown: Vec<(&str, &str, &str)> = slugs
        .iter()
        .map(|r| (r.alias.as_str(), r.display.as_str(), r.slug.as_str()))
        .collect();
    assert_eq!(
        shown,
        vec![("one_1", "one-1", "imazen/one-1"), ("two", "two", "imazen/two")]
    );
    assert_eq!(gh_dashboard::BATCH_SIZE, 40);
}

#[test]
fn queries_name_each_repo() {
    let q = gh_dashboard::build_query(&vec![
        slug("zenpng", "imazen/zenpng"),
        slug("odd", "noslash"),
        slug("deep", "a/b/c"),
    ]);
    assert!(q.starts_with("fragment F on Repository {\n  nameWithOwner\n"));
    assert!(q.ends_with(
        "}\n{\n  zenpng: repository(owner: \"imazen\", name: \"zenpng\") { ...F }\n  deep: repository(owner: \"a\", name: \"b/c\") { ...F }\n}"
    ));
}

#[test]
fn results_are_read_from_json() {
    let json = "{\"data\":{\"zenpng\":{\"defaultBranchRef\":{\"target\":{\"statusCheckRollup\":\
                {\"state\":\"SUCCESS\"}}},\"pullRequests\":{\"totalCount\":1,\"nodes\":[{\"number\":5,\
                \"title\":\"Fix\",\"author\":{\"login\":\"lilith\"},\"headRefName\":\"fix\"},{}]},\
                \"issues\":{\"totalCount\":2,\"nodes\":[{\"number\":9,\"title\":\"Bug\"}]}},\"gone\":null}}";
    let mut results = Vec::new();
    let repos = vec![slug("zenpng", "imazen/zenpng"), slug("gone", "imazen/gone")];
    assert_eq!(gh_dashboard::parse_results(json, &repos, &mut results), Ok(()));
    assert_eq!(results.len(), 2);
    let r = &results[0];
    assert_eq!(r.ci_state, Some(s("SUCCESS")));
    assert_eq!((r.pr_count.as_str(), r.issue_count.as_str()), ("1", "2"));
    assert_eq!(r.prs.len(), 2);
    assert_eq!(r.prs[0].repo, "zenpng");
    assert_eq!((r.prs[0].number.as_str(), r.prs[0].branch.as_str()), ("5", "fix"));
    assert_eq!((r.prs[0].title.as_str(), r.prs[0].author.as_str()), ("Fix", "lilith"));
    assert_eq!((r.prs[1].number.as_str(), r.prs[1].author.as_str()), ("0", "?"));
    assert_eq!(r.issues.len(), 1);
    assert_eq!((r.issues[0].number.as_str(), r.issues[0].title.as_str()), ("9", "Bug"));
    assert_eq!(results[1].ci_state, None);
    assert_eq!(results[1].pr_count, "0");

    assert_eq!(
        gh_dashboard::parse_results("{", &repos, &mut results),
        Err(s("JSON parse error: unterminated object"))
    );
    assert_eq!(gh_dashboard::count_icon(&results, CiIcon::Green), 1);
    assert_eq!(gh_dashboard::count_icon(&results, CiIcon::Absent), 1);
    assert_eq!(gh_dashboard::order_results(&results), vec![1, 0]);
}

#[test]
fn icons_show_the_state() {
    let of = |state: Option<&str>| gh_dashboard::ci_icon(&state.map(|t| s(t)));
    assert_eq!(of(Some("SUCCESS")), CiIcon::Green);
    assert_eq!(of(Some("PENDING")), CiIcon::Waiting);
    assert_eq!(of(Some("EXPECTED")), CiIcon::Waiting);
    assert_eq!(of(Some("ERROR")), CiIcon::Red);
    assert_eq!(of(Some("whatever")), CiIcon::Red);
    assert_eq!(of(None), CiIcon::Absent);
}
