use superwork::ci_lint::{self, RepoSigns, Severity};
use superwork::config::{
    ChecksConfig, CiConfig, CiStrategy, ReleaseConfig, SuperworkConfig, SuperworkspaceMeta,
    UnpublishedConfig,
};
use superwork::config::CrateClass;
use superwork::discover::{CrateInfo, DepSection, Ecosystem, InternalDep};
use superwork::config::CiCrateOverride;
use superwork::text_map::TextMap;

fn s(t: &str) -> String {
    t.to_string()
}

fn config() -> SuperworkConfig {
    SuperworkConfig {
        superworkspace: SuperworkspaceMeta {
            name: Some(s("zen")),
            default_github_org: s("imazen"),
            extra_roots: Vec::new(),
            owned_orgs: Vec::new(),
        },
        repo: Vec::new(),
        unpublished: UnpublishedConfig { crates: Vec::new() },
        ci: CiConfig {
            default_strategy: CiStrategy::GitUrl,
            overrides: TextMap::new(),
            patch_repos: TextMap::new(),
        },
        checks: ChecksConfig { commands: TextMap::new(), repo_overrides: TextMap::new() },
        release: ReleaseConfig::default(),
        ecosystem: None,
    }
}

fn info(name: &str, repo: &str) -> CrateInfo {
    CrateInfo {
        name: s(name),
        version: s("0.1.0"),
        manifest_path: format!("/w/{repo}/{name}/Cargo.toml"),
        repo_dir: s(repo),
        publishable: true,
        github_url: None,
        workspace_root: None,
        inline_ci: None,
        inline_checks: None,
        class: CrateClass::Library,
    }
}

fn dep(from: &str, to: &str) -> InternalDep {
    InternalDep {
        from_crate: s(from),
        to_crate: s(to),
        dep_key: s(to),
        section: DepSection::Dependencies,
        has_version: true,
        has_path: true,
        is_optional: false,
        path_value: Some(format!("../{to}")),
        version_value: Some(s("0.1")),
        manifest_path: format!("/w/{from}/{from}/Cargo.toml"),
    }
}

fn ecosystem(crates: Vec<CrateInfo>, deps: Vec<InternalDep>) -> Ecosystem {
    let mut map = TextMap::new();
    for c in crates {
        map.insert(c.name.clone(), c);
    }
    Ecosystem { root: s("/w"), crates: map, deps }
}

fn no_override() -> CiCrateOverride {
    CiCrateOverride {
        default_strategy: None,
        git_url_override: Vec::new(),
        delete: Vec::new(),
        delete_sections: Vec::new(),
        delete_members: Vec::new(),
        delete_workspace_deps: Vec::new(),
        delete_crate_deps: TextMap::new(),
        strip_features: TextMap::new(),
        blank_keys: TextMap::new(),
    }
}

fn no_versions() -> TextMap<Option<String>> {
    TextMap::new()
}

#[test]
fn severities_are_ranked() {
    assert_eq!(Severity::Error.rank(), 3);
    assert_eq!(Severity::Pass.rank(), 0);
    assert_eq!(Severity::Warn.name(), "WARN ");
    assert_eq!(Severity::Error.name(), "ERROR");
}

#[test]
fn stripped_paths_need_a_matching_version() {
    let offline = |req: &str, local: Option<&str>| {
        ci_lint::classify_strip_path(req, "z", local, &no_versions())
    };
    let (severity, message) = offline("0.1", Some("0.1.4"));
    assert_eq!(severity, Severity::Pass);
    assert_eq!(message, "version \"0.1\" matches local 0.1.4 (use --online to verify crates.io)");
    assert_eq!(
        offline("0.2", Some("0.1.4")),
        (Severity::Warn, s("version \"0.2\" doesn't match local 0.1.4"))
    );
    assert_eq!(
        offline("??", Some("0.1.4")),
        (Severity::Warn, s("couldn't parse version req \"??\""))
    );
    assert_eq!(offline("0.1", None), (Severity::Warn, s("'z' not found in ecosystem")));

    let mut published = no_versions();
    published.insert(s("z"), Some(s("0.3.1")));
    published.insert(s("never"), None);
    let online =
        |req: &str, name: &str| ci_lint::classify_strip_path(req, name, None, &published);
    assert_eq!(
        online("0.3", "z"),
        (Severity::Pass, s("version \"0.3\" resolves on crates.io (0.3.1)"))
    );
    assert_eq!(
        online("0.4", "z"),
        (Severity::Error, s("version \"0.4\" doesn't match crates.io 0.3.1"))
    );
    assert_eq!(online("x.", "z"), (Severity::Warn, s("couldn't parse version req \"x.\"")));
    for name in ["never", "unknown"] {
        assert_eq!(
            online("0.3", name),
            (
                Severity::Error,
                format!("'{name}' not published on crates.io — strip_path will fail")
            )
        );
    }
}

#[test]
fn deps_are_classified_by_strategy() {
    let mut c = config();
    let mut inline = no_override();
    let eco = ecosystem(vec![info("a", "x"), info("b", "y")], Vec::new());
    let mut d = dep("a", "b");
    let of = |c: &SuperworkConfig, d: &InternalDep, o: Option<&CiCrateOverride>| {
        let f = ci_lint::classify_dep(d, &eco, c, &no_versions(), o);
        (f.severity, f.message)
    };
    assert_eq!(of(&c, &d, None), (Severity::Pass, s("git URL with consistent version")));
    d.version_value = Some(s("0.9"));
    assert_eq!(
        of(&c, &d, None),
        (Severity::Info, s("version \"0.9\" doesn't match local 0.1.0 (git URL takes precedence)"))
    );
    d.version_value = Some(s("??"));
    assert_eq!(of(&c, &d, None), (Severity::Pass, s("git URL (version parse skipped)")));
    assert_eq!(of(&c, &dep("a", "unknown"), None), (Severity::Pass, s("git URL")));
    d.has_version = false;
    assert_eq!(of(&c, &d, None), (Severity::Pass, s("path replaced with git URL")));

    c.ci.default_strategy = CiStrategy::StripPath;
    assert_eq!(
        of(&c, &d, None),
        (Severity::Error, s("strip_path but no version — CI resolution will fail"))
    );
    d.has_version = true;
    d.version_value = Some(s("0.1"));
    assert_eq!(of(&c, &d, None).0, Severity::Pass);

    inline.delete = vec![s("b")];
    assert_eq!(
        of(&c, &d, Some(&inline)),
        (Severity::Warn, s("required dep deleted in CI — features using it won't compile"))
    );
    d.is_optional = true;
    assert_eq!(of(&c, &d, Some(&inline)), (Severity::Pass, s("deleted in CI")));

    let mut remote = config();
    remote.repo = vec![superwork::config::RepoOverride {
        dir: s("y"),
        github: None,
        no_remote: true,
    }];
    assert_eq!(
        of(&remote, &dep("a", "b"), None),
        (Severity::Error, s("git_url strategy but no GitHub URL for 'b'"))
    );
}

#[test]
fn workflows_are_searched() {
    assert_eq!(
        ci_lint::scan_for_sed_hacks(
            "ci.yml",
            "jobs:\n  run: sed -i 's/x/y/' Cargo.toml\n  run: sed other\n   sed 's/path//'\n"
        ),
        vec![s("ci.yml:2: run: sed -i 's/x/y/' Cargo.toml"), s("ci.yml:4: sed 's/path//'")]
    );
    assert!(ci_lint::names_workflow("ci.yml"));
    assert!(ci_lint::names_workflow("a.b.yaml"));
    assert!(!ci_lint::names_workflow("ci.txt"));
    assert!(!ci_lint::names_workflow(".yml"));
    assert!(ci_lint::check_uses_ci_prep("run: cargo superwork ci-prep"));
    assert!(ci_lint::check_uses_ci_prep("superwork ci_prep"));
    assert!(!ci_lint::check_uses_ci_prep("cargo test"));
    assert!(ci_lint::has_patch_section("[patch.crates-io]\n"));
    assert!(ci_lint::has_patch_section("[patch.\"crates-io\"]\n"));
    assert!(!ci_lint::has_patch_section("[patch]\n"));
    assert_eq!(ci_lint::query_crate_version("x\n version: 0.6.5 (latest)\n"), Some(s("0.6.5")));
    assert_eq!(ci_lint::query_crate_version("license: MIT\n"), None);
}

#[test]
fn repos_are_reported_worst_first() {
    let mut c = config();
    c.ci.default_strategy = CiStrategy::StripPath;
    let mut bad = dep("b", "a");
    bad.has_version = false;
    let mut plain = dep("a", "b");
    plain.has_path = false;
    let eco = ecosystem(
        vec![info("a", "good"), info("b", "bad")],
        vec![dep("a", "b"), dep("b", "a"), bad, plain],
    );
    let repos = ci_lint::deps_by_repo(&eco, None);
    assert_eq!(repos.len(), 2);
    assert_eq!((repos[0].repo_dir.as_str(), repos[0].deps.len()), ("bad", 2));
    assert_eq!((repos[1].repo_dir.as_str(), repos[1].deps.len()), ("good", 1));
    assert_eq!(ci_lint::deps_by_repo(&eco, Some("a")).len(), 1);
    assert_eq!(ci_lint::count_linted(&eco, None), 3);
    assert_eq!(ci_lint::count_linted(&eco, Some("a")), 1);
    assert_eq!(ci_lint::count_linted(&eco, Some("b")), 2);

    let signs = |patch: bool| RepoSigns {
        uses_ci_prep: false,
        sed_hacks: Vec::new(),
        has_patch_section: patch,
    };
    let good = ci_lint::lint_repo(&repos[1], &eco, &c, &no_versions(), signs(false));
    let worse = ci_lint::lint_repo(&repos[0], &eco, &c, &no_versions(), signs(true));
    assert!(!good.visible(false) && good.visible(true));
    assert!(worse.visible(false));
    assert_eq!(worse.findings.len(), 3);
    assert_eq!(worse.order, vec![1, 2, 0]);
    assert_eq!(
        worse.findings[1].line(),
        "  ERROR  strip_path  b -> a  strip_path but no version — CI resolution will fail"
    );
    assert_eq!(
        worse.findings[2].line(),
        "  WARN   git_url     [patch.crates-io] exists but not in delete_sections — will break CI resolution"
    );
    let reports = vec![good, worse];
    assert_eq!(ci_lint::order_reports(&reports), vec![1, 0]);
    assert_eq!(ci_lint::count_all(&reports, Severity::Error), 1);
    assert_eq!(ci_lint::count_all(&reports, Severity::Pass), 2);
    assert_eq!(ci_lint::count_remarks(&reports), 0);
    assert_eq!(ci_lint::lint_verdict(0), Ok(()));
    assert_eq!(ci_lint::lint_verdict(2), Err(s("2 CI lint errors found")));
}

#[test]
fn unused_configuration_is_remarked_on() {
    let mut a = info("a", "x");
    let mut o = no_override();
    o.delete_sections = vec![s("patch.crates-io")];
    a.inline_ci = Some(o);
    let eco = ecosystem(vec![a, info("b", "y")], vec![dep("a", "b")]);
    let repos = ci_lint::deps_by_repo(&eco, None);
    let signs = RepoSigns { uses_ci_prep: false, sed_hacks: vec![s("hack")], has_patch_section: true };
    let report = ci_lint::lint_repo(&repos[0], &eco, &config(), &no_versions(), signs);
    assert!(report.has_ci_config && !report.uses_ci_prep);
    assert_eq!(report.findings.len(), 1);
    assert!(report.visible(false));
    assert_eq!(ci_lint::count_remarks(&vec![report]), 2);
}

#[test]
fn repos_lie_where_their_first_crate_does() {
    let mut c = info("a", "x");
    assert_eq!(ci_lint::resolve_repo_path("/w", "x", Some(&c)), "/w/x/a");
    c.workspace_root = Some(s("/w/x/Cargo.toml"));
    assert_eq!(ci_lint::resolve_repo_path("/w", "x", Some(&c)), "/w/x");
    assert_eq!(ci_lint::resolve_repo_path("/w", "x", None), "/w/x");
}
