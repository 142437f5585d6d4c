use superwork::config::CheckDef;
use superwork::run::{self, RunOutcome, RunTally, SemverOutcome};
use superwork::config::{
    ChecksConfig, CiConfig, CiStrategy, ReleaseConfig, SuperworkConfig, SuperworkspaceMeta,
    UnpublishedConfig,
};
use superwork::config::CrateClass;
use superwork::discover::{CrateInfo, DepSection, Ecosystem, InternalDep};
use superwork::text_map::TextMap;

fn s(t: &str) -> String {
    t.to_string()
}

fn config() -> SuperworkConfig {
    SuperworkConfig {
        superworkspace: SuperworkspaceMeta {
            name: Some(s("zen")),
            default_github_org: s("imazen"),
            extra_roots: Vec::new(),
            owned_orgs: Vec::new(),
        },
        repo: Vec::new(),
        unpublished: UnpublishedConfig { crates: Vec::new() },
        ci: CiConfig {
            default_strategy: CiStrategy::GitUrl,
            overrides: TextMap::new(),
            patch_repos: TextMap::new(),
        },
        checks: ChecksConfig { commands: TextMap::new(), repo_overrides: TextMap::new() },
        release: ReleaseConfig::default(),
        ecosystem: None,
    }
}

fn info(name: &str, repo: &str) -> CrateInfo {
    CrateInfo {
        name: s(name),
        version: s("0.1.0"),
        manifest_path: format!("/w/{repo}/{name}/Cargo.toml"),
        repo_dir: s(repo),
        publishable: true,
        github_url: None,
        workspace_root: None,
        inline_ci: None,
        inline_checks: None,
        class: CrateClass::Library,
    }
}

fn dep(from: &str, to: &str) -> InternalDep {
    InternalDep {
        from_crate: s(from),
        to_crate: s(to),
        dep_key: s(to),
        section: DepSection::Dependencies,
        has_version: true,
        has_path: true,
        is_optional: false,
        path_value: Some(format!("../{to}")),
        version_value: Some(s("0.1")),
        manifest_path: format!("/w/{from}/{from}/Cargo.toml"),
    }
}

fn ecosystem(crates: Vec<CrateInfo>, deps: Vec<InternalDep>) -> Ecosystem {
    let mut map = TextMap::new();
    for c in crates {
        map.insert(c.name.clone(), c);
    }
    Ecosystem { root: s("/w"), crates: map, deps }
}

#[test]
fn checks_have_default_lines() {
    let mut c = config();
    assert_eq!(run::check_line(&c, "test"), Ok(s("cargo test")));
    assert_eq!(run::check_line(&c, "clippy"), Ok(s("cargo clippy --all-targets -- -D warnings")));
    assert_eq!(run::check_line(&c, "fmt"), Ok(s("cargo fmt -- --check")));
    assert_eq!(run::check_line(&c, "msrv"), Ok(s("cargo hack check --rust-version")));
    assert_eq!(run::check_line(&c, "semver"), Ok(s("cargo semver-checks")));
    c.checks.commands.insert(s("test"), CheckDef::Simple(s("just test")));
    c.checks.commands.insert(s("own"), CheckDef::Simple(s("x")));
    assert_eq!(run::check_line(&c, "test"), Ok(s("just test")));
    assert_eq!(run::check_line(&c, "own"), Ok(s("x")));
    assert_eq!(run::check_line(&c, "other"), Err(s("unknown check: other")));
    let mut over: TextMap<String> = TextMap::new();
    over.insert(s("test"), s("make"));
    c.checks.repo_overrides.insert(s("z"), over);
    assert_eq!(run::repo_line(&c, "test", "z", "line"), "make");
    assert_eq!(run::repo_line(&c, "fmt", "z", "line"), "line");
}

#[test]
fn repos_are_selected_by_crate_name() {
    let eco = ecosystem(
        vec![info("zenpng", "b"), info("zenjpeg", "a"), info("other", "b")],
        Vec::new(),
    );
    let select = |filter: Option<&str>, changed_only: bool, changed: &[&str]| {
        let changed = changed.iter().map(|c| s(c)).collect();
        run::select_repos(&eco, filter, changed_only, &changed)
            .into_iter()
            .map(|r| (r.repo_dir, r.crates))
            .collect::<Vec<(String, Vec<String>)>>()
    };
    let a = (s("a"), vec![s("zenjpeg")]);
    let b = (s("b"), vec![s("other"), s("zenpng")]);
    assert_eq!(select(None, false, &[]), vec![a.clone(), b.clone()]);
    assert_eq!(select(Some("oth*"), false, &[]), vec![b.clone()]);
    assert_eq!(select(Some("zen?peg"), false, &["b"]), vec![a.clone()]);
    assert!(select(Some("nothing"), false, &[]).is_empty());
    assert_eq!(select(None, true, &["b", "elsewhere"]), vec![b.clone()]);
    assert!(select(Some("zenj*"), true, &["b"]).is_empty());
    assert!(select(None, true, &[]).is_empty());
}

#[test]
fn changes_are_counted_since_the_tag() {
    assert!(run::has_changes_since_last_tag(false, None));
    assert!(run::has_changes_since_last_tag(true, Some("3\n")));
    assert!(!run::has_changes_since_last_tag(true, Some("0\n")));
    assert!(!run::has_changes_since_last_tag(true, Some("x")));
    assert!(!run::has_changes_since_last_tag(true, None));
}

#[test]
fn each_repo_runs_once_leaves_first() {
    let mut lib = info("lib", "two");
    lib.workspace_root = Some(s("/w/two/Cargo.toml"));
    let eco = ecosystem(
        vec![info("base", "one"), lib, info("app", "one"), info("extra", "three")],
        Vec::new(),
    );
    let levels = vec![vec![s("base"), s("unknown")], vec![s("lib")], vec![s("app")]];
    let repos = vec![s("one"), s("three"), s("two")];
    assert!(run::all_homed(&levels, &eco, &repos));
    let ordered = run::order_repos_by_level(&levels, &eco, &repos);
    assert_eq!(
        ordered,
        vec![
            vec![(s("one"), s("/w/one/base"))],
            vec![(s("two"), s("/w/two"))],
            vec![(s("three"), s("/w/three/extra"))],
        ]
    );
    let some = run::order_repos_by_level(&levels, &eco, &vec![s("two")]);
    assert_eq!(some, vec![vec![(s("two"), s("/w/two"))]]);

    // Only the crates by which a repo is met need a directory
    let mut odd = info("odd", "odd");
    odd.manifest_path = s("/");
    let mut late = info("late", "one");
    late.manifest_path = s("/");
    let eco = ecosystem(vec![info("base", "one"), odd, late], Vec::new());
    let levels = vec![vec![s("base"), s("late")]];
    assert!(run::all_homed(&levels, &eco, &vec![s("one")]));
    assert!(!run::all_homed(&levels, &eco, &vec![s("odd"), s("one")]));
    assert!(!run::all_homed(&vec![vec![s("late")]], &eco, &vec![s("one")]));
}

#[test]
fn tails_keep_the_last_lines() {
    assert_eq!(run::tail_of("a\nb\nc\n", 2), "b\nc");
    assert_eq!(run::tail_of("a\n", 5), "a");
    assert_eq!(run::tail_of("", 5), "");
}

#[test]
fn runs_are_tallied() {
    let mut t = RunTally::new();
    assert_eq!(t.record(&RunOutcome::Passed, "a", true, false), Ok(()));
    assert_eq!(t.record(&RunOutcome::Failed(2), "b", false, false), Ok(()));
    assert_eq!(t.verdict(), Err(s("1 repos failed")));
    assert_eq!(
        t.record(&RunOutcome::Failed(2), "c", true, false),
        Err(s("failed in c (exit 2). 1 passed, 1 failed."))
    );
    assert_eq!(
        t.record(&RunOutcome::Failed(2), "c", true, true),
        Err(s("1 passed, 1 failed in c"))
    );
    assert_eq!(
        t.record(&RunOutcome::NotRun(s("no sh")), "d", true, true),
        Err(s("error in d: no sh"))
    );
    assert_eq!(t.successes, 1);
    assert_eq!(t.failures.len(), 4);
    assert_eq!(RunTally::new().verdict(), Ok(()));
}

#[test]
fn semver_runs_are_told_apart() {
    assert_eq!(run::semver_outcome(&RunOutcome::Passed), SemverOutcome::Compatible);
    assert_eq!(run::semver_outcome(&RunOutcome::Failed(1)), SemverOutcome::Breaking);
    assert_eq!(run::semver_outcome(&RunOutcome::Failed(101)), SemverOutcome::Skipped);
    assert_eq!(run::semver_outcome(&RunOutcome::NotRun(s("x"))), SemverOutcome::Skipped);
    assert_eq!(run::semver_result(&Vec::new()), Ok(()));
    assert_eq!(
        run::semver_result(&vec![s("a"), s("b")]),
        Err(s("breaking changes in: a, b"))
    );
}

#[test]
fn copter_tests_the_reverse_deps() {
    let mut twin = info("c", "x");
    twin.manifest_path = info("b", "x").manifest_path;
    let eco = ecosystem(
        vec![info("a", "x"), info("b", "x"), twin],
        vec![dep("c", "a"), dep("b", "a"), dep("b", "a"), dep("z", "a"), dep("a", "b")],
    );
    let names = run::reverse_deps(&eco, "a");
    assert_eq!(names, vec![s("b"), s("c"), s("z")]);
    let dirs = run::dirs_of_crates(&names, &eco);
    assert_eq!(dirs, vec![s("/w/x/b")]);
    assert_eq!(
        run::copter_line("/w/x/a", &dirs),
        "cargo copter -p /w/x/a --only-check --simple --dependent-paths /w/x/b"
    );
}
