use superwork::audit::{self, CrateFacts, RepoFacts};
use superwork::config::RepoOverride;
use superwork::config::{
    ChecksConfig, CiConfig, CiStrategy, ReleaseConfig, SuperworkConfig, SuperworkspaceMeta,
    UnpublishedConfig,
};
use superwork::text_map::TextMap;

fn s(t: &str) -> String {
    t.to_string()
}

fn config() -> SuperworkConfig {
    SuperworkConfig {
        superworkspace: SuperworkspaceMeta {
            name: Some(s("zen")),
            default_github_org: s("imazen"),
            extra_roots: Vec::new(),
            owned_orgs: Vec::new(),
        },
        repo: Vec::new(),
        unpublished: UnpublishedConfig { crates: Vec::new() },
        ci: CiConfig {
            default_strategy: CiStrategy::GitUrl,
            overrides: TextMap::new(),
            patch_repos: TextMap::new(),
        },
        checks: ChecksConfig { commands: TextMap::new(), repo_overrides: TextMap::new() },
        release: ReleaseConfig::default(),
        ecosystem: None,
    }
}

fn facts(dir: &str) -> RepoFacts {
    RepoFacts {
        dir: s(dir),
        files: vec![s("LICENSE"), s("README.md")],
        in_git: Vec::new(),
        readme: Some(s("img.shields.io actions/workflow crates.io docs.rs")),
        crates: vec![CrateFacts {
            name: format!("{dir}-crate"),
            publishable: true,
            manifest: Some(s("[package]\nedition = \"2024\"\n")),
            lib_rs: Some(s("//! Docs.\n")),
        }],
    }
}

#[test]
fn editions_are_checked() {
    assert_eq!(audit::edition_issue("[package]\n  edition = \"2024\"  \n"), None);
    assert_eq!(audit::edition_issue("edition.workspace = true # all\n"), None);
    assert_eq!(
        audit::edition_issue("name = \"x\"\n edition = \"2021\"\n"),
        Some(s("edition = \"2021\""))
    );
    assert_eq!(audit::edition_issue("name = \"x\"\n"), Some(s("missing")));
}

#[test]
fn badges_are_checked() {
    assert_eq!(audit::badges_missing("# Title"), vec![s("no badges at all")]);
    assert_eq!(
        audit::badges_missing("badge"),
        vec![s("CI badge"), s("crates.io badge"), s("docs.rs badge")]
    );
    assert!(audit::badges_missing("badge actions/workflow crates/v/ docsrs").is_empty());
}

#[test]
fn a_clean_repo_has_no_findings() {
    let report = audit::audit(&vec![facts("zenpng")]);
    assert_eq!(report.total_issues(0), Some(0));
    assert_eq!(report.total_issues(2), Some(2));
}

#[test]
fn findings_are_gathered() {
    let mut bad = facts("bad");
    bad.files = vec![s("PLAN.md"), s("NOTES.md")];
    bad.in_git = vec![s("NOTES.md")];
    bad.readme = None;
    bad.crates[0].manifest = Some(s("edition = \"2018\"\n"));
    bad.crates[0].lib_rs = Some(s("fn main() {}\n"));
    let mut dull = facts("dull");
    dull.readme = Some(s("badge actions/workflow"));
    let mut private = facts("private");
    private.readme = Some(s("nothing"));
    private.crates[0].publishable = false;
    private.crates[0].manifest = None;
    private.crates[0].lib_rs = None;
    let report = audit::audit(&vec![bad, dull, private]);
    assert_eq!(report.edition_issues, vec![(s("bad-crate"), s("edition = \"2018\""))]);
    assert_eq!(report.license_issues, vec![s("bad")]);
    assert_eq!(report.badge_issues, vec![(s("dull"), s("crates.io badge, docs.rs badge"))]);
    assert_eq!(
        report.docs_issues,
        vec![
            (s("bad"), s("no README.md")),
            (s("bad-crate"), s("src/lib.rs missing //! doc comment")),
        ]
    );
    assert_eq!(report.clutter_files, vec![(s("bad"), vec![s("PLAN.md")])]);
    assert_eq!(report.total_issues(1), Some(7));
    assert_eq!(report.total_issues(usize::MAX), None);
}

#[test]
fn clutter_is_what_git_does_not_track() {
    assert_eq!(audit::clutter_patterns().len(), 10);
    let mut repo = facts("x");
    repo.files = vec![s("DESIGN.md"), s("SUMMARY.md"), s("lib.rs")];
    repo.in_git = vec![s("DESIGN.md")];
    assert_eq!(audit::find_clutter(&repo), vec![s("SUMMARY.md")]);
}

#[test]
fn github_answers_are_read() {
    assert_eq!(audit::slug_of("https://github.com/imazen/x.git.git"), Some(s("imazen/x")));
    assert_eq!(audit::slug_of("https://gitlab.com/imazen/x"), None);
    let mut c = config();
    c.repo = vec![RepoOverride { dir: s("b"), github: None, no_remote: true }];
    let dirs = vec![s("a"), s("b"), s("../c")];
    assert_eq!(audit::github_repos(&c, &dirs), vec![s("imazen/a"), s("imazen/c")]);
    assert_eq!(audit::ci_conclusion(" success\n"), "success");
    assert_eq!(audit::ci_conclusion("\n"), "no_runs");
    assert!(audit::is_ci_failure("failure"));
    assert!(!audit::is_ci_failure("success"));
    assert!(!audit::is_ci_failure("no_runs"));
    assert_eq!(
        audit::parse_open_issues(
            "[{\"number\":12,\"title\":\"Crash\"},{\"number\": 7 ,\"title\":\"A \\\"b\"},{\"title\":\"x\"}]"
        ),
        vec![(12, s("Crash")), (7, s("A \\"))]
    );
    assert!(audit::parse_open_issues("[]").is_empty());
}
