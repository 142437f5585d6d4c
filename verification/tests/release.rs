use superwork::release::{self, CheckField, CiLabel, CiOutcome, CiVerdict, CommandOutcome, CrateAnalysis, Effect, NextStep, ReleaseCommand, RepoAnalysis, TagFacts, TestResults, TierState, TierStatus, Verification, WaveState, WaveStep};
use superwork::config::{
    ChecksConfig, CiConfig, CiStrategy, ReleaseConfig, SuperworkConfig, SuperworkspaceMeta,
    UnpublishedConfig,
};
use superwork::config::CrateClass;
use superwork::discover::{CrateInfo, DepSection, Ecosystem, InternalDep};
use superwork::text_map::TextMap;

fn s(t: &str) -> String {
    t.to_string()
}

fn config() -> SuperworkConfig {
    SuperworkConfig {
        superworkspace: SuperworkspaceMeta {
            name: Some(s("zen")),
            default_github_org: s("imazen"),
            extra_roots: Vec::new(),
            owned_orgs: Vec::new(),
        },
        repo: Vec::new(),
        unpublished: UnpublishedConfig { crates: Vec::new() },
        ci: CiConfig {
            default_strategy: CiStrategy::GitUrl,
            overrides: TextMap::new(),
            patch_repos: TextMap::new(),
        },
        checks: ChecksConfig { commands: TextMap::new(), repo_overrides: TextMap::new() },
        release: ReleaseConfig::default(),
        ecosystem: None,
    }
}

fn info(name: &str, repo: &str) -> CrateInfo {
    CrateInfo {
        name: s(name),
        version: s("0.1.0"),
        manifest_path: format!("/w/{repo}/{name}/Cargo.toml"),
        repo_dir: s(repo),
        publishable: true,
        github_url: None,
        workspace_root: None,
        inline_ci: None,
        inline_checks: None,
        class: CrateClass::Library,
    }
}

fn dep(from: &str, to: &str) -> InternalDep {
    InternalDep {
        from_crate: s(from),
        to_crate: s(to),
        dep_key: s(to),
        section: DepSection::Dependencies,
        has_version: true,
        has_path: true,
        is_optional: false,
        path_value: Some(format!("../{to}")),
        version_value: Some(s("0.1")),
        manifest_path: format!("/w/{from}/{from}/Cargo.toml"),
    }
}

fn ecosystem(crates: Vec<CrateInfo>, deps: Vec<InternalDep>) -> Ecosystem {
    let mut map = TextMap::new();
    for c in crates {
        map.insert(c.name.clone(), c);
    }
    Ecosystem { root: s("/w"), crates: map, deps }
}

fn analysis(category: &str, bump: &str) -> CrateAnalysis {
    CrateAnalysis {
        head: s(""),
        tag: s(""),
        tag_found: false,
        version: s("0.1.0"),
        class: s("library"),
        tier: None,
        dependents: 0,
        files_changed: 0,
        lines_added: 0,
        lines_removed: 0,
        src_files_changed: 0,
        commit_count: 0,
        commit_subjects: Vec::new(),
        category: s(category),
        bump: s(bump),
        reason: s(""),
        needs_review: false,
        semver_check: s(""),
        copter: s(""),
    }
}

fn analyses(entries: &[(&str, &str, &str)]) -> TextMap<CrateAnalysis> {
    let mut map = TextMap::new();
    for (name, category, bump) in entries {
        map.insert(s(name), analysis(category, bump));
    }
    map
}

fn names(list: &[&str]) -> Vec<String> {
    list.iter().map(|n| s(n)).collect()
}

const STATUSES: [TierStatus; 8] = [
    TierStatus::Pending,
    TierStatus::Bumped,
    TierStatus::Pushed,
    TierStatus::Tagged,
    TierStatus::CiWatching,
    TierStatus::CiPassed,
    TierStatus::Publishing,
    TierStatus::Published,
];

#[test]
fn commands_heed_a_dry_run() {
    assert_eq!(release::run(&ReleaseCommand::Status, false), Effect::ReadOnly);
    assert_eq!(release::run(&ReleaseCommand::Next, true), Effect::ReadOnly);
    assert_eq!(release::run(&ReleaseCommand::Publish { tier: 0 }, true), Effect::DryRun);
    assert_eq!(release::run(&ReleaseCommand::Publish { tier: 0 }, false), Effect::Live);
    let check = ReleaseCommand::Check { tier: None, copter: false };
    assert_eq!(release::run(&check, true), Effect::DryRun);
    assert_eq!(release::run(&check, false), Effect::Live);
    let categorize = ReleaseCommand::Categorize {
        name: s("a"),
        category: s("fix"),
        bump: s("patch"),
        reason: None,
    };
    assert_eq!(release::run(&categorize, true), Effect::DryRun);
    assert_eq!(release::run(&categorize, false), Effect::Live);
}

#[test]
fn a_dry_run_leaves_the_wave() {
    let mut wave = WaveState::default();
    release::start_wave(&mut wave, "12", "zen");
    release::start_wave(&mut wave, "13", "other");
    assert_eq!((wave.started_at.as_str(), wave.workspace.as_str()), ("12", "zen"));
    release::set_tier_status(&mut wave, 0, TierStatus::CiPassed, &names(&["a"]));
    let action = release::begin_step(&mut wave, 1, true).unwrap();
    assert_eq!(action.step, WaveStep::Publish);
    assert_eq!(release::tier_status(&wave, 0), TierStatus::CiPassed);
    let shown = release::finish_step(&mut wave, &action, CiOutcome::Passed, true);
    assert_eq!(shown, TierStatus::Published);
    assert_eq!(release::tier_status(&wave, 0), TierStatus::CiPassed);
    assert!(release::wave_to_store(&wave, true).is_none());
    assert_eq!(release::wave_to_store(&wave, false).unwrap().started_at, "12");
}

#[test]
fn publishing_takes_tags_and_ci() {
    let levels = vec![names(&["a", "b", "c"])];
    let all = analyses(&[("a", "fix", "patch"), ("b", "skip", "skip"), ("c", "fix", "patch")]);
    let select = |tier: usize, tagged: &[&str], ci: CiOutcome| {
        release::publish_selection(&levels, tier, &all, &names(tagged), ci)
    };
    assert_eq!(select(0, &["c", "a"], CiOutcome::Passed), Ok(names(&["a", "c"])));
    assert_eq!(select(0, &["a"], CiOutcome::Passed), Err(s("tier 0: c is not tagged")));
    assert_eq!(select(0, &[], CiOutcome::Passed), Err(s("tier 0: a is not tagged")));
    for ci in [CiOutcome::Failed, CiOutcome::Running] {
        assert_eq!(select(0, &["a", "c"], ci), Err(s("tier 0: CI has not passed")));
    }
    assert_eq!(
        select(1, &["a", "c"], CiOutcome::Passed),
        Err(s("tier 1 does not exist (max: 0)"))
    );
}

#[test]
fn allowlists_join_global_and_own_patterns() {
    let mut c = config();
    c.release.ci_allow_failures_global = names(&["time*"]);
    c.release.ci_allow_failures.insert(s("b"), names(&["cancelled"]));
    assert_eq!(release::allowlist_for(&c, &names(&["a"])), names(&["time*"]));
    let both = release::allowlist_for(&c, &names(&["a", "b"]));
    assert_eq!(both, names(&["time*", "cancelled"]));
    assert_eq!(release::ci_verdict("cancelled", &both), CiVerdict::Allowed);
}

#[test]
fn tiers_take_part_unless_skipped() {
    let all = analyses(&[("a", "fix", "patch"), ("b", "skip", "patch"), ("c", "fix", "skip"), ("d", "", "")]);
    let level = names(&["a", "b", "c", "d", "unknown"]);
    assert_eq!(release::tier_participants(&all, &level), names(&["a", "d"]));
    assert_eq!(release::tier_decided(&all, &level), names(&["a"]));
    assert!(all.get("b").unwrap().is_skipped());
    assert!(!all.get("d").unwrap().is_skipped());
    assert!(all.get("a").unwrap().is_active());
    assert!(!all.get("d").unwrap().is_active());
}

#[test]
fn statuses_read_back() {
    for status in STATUSES {
        assert_eq!(TierStatus::parse(status.name()), Some(status));
    }
    assert_eq!(TierStatus::CiWatching.name(), "ci_watching");
    assert_eq!(TierStatus::parse("done"), None);
}

#[test]
fn tiers_are_pending_until_written_down() {
    let mut wave = WaveState::default();
    assert_eq!(release::tier_status(&wave, 3), TierStatus::Pending);
    release::set_tier_status(&mut wave, 3, TierStatus::Bumped, &names(&["a"]));
    release::set_tier_status(&mut wave, 3, TierStatus::Tagged, &names(&["b"]));
    assert_eq!(release::tier_status(&wave, 3), TierStatus::Tagged);
    assert_eq!(release::tier_crates(&wave, 3), names(&["a"]));
    let mut odd = TierState::default();
    odd.status = s("whatever");
    wave.tiers.insert(s("4"), odd);
    assert_eq!(release::tier_status(&wave, 4), TierStatus::Pending);
    assert!(release::tier_crates(&wave, 9).is_empty());
}

#[test]
fn steps_follow_the_status() {
    let steps: Vec<Option<WaveStep>> = STATUSES.iter().map(|t| release::next_step(*t)).collect();
    assert_eq!(
        steps,
        vec![
            Some(WaveStep::Bump),
            Some(WaveStep::Push),
            Some(WaveStep::Tag),
            Some(WaveStep::CheckCi),
            Some(WaveStep::CheckCi),
            Some(WaveStep::Publish),
            Some(WaveStep::RetryPublish),
            None,
        ]
    );
    assert_eq!(release::during(TierStatus::CiPassed), TierStatus::Publishing);
    assert_eq!(release::during(TierStatus::Tagged), TierStatus::Tagged);
    assert_eq!(release::after(TierStatus::Tagged, CiOutcome::Running), TierStatus::CiWatching);
    assert_eq!(release::after(TierStatus::Tagged, CiOutcome::Failed), TierStatus::Tagged);
    assert_eq!(release::after(TierStatus::CiWatching, CiOutcome::Failed), TierStatus::CiWatching);
    assert_eq!(release::after(TierStatus::CiWatching, CiOutcome::Passed), TierStatus::CiPassed);
    // No step leads back
    let place = |t: TierStatus| STATUSES.iter().position(|x| *x == t).unwrap();
    for status in STATUSES {
        for ci in [CiOutcome::Passed, CiOutcome::Failed, CiOutcome::Running] {
            assert!(place(release::after(status, ci)) >= place(status));
        }
    }
}

#[test]
fn a_wave_completes_tier_by_tier() {
    let levels = vec![names(&["base"]), names(&["skipped"]), names(&["app"])];
    let all = analyses(&[("base", "fix", "patch"), ("skipped", "skip", "skip"), ("app", "feature", "minor")]);
    let mut wave = WaveState::default();
    release::init_tiers(&mut wave, &levels, &all);
    assert_eq!(wave.tiers.len(), 2);
    assert_eq!(release::next_tier(&wave, 3), Some(0));
    let mut taken = Vec::new();
    while let Some(action) = release::begin_step(&mut wave, 3, false) {
        taken.push((action.tier, action.step));
        if action.step == WaveStep::Publish {
            assert_eq!(release::tier_status(&wave, action.tier), TierStatus::Publishing);
        }
        release::finish_step(&mut wave, &action, CiOutcome::Passed, false);
        assert!(taken.len() <= 10);
    }
    let steps = [WaveStep::Bump, WaveStep::Push, WaveStep::Tag, WaveStep::CheckCi, WaveStep::Publish];
    let expected: Vec<(usize, WaveStep)> =
        [0, 2].iter().flat_map(|t| steps.iter().map(move |x| (*t, *x))).collect();
    assert_eq!(taken, expected);
    assert_eq!(release::next_tier(&wave, 3), None);
    // Setting up again changes nothing
    release::init_tiers(&mut wave, &levels, &all);
    assert_eq!(release::tier_status(&wave, 0), TierStatus::Published);
}

#[test]
fn publishing_waits_for_ci() {
    let mut wave = WaveState::default();
    release::set_tier_status(&mut wave, 0, TierStatus::Tagged, &names(&["a"]));
    let action = release::begin_step(&mut wave, 1, false).unwrap();
    assert_eq!(release::finish_step(&mut wave, &action, CiOutcome::Failed, false), TierStatus::Tagged);
    assert_eq!(release::tier_status(&wave, 0), TierStatus::Tagged);
    let again = release::begin_step(&mut wave, 1, false).unwrap();
    assert_eq!(again.step, WaveStep::CheckCi);
    assert_eq!(release::finish_step(&mut wave, &again, CiOutcome::Passed, false), TierStatus::CiPassed);
    assert_eq!(release::begin_step(&mut wave, 1, false).unwrap().step, WaveStep::Publish);
}

#[test]
fn conclusions_are_judged() {
    let allow = names(&["timed*", "cancelled"]);
    let of = |c: &str| release::ci_verdict(c, &allow);
    for c in ["", "null", "in_progress", "queued"] {
        assert_eq!(of(c), CiVerdict::Pending);
    }
    assert_eq!(of("success"), CiVerdict::Passed);
    assert_eq!(of("timed_out"), CiVerdict::Allowed);
    assert_eq!(of("failure"), CiVerdict::Failed);
    assert_eq!(
        release::ci_outcome(&vec![CiVerdict::Passed, CiVerdict::Allowed]),
        CiOutcome::Passed
    );
    assert_eq!(
        release::ci_outcome(&vec![CiVerdict::Failed, CiVerdict::Passed]),
        CiOutcome::Failed
    );
    assert_eq!(
        release::ci_outcome(&vec![CiVerdict::Failed, CiVerdict::Pending]),
        CiOutcome::Running
    );
    assert_eq!(release::ci_outcome(&Vec::new()), CiOutcome::Passed);
}

#[test]
fn labels_heed_the_allowlists() {
    let mut c = config();
    c.release.ci_allow_failures_global = names(&["cancelled"]);
    c.release.ci_allow_failures.insert(s("a"), names(&["*fail*", "failure"]));
    let of = |crates: &[&str], conclusion: &str| release::ci_label(&c, &names(crates), conclusion);
    assert_eq!(of(&["b"], "success"), CiLabel::Pass);
    assert_eq!(of(&["b"], "cancelled"), CiLabel::AllowedFailure);
    assert_eq!(of(&["b", "a"], "failure"), CiLabel::AllowedFailure);
    assert_eq!(of(&["b"], "failure"), CiLabel::Blocking);
    assert_eq!(of(&["b"], ""), CiLabel::Pending);
    assert_eq!(of(&["b"], "null"), CiLabel::Pending);
}

#[test]
fn run_queries_are_read() {
    assert_eq!(release::run_id_in(" 123\n"), Some(s("123")));
    assert_eq!(release::run_id_in("null\n"), None);
    assert_eq!(release::run_id_in(""), None);
    assert_eq!(release::run_conclusion_in("success\n"), Some(s("success")));
    assert_eq!(release::run_conclusion_in("null"), Some(s("null")));
    assert_eq!(release::run_conclusion_in(" \n"), None);
}

#[test]
fn repos_of_a_tier_are_listed_once() {
    let eco = ecosystem(vec![info("a", "x"), info("b", "y"), info("c", "x")], Vec::new());
    let crates = names(&["c", "b", "a", "unknown"]);
    assert_eq!(release::tier_repo_dirs(&eco, &crates), names(&["x", "y"]));
    assert_eq!(release::tier_crates_in_repo(&eco, &crates, "x"), names(&["c", "a"]));
    assert_eq!(release::bump_message(&eco, &crates, "x"), "release: bump c, a");
}

#[test]
fn tiers_are_selected_by_number() {
    let levels = vec![names(&["a", "b"]), names(&["c"])];
    let all = analyses(&[("a", "fix", "patch"), ("b", "skip", "skip")]);
    assert_eq!(release::tier_selection(&levels, 0, &all), Ok(names(&["a"])));
    assert_eq!(release::tier_selection(&levels, 1, &all), Ok(Vec::new()));
    assert_eq!(
        release::tier_selection(&levels, 2, &all),
        Err(s("tier 2 does not exist (max: 1)"))
    );
    assert_eq!(release::find_tier(&levels, "c"), Some(1));
    assert_eq!(release::find_tier(&levels, "z"), None);
    assert_eq!(release::release_tag(&info("zensim", "x")), "zensim-v0.1.0");
    assert_eq!(release::count_dependents(&vec![dep("a", "b"), dep("c", "b"), dep("b", "a")], "b"), 2);
}

#[test]
fn diffs_are_counted() {
    let n = release::parse_numstat("3\t1\tsrc/lib.rs\n-\t-\tlogo.png\n10\t0\ta/src/x.rs\nodd\n").unwrap();
    assert_eq!((n.files, n.added, n.removed, n.src_files), (3, 13, 1, 2));
    let huge = format!("{}\t0\ta\n1\t0\tb\n", usize::MAX);
    assert!(release::parse_numstat(&huge).is_none());
}

#[test]
fn analyses_are_put_together() {
    let c = info("zensim", "x");
    let bare = release::build_crate_analysis(&c, None, 2, " abc\n", &None).unwrap();
    assert_eq!((bare.head.as_str(), bare.tag_found, bare.dependents), ("abc", false, 2));
    assert_eq!((bare.version.as_str(), bare.class.as_str()), ("0.1.0", "library"));
    let facts = Some(TagFacts {
        tag: s("v0.1.0"),
        numstat: Some(s("3\t1\tsrc/lib.rs\n")),
        log: Some(s("Fix\nAdd\n")),
    });
    let full = release::build_crate_analysis(&c, Some(1), 0, "", &facts).unwrap();
    assert!(full.tag_found);
    assert_eq!((full.tag.as_str(), full.tier), ("v0.1.0", Some(1)));
    assert_eq!((full.files_changed, full.lines_added, full.lines_removed), (1, 3, 1));
    assert_eq!((full.src_files_changed, full.commit_count), (1, 2));
    assert_eq!(full.commit_subjects, names(&["Fix", "Add"]));
    assert_eq!((full.category.as_str(), full.bump.as_str()), ("", ""));
}

fn repo_analysis() -> RepoAnalysis {
    RepoAnalysis {
        schema_version: 1,
        superworkspace: s("zen"),
        generated_at: s("0"),
        crates: analyses(&[("a", "", ""), ("b", "", "")]),
    }
}

#[test]
fn categorizations_are_validated_and_written() {
    assert_eq!(release::validate_categorization("fix", "patch"), Ok(()));
    assert_eq!(
        release::validate_categorization("bug", "patch"),
        Err(s(
            "invalid category 'bug'. Valid: breaking, feature, fix, perf, docs, deps, internal, skip"
        ))
    );
    assert_eq!(
        release::validate_categorization("fix", "tiny"),
        Err(s("invalid bump 'tiny'. Valid: major, minor, patch, skip"))
    );
    let mut a = repo_analysis();
    assert_eq!(release::categorize(&mut a, "a", "fix", "patch", Some("why")), Ok(()));
    let ca = a.crates.get("a").unwrap();
    assert_eq!((ca.category.as_str(), ca.bump.as_str(), ca.reason.as_str()), ("fix", "patch", "why"));
    assert_eq!(a.crates.get("b").unwrap().category, "");
    assert_eq!(
        release::categorize(&mut a, "z", "fix", "patch", None),
        Err(s("crate 'z' not in analysis file"))
    );
}

#[test]
fn check_results_are_recorded() {
    let mut a = repo_analysis();
    release::record_check(&mut a, "a", CheckField::Semver, "pass");
    release::record_check(&mut a, "a", CheckField::Copter, "fail");
    release::record_check(&mut a, "z", CheckField::Copter, "fail");
    assert_eq!(a.crates.len(), 2);
    let ca = a.crates.get("a").unwrap();
    assert_eq!((ca.semver_check.as_str(), ca.copter.as_str()), ("pass", "fail"));
    assert_eq!(a.crates.get("b").unwrap().copter, "");
    let mut all = TextMap::new();
    release::collect_analyses(a, &names(&["a", "unknown"]), &mut all);
    assert_eq!(all.len(), 1);
    assert_eq!(all.get("a").unwrap().semver_check, "pass");
}

#[test]
fn a_release_is_summed_up() {
    let all = analyses(&[("a", "fix", "patch"), ("b", "skip", "skip"), ("c", "", "")]);
    let sum = release::summarize(&all);
    assert_eq!((sum.total, sum.categorized, sum.skipped, sum.pending), (3, 2, 1, 1));
    let level = names(&["a", "c", "unknown"]);
    assert_eq!(release::crates_to_show(&all, &level, false), level);
    assert_eq!(release::crates_to_show(&all, &level, true), names(&["c", "unknown"]));
}

#[test]
fn the_next_step_is_suggested() {
    let mut binary = info("tool", "x");
    binary.class = CrateClass::Binary;
    let eco = ecosystem(vec![info("a", "x"), binary], Vec::new());
    let levels = vec![names(&["tool"]), names(&["a"])];
    let of = |all: &TextMap<CrateAnalysis>| release::suggest_next(&eco, &levels, all);
    assert!(matches!(of(&TextMap::new()), NextStep::Init));
    assert!(matches!(of(&analyses(&[("a", "", ""), ("tool", "fix", "patch")])), NextStep::Categorize(1)));
    let mut all = analyses(&[("a", "fix", "patch"), ("tool", "fix", "patch")]);
    assert!(matches!(of(&all), NextStep::CheckSemver { tier: 1, count: 1 }));
    let mut checked = analysis("fix", "patch");
    checked.semver_check = s("pass");
    all.insert(s("a"), checked);
    assert!(matches!(of(&all), NextStep::Release { tier: 0, count: 1 }));
    let skipped = analyses(&[("a", "skip", "skip"), ("tool", "skip", "skip")]);
    assert!(matches!(of(&skipped), NextStep::Done));
}

#[test]
fn ci_results_are_recorded() {
    let mut wave = WaveState::default();
    release::set_tier_status(&mut wave, 1, TierStatus::Tagged, &names(&["a"]));
    release::record_ci(&mut wave, 1, "x", Some("17"), None);
    release::record_ci(&mut wave, 1, "x", None, Some("success"));
    release::record_ci(&mut wave, 1, "y", None, Some("failure"));
    let tier = wave.tiers.get("1").unwrap();
    assert_eq!(tier.ci_runs.get("x"), Some(&s("17")));
    assert_eq!(tier.ci_runs.len(), 1);
    assert_eq!(tier.ci_results.len(), 2);
    assert_eq!(release::ci_passed_count(tier), 1);
    assert_eq!(release::tier_status(&wave, 1), TierStatus::Tagged);
}

#[test]
fn check_commands_are_judged() {
    let failed = |code: Option<i32>, stderr: &str| CommandOutcome::Failure { code, stderr: s(stderr) };
    assert_eq!(release::semver_verdict(&CommandOutcome::Success), "pass");
    assert_eq!(release::semver_verdict(&failed(Some(1), "x")), "breaking");
    assert_eq!(release::semver_verdict(&failed(Some(2), "no crate\nmore")), "error: no crate");
    assert_eq!(release::semver_verdict(&failed(None, "")), "error: ");
    assert_eq!(release::semver_verdict(&CommandOutcome::NotRun(s("gone"))), "error: gone");
    assert_eq!(release::copter_verdict(&CommandOutcome::Success), "pass");
    assert_eq!(release::copter_verdict(&failed(Some(1), "x")), "fail");
    assert_eq!(release::copter_verdict(&CommandOutcome::NotRun(s("gone"))), "error: gone");
    assert_eq!(release::first_line_of("a\nb"), "a");
    assert_eq!(release::first_line_of(""), "");
}

#[test]
fn copter_gets_the_dependents() {
    let eco = ecosystem(
        vec![info("a", "x"), info("b", "x")],
        vec![dep("b", "a"), dep("unknown", "a"), dep("b", "a")],
    );
    let dirs = release::reverse_dep_dirs(&eco, "a");
    assert_eq!(dirs, names(&["/w/x/b", "/w/x/b"]));
    let mut tool = info("t", "x");
    assert!(release::wants_semver(&tool));
    tool.class = CrateClass::Binary;
    assert!(!release::wants_semver(&tool));
    let mut a = analysis("fix", "patch");
    a.dependents = 2;
    assert!(release::wants_copter(&a, true));
    assert!(!release::wants_copter(&a, false));
    a.dependents = 0;
    assert!(!release::wants_copter(&a, true));
    assert_eq!(
        release::copter_args("/w/x/a", &names(&["/w/x/b"])),
        names(&["copter", "-p", "/w/x/a", "--only-check", "--simple", "--dependent-paths", "/w/x/b"])
    );
}

#[test]
fn local_tests_are_tallied() {
    let mut c = config();
    c.release.local_targets = names(&["i686"]);
    assert_eq!(release::cross_targets(&c, None), names(&["i686"]));
    assert_eq!(release::cross_targets(&c, Some("arm")), names(&["arm"]));
    let t = TestResults { clippy: false, fmt: true, native: false, cross: vec![true, false] };
    assert_eq!(release::tally_tests(&t, false), (false, 3));
    assert_eq!(release::tally_tests(&t, true), (true, 1));
}

#[test]
fn publishing_is_verified_three_times() {
    assert_eq!(release::after_attempt(1, "version: 0.1.0", "0.1.0"), Verification::Verified);
    assert_eq!(release::after_attempt(1, "", "0.1.0"), Verification::Retry);
    assert_eq!(release::after_attempt(2, "0.0.9", "0.1.0"), Verification::Retry);
    assert_eq!(release::after_attempt(3, "", "0.1.0"), Verification::GiveUp);
}
