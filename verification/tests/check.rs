use superwork::check::{check_ecosystem, expected_manifest, version_mismatches};
use superwork::publish::publish_blockers;
use superwork::config::CrateClass;
use superwork::discover::{CrateInfo, DepSection, Ecosystem, InternalDep};
use superwork::text_map::TextMap;

fn s(t: &str) -> String {
    t.to_string()
}

fn info(name: &str, repo: &str) -> CrateInfo {
    CrateInfo {
        name: s(name),
        version: s("0.1.0"),
        manifest_path: format!("/w/{repo}/{name}/Cargo.toml"),
        repo_dir: s(repo),
        publishable: true,
        github_url: None,
        workspace_root: None,
        inline_ci: None,
        inline_checks: None,
        class: CrateClass::Library,
    }
}

fn dep(from: &str, to: &str) -> InternalDep {
    InternalDep {
        from_crate: s(from),
        to_crate: s(to),
        dep_key: s(to),
        section: DepSection::Dependencies,
        has_version: true,
        has_path: true,
        is_optional: false,
        path_value: Some(format!("../{to}")),
        version_value: Some(s("0.1")),
        manifest_path: format!("/w/{from}/{from}/Cargo.toml"),
    }
}

fn ecosystem(crates: Vec<CrateInfo>, deps: Vec<InternalDep>) -> Ecosystem {
    let mut map = TextMap::new();
    for c in crates {
        map.insert(c.name.clone(), c);
    }
    Ecosystem { root: s("/w"), crates: map, deps }
}

#[test]
fn requirements_are_held_against_versions() {
    let mut off = dep("a", "b");
    off.version_value = Some(s("0.2"));
    let mut odd = dep("a", "b");
    odd.version_value = Some(s("not a requirement"));
    let mut bare = info("c", "x");
    bare.version = s("one");
    let eco = ecosystem(
        vec![info("a", "x"), info("b", "x"), bare],
        vec![dep("a", "b"), off, odd, dep("a", "c"), dep("a", "unknown")],
    );
    let found = version_mismatches(&eco);
    assert_eq!(found.len(), 1);
    assert_eq!(found[0].from_crate, "a");
    assert_eq!(found[0].to_crate, "b");
    assert_eq!(found[0].required, "0.2");
    assert_eq!(found[0].actual, "0.1.0");
}

#[test]
fn requirements_follow_semver() {
    for (req, version, fits) in [
        ("^1.2", "1.9.0", true),
        ("1.2", "2.0.0", false),
        ("~0.3.1", "0.3.9", true),
        ("=0.3.1", "0.3.2", false),
        (">=1, <2", "1.5.0", true),
        ("*", "0.0.1", true),
        ("0.3", "0.3.0-beta.1", false),
    ] {
        let mut d = dep("a", "b");
        d.version_value = Some(s(req));
        let mut b = info("b", "x");
        b.version = s(version);
        let eco = ecosystem(vec![info("a", "x"), b], vec![d]);
        assert_eq!(version_mismatches(&eco).is_empty(), fits, "{req} and {version}");
    }
}

#[test]
fn paths_lead_to_manifests() {
    assert_eq!(expected_manifest(&dep("a", "b")), Some(s("/w/a/a/../b/Cargo.toml")));
    let mut none = dep("a", "b");
    none.path_value = None;
    assert_eq!(expected_manifest(&none), None);
}

#[test]
fn a_check_counts_errors_and_warnings() {
    let mut private = info("tool", "x");
    private.publishable = false;
    let mut blocked = dep("a", "b");
    blocked.has_version = false;
    blocked.version_value = None;
    let mut noted = dep("a", "tool");
    noted.has_version = false;
    noted.version_value = None;
    let mut mismatch = dep("b", "a");
    mismatch.version_value = Some(s("3"));
    let eco = ecosystem(
        vec![info("a", "x"), info("b", "x"), private],
        vec![blocked, noted, mismatch, dep("a", "unknown")],
    );
    let report = check_ecosystem(&eco, &vec![true, true, false, true]);
    assert_eq!(
        report.dual_errors,
        vec![s("a -> b (dependencies): path-only, needs version for publish")]
    );
    assert_eq!(report.dual_errors.len(), publish_blockers(&eco).len());
    assert_eq!(report.mismatches.len(), 1);
    assert_eq!(
        report.path_errors,
        vec![s("b -> a: path \"../a\" does not exist (from /w/b/b/Cargo.toml)")]
    );
    assert_eq!(report.unknown, vec![s("a -> unknown: not found in ecosystem registry")]);
    assert_eq!(report.noted, 1);
    assert_eq!(report.error_count(), 3);
    assert_eq!(report.warning_count(), 2);
    assert_eq!(report.verdict(), Err(s("3 errors found")));
}

#[test]
fn a_healthy_ecosystem_passes() {
    let eco = ecosystem(vec![info("a", "x"), info("b", "x")], vec![dep("a", "b")]);
    let report = check_ecosystem(&eco, &vec![true]);
    assert_eq!(report.error_count(), 0);
    assert_eq!(report.verdict(), Ok(()));
}
