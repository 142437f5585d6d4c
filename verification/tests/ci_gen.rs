use superwork::ci_gen::{self, GenAction};
use superwork::config::CrateClass;
use superwork::discover::{CrateInfo, DepSection, Ecosystem, InternalDep};
use superwork::config::CiCrateOverride;
use superwork::text_map::TextMap;

fn s(t: &str) -> String {
    t.to_string()
}

fn info(name: &str, repo: &str) -> CrateInfo {
    CrateInfo {
        name: s(name),
        version: s("0.1.0"),
        manifest_path: format!("/w/{repo}/{name}/Cargo.toml"),
        repo_dir: s(repo),
        publishable: true,
        github_url: None,
        workspace_root: None,
        inline_ci: None,
        inline_checks: None,
        class: CrateClass::Library,
    }
}

fn dep(from: &str, to: &str) -> InternalDep {
    InternalDep {
        from_crate: s(from),
        to_crate: s(to),
        dep_key: s(to),
        section: DepSection::Dependencies,
        has_version: true,
        has_path: true,
        is_optional: false,
        path_value: Some(format!("../{to}")),
        version_value: Some(s("0.1")),
        manifest_path: format!("/w/{from}/{from}/Cargo.toml"),
    }
}

fn ecosystem(crates: Vec<CrateInfo>, deps: Vec<InternalDep>) -> Ecosystem {
    let mut map = TextMap::new();
    for c in crates {
        map.insert(c.name.clone(), c);
    }
    Ecosystem { root: s("/w"), crates: map, deps }
}

fn no_override() -> CiCrateOverride {
    CiCrateOverride {
        default_strategy: None,
        git_url_override: Vec::new(),
        delete: Vec::new(),
        delete_sections: Vec::new(),
        delete_members: Vec::new(),
        delete_workspace_deps: Vec::new(),
        delete_crate_deps: TextMap::new(),
        strip_features: TextMap::new(),
        blank_keys: TextMap::new(),
    }
}

#[test]
fn templates_are_filled_in() {
    assert_eq!(
        ci_gen::render_template("{{crate_name}}/{{repo_dir}} {{msrv}} {{other}}", "zenpng", "png"),
        "zenpng/png 1.85 {{other}}"
    );
    assert!(ci_gen::DEFAULT_TEMPLATE.starts_with("name: CI\n"));
    assert_eq!(ci_gen::DEFAULT_TEMPLATE_NAME, "ci-template.yml");
    assert_eq!(ci_gen::DEFAULT_WORKFLOW_PATH, ".github/workflows/ci.yml");
}

#[test]
fn workflows_are_planned_per_repo() {
    let mut tool = info("aaa", "png");
    tool.publishable = false;
    let mut skip = no_override();
    skip.delete_sections = vec![s("ci-gen-skip")];
    let mut out = info("out", "out");
    out.inline_ci = Some(skip);
    let eco = ecosystem(vec![tool, info("zenpng", "png"), out], Vec::new());
    assert_eq!(ci_gen::primary_crate(&eco, "png"), "zenpng");
    assert_eq!(ci_gen::primary_crate(&eco, "nowhere"), "nowhere");
    assert!(ci_gen::repo_matches(&eco, "png", "zen*"));
    assert!(!ci_gen::repo_matches(&eco, "out", "zen*"));
    assert!(ci_gen::opted_out(&eco, "out"));
    assert!(!ci_gen::opted_out(&eco, "png"));

    let plan = |dir: &str, filter: Option<&str>, existing: &str| {
        ci_gen::plan_workflow(&eco, dir, filter, "name: {{crate_name}}", existing)
    };
    assert!(matches!(plan("png", Some("jpeg"), ""), GenAction::Ignore));
    assert!(matches!(plan("out", None, ""), GenAction::OptedOut));
    assert!(matches!(plan("png", Some("aaa"), "name: zenpng"), GenAction::Unchanged));
    match plan("png", None, "old") {
        GenAction::Write(text) => assert_eq!(text, "name: zenpng"),
        _ => panic!("to be written"),
    }
}
