use superwork::config::{default_index_wait, default_org, CheckDef, CrateClass, MergedCiOverride, RepoOverride};
use superwork::config::{
    ChecksConfig, CiConfig, CiStrategy, ReleaseConfig, SuperworkConfig, SuperworkspaceMeta,
    UnpublishedConfig,
};
use superwork::config::CiCrateOverride;
use superwork::text_map::TextMap;

fn s(t: &str) -> String {
    t.to_string()
}

fn config() -> SuperworkConfig {
    SuperworkConfig {
        superworkspace: SuperworkspaceMeta {
            name: Some(s("zen")),
            default_github_org: s("imazen"),
            extra_roots: Vec::new(),
            owned_orgs: Vec::new(),
        },
        repo: Vec::new(),
        unpublished: UnpublishedConfig { crates: Vec::new() },
        ci: CiConfig {
            default_strategy: CiStrategy::GitUrl,
            overrides: TextMap::new(),
            patch_repos: TextMap::new(),
        },
        checks: ChecksConfig { commands: TextMap::new(), repo_overrides: TextMap::new() },
        release: ReleaseConfig::default(),
        ecosystem: None,
    }
}

fn no_override() -> CiCrateOverride {
    CiCrateOverride {
        default_strategy: None,
        git_url_override: Vec::new(),
        delete: Vec::new(),
        delete_sections: Vec::new(),
        delete_members: Vec::new(),
        delete_workspace_deps: Vec::new(),
        delete_crate_deps: TextMap::new(),
        strip_features: TextMap::new(),
        blank_keys: TextMap::new(),
    }
}

fn repo(dir: &str, github: Option<&str>, no_remote: bool) -> RepoOverride {
    RepoOverride { dir: s(dir), github: github.map(|g| s(g)), no_remote }
}

#[test]
fn defaults_are_those_of_the_docs() {
    assert_eq!(default_org(), "imazen");
    assert_eq!(default_index_wait(), 30);
    assert_eq!(ReleaseConfig::default().index_wait_secs, 30);
    assert!(matches!(CiStrategy::default(), CiStrategy::GitUrl));
    assert!(matches!(CrateClass::default(), CrateClass::Library));
    assert_eq!(SuperworkspaceMeta::default().default_github_org, "imazen");
}

#[test]
fn the_ecosystem_table_is_an_alias() {
    let mut c = config();
    c.ecosystem = Some(SuperworkspaceMeta {
        name: Some(s("old")),
        default_github_org: s("lilith"),
        extra_roots: Vec::new(),
        owned_orgs: Vec::new(),
    });
    assert_eq!(c.meta().name, Some(s("zen")));
    c.superworkspace.name = None;
    assert_eq!(c.meta().name, Some(s("old")));
    c.superworkspace.extra_roots = vec![s("../x")];
    assert_eq!(c.meta().default_github_org, "imazen");
    c.superworkspace.extra_roots = Vec::new();
    c.ecosystem = None;
    assert_eq!(c.meta().default_github_org, "imazen");
}

#[test]
fn strategies_come_from_inline_then_central() {
    let mut c = config();
    c.ci.default_strategy = CiStrategy::StripPath;
    assert_eq!(c.ci_strategy_for("a", "d", None), CiStrategy::StripPath);

    let mut central = no_override();
    central.default_strategy = Some(CiStrategy::GitUrl);
    central.delete = vec![s("gone")];
    c.ci.overrides.insert(s("a"), central);
    assert_eq!(c.ci_strategy_for("a", "d", None), CiStrategy::GitUrl);
    assert_eq!(c.ci_strategy_for("a", "gone", None), CiStrategy::Delete);
    assert_eq!(c.ci_strategy_for("b", "gone", None), CiStrategy::StripPath);

    let mut listed = no_override();
    listed.default_strategy = Some(CiStrategy::StripPath);
    listed.git_url_override = vec![s("far"), s("gone")];
    listed.delete = vec![s("gone")];
    c.ci.overrides.insert(s("l"), listed);
    assert_eq!(c.ci_strategy_for("l", "far", None), CiStrategy::GitUrl);
    assert_eq!(c.ci_strategy_for("l", "near", None), CiStrategy::StripPath);
    assert_eq!(c.ci_strategy_for("l", "gone", None), CiStrategy::Delete);

    let mut inline = no_override();
    inline.delete = vec![s("x")];
    inline.git_url_override = vec![s("x"), s("y")];
    assert_eq!(c.ci_strategy_for("a", "x", Some(&inline)), CiStrategy::Delete);
    assert_eq!(c.ci_strategy_for("b", "y", Some(&inline)), CiStrategy::GitUrl);
    assert_eq!(c.ci_strategy_for("b", "z", Some(&inline)), CiStrategy::StripPath);
    inline.default_strategy = Some(CiStrategy::Delete);
    assert_eq!(c.ci_strategy_for("a", "z", Some(&inline)), CiStrategy::Delete);
}

#[test]
fn overrides_merge_inline_first() {
    let mut c = config();
    assert!(c.ci_override_for("a", None).is_none());
    let mut central = no_override();
    central.delete_sections = vec![s("patch.crates-io")];
    central.delete_members = vec![s("central")];
    c.ci.overrides.insert(s("a"), central);
    let merged = c.ci_override_for("a", None).unwrap();
    assert_eq!(merged.delete_sections().to_vec(), vec![s("patch.crates-io")]);
    assert_eq!(merged.delete_members().to_vec(), vec![s("central")]);

    let mut inline = no_override();
    inline.delete_workspace_deps = vec![s("w")];
    inline.delete_crate_deps.insert(s("m"), vec![s("d")]);
    inline.strip_features.insert(s("m"), vec![s("f")]);
    let mut blanks: TextMap<String> = TextMap::new();
    blanks.insert(s("layout"), s("[]"));
    inline.blank_keys.insert(s("m"), blanks);
    let merged = c.ci_override_for("a", Some(&inline)).unwrap();
    // An inline override without sections leaves the central ones; members come from one place
    assert_eq!(merged.delete_sections().to_vec(), vec![s("patch.crates-io")]);
    assert_eq!(merged.delete_members().to_vec(), Vec::<String>::new());
    assert_eq!(merged.delete_workspace_deps().to_vec(), vec![s("w")]);
    assert_eq!(merged.delete_crate_deps().unwrap().get("m"), Some(&vec![s("d")]));
    assert_eq!(merged.strip_features().unwrap().get("m"), Some(&vec![s("f")]));
    assert_eq!(merged.blank_keys().unwrap().get("m").unwrap().get("layout"), Some(&s("[]")));

    let none = MergedCiOverride { inline: None, central: None };
    assert!(none.delete_sections().is_empty());
    assert!(none.delete_crate_deps().is_none());
}

#[test]
fn github_urls_follow_the_overrides() {
    let mut c = config();
    c.repo = vec![
        repo("cavif", Some("imazen/cavif-rs"), false),
        repo("local", Some("imazen/local"), true),
        repo("../plain", None, false),
    ];
    assert_eq!(c.github_url_for("cavif"), Some(s("https://github.com/imazen/cavif-rs")));
    assert_eq!(c.github_url_for("local"), None);
    assert_eq!(c.github_url_for("../plain"), Some(s("https://github.com/imazen/plain")));
    assert_eq!(c.github_url_for("../deep/zenpng"), Some(s("https://github.com/imazen/zenpng")));
    assert_eq!(c.github_url_for(".."), Some(s("https://github.com/imazen/..")));
}

#[test]
fn owned_orgs_default_to_the_org() {
    let mut c = config();
    assert_eq!(c.owned_orgs(), vec![s("imazen")]);
    c.superworkspace.owned_orgs = vec![s("imazen"), s("lilith")];
    assert_eq!(c.owned_orgs(), vec![s("imazen"), s("lilith")]);
}

#[test]
fn scan_roots_are_the_root_and_what_resolves() {
    let mut c = config();
    c.superworkspace.extra_roots = vec![s("../a"), s("../b")];
    assert_eq!(c.extra_root_paths("/w"), vec![s("/w/../a"), s("/w/../b")]);
    assert_eq!(c.scan_roots("/w", &vec![None, Some(s("/b"))]), vec![s("/w"), s("/b")]);
}

#[test]
fn check_commands_heed_the_repo() {
    let mut c = config();
    c.checks.commands.insert(s("test"), CheckDef::Simple(s("cargo test")));
    c.checks.commands.insert(
        s("clippy"),
        CheckDef::Detailed {
            cmd: s("cargo clippy"),
            filter: None,
            only_publishable: false,
            only_changed: false,
        },
    );
    let mut over: TextMap<String> = TextMap::new();
    over.insert(s("test"), s("just test"));
    c.checks.repo_overrides.insert(s("zenpng"), over);
    assert_eq!(c.check_command("test", "zenpng"), Some(s("just test")));
    assert_eq!(c.check_command("test", "zenjpeg"), Some(s("cargo test")));
    assert_eq!(c.check_command("clippy", "zenpng"), Some(s("cargo clippy")));
    assert_eq!(c.check_command("fmt", "zenpng"), None);
}

#[test]
fn crate_classes_have_names() {
    for class in [CrateClass::Library, CrateClass::Binary, CrateClass::Abi] {
        assert_eq!(CrateClass::parse(class.name()), Some(class));
    }
    assert_eq!(CrateClass::Abi.name(), "abi");
    assert_eq!(CrateClass::parse("Library"), None);
}
