use superwork::publish::{self, Reference, Standing};
use superwork::config::CrateClass;
use superwork::discover::{CrateInfo, DepSection, Ecosystem, InternalDep};
use superwork::text_map::TextMap;

fn s(t: &str) -> String {
    t.to_string()
}

fn info(name: &str, repo: &str) -> CrateInfo {
    CrateInfo {
        name: s(name),
        version: s("0.1.0"),
        manifest_path: format!("/w/{repo}/{name}/Cargo.toml"),
        repo_dir: s(repo),
        publishable: true,
        github_url: None,
        workspace_root: None,
        inline_ci: None,
        inline_checks: None,
        class: CrateClass::Library,
    }
}

fn dep(from: &str, to: &str) -> InternalDep {
    InternalDep {
        from_crate: s(from),
        to_crate: s(to),
        dep_key: s(to),
        section: DepSection::Dependencies,
        has_version: true,
        has_path: true,
        is_optional: false,
        path_value: Some(format!("../{to}")),
        version_value: Some(s("0.1")),
        manifest_path: format!("/w/{from}/{from}/Cargo.toml"),
    }
}

fn ecosystem(crates: Vec<CrateInfo>, deps: Vec<InternalDep>) -> Ecosystem {
    let mut map = TextMap::new();
    for c in crates {
        map.insert(c.name.clone(), c);
    }
    Ecosystem { root: s("/w"), crates: map, deps }
}

#[test]
fn path_only_deps_block_publishing() {
    let mut blocked = dep("b", "a");
    blocked.has_version = false;
    let mut private = info("tool", "x");
    private.publishable = false;
    let mut fine = dep("tool", "a");
    fine.has_version = false;
    let eco = ecosystem(
        vec![info("a", "x"), info("b", "x"), private],
        vec![dep("b", "a"), blocked, fine],
    );
    assert_eq!(publish::publish_blockers(&eco), vec![1]);
    assert!(publish::publishable(&eco, "a"));
    assert!(!publish::publishable(&eco, "tool"));
    assert!(!publish::publishable(&eco, "unknown"));
}

#[test]
fn cargo_info_is_read() {
    let out = "zenpng #png\nversion: 0.6.5 (latest 0.7.1)\nlicense: MIT\n\
               repository: https://github.com/imazen/zenpng\n";
    assert_eq!(
        publish::parse_cargo_info(out),
        Some((s("0.6.5"), s("https://github.com/imazen/zenpng")))
    );
    assert_eq!(publish::parse_cargo_info("  version:1.0.0\n"), Some((s("1.0.0"), s(""))));
    assert_eq!(publish::parse_cargo_info("version:\n"), Some((s(""), s(""))));
    assert_eq!(publish::parse_cargo_info("license: MIT\n"), None);
}

#[test]
fn ownership_is_told_by_the_url() {
    let orgs = vec![s("imazen"), s("Lilith")];
    assert!(publish::is_owned_repo("https://github.com/Imazen/zenpng", &orgs));
    assert!(publish::is_owned_repo("https://GitHub.com/lilith/x", &orgs));
    assert!(publish::is_owned_repo("https://github.com/imazen.git", &orgs));
    assert!(!publish::is_owned_repo("https://github.com/imazen-fork/x", &orgs));
    assert!(!publish::is_owned_repo("https://gitlab.com/imazen/x", &orgs));
    assert!(publish::is_owned_repo("", &orgs));
    assert!(!publish::is_owned_repo("https://github.com/imazen/x", &Vec::new()));
    assert!(publish::is_owned_repo("https://github.com/\u{c9}co/x", &vec![s("\u{e9}CO")]));
    assert!(publish::url_lies_below("https://github.com/imazen/x", "imazen"));
    assert!(!publish::url_lies_below("https://github.com/imazen/x", "mazen"));
}

#[test]
fn standings_follow_the_registry_and_the_changes() {
    let orgs = vec![s("imazen")];
    let url = s("https://github.com/imazen/zenpng");
    let of = |published: Option<(String, String)>| {
        publish::registry_standing("0.2.0", &published, &orgs)
    };
    assert_eq!(of(None), Standing::NeverPublished);
    assert_eq!(of(Some((s("0.2.0"), s("https://github.com/x/y")))), Standing::ExternalFork);
    assert_eq!(of(Some((s("0.1.0"), url.clone()))), Standing::Ready);
    assert_eq!(of(Some((s("0.2.0"), url))), Standing::SameVersion);

    let settle = publish::settled_standing;
    assert_eq!(settle(Standing::SameVersion, false, false), Standing::NeedsBump);
    assert_eq!(settle(Standing::SameVersion, true, true), Standing::NeedsBump);
    assert_eq!(settle(Standing::SameVersion, true, false), Standing::UpToDate);
    assert_eq!(settle(Standing::Ready, true, false), Standing::Ready);
    let all = vec![Standing::Ready, Standing::UpToDate, Standing::Ready];
    assert_eq!(publish::with_standing(&all, Standing::Ready), vec![0, 2]);
}

#[test]
fn tags_prefer_the_crate_prefix() {
    assert_eq!(
        publish::tag_candidates("zensim", "0.2.4"),
        vec![s("zensim-v0.2.4"), s("v0.2.4"), s("zensim-0.2.4")]
    );
    let find = |exists: Vec<bool>| publish::find_version_tag_for("zensim", "0.2.4", &exists);
    assert_eq!(find(vec![true, true, true]), Some(s("zensim-v0.2.4")));
    assert_eq!(find(vec![false, true, true]), Some(s("v0.2.4")));
    assert_eq!(find(vec![false, false, true]), Some(s("zensim-0.2.4")));
    assert_eq!(find(vec![false, false, false]), None);
}

#[test]
fn crates_lie_below_their_repo() {
    let mut c = info("zensim", "zensim");
    assert_eq!(publish::crate_paths(&c), Some((s("/w/zensim/zensim"), s(""))));
    c.workspace_root = Some(s("/w/zensim/Cargo.toml"));
    assert_eq!(publish::crate_paths(&c), Some((s("/w/zensim"), s("zensim/"))));
    c.workspace_root = Some(s("/"));
    assert_eq!(publish::crate_paths(&c), None);
    assert_eq!(publish::prefix_below("/w/z/a/b", "/w/z"), "a/b/");
    assert_eq!(publish::prefix_below("/w/z", "/w/z"), "");
    assert_eq!(publish::prefix_below("/x", "/w/z"), "");
    assert_eq!(publish::diff_limit("zensim/", false), "zensim/");
    assert_eq!(publish::diff_limit("zensim/", true), "zensim/src/");
    assert_eq!(publish::diff_limit("", false), ".");
    assert_eq!(publish::diff_limit("", true), "src/");
    assert_eq!(publish::range_since("v1"), "v1..HEAD");
}

#[test]
fn references_are_tags_or_versions() {
    let of = |name: &str| publish::resolve_reference(name, "zensim");
    assert_eq!(of("0.2.4"), Reference::Version);
    assert_eq!(of("zensim-v0.2.4"), Reference::Tag);
    assert_eq!(of("v0.2.4"), Reference::Tag);
    assert_eq!(of("zensim-0.2.4"), Reference::Tag);
    assert_eq!(of("before-rework"), Reference::Tag);
    assert_eq!(of("1.0.0-alpha"), Reference::Version);
    assert_eq!(of("HEAD"), Reference::Current);
}

#[test]
fn long_diffs_are_condensed() {
    let short: String = (0..10).map(|i| format!("line {i}\n")).collect();
    assert_eq!(publish::condense_diff(&short).len(), 10);
    assert_eq!(publish::condense_diff("").len(), 0);
    let long: String = (0..30).map(|i| format!("line {i}\n")).collect();
    let lines = publish::condense_diff(&long);
    assert_eq!(lines.len(), 12);
    assert_eq!(lines[9], "line 9");
    assert_eq!(lines[10], "...");
    assert_eq!(lines[11], "line 29");
}
