use superwork::readme_links::{crate_urls, render_links};
use superwork::config::{
    ChecksConfig, CiConfig, CiStrategy, ReleaseConfig, SuperworkConfig, SuperworkspaceMeta,
    UnpublishedConfig,
};
use superwork::config::CrateClass;
use superwork::discover::{CrateInfo, DepSection, Ecosystem, InternalDep};
use superwork::text_map::TextMap;

fn s(t: &str) -> String {
    t.to_string()
}

fn config() -> SuperworkConfig {
    SuperworkConfig {
        superworkspace: SuperworkspaceMeta {
            name: Some(s("zen")),
            default_github_org: s("imazen"),
            extra_roots: Vec::new(),
            owned_orgs: Vec::new(),
        },
        repo: Vec::new(),
        unpublished: UnpublishedConfig { crates: Vec::new() },
        ci: CiConfig {
            default_strategy: CiStrategy::GitUrl,
            overrides: TextMap::new(),
            patch_repos: TextMap::new(),
        },
        checks: ChecksConfig { commands: TextMap::new(), repo_overrides: TextMap::new() },
        release: ReleaseConfig::default(),
        ecosystem: None,
    }
}

fn info(name: &str, repo: &str) -> CrateInfo {
    CrateInfo {
        name: s(name),
        version: s("0.1.0"),
        manifest_path: format!("/w/{repo}/{name}/Cargo.toml"),
        repo_dir: s(repo),
        publishable: true,
        github_url: None,
        workspace_root: None,
        inline_ci: None,
        inline_checks: None,
        class: CrateClass::Library,
    }
}

fn dep(from: &str, to: &str) -> InternalDep {
    InternalDep {
        from_crate: s(from),
        to_crate: s(to),
        dep_key: s(to),
        section: DepSection::Dependencies,
        has_version: true,
        has_path: true,
        is_optional: false,
        path_value: Some(format!("../{to}")),
        version_value: Some(s("0.1")),
        manifest_path: format!("/w/{from}/{from}/Cargo.toml"),
    }
}

fn ecosystem(crates: Vec<CrateInfo>, deps: Vec<InternalDep>) -> Ecosystem {
    let mut map = TextMap::new();
    for c in crates {
        map.insert(c.name.clone(), c);
    }
    Ecosystem { root: s("/w"), crates: map, deps }
}

#[test]
fn links_are_rendered_by_category() {
    let eco = ecosystem(
        vec![info("zenpng", "zenpng"), info("zenjpeg", "jpeg"), info("whereat", "whereat")],
        Vec::new(),
    );
    let urls = crate_urls(&eco, &config());
    assert_eq!(urls.get("zenjpeg"), Some(&s("https://github.com/imazen/jpeg")));
    let lines = render_links(&urls, Some("zenpng"));
    assert_eq!(lines[0], "## Image tech I maintain");
    assert_eq!(lines[4], "| State of the art codecs | [zenjpeg] · **zenpng** |");
    assert!(lines[5].starts_with("| ImageResizer | "));
    let general = lines.iter().position(|l| l == "### General Rust awesomeness").unwrap();
    assert_eq!(lines[general + 2], "[whereat]");
    assert!(!lines.iter().any(|l| l.starts_with("| Compression")));
    let first = lines.iter().position(|l| l.starts_with("[whereat]: ")).unwrap();
    assert_eq!(lines[first], "[whereat]: https://github.com/imazen/whereat");
    assert_eq!(lines[first + 1], "[zenjpeg]: https://github.com/imazen/jpeg");
    assert_eq!(lines[first + 2], "[zenpng]: https://github.com/imazen/zenpng");
    assert_eq!(lines[lines.len() - 1], "[ImageResizer]: https://github.com/imazen/resizer");
}

#[test]
fn links_without_crates_are_the_fixed_ones() {
    let lines = render_links(&crate_urls(&ecosystem(Vec::new(), Vec::new()), &config()), None);
    assert!(lines[4].starts_with("| ImageResizer | "));
    assert!(!lines.iter().any(|l| l == "### General Rust awesomeness"));
    assert_eq!(lines[lines.len() - 6], "[Imageflow]: https://github.com/imazen/imageflow");
}
