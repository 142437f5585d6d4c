use superwork::graph::{build_graph, publish_order};
use superwork::config::CrateClass;
use superwork::discover::{CrateInfo, DepSection, Ecosystem, InternalDep};
use superwork::text_map::TextMap;

fn s(t: &str) -> String {
    t.to_string()
}

fn info(name: &str, repo: &str) -> CrateInfo {
    CrateInfo {
        name: s(name),
        version: s("0.1.0"),
        manifest_path: format!("/w/{repo}/{name}/Cargo.toml"),
        repo_dir: s(repo),
        publishable: true,
        github_url: None,
        workspace_root: None,
        inline_ci: None,
        inline_checks: None,
        class: CrateClass::Library,
    }
}

fn dep(from: &str, to: &str) -> InternalDep {
    InternalDep {
        from_crate: s(from),
        to_crate: s(to),
        dep_key: s(to),
        section: DepSection::Dependencies,
        has_version: true,
        has_path: true,
        is_optional: false,
        path_value: Some(format!("../{to}")),
        version_value: Some(s("0.1")),
        manifest_path: format!("/w/{from}/{from}/Cargo.toml"),
    }
}

fn ecosystem(crates: Vec<CrateInfo>, deps: Vec<InternalDep>) -> Ecosystem {
    let mut map = TextMap::new();
    for c in crates {
        map.insert(c.name.clone(), c);
    }
    Ecosystem { root: s("/w"), crates: map, deps }
}

fn level(names: &[&str]) -> Vec<String> {
    names.iter().map(|n| s(n)).collect()
}

#[test]
fn dependencies_come_before_dependents() {
    let eco = ecosystem(
        vec![info("app", "x"), info("mid", "x"), info("base", "x"), info("alone", "x")],
        vec![dep("app", "mid"), dep("mid", "base"), dep("app", "base")],
    );
    let levels = publish_order(&eco, true).unwrap();
    assert_eq!(levels, vec![level(&["alone", "base"]), level(&["mid"]), level(&["app"])]);
}

#[test]
fn unpublished_crates_are_left_out_on_request() {
    let mut tool = info("tool", "x");
    tool.publishable = false;
    let eco = ecosystem(vec![tool, info("base", "x")], vec![dep("tool", "base")]);
    assert_eq!(publish_order(&eco, true).unwrap(), vec![level(&["base"])]);
    assert_eq!(publish_order(&eco, false).unwrap(), vec![level(&["base"]), level(&["tool"])]);
}

#[test]
fn only_real_dependencies_order() {
    let mut dev = dep("base", "app");
    dev.section = DepSection::DevDependencies;
    let eco = ecosystem(
        vec![info("app", "x"), info("base", "x")],
        vec![dep("app", "base"), dev, dep("app", "unknown")],
    );
    assert_eq!(publish_order(&eco, true).unwrap(), vec![level(&["base"]), level(&["app"])]);
}

#[test]
fn cycles_are_errors() {
    let eco = ecosystem(
        vec![info("a", "x"), info("b", "x")],
        vec![dep("a", "b"), dep("b", "a")],
    );
    let error = publish_order(&eco, true).unwrap_err();
    let about = |name: &str| format!("circular dependency detected involving '{name}'");
    assert!(error == about("a") || error == about("b"));
    // A crate that depends on itself is no cycle
    let own = ecosystem(vec![info("a", "x")], vec![dep("a", "a")]);
    assert_eq!(publish_order(&own, true).unwrap(), vec![level(&["a"])]);
}

#[test]
fn nothing_orders_into_an_empty_level() {
    let levels = publish_order(&ecosystem(Vec::new(), Vec::new()), true).unwrap();
    assert_eq!(levels, vec![Vec::<String>::new()]);
}

#[test]
fn the_graph_has_a_node_for_each_crate() {
    let eco = ecosystem(
        vec![info("a", "x"), info("b", "x")],
        vec![dep("a", "b"), dep("a", "unknown")],
    );
    let (graph, places) = build_graph(&eco);
    assert_eq!(graph.node_count(), 2);
    assert_eq!(graph.edge_count(), 1);
    assert_eq!(places.len(), 2);
    let a = petgraph::graph::NodeIndex::new(*places.get("a").unwrap());
    assert_eq!(graph[a], "a");
}
