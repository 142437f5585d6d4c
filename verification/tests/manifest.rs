use superwork::manifest;
use superwork::manifest::WriteOutcome;
use superwork::text_map::TextMap;
use toml_edit::DocumentMut;

fn doc(content: &str) -> DocumentMut {
    match manifest::read_manifest("Cargo.toml", content) {
        Ok(d) => d,
        Err(e) => panic!("{e}"),
    }
}

const SAMPLE: &str = "\
# top comment
[package]
name = \"zenpng\"
version = \"0.1.0\" # keep

[dependencies]
zenflate = { version = \"0.3\", path = \"../zenflate\" } # inline
garb = \"0.2\"
serde = { version = \"1\", features = [\"derive\", \"std\"] }

[dependencies.archmage]
path = \"../../archmage\"
version = \"0.9\"

[dev-dependencies]
zensim = { path = \"../zensim\" }
";

#[test]
fn reading_keeps_the_text() {
    assert_eq!(doc(SAMPLE).to_string(), SAMPLE);
    match manifest::read_manifest("a/Cargo.toml", "[package") {
        Ok(_) => panic!("not a manifest"),
        Err(e) => assert!(e.starts_with("parsing a/Cargo.toml: ")),
    }
}

#[test]
fn writing_tells_what_to_do() {
    let d = doc(SAMPLE);
    assert!(matches!(manifest::write_manifest(&d, SAMPLE, false), WriteOutcome::Unchanged));
    assert!(!manifest::write_manifest(&d, SAMPLE, true).wrote());
    let mut e = doc(SAMPLE);
    assert!(manifest::set_package_version(&mut e, "0.2.0"));
    assert!(matches!(manifest::write_manifest(&e, SAMPLE, true), WriteOutcome::Withheld));
    match manifest::write_manifest(&e, SAMPLE, false) {
        WriteOutcome::Write(text) => {
            assert_eq!(text, SAMPLE.replace("\"0.1.0\"", "\"0.2.0\"").replace(" # keep", ""))
        }
        _ => panic!("a changed document is written"),
    }
}

#[test]
fn paths_are_removed_from_inline_and_plain_tables() {
    let mut d = doc(SAMPLE);
    assert!(manifest::remove_dep_path(&mut d, "dependencies", "zenflate"));
    assert!(manifest::remove_dep_path(&mut d, "dependencies", "archmage"));
    let text = d.to_string();
    assert_eq!(d["dependencies"]["zenflate"]["version"].as_str(), Some("0.3"));
    assert!(text.contains("[dependencies.archmage]\nversion = \"0.9\"\n"));
    assert!(!text.contains("../zenflate"));
    // Nothing to do the second time, nor where there is no such entry
    assert!(!manifest::remove_dep_path(&mut d, "dependencies", "zenflate"));
    assert!(!manifest::remove_dep_path(&mut d, "dependencies", "garb"));
    assert!(!manifest::remove_dep_path(&mut d, "dependencies", "nothing"));
    assert!(!manifest::remove_dep_path(&mut d, "nothing", "zenflate"));
    assert_eq!(d.to_string(), text);
}

#[test]
fn git_urls_take_the_place_of_paths() {
    let mut d = doc(SAMPLE);
    let url = "https://github.com/imazen/zenflate";
    assert!(manifest::replace_path_with_git(&mut d, "dependencies", "zenflate", url));
    let text = d.to_string();
    assert!(text.contains("git = \"https://github.com/imazen/zenflate\""));
    assert!(!text.contains("\"../zenflate\""));
    assert!(!manifest::replace_path_with_git(&mut d, "dependencies", "zenflate", url));
    assert!(!manifest::replace_path_with_git(&mut d, "dependencies", "garb", url));
    assert!(manifest::replace_path_with_git(&mut d, "dependencies", "archmage", url));
}

#[test]
fn patching_and_unpatching_is_no_change() {
    let mut d = doc(SAMPLE);
    assert!(manifest::set_dep_path(&mut d, "dependencies", "serde", "../serde"));
    assert!(!manifest::set_dep_path(&mut d, "dependencies", "serde", "../serde"));
    assert!(d.to_string().contains("path = \"../serde\""));
    assert!(manifest::remove_dep_path(&mut d, "dependencies", "serde"));
    let back = doc(&d.to_string());
    let table = back["dependencies"]["serde"].as_inline_table().unwrap();
    assert_eq!(table.len(), 2);
    assert!(table.contains_key("version") && table.contains_key("features"));
}

#[test]
fn bare_versions_become_tables_when_patched() {
    let mut d = doc(SAMPLE);
    assert!(manifest::set_dep_path(&mut d, "dependencies", "garb", "../garb"));
    assert!(d.to_string().contains("garb = { version = \"0.2\", path = \"../garb\" }"));
    assert!(manifest::set_dep_path(&mut d, "dependencies", "archmage", "../am"));
    assert_eq!(d["dependencies"]["archmage"]["path"].as_str(), Some("../am"));
    let mut odd = doc("[dependencies]\nx = 3\n");
    assert!(!manifest::set_dep_path(&mut odd, "dependencies", "x", "../x"));
}

#[test]
fn edits_keep_keys_and_other_entries_in_place() {
    let text = "[package]\nname = \"x\"\nversion = \"1.0.0\"\nedition = \"2021\"\n\n\
                [dependencies]\na = { version = \"1\", path = \"../a\", optional = true }\nb = \"1\"\n";
    let mut d = doc(text);
    assert!(manifest::set_package_version(&mut d, "1.1.0"));
    assert!(manifest::replace_path_with_git(&mut d, "dependencies", "a", "u"));
    assert!(manifest::set_dep_version(&mut d, "dependencies", "a", "2"));
    let keys = |item: &toml_edit::Item| -> Vec<String> {
        item.as_table_like().unwrap().iter().map(|(k, _)| k.to_string()).collect()
    };
    assert_eq!(keys(&d["package"]), vec!["name", "version", "edition"]);
    assert_eq!(keys(&d["dependencies"]), vec!["a", "b"]);
    assert_eq!(keys(&d["dependencies"]["a"]), vec!["version", "optional", "git"]);
    assert_eq!(d["dependencies"]["a"]["optional"].as_bool(), Some(true));
    assert_eq!(d["package"]["version"].as_str(), Some("1.1.0"));
}

#[test]
fn entries_sections_and_members_are_deleted() {
    let mut d = doc(SAMPLE);
    assert!(manifest::delete_dep(&mut d, "dependencies", "garb"));
    assert!(!manifest::delete_dep(&mut d, "dependencies", "garb"));
    assert!(!d.to_string().contains("garb"));

    let mut p = doc("[patch.crates-io]\na = { path = \"a\" }\n\n[profile]\nx = 1\n");
    assert!(manifest::delete_section(&mut p, "patch.crates-io"));
    assert!(!p.contains_key("patch"));
    assert!(!manifest::delete_section(&mut p, "patch.crates-io"));
    assert!(!manifest::delete_section(&mut p, "a.b.c"));
    assert!(manifest::delete_section(&mut p, "profile"));
    assert!(!p.contains_key("profile"));

    let mut two = doc("[patch.a]\nx = \"1\"\n[patch.b]\ny = \"1\"\n");
    assert!(manifest::delete_section(&mut two, "patch.a"));
    assert!(two.contains_key("patch"));

    let mut w = doc("[workspace]\nmembers = [\"a\", \"b\", \"a\"]\n");
    assert!(manifest::remove_workspace_member(&mut w, "a"));
    assert_eq!(w["workspace"]["members"].as_array().unwrap().len(), 1);
    assert!(!manifest::remove_workspace_member(&mut w, "a"));

    let mut wd = doc("[workspace.dependencies]\na = \"1\"\n");
    assert!(manifest::remove_workspace_dep(&mut wd, "a"));
    assert!(!manifest::remove_workspace_dep(&mut wd, "a"));
}

#[test]
fn features_are_stripped() {
    let mut d = doc(SAMPLE);
    assert!(manifest::strip_dep_feature(&mut d, "dependencies", "serde", "std"));
    assert_eq!(d["dependencies"]["serde"]["features"].as_array().unwrap().len(), 1);
    assert!(!manifest::strip_dep_feature(&mut d, "dependencies", "serde", "std"));
    assert!(!manifest::strip_dep_feature(&mut d, "dependencies", "garb", "std"));

    let mut many = doc(
        "[dependencies]\na = { features = [\"x\", \"y\"] }\nb = { features = [\"x\"] }\nc = \"1\"\n",
    );
    assert_eq!(manifest::strip_section_feature(&mut many, "dependencies", "x"), 2);
    assert_eq!(manifest::strip_section_feature(&mut many, "dependencies", "x"), 0);
    assert!(!many.to_string().contains("\"x\""));
    assert!(many.to_string().contains("\"y\""));
}

#[test]
fn references_to_a_dep_leave_the_features() {
    let mut d = doc(
        "[features]\ndefault = [\"std\"]\npng = [\"dep:zenpng\", \"std\"]\nall = [\"dep:zenpng\"]\n",
    );
    assert_eq!(manifest::strip_dep_from_features(&mut d, "zenpng"), 2);
    assert_eq!(manifest::strip_dep_from_features(&mut d, "zenpng"), 0);
    assert_eq!(d["features"]["png"].as_array().unwrap().len(), 1);
    assert_eq!(d["features"]["all"].as_array().unwrap().len(), 0);
    assert_eq!(d["features"]["default"].as_array().unwrap().len(), 1);
}

#[test]
fn raw_values_are_parsed() {
    let mut d = doc(SAMPLE);
    assert!(manifest::set_dep_value_raw(&mut d, "dependencies", "garb", "[]"));
    assert_eq!(d["dependencies"]["garb"].as_array().unwrap().len(), 0);
    assert!(manifest::set_dep_value_raw(&mut d, "dependencies", "garb", "{ version = \"2\" }"));
    assert_eq!(d["dependencies"]["garb"]["version"].as_str(), Some("2"));
    assert!(!manifest::set_dep_value_raw(&mut d, "dependencies", "garb", "not toml ["));
    assert!(!manifest::set_dep_value_raw(&mut d, "dependencies", "nothing", "[]"));
}

#[test]
fn versions_are_set() {
    let mut d = doc(SAMPLE);
    assert!(!manifest::set_package_version(&mut d, "0.1.0"));
    assert!(manifest::set_package_version(&mut d, "0.2.0"));
    assert_eq!(d["package"]["version"].as_str(), Some("0.2.0"));
    assert!(manifest::set_dep_version(&mut d, "dependencies", "zenflate", "0.4"));
    assert!(!manifest::set_dep_version(&mut d, "dependencies", "zenflate", "0.4"));
    assert!(manifest::set_dep_version(&mut d, "dependencies", "garb", "0.5"));
    assert_eq!(d["dependencies"]["garb"].as_str(), Some("0.5"));
    assert!(manifest::set_dep_version(&mut d, "dependencies", "archmage", "1"));
    assert!(manifest::set_dep_version(&mut d, "dev-dependencies", "zensim", "0.2"));
    assert!(!manifest::set_package_version(&mut doc("[workspace]\n"), "1.0.0"));
}

#[test]
fn workspace_versions_are_set() {
    let ws = "[workspace.package]\nversion = \"1.0.0\"\n\n[workspace.dependencies]\n\
              a = { path = \"a\" }\nb = \"1\"\n";
    let mut d = doc(ws);
    assert!(manifest::set_workspace_package_version(&mut d, "1.1.0"));
    assert_eq!(d["workspace"]["package"]["version"].as_str(), Some("1.1.0"));
    assert!(!manifest::set_workspace_package_version(&mut doc("[workspace.package]\n"), "1.1.0"));
    assert!(manifest::set_workspace_dep_version(&mut d, "a", "0.2"));
    assert!(!manifest::set_workspace_dep_version(&mut d, "a", "0.2"));
    // A bare string is a version already
    assert!(!manifest::set_workspace_dep_version(&mut d, "b", "2"));
    assert!(manifest::force_workspace_dep_version(&mut d, "b", "2"));
    assert_eq!(d["workspace"]["dependencies"]["b"].as_str(), Some("2"));
    assert!(manifest::force_workspace_dep_version(&mut d, "a", "0.2"));
    assert!(manifest::set_workspace_dep_git(&mut d, "a", "https://github.com/imazen/a"));
    assert!(!d.to_string().contains("path"));
    assert!(!manifest::set_workspace_dep_git(&mut d, "b", "https://github.com/imazen/b"));
}

#[test]
fn workspace_paths_are_added_where_there_are_none() {
    let mut d = doc(
        "[workspace.dependencies]\na = { version = \"1\" }\nb = { path = \"b\" }\nc = \"1\"\n",
    );
    let mut paths: TextMap<String> = TextMap::new();
    for name in ["a", "b", "c", "d"] {
        paths.insert(name.to_string(), format!("../{name}"));
    }
    assert_eq!(manifest::add_workspace_paths(&mut d, &paths), 1);
    let deps = &d["workspace"]["dependencies"];
    assert_eq!(deps["a"]["path"].as_str(), Some("../a"));
    assert_eq!(deps["a"]["version"].as_str(), Some("*"));
    assert_eq!(deps["b"]["path"].as_str(), Some("b"));
    assert_eq!(deps["c"].as_str(), Some("1"));
}

#[test]
fn edits_leave_the_rest_alone() {
    let mut d = doc(SAMPLE);
    assert!(manifest::delete_dep(&mut d, "dev-dependencies", "zensim"));
    let text = d.to_string();
    assert!(text.starts_with("# top comment\n[package]\nname = \"zenpng\"\n"));
    assert!(text.contains("zenflate = { version = \"0.3\", path = \"../zenflate\" } # inline"));
    assert!(text.contains("version = \"0.1.0\" # keep"));
}
