use superwork::path;

#[test]
fn paths_have_parts() {
    assert!(path::is_rooted("/a"));
    assert!(!path::is_rooted("a/b"));
    assert_eq!(path::parts_of("/a//b/./c/"), vec!["a", "b", "c"]);
    assert_eq!(path::parts_of("./a"), vec![".", "a"]);
    assert!(path::same_path("a//b/", "a/b"));
    assert!(!path::same_path("/a", "a"));
}

#[test]
fn paths_have_names_and_parents() {
    assert_eq!(path::file_name_of("/w/zen/Cargo.toml"), Some("Cargo.toml".to_string()));
    assert_eq!(path::file_name_of(".."), None);
    assert_eq!(path::file_name_of("/"), None);
    assert_eq!(path::parent_of("/w/zen/Cargo.toml"), Some("/w/zen".to_string()));
    assert_eq!(path::parent_of("Cargo.toml"), Some("".to_string()));
    assert_eq!(path::parent_of("/"), None);
    assert_eq!(path::parent_of(""), None);
}

#[test]
fn paths_join_and_strip() {
    assert_eq!(path::join_path("/w", "zen"), "/w/zen");
    assert_eq!(path::join_path("/w/", "zen"), "/w/zen");
    assert_eq!(path::join_path("/w", "/abs"), "/abs");
    assert_eq!(path::strip_base("/w/zen/a", "/w"), Some("zen/a".to_string()));
    assert_eq!(path::strip_base("/w", "/w"), Some("".to_string()));
    assert_eq!(path::strip_base("/other", "/w"), None);
    assert_eq!(path::strip_base("/www", "/w"), None);
}

#[test]
fn paths_normalize_lexically() {
    assert_eq!(path::normalize_path("/a/b/../c/./d"), "/a/c/d");
    assert_eq!(path::normalize_path("/a/../../b"), "/b");
    assert_eq!(path::normalize_path("a/.."), "");
    assert_eq!(path::normalize_path("../a"), "a");
    for p in ["/a/b/../c", "x/./y", "/"] {
        let once = path::normalize_path(p);
        assert_eq!(path::normalize_path(&once), once);
    }
}

#[test]
fn relative_paths_lead_there() {
    assert_eq!(path::relative_path("/w/zen/a", "/w/other"), "../../other");
    assert_eq!(path::relative_path("/w/a", "/w/a/b"), "b");
    assert_eq!(path::relative_path("/w/a", "/w/a"), "");
    for (from, to) in [("/w/zen/a", "/w/other/b"), ("/w", "/w/x"), ("/w/x/y", "/w")] {
        let way = path::relative_path(from, to);
        assert!(path::same_path(&path::normalize_path(&path::join_path(from, &way)), to));
    }
}

#[test]
fn paths_are_ordered_by_their_parts() {
    assert!(path::path_before("/w/a/z", "/w/a-b"));
    assert!(path::path_before("/w/a", "/w/a/b"));
    assert!(!path::path_before("/w/b", "/w/a/b"));
    assert!(!path::path_before("a/b", "a//b"));
    assert!(path::path_before("/a", "a"));
}
