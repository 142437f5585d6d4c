use std::path::{Component, Path, PathBuf};
use superwork::{path, text};

const PATHS: [&str; 24] = [
    "", "/", "//", ".", "..", "./", "../", "a", "a/", "/a", "a/b", "a//b", "a/./b", "./a/b",
    "/a/b/", "a/..", "../a", "/..", "/a/../b", "a/b/.", "/w/zen/Cargo.toml", "./.", "a-b/c", "a/-b",
];

const TEXTS: [&str; 18] = [
    "", "a", " a ", "a b  c", "\n", "a\nb", "a\r\nb\n", "\r\n\r\n", "a\rb", "\t x\u{a0}", "..a..b",
    "aaa", "aXbXX", "\u{3000}wide\u{3000}", "\u{e9}t\u{e9}", "x\u{2028}y", "-1", "+17",
];

#[test]
fn paths_have_the_parents_and_names_of_std() {
    for p in PATHS {
        let std_parent = Path::new(p).parent();
        match (path::parent_of(p), std_parent) {
            (Some(mine), Some(theirs)) => assert_eq!(Path::new(&mine), theirs, "{p:?}"),
            (None, None) => {}
            (mine, theirs) => panic!("{p:?}: {mine:?} and {theirs:?}"),
        }
        let std_name = Path::new(p).file_name().map(|n| n.to_string_lossy().to_string());
        assert_eq!(path::file_name_of(p), std_name, "{p:?}");
        assert_eq!(path::is_rooted(p), Path::new(p).has_root(), "{p:?}");
    }
}

#[test]
fn paths_compare_and_join_as_in_std() {
    for a in PATHS {
        for b in PATHS {
            let (x, y) = (Path::new(a), Path::new(b));
            assert_eq!(path::same_path(a, b), x == y, "{a:?} {b:?}");
            assert_eq!(path::path_before(a, b), x < y, "{a:?} {b:?}");
            assert_eq!(Path::new(&path::join_path(a, b)), x.join(y), "{a:?} {b:?}");
            match (path::strip_base(a, b), x.strip_prefix(y)) {
                (Some(mine), Ok(theirs)) => assert_eq!(Path::new(&mine), theirs, "{a:?} {b:?}"),
                (None, Err(_)) => {}
                (mine, theirs) => panic!("{a:?} {b:?}: {mine:?} and {theirs:?}"),
            }
        }
    }
}

#[test]
fn paths_lead_to_each_other_by_components() {
    for a in PATHS {
        for b in PATHS {
            let from: Vec<Component> = Path::new(a).components().collect();
            let to: Vec<Component> = Path::new(b).components().collect();
            let common = from.iter().zip(to.iter()).take_while(|(x, y)| x == y).count();
            let mut way = PathBuf::new();
            for _ in common..from.len() {
                way.push("..");
            }
            for part in &to[common..] {
                way.push(part);
            }
            assert_eq!(Path::new(&path::relative_path(a, b)), way, "{a:?} {b:?}");
        }
    }
}

#[test]
fn paths_are_normalized_by_components() {
    for p in PATHS {
        let mut normal = PathBuf::new();
        for part in Path::new(p).components() {
            match part {
                Component::ParentDir => {
                    normal.pop();
                }
                Component::CurDir => {}
                other => normal.push(other),
            }
        }
        assert_eq!(Path::new(&path::normalize_path(p)), normal, "{p:?}");
        for q in PATHS {
            let both = path::join_path(p, q);
            let base = path::normalize_path(p);
            let full = path::normalize_path(&both);
            assert_eq!(
                path::strip_base(&full, &base).is_some(),
                Path::new(&full).starts_with(Path::new(&base)),
                "{p:?} {q:?}"
            );
        }
    }
}

#[test]
fn texts_are_cut_as_in_std() {
    for t in TEXTS {
        assert_eq!(text::trimmed(t), t.trim(), "{t:?}");
        assert_eq!(text::trim_start_of(t), t.trim_start(), "{t:?}");
        assert_eq!(text::trim_end_of(t), t.trim_end(), "{t:?}");
        assert_eq!(text::lines_of(t), t.lines().collect::<Vec<_>>(), "{t:?}");
        assert_eq!(text::split_on(t, 'X'), t.split('X').collect::<Vec<_>>(), "{t:?}");
        assert_eq!(text::split_on_text(t, ".."), t.split("..").collect::<Vec<_>>(), "{t:?}");
        assert_eq!(text::split_on_text(t, "aa"), t.split("aa").collect::<Vec<_>>(), "{t:?}");
        assert_eq!(text::replace_all(t, "aa", "b"), t.replace("aa", "b"), "{t:?}");
        assert_eq!(text::replace_all(t, "X", "yX"), t.replace("X", "yX"), "{t:?}");
        assert_eq!(text::trim_ends(t, "X"), t.trim_end_matches("X"), "{t:?}");
        assert_eq!(text::parse_number(t), t.parse::<u64>().ok(), "{t:?}");
        let word = t.split_whitespace().next().unwrap_or(t);
        assert_eq!(text::leading_word_of(t.trim()), word.trim(), "{t:?}");
        for u in TEXTS {
            assert_eq!(text::contains(t, u), t.contains(u), "{t:?} {u:?}");
            assert_eq!(text::leads_with(t, u), t.starts_with(u), "{t:?} {u:?}");
            assert_eq!(text::ends_with(t, u), t.ends_with(u), "{t:?} {u:?}");
            assert_eq!(text::before(t, u), t < u, "{t:?} {u:?}");
            assert_eq!(text::strip_lead(t, u).as_deref(), t.strip_prefix(u), "{t:?} {u:?}");
            assert_eq!(text::strip_end(t, u).as_deref(), t.strip_suffix(u), "{t:?} {u:?}");
        }
    }
}

#[test]
fn spaces_are_those_of_std() {
    for c in '\0'..=char::MAX {
        assert_eq!(text::space(c), c.is_whitespace(), "{c:?}");
    }
}
