use superwork::text;
use superwork::text_map::TextMap;

fn s(t: &str) -> String {
    t.to_string()
}

#[test]
fn text_lines_and_words() {
    assert_eq!(text::lines_of("a\nb\r\n\nc"), vec![s("a"), s("b"), s(""), s("c")]);
    assert_eq!(text::lines_of(""), Vec::<String>::new());
    assert_eq!(text::lines_of("a\n"), vec![s("a")]);
    assert_eq!(text::trimmed("  a b \n"), "a b");
    assert_eq!(text::trim_start_of("\u{2003}x "), "x ");
    assert_eq!(text::trim_end_of(" x\u{a0}"), " x");
    assert_eq!(text::leading_word_of("0.6.5 (latest)"), "0.6.5");
}

#[test]
fn text_prefixes_and_suffixes() {
    assert!(text::leads_with("zenpng", "zen"));
    assert!(!text::leads_with("ze", "zen"));
    assert!(text::ends_with("zenpng", "png"));
    assert_eq!(text::strip_lead("refs/heads/x", "refs/heads/"), Some(s("x")));
    assert_eq!(text::strip_lead("x", "refs/heads/"), None);
    assert_eq!(text::strip_end("a.git", ".git"), Some(s("a")));
    assert_eq!(text::trim_ends("a.git.git", ".git"), "a");
    assert!(text::contains("sed -i path", "path"));
    assert!(!text::contains("", "path"));
}

#[test]
fn text_splits_and_joins() {
    let parts = text::split_on("a/b//c", '/');
    assert_eq!(parts, vec![s("a"), s("b"), s(""), s("c")]);
    assert_eq!(text::join_with(&parts, "/"), "a/b//c");
    assert_eq!(text::split_on_text("a--b--", "--"), vec![s("a"), s("b"), s("")]);
    assert_eq!(text::piece_after("x\"number\":7,", "\"number\":"), Some(s("7,")));
    assert_eq!(text::piece_after("none", "--"), None);
    assert_eq!(text::upto_either("7,8}", ',', '}'), "7");
    assert_eq!(text::cut_at("org/repo/x", '/'), Some((s("org"), s("repo/x"))));
    assert_eq!(text::cut_at("org", '/'), None);
    assert_eq!(text::replace_all("aXbXX", "X", "--"), "a--b----");
}

#[test]
fn text_decimals_read_back() {
    for n in [0, 7, 10, 99, 12345, u64::MAX] {
        assert_eq!(text::parse_number(&text::decimal_of(n)), Some(n));
        assert_eq!(text::decimal_of(n), format!("{n}"));
    }
    assert_eq!(text::wide_decimal_of(u128::MAX), format!("{}", u128::MAX));
    assert_eq!(text::parse_number("18446744073709551616"), None);
    assert_eq!(text::parse_number(""), None);
    assert_eq!(text::parse_number("-1"), None);
    assert_eq!(text::parse_number("+5"), Some(5));
    assert_eq!(text::parse_size("42"), Some(42));
    assert_eq!(text::parse_size("4x"), None);
}

#[test]
fn text_is_ordered_by_code_points() {
    assert!(text::before("a", "b"));
    assert!(text::before("a", "aa"));
    assert!(text::before("Z", "a"));
    assert!(!text::before("a", "a"));
    assert!(text::before("z", "\u{e9}"));
}

#[test]
fn text_map_keeps_its_keys_in_order() {
    let mut m: TextMap<u32> = TextMap::new();
    for (i, k) in ["m", "a", "z", "a"].iter().enumerate() {
        m.insert(s(k), i as u32);
    }
    assert_eq!(m.len(), 3);
    let keys: Vec<&String> = (0..m.len()).map(|i| m.key_at(i)).collect();
    assert_eq!(keys, vec!["a", "m", "z"]);
    assert_eq!(m.get("a"), Some(&3));
    assert_eq!(*m.value_at(1), 0);
    assert_eq!(m.remove("m"), Some(0));
    assert_eq!(m.remove("m"), None);
    assert!(!m.contains_key("m"));
    assert_eq!(m.len(), 2);
}
