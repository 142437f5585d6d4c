use superwork::glob::{
    end_glob_match, full_glob_match, glob_list_match, glob_match, tail_glob_match,
};

#[test]
fn star_alone_matches_everything() {
    for name in ["", "zenjpeg", "*", "a-b"] {
        assert!(glob_match("*", name));
        assert!(end_glob_match("*", name));
        assert!(tail_glob_match("*", name));
        assert!(full_glob_match("*", name));
    }
}

#[test]
fn plain_patterns_match_themselves_only() {
    for matches in [glob_match, end_glob_match, tail_glob_match, full_glob_match] {
        assert!(matches("zenpng", "zenpng"));
        assert!(!matches("zenpng", "zenpng2"));
        assert!(!matches("zenpng", "xzenpng"));
        assert!(!matches("", "a"));
        assert!(matches("", ""));
    }
}

#[test]
fn a_star_at_one_end_leaves_the_other_fixed() {
    for matches in [glob_match, end_glob_match, tail_glob_match, full_glob_match] {
        assert!(matches("zen*", "zenpng"));
        assert!(matches("zen*", "zen"));
        assert!(!matches("zen*", "xzen"));
        assert!(matches("*png", "zenpng"));
        assert!(!matches("*png", "zenpngs"));
    }
}

#[test]
fn a_star_in_the_middle_is_known_to_some() {
    assert!(glob_match("zen*decoder", "zenjxl-decoder"));
    assert!(!glob_match("zen*decoder", "zenjxl-encoder"));
    assert!(full_glob_match("zen*decoder", "zenjxl-decoder"));
    assert!(!end_glob_match("zen*decoder", "zenjxl-decoder"));
    assert!(end_glob_match("zen*decoder", "zen*decoder"));
    assert!(!tail_glob_match("zen*decoder", "zenjxl-decoder"));
}

#[test]
fn overlapping_ends_still_match_in_the_middle() {
    assert!(glob_match("ab*ba", "aba"));
    assert!(!full_glob_match("ab*ba", "aba"));
}

#[test]
fn question_marks_stand_for_one_character() {
    assert!(full_glob_match("zen?ng", "zenpng"));
    assert!(!full_glob_match("zen?ng", "zenppng"));
    assert!(full_glob_match("?", "x"));
    assert!(!full_glob_match("?", ""));
    assert!(!glob_match("zen?ng", "zenpng"));
}

#[test]
fn full_patterns_take_several_stars() {
    assert!(full_glob_match("*jxl*", "zenjxl-decoder"));
    assert!(full_glob_match("*z*n*", "zenpng"));
    assert!(!full_glob_match("*jxl*", "zenpng"));
}

#[test]
fn a_list_matches_where_one_pattern_does() {
    let list = vec!["timed_*".to_string(), "cancelled".to_string()];
    assert!(glob_list_match(&list, "timed_out"));
    assert!(glob_list_match(&list, "cancelled"));
    assert!(!glob_list_match(&list, "failure"));
    assert!(!glob_list_match(&Vec::new(), "failure"));
}
