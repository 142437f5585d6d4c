use superwork::version::{bump_version, next_version, validate_version, BumpLevel};

#[test]
fn versions_are_validated() {
    assert!(validate_version("1.2.3").is_ok());
    assert!(validate_version("1.2.3-rc.1+build").is_ok());
    for bad in ["1.2", "v1.2.3", "", "1.2.3.4", "01.2.3"] {
        match validate_version(bad) {
            Ok(()) => panic!("{bad} is no version"),
            Err(e) => assert!(e.starts_with(&format!("invalid version '{bad}': "))),
        }
    }
}

#[test]
fn levels_have_names() {
    assert!(matches!(BumpLevel::parse("major"), Some(BumpLevel::Major)));
    assert!(matches!(BumpLevel::parse("minor"), Some(BumpLevel::Minor)));
    assert!(matches!(BumpLevel::parse("patch"), Some(BumpLevel::Patch)));
    assert!(BumpLevel::parse("skip").is_none());
}

#[test]
fn bumps_go_up() {
    assert_eq!(next_version(1, 2, 3, BumpLevel::Major), Some("2.0.0".to_string()));
    assert_eq!(next_version(1, 2, 3, BumpLevel::Minor), Some("1.3.0".to_string()));
    assert_eq!(next_version(1, 2, 3, BumpLevel::Patch), Some("1.2.4".to_string()));
    assert_eq!(next_version(u64::MAX, 0, 0, BumpLevel::Major), None);
    assert_eq!(next_version(u64::MAX, 0, 9, BumpLevel::Minor), Some(format!("{}.1.0", u64::MAX)));
}

#[test]
fn versions_are_bumped_by_name() {
    assert_eq!(bump_version("z", "0.2.9", "minor"), Ok(Some("0.3.0".to_string())));
    assert_eq!(bump_version("z", "0.2.9-beta.1", "patch"), Ok(Some("0.2.10".to_string())));
    assert_eq!(bump_version("z", "0.2.9", "huge"), Err("z: invalid bump level 'huge'".to_string()));
    match bump_version("z", "two", "major") {
        Err(e) => assert!(e.starts_with("z: bad version 'two': ")),
        Ok(_) => panic!("two is no version"),
    }
}
