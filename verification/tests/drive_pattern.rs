use uffs_mft::platform::{split_drive_prefix, DriveLetter};

#[test]
fn bare_drive_is_match_all() {
    assert_eq!(split_drive_prefix("C:"), Some((DriveLetter::C, "*")));
}

#[test]
fn drive_root_backslash_and_slash_are_match_all() {
    assert_eq!(split_drive_prefix("C:\\"), Some((DriveLetter::C, "*")));
    assert_eq!(split_drive_prefix("C:/"), Some((DriveLetter::C, "*")));
}

#[test]
fn drive_plus_name_is_substring_body() {
    assert_eq!(
        split_drive_prefix("C:report"),
        Some((DriveLetter::C, "report"))
    );
}

#[test]
fn drive_root_single_segment_collapses_to_name() {
    assert_eq!(
        split_drive_prefix("C:\\report"),
        Some((DriveLetter::C, "report"))
    );
}

#[test]
fn drive_root_single_glob_segment_stays_a_name_glob() {
    assert_eq!(
        split_drive_prefix("C:\\*.pdf"),
        Some((DriveLetter::C, "*.pdf"))
    );
}

#[test]
fn drive_plus_multi_segment_keeps_path_body() {
    assert_eq!(
        split_drive_prefix("C:\\report\\*"),
        Some((DriveLetter::C, "report\\*"))
    );
}

#[test]
fn lowercase_letter_is_canonicalised() {
    assert_eq!(split_drive_prefix("d:logs"), Some((DriveLetter::D, "logs")));
}

#[test]
fn no_drive_prefix_returns_none() {
    assert_eq!(split_drive_prefix("report*"), None);
    assert_eq!(split_drive_prefix("\\path\\*"), None);
    assert_eq!(split_drive_prefix("/path/*"), None);
    assert_eq!(split_drive_prefix(">regex"), None);
    assert_eq!(split_drive_prefix("*"), None);
}

#[test]
fn non_alpha_first_byte_returns_none() {
    assert_eq!(split_drive_prefix("12:34"), None);
    assert_eq!(split_drive_prefix(":foo"), None);
}

#[test]
fn single_char_without_colon_returns_none() {
    assert_eq!(split_drive_prefix("C"), None);
    assert_eq!(split_drive_prefix(""), None);
}

#[test]
fn leading_separators_do_not_matter() {
    for pattern in ["C:x\\y", "C:\\x\\y", "C:/x\\y", "c:\\/\\x\\y"] {
        assert_eq!(split_drive_prefix(pattern), Some((DriveLetter::C, "x\\y")));
    }
}

#[test]
fn body_may_hold_any_character() {
    assert_eq!(
        split_drive_prefix("é:x"),
        None
    );
    assert_eq!(
        split_drive_prefix("e:\\übung☃"),
        Some((DriveLetter::E, "übung☃"))
    );
}
