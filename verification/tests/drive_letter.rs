use std::str::FromStr;
use uffs_mft::platform::{DriveLetter, DriveLetterError};

#[test]
fn parse_accepts_uppercase() {
    assert_eq!(DriveLetter::parse('C').unwrap(), DriveLetter::C);
    assert_eq!(DriveLetter::parse('A').unwrap(), DriveLetter::A);
    assert_eq!(DriveLetter::parse('Z').unwrap(), DriveLetter::Z);
}

#[test]
fn parse_canonicalises_lowercase() {
    assert_eq!(DriveLetter::parse('c').unwrap(), DriveLetter::C);
    assert_eq!(DriveLetter::parse('a').unwrap(), DriveLetter::A);
    assert_eq!(DriveLetter::parse('z').unwrap(), DriveLetter::Z);
}

#[test]
fn parse_rejects_digits() {
    assert_eq!(
        DriveLetter::parse('1').unwrap_err(),
        DriveLetterError { raw: '1' }
    );
    DriveLetter::parse('0').unwrap_err();
    DriveLetter::parse('9').unwrap_err();
}

#[test]
fn parse_rejects_non_ascii() {
    DriveLetter::parse('é').unwrap_err();
    DriveLetter::parse('☃').unwrap_err();
    DriveLetter::parse('\u{0}').unwrap_err();
}

#[test]
fn parse_rejects_punctuation() {
    DriveLetter::parse(':').unwrap_err();
    DriveLetter::parse('/').unwrap_err();
    DriveLetter::parse(' ').unwrap_err();
}

#[test]
fn as_char_returns_uppercase() {
    assert_eq!(DriveLetter::C.as_char(), 'C');
    assert_eq!(DriveLetter::parse('c').unwrap().as_char(), 'C');
}

#[test]
fn as_byte_returns_ascii_byte() {
    assert_eq!(DriveLetter::C.as_byte(), b'C');
    assert_eq!(DriveLetter::A.as_byte(), b'A');
    assert_eq!(DriveLetter::Z.as_byte(), b'Z');
}

#[test]
fn alphabet_index_runs_a_to_z() {
    assert_eq!(DriveLetter::A.alphabet_index(), 0);
    assert_eq!(DriveLetter::B.alphabet_index(), 1);
    assert_eq!(DriveLetter::M.alphabet_index(), 12);
    assert_eq!(DriveLetter::Z.alphabet_index(), 25);
}

#[test]
fn from_byte_unchecked_round_trips_uppercase_range() {
    for offset in 0_u8..26 {
        let byte = b'A' + offset;
        let dl = DriveLetter::from_byte_unchecked(byte);
        assert_eq!(dl.as_byte(), byte);
        assert_eq!(dl.as_char(), char::from(byte));
        assert_eq!(usize::from(offset), dl.alphabet_index());
    }
}

#[test]
fn try_from_delegates_to_parse() {
    let from_try: DriveLetter = 'c'.try_into().unwrap();
    let from_parse: DriveLetter = DriveLetter::parse('c').unwrap();
    assert_eq!(from_try, from_parse);
}

#[test]
fn try_from_byte_reads_a_letter() {
    let letter: DriveLetter = b'q'.try_into().unwrap();
    assert_eq!(letter, DriveLetter::Q);
    assert_eq!(DriveLetter::try_from(b'7').unwrap_err().raw, '7');
}

#[test]
fn display_is_uppercase_letter() {
    let buf = DriveLetter::C.to_string();
    assert_eq!(buf, "C");
}

#[test]
fn debug_includes_letter() {
    let buf = DriveLetter::C.debug_text();
    assert_eq!(buf, "DriveLetter(C)");
}

#[test]
fn ordering_matches_alphabet() {
    assert!(DriveLetter::A < DriveLetter::B);
    assert!(DriveLetter::C < DriveLetter::Z);
    let mut sorted = [DriveLetter::Z, DriveLetter::A, DriveLetter::M];
    sorted.sort_unstable();
    assert_eq!(sorted, [DriveLetter::A, DriveLetter::M, DriveLetter::Z]);
}

#[test]
fn repr_transparent_size_alignment() {
    assert_eq!(
        std::mem::size_of::<DriveLetter>(),
        std::mem::size_of::<u8>()
    );
    assert_eq!(
        std::mem::align_of::<DriveLetter>(),
        std::mem::align_of::<u8>()
    );
}

#[test]
fn error_display_includes_input_char() {
    let err = DriveLetter::parse('1').unwrap_err();
    let msg = err.to_string();
    assert!(msg.contains("'1'"), "got: {msg}");
    assert!(msg.contains("A..=Z"), "got: {msg}");
}

#[test]
fn error_message_escapes_control_characters() {
    let err = DriveLetter::parse('\n').unwrap_err();
    assert!(err.to_string().contains("'\\n'"));
    let err = DriveLetter::parse('\u{7f}').unwrap_err();
    assert!(err.to_string().contains("'\\u{7f}'"));
}

#[test]
fn parse_is_const_fn() {
    let parsed: Result<DriveLetter, DriveLetterError> = DriveLetter::parse('c');
    assert_eq!(parsed.unwrap(), DriveLetter::C);
}

#[test]
fn from_str_accepts_single_letter() {
    assert_eq!(DriveLetter::from_str("c").unwrap(), DriveLetter::C);
    assert_eq!(DriveLetter::from_str("Z").unwrap(), DriveLetter::Z);
    assert_eq!("A".parse::<DriveLetter>().unwrap(), DriveLetter::A);
}

#[test]
fn from_str_rejects_empty_and_multichar() {
    DriveLetter::from_str("").unwrap_err();
    DriveLetter::from_str("CD").unwrap_err();
    DriveLetter::from_str("C:").unwrap_err();
    let err = DriveLetter::from_str("XY").unwrap_err();
    assert_eq!(err.raw, 'X');
}

#[test]
fn from_str_rejects_non_letter_single_char() {
    DriveLetter::from_str("1").unwrap_err();
    DriveLetter::from_str(":").unwrap_err();
    DriveLetter::from_str("é").unwrap_err();
}

#[test]
fn letters_are_read_back_in_either_case() {
    for offset in 0_u8..26 {
        let upper = char::from(b'A' + offset);
        let lower = char::from(b'a' + offset);
        let letter = DriveLetter::parse(upper).unwrap();
        assert_eq!(DriveLetter::parse(lower).unwrap(), letter);
        assert_eq!(DriveLetter::parse(letter.as_char()).unwrap(), letter);
        assert!(letter.eq_ignore_ascii_case(lower));
        assert!(letter.eq_ignore_ascii_case(upper));
        assert!(!letter.eq_ignore_ascii_case('1'));
    }
}
