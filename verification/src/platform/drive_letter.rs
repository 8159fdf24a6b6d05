//! Drive letters.

use crate::text::push_escaped;
use vstd::prelude::*;
use vstd::string::*;

verus! {

/// A Windows drive letter. There are no others than these, so a value of this
/// type is always an upper-case ASCII letter.
#[derive(Copy, Clone, PartialEq, Eq, Structural, PartialOrd, Ord, Hash, Debug)]
pub enum DriveLetter {
    /// Drive letter `A`.
    A,
    /// Drive letter `B`.
    B,
    /// Drive letter `C`.
    C,
    /// Drive letter `D`.
    D,
    /// Drive letter `E`.
    E,
    /// Drive letter `F`.
    F,
    /// Drive letter `G`.
    G,
    /// Drive letter `H`.
    H,
    /// Drive letter `I`.
    I,
    /// Drive letter `J`.
    J,
    /// Drive letter `K`.
    K,
    /// Drive letter `L`.
    L,
    /// Drive letter `M`.
    M,
    /// Drive letter `N`.
    N,
    /// Drive letter `O`.
    O,
    /// Drive letter `P`.
    P,
    /// Drive letter `Q`.
    Q,
    /// Drive letter `R`.
    R,
    /// Drive letter `S`.
    S,
    /// Drive letter `T`.
    T,
    /// Drive letter `U`.
    U,
    /// Drive letter `V`.
    V,
    /// Drive letter `W`.
    W,
    /// Drive letter `X`.
    X,
    /// Drive letter `Y`.
    Y,
    /// Drive letter `Z`.
    Z,
}

/// What is wrong with a character that is no drive letter.
#[derive(Copy, Clone, PartialEq, Eq, Structural, Debug, Hash)]
pub struct DriveLetterError {
    /// The character that was given.
    pub raw: char,
}

/// `c` is an ASCII letter of either case.
pub open spec fn is_ascii_letter(c: char) -> bool {
    'A' <= c <= 'Z' || 'a' <= c <= 'z'
}

/// An ASCII letter's place in the alphabet, from 0.
pub open spec fn alphabet_position(c: char) -> int {
    if 'a' <= c <= 'z' {
        c as int - 'a' as int
    } else {
        c as int - 'A' as int
    }
}

/// What reading `c` as a drive letter gives.
pub open spec fn letter_of(c: char) -> Result<DriveLetter, DriveLetterError> {
    if is_ascii_letter(c) {
        Ok(DriveLetter::at(alphabet_position(c)))
    } else {
        Err(DriveLetterError { raw: c })
    }
}

/// What reading a text as a drive letter gives: exactly one character is
/// allowed, and an empty text is reported as the replacement character.
pub open spec fn letter_of_text(s: Seq<char>) -> Result<DriveLetter, DriveLetterError> {
    if s.len() == 0 {
        Err(DriveLetterError { raw: '\u{FFFD}' })
    } else if s.len() == 1 {
        letter_of(s[0])
    } else {
        Err(DriveLetterError { raw: s[0] })
    }
}

impl DriveLetter {
    /// The letter's place in the alphabet, from 0.
    pub open spec fn position(self) -> int {
        match self {
            DriveLetter::A => 0,
            DriveLetter::B => 1,
            DriveLetter::C => 2,
            DriveLetter::D => 3,
            DriveLetter::E => 4,
            DriveLetter::F => 5,
            DriveLetter::G => 6,
            DriveLetter::H => 7,
            DriveLetter::I => 8,
            DriveLetter::J => 9,
            DriveLetter::K => 10,
            DriveLetter::L => 11,
            DriveLetter::M => 12,
            DriveLetter::N => 13,
            DriveLetter::O => 14,
            DriveLetter::P => 15,
            DriveLetter::Q => 16,
            DriveLetter::R => 17,
            DriveLetter::S => 18,
            DriveLetter::T => 19,
            DriveLetter::U => 20,
            DriveLetter::V => 21,
            DriveLetter::W => 22,
            DriveLetter::X => 23,
            DriveLetter::Y => 24,
            DriveLetter::Z => 25,
        }
    }

    /// The letter at a place in the alphabet.
    pub open spec fn at(i: int) -> DriveLetter {
        if i == 0 {
            DriveLetter::A
        } else if i == 1 {
            DriveLetter::B
        } else if i == 2 {
            DriveLetter::C
        } else if i == 3 {
            DriveLetter::D
        } else if i == 4 {
            DriveLetter::E
        } else if i == 5 {
            DriveLetter::F
        } else if i == 6 {
            DriveLetter::G
        } else if i == 7 {
            DriveLetter::H
        } else if i == 8 {
            DriveLetter::I
        } else if i == 9 {
            DriveLetter::J
        } else if i == 10 {
            DriveLetter::K
        } else if i == 11 {
            DriveLetter::L
        } else if i == 12 {
            DriveLetter::M
        } else if i == 13 {
            DriveLetter::N
        } else if i == 14 {
            DriveLetter::O
        } else if i == 15 {
            DriveLetter::P
        } else if i == 16 {
            DriveLetter::Q
        } else if i == 17 {
            DriveLetter::R
        } else if i == 18 {
            DriveLetter::S
        } else if i == 19 {
            DriveLetter::T
        } else if i == 20 {
            DriveLetter::U
        } else if i == 21 {
            DriveLetter::V
        } else if i == 22 {
            DriveLetter::W
        } else if i == 23 {
            DriveLetter::X
        } else if i == 24 {
            DriveLetter::Y
        } else {
            DriveLetter::Z
        }
    }

    /// The letter as an upper-case character.
    pub open spec fn char_of(self) -> char {
        (65 + self.position()) as char
    }

    /// Reads a drive letter in either case.
    pub fn parse(letter: char) -> (r: Result<DriveLetter, DriveLetterError>)
        ensures
            r == letter_of(letter),
    {
        if 'A' <= letter && letter <= 'Z' {
            Ok(DriveLetter::from_position((letter as u32 - 65) as u8))
        } else if 'a' <= letter && letter <= 'z' {
            Ok(DriveLetter::from_position((letter as u32 - 97) as u8))
        } else {
            Err(DriveLetterError { raw: letter })
        }
    }

    fn from_position(i: u8) -> (r: DriveLetter)
        requires
            i < 26,
        ensures
            r == DriveLetter::at(i as int),
            r.position() == i,
    {
        match i {
            0 => DriveLetter::A,
            1 => DriveLetter::B,
            2 => DriveLetter::C,
            3 => DriveLetter::D,
            4 => DriveLetter::E,
            5 => DriveLetter::F,
            6 => DriveLetter::G,
            7 => DriveLetter::H,
            8 => DriveLetter::I,
            9 => DriveLetter::J,
            10 => DriveLetter::K,
            11 => DriveLetter::L,
            12 => DriveLetter::M,
            13 => DriveLetter::N,
            14 => DriveLetter::O,
            15 => DriveLetter::P,
            16 => DriveLetter::Q,
            17 => DriveLetter::R,
            18 => DriveLetter::S,
            19 => DriveLetter::T,
            20 => DriveLetter::U,
            21 => DriveLetter::V,
            22 => DriveLetter::W,
            23 => DriveLetter::X,
            24 => DriveLetter::Y,
            _ => DriveLetter::Z,
        }
    }

    /// The letter of an upper-case ASCII byte.
    pub fn from_byte_unchecked(byte: u8) -> (r: DriveLetter)
        requires
            65 <= byte <= 90,
        ensures
            r.char_of() == byte as char,
            letter_of(byte as char) == Ok::<DriveLetter, DriveLetterError>(r),
    {
        DriveLetter::from_position(byte - 65)
    }

    /// The upper-case character of the letter.
    pub fn as_char(self) -> (r: char)
        ensures
            r == self.char_of(),
            'A' <= r <= 'Z',
    {
        self.as_byte() as char
    }

    /// The upper-case ASCII byte of the letter.
    pub fn as_byte(self) -> (r: u8)
        ensures
            r == 65 + self.position(),
            r == self.char_of() as u32,
    {
        65 + self.alphabet_index() as u8
    }

    /// The letter's place in the alphabet, from 0.
    pub fn alphabet_index(self) -> (r: usize)
        ensures
            r == self.position(),
            r < 26,
    {
        match self {
            DriveLetter::A => 0,
            DriveLetter::B => 1,
            DriveLetter::C => 2,
            DriveLetter::D => 3,
            DriveLetter::E => 4,
            DriveLetter::F => 5,
            DriveLetter::G => 6,
            DriveLetter::H => 7,
            DriveLetter::I => 8,
            DriveLetter::J => 9,
            DriveLetter::K => 10,
            DriveLetter::L => 11,
            DriveLetter::M => 12,
            DriveLetter::N => 13,
            DriveLetter::O => 14,
            DriveLetter::P => 15,
            DriveLetter::Q => 16,
            DriveLetter::R => 17,
            DriveLetter::S => 18,
            DriveLetter::T => 19,
            DriveLetter::U => 20,
            DriveLetter::V => 21,
            DriveLetter::W => 22,
            DriveLetter::X => 23,
            DriveLetter::Y => 24,
            DriveLetter::Z => 25,
        }
    }

    /// Whether `other` is this letter in either case.
    pub fn eq_ignore_ascii_case(self, other: char) -> (r: bool)
        ensures
            r == (letter_of(other) == Ok::<DriveLetter, DriveLetterError>(self)),
    {
        proof {
            self.lemma_position_determines();
        }
        match DriveLetter::parse(other) {
            Ok(l) => l.alphabet_index() == self.alphabet_index(),
            Err(_) => false,
        }
    }

    /// Reads a text of one character as a drive letter.
    pub fn parse_text(s: &str) -> (r: Result<DriveLetter, DriveLetterError>)
        ensures
            r == letter_of_text(s@),
    {
        let n: usize = s.unicode_len();
        if n == 0 {
            return Err(DriveLetterError { raw: '\u{FFFD}' });
        }
        let first: char = s.get_char(0);
        if n == 1 {
            DriveLetter::parse(first)
        } else {
            Err(DriveLetterError { raw: first })
        }
    }

    /// The letter as a text of one character.
    pub fn to_string(&self) -> (r: String)
        ensures
            r@ == seq![self.char_of()],
    {
        let mut s: String = String::new();
        s.push(self.as_char());
        assert(s@ =~= seq![self.char_of()]);
        s
    }

    /// The letter as it stands in diagnostics.
    pub fn debug_text(&self) -> (r: String)
        ensures
            r@ == "DriveLetter("@ + seq![self.char_of(), ')'],
    {
        let mut s: String = String::from_str("DriveLetter(");
        s.push(self.as_char());
        s.push(')');
        assert(s@ =~= "DriveLetter("@ + seq![self.char_of(), ')']);
        s
    }

    /// Letters with the same place in the alphabet are the same letter.
    pub proof fn lemma_position_determines(self)
        ensures
            0 <= self.position() < 26,
            DriveLetter::at(self.position()) == self,
    {
    }
}

impl DriveLetterError {
    /// The message for the user.
    pub fn to_string(&self) -> (r: String)
        ensures
            r@ == "drive letter must be ASCII A..=Z (case insensitive); got '"@ + crate::text::escaped(self.raw)
                + seq!['\''],
    {
        let mut s: String = String::from_str(
            "drive letter must be ASCII A..=Z (case insensitive); got '",
        );
        push_escaped(&mut s, self.raw);
        s.push('\'');
        assert(s@ =~= "drive letter must be ASCII A..=Z (case insensitive); got '"@ + crate::text::escaped(
            self.raw,
        ) + seq!['\'']);
        s
    }
}

impl TryFrom<char> for DriveLetter {
    type Error = DriveLetterError;

    fn try_from(letter: char) -> (r: Result<DriveLetter, DriveLetterError>) {
        DriveLetter::parse(letter)
    }
}

impl vstd::std_specs::convert::TryFromSpecImpl<char> for DriveLetter {
    open spec fn obeys_try_from_spec() -> bool {
        true
    }

    open spec fn try_from_spec(v: char) -> Result<DriveLetter, DriveLetterError> {
        letter_of(v)
    }
}

impl TryFrom<u8> for DriveLetter {
    type Error = DriveLetterError;

    fn try_from(byte: u8) -> (r: Result<DriveLetter, DriveLetterError>) {
        DriveLetter::parse(byte as char)
    }
}

impl vstd::std_specs::convert::TryFromSpecImpl<u8> for DriveLetter {
    open spec fn obeys_try_from_spec() -> bool {
        true
    }

    open spec fn try_from_spec(v: u8) -> Result<DriveLetter, DriveLetterError> {
        letter_of(v as char)
    }
}

impl core::str::FromStr for DriveLetter {
    type Err = DriveLetterError;

    fn from_str(s: &str) -> (r: Result<DriveLetter, DriveLetterError>)
        ensures
            r == letter_of_text(s@),
    {
        DriveLetter::parse_text(s)
    }
}

/// Reading a letter's own character gives the letter back, in either case.
pub proof fn law_parse_reads_back(l: DriveLetter)
    ensures
        letter_of(l.char_of()) == Ok::<DriveLetter, DriveLetterError>(l),
        letter_of((l.char_of() as u32 + 32) as char) == Ok::<DriveLetter, DriveLetterError>(l),
{
    l.lemma_position_determines();
}

/// The upper and lower case of a character name the same drive, or neither
/// names one.
pub proof fn law_case_does_not_matter(c: char)
    requires
        'A' <= c <= 'Z',
    ensures
        letter_of(c) is Ok,
        letter_of(c) == letter_of((c as u32 + 32) as char),
{
}

/// The order of the letters is the order of the alphabet, and every letter has
/// a place of its own among the 26.
pub proof fn law_positions_are_distinct(a: DriveLetter, b: DriveLetter)
    ensures
        0 <= a.position() < 26,
        a.position() == b.position() <==> a == b,
        a.position() < b.position() <==> (a.char_of() as u32) < (b.char_of() as u32),
{
    a.lemma_position_determines();
    b.lemma_position_determines();
}

/// A letter of the alphabet is read as the drive at its place, in either case;
/// anything else is refused, and says what was refused.
pub proof fn law_letters_are_drives(i: int, c: char)
    requires
        0 <= i < 26,
    ensures
        letter_of(('A' as int + i) as char) matches Ok(d) && d.position() == i && d.char_of() as int
            == 'A' as int + i,
        letter_of(('a' as int + i) as char) matches Ok(d) && d.position() == i,
        !('A' <= c <= 'Z') && !('a' <= c <= 'z') ==> letter_of(c) == Err::<
            DriveLetter,
            DriveLetterError,
        >(DriveLetterError { raw: c }),
{
}

/// A text is read as a drive if it is one letter. A longer text is refused for
/// its first character, and an empty one for the character that stands for what
/// cannot be shown.
pub proof fn law_texts_are_single_letters(c: char, rest: Seq<char>)
    ensures
        letter_of_text(seq![c]) == letter_of(c),
        rest.len() > 0 ==> letter_of_text(seq![c] + rest) == Err::<DriveLetter, DriveLetterError>(
            DriveLetterError { raw: c },
        ),
        letter_of_text(Seq::empty()) == Err::<DriveLetter, DriveLetterError>(
            DriveLetterError { raw: '\u{FFFD}' },
        ),
{
    let s = seq![c] + rest;
    assert(s[0] == c);
}

} // verus!
