//! Search patterns that begin with a drive.
//!
//! `C:report` and `C:\report` search for `report` on drive `C`. A pattern that
//! names only the drive, `C:`, `C:\` or `C:/`, stands for everything on it.

use super::drive_letter::DriveLetter;
use vstd::prelude::*;
use vstd::string::*;

verus! {

/// A character that separates the parts of a path.
pub open spec fn is_separator(c: char) -> bool {
    c == '\\' || c == '/'
}

/// The text from its first character on that is no separator.
pub open spec fn without_leading_separators(s: Seq<char>) -> Seq<char>
    decreases s.len(),
{
    if s.len() > 0 && is_separator(s[0]) {
        without_leading_separators(s.skip(1))
    } else {
        s
    }
}

/// Whether the pattern begins with a letter and a colon.
pub open spec fn names_drive(s: Seq<char>) -> bool {
    s.len() >= 2 && super::drive_letter::is_ascii_letter(s[0]) && s[1] == ':'
}

/// What a pattern that begins with a drive asks for on that drive.
pub open spec fn pattern_body(s: Seq<char>) -> Seq<char> {
    let core = without_leading_separators(s.skip(2));
    if core.len() == 0 {
        seq!['*']
    } else {
        core
    }
}

/// Splits the drive off a pattern that begins with one. The rest has no
/// leading separators, and is `*` where there is none.
pub fn split_drive_prefix(pattern: &str) -> (r: Option<(DriveLetter, &str)>)
    ensures
        r is Some <==> names_drive(pattern@),
        r matches Some((drive, body)) ==> {
            &&& super::drive_letter::letter_of(pattern@[0]) == Ok::<
                DriveLetter,
                super::drive_letter::DriveLetterError,
            >(drive)
            &&& body@ == pattern_body(pattern@)
        },
{
    let n: usize = pattern.unicode_len();
    if n < 2 {
        return None;
    }
    let drive = match DriveLetter::parse(pattern.get_char(0)) {
        Ok(drive) => drive,
        Err(_) => {
            return None;
        },
    };
    if pattern.get_char(1) != ':' {
        return None;
    }
    let mut from: usize = 2;
    while from < n && (pattern.get_char(from) == '\\' || pattern.get_char(from) == '/')
        invariant
            2 <= from <= n,
            n == pattern@.len(),
            without_leading_separators(pattern@.skip(from as int)) == without_leading_separators(
                pattern@.skip(2),
            ),
        decreases n - from,
    {
        assert(pattern@.skip(from as int).skip(1) =~= pattern@.skip(from + 1));
        from += 1;
    }
    if from == n {
        proof {
            reveal_strlit("*");
            assert("*"@ =~= seq!['*']);
        }
        Some((drive, "*"))
    } else {
        let body = pattern.substring_char(from, n);
        assert(pattern@.subrange(from as int, n as int) =~= pattern@.skip(from as int));
        Some((drive, body))
    }
}

/// A separator behind the drive changes nothing: `C:\x` asks for what `C:x`
/// asks for.
pub proof fn law_leading_separator_is_ignored(drive: char, separator: char, rest: Seq<char>)
    requires
        is_separator(separator),
    ensures
        names_drive(seq![drive, ':', separator] + rest) == names_drive(seq![drive, ':'] + rest),
        pattern_body(seq![drive, ':', separator] + rest) == pattern_body(seq![drive, ':'] + rest),
{
    let a = seq![drive, ':', separator] + rest;
    let b = seq![drive, ':'] + rest;
    assert(a.skip(2).skip(1) =~= b.skip(2));
    assert(a.skip(2)[0] == separator);
}

/// What is asked for on a drive is never empty and never begins with a
/// separator.
pub proof fn law_body_is_relative(pattern: Seq<char>)
    ensures
        pattern_body(pattern).len() > 0,
        !is_separator(pattern_body(pattern)[0]),
{
    lemma_no_leading_separator(pattern.skip(2));
}

proof fn lemma_no_leading_separator(s: Seq<char>)
    ensures
        without_leading_separators(s).len() > 0 ==> !is_separator(without_leading_separators(s)[0]),
    decreases s.len(),
{
    if s.len() > 0 && is_separator(s[0]) {
        lemma_no_leading_separator(s.skip(1));
    }
}

/// A pattern names a drive if and only if it begins with a letter and a colon.
pub proof fn law_drives_are_letters(letter: char, second: char, rest: Seq<char>)
    ensures
        names_drive(seq![letter, second] + rest) <==> ('A' <= letter <= 'Z' || 'a' <= letter <= 'z')
            && second == ':',
        !names_drive(seq![letter]),
        !names_drive(Seq::empty()),
{
    let s = seq![letter, second] + rest;
    assert(s[0] == letter && s[1] == second);
}

/// What is asked for is what stands behind the drive and all separators that
/// follow it; if nothing does, everything is asked for.
pub proof fn law_body_is_the_rest(drive: char, separators: Seq<char>, body: Seq<char>)
    requires
        forall|i: int|
            0 <= i < separators.len() ==> #[trigger] separators[i] == '/' || separators[i] == '\\',
        body.len() == 0 || (body[0] != '/' && body[0] != '\\'),
    ensures
        body.len() > 0 ==> pattern_body(seq![drive, ':'] + separators + body) == body,
        body.len() == 0 ==> pattern_body(seq![drive, ':'] + separators + body) == seq!['*'],
{
    let s = seq![drive, ':'] + separators + body;
    assert(s.skip(2) =~= separators + body);
    lemma_separators(separators, body);
}

proof fn lemma_separators(separators: Seq<char>, body: Seq<char>)
    requires
        forall|i: int|
            0 <= i < separators.len() ==> #[trigger] separators[i] == '/' || separators[i] == '\\',
        body.len() == 0 || (body[0] != '/' && body[0] != '\\'),
    ensures
        without_leading_separators(separators + body) == body,
    decreases separators.len(),
{
    if separators.len() == 0 {
        assert(separators + body =~= body);
    } else {
        let rest = separators.skip(1);
        assert(separators[0] == '/' || separators[0] == '\\');
        assert((separators + body)[0] == separators[0]);
        assert((separators + body).skip(1) =~= rest + body);
        assert forall|i: int| 0 <= i < rest.len() implies #[trigger] rest[i] == '/' || rest[i]
            == '\\' by {
            assert(rest[i] == separators[i + 1]);
        }
        lemma_separators(rest, body);
    }
}

} // verus!
