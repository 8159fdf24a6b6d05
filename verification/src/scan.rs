//! Reading text: lines, words and numbers.

use vstd::prelude::*;
use vstd::slice::slice_subrange;
use vstd::string::*;

verus! {

/// A character that separates words.
pub open spec fn is_space(c: char) -> bool {
    ||| '\u{9}' <= c <= '\u{d}'
    ||| c == ' '
    ||| c == '\u{85}'
    ||| c == '\u{a0}'
    ||| c == '\u{1680}'
    ||| '\u{2000}' <= c <= '\u{200a}'
    ||| c == '\u{2028}'
    ||| c == '\u{2029}'
    ||| c == '\u{202f}'
    ||| c == '\u{205f}'
    ||| c == '\u{3000}'
}

/// Whether a character separates words.
pub fn is_whitespace(c: char) -> (r: bool)
    ensures
        r == is_space(c),
{
    ('\u{9}' <= c && c <= '\u{d}') || c == ' ' || c == '\u{85}' || c == '\u{a0}' || c == '\u{1680}'
        || ('\u{2000}' <= c && c <= '\u{200a}') || c == '\u{2028}' || c == '\u{2029}' || c
        == '\u{202f}' || c == '\u{205f}' || c == '\u{3000}'
}

/// The characters of a text.
pub fn chars_of(s: &str) -> (r: Vec<char>)
    ensures
        r@ == s@,
{
    let mut out: Vec<char> = Vec::new();
    for c in it: s.chars()
        invariant
            it.seq() == s@,
            out@ == s@.take(it.index() as int),
    {
        out.push(c);
        assert(s@.take(it.index() + 1) =~= s@.take(it.index() as int).push(c));
    }
    assert(s@.take(s@.len() as int) =~= s@);
    out
}

/// Whether two texts are the same.
pub fn same_text(a: &str, b: &str) -> (r: bool)
    ensures
        r == (a@ == b@),
{
    let n: usize = a.unicode_len();
    if n != b.unicode_len() {
        return false;
    }
    for i in 0..n
        invariant
            n == a@.len(),
            n == b@.len(),
            forall|j: int| 0 <= j < i ==> a@[j] == b@[j],
    {
        if a.get_char(i) != b.get_char(i) {
            return false;
        }
    }
    assert(a@ =~= b@);
    true
}

/// Where a character first stands in a text, or the length of the text.
pub open spec fn until(s: Seq<char>, c: char) -> nat
    decreases s.len(),
{
    if s.len() == 0 || s[0] == c {
        0
    } else {
        1 + until(s.skip(1), c)
    }
}

/// Where a character first stands in a text, or the length of the text.
pub fn find_char(s: &[char], c: char) -> (r: usize)
    ensures
        r == until(s@, c),
        r <= s@.len(),
{
    let n: usize = s.len();
    let mut i: usize = 0;
    assert(s@.skip(0) =~= s@);
    while i < n && s[i] != c
        invariant
            i <= n,
            n == s@.len(),
            until(s@, c) == i + until(s@.skip(i as int), c),
        decreases n - i,
    {
        assert(s@.skip(i as int).skip(1) =~= s@.skip(i + 1));
        i += 1;
    }
    i
}

/// A line without the carriage return in front of its line feed.
pub open spec fn without_return(s: Seq<char>) -> Seq<char> {
    if s.len() > 0 && s.last() == '\r' {
        s.drop_last()
    } else {
        s
    }
}

/// The lines of a text. Each but the last ends in a line feed, and so may the
/// last.
pub open spec fn lines_of(s: Seq<char>) -> Seq<Seq<char>>
    decreases s.len(),
{
    if s.len() == 0 {
        Seq::empty()
    } else if until(s, '\n') >= s.len() {
        seq![s]
    } else {
        let n = until(s, '\n') as int;
        seq![without_return(s.take(n))] + lines_of(s.skip(n + 1))
    }
}

/// The texts of a vector of texts.
pub open spec fn texts(v: Seq<Vec<char>>) -> Seq<Seq<char>> {
    Seq::new(v.len(), |i: int| v[i]@)
}

fn to_vec(s: &[char]) -> (r: Vec<char>)
    ensures
        r@ == s@,
{
    let mut v: Vec<char> = Vec::new();
    v.extend_from_slice(s);
    assert(v@ =~= s@);
    v
}

/// The lines of a text.
pub fn lines(s: &[char]) -> (r: Vec<Vec<char>>)
    ensures
        texts(r@) == lines_of(s@),
{
    let n: usize = s.len();
    let mut out: Vec<Vec<char>> = Vec::new();
    let mut from: usize = 0;
    assert(s@.skip(0) =~= s@);
    assert(texts(out@) + lines_of(s@) =~= lines_of(s@));
    while from < n
        invariant
            from <= n,
            n == s@.len(),
            texts(out@) + lines_of(s@.skip(from as int)) == lines_of(s@),
        decreases n - from,
    {
        let rest = slice_subrange(s, from, n);
        assert(rest@ =~= s@.skip(from as int));
        let len: usize = find_char(rest, '\n');
        let ghost before = texts(out@);
        if len >= rest.len() {
            out.push(to_vec(rest));
            assert(texts(out@) =~= before.push(rest@));
            assert(lines_of(Seq::empty()) =~= Seq::empty());
            assert(s@.skip(n as int) =~= Seq::empty());
            assert(before + seq![rest@] =~= texts(out@) + lines_of(s@.skip(n as int)));
            from = n;
        } else {
            let end: usize = if len > 0 && rest[len - 1] == '\r' {
                len - 1
            } else {
                len
            };
            let line = to_vec(slice_subrange(rest, 0, end));
            assert(line@ =~= without_return(rest@.take(len as int)));
            out.push(line);
            assert(texts(out@) =~= before.push(line@));
            assert(rest@.skip(len + 1) =~= s@.skip(from + len + 1));
            assert(before + (seq![line@] + lines_of(rest@.skip(len + 1))) =~= texts(out@)
                + lines_of(rest@.skip(len + 1)));
            from = from + len + 1;
        }
    }
    assert(s@.skip(n as int) =~= Seq::empty());
    assert(texts(out@) + Seq::<Seq<char>>::empty() =~= texts(out@));
    out
}

/// The text begins with another.
pub open spec fn begins(s: Seq<char>, prefix: Seq<char>) -> bool {
    prefix.len() <= s.len() && s.take(prefix.len() as int) == prefix
}

/// Whether the text begins with another.
pub fn starts_with(s: &[char], prefix: &str) -> (r: bool)
    ensures
        r == begins(s@, prefix@),
{
    let p: Vec<char> = chars_of(prefix);
    if p.len() > s.len() {
        return false;
    }
    for i in 0..p.len()
        invariant
            p@ == prefix@,
            p@.len() <= s@.len(),
            forall|j: int| 0 <= j < i ==> s@[j] == p@[j],
    {
        if s[i] != p[i] {
            assert(s@.take(p@.len() as int)[i as int] != p@[i as int]);
            return false;
        }
    }
    assert(s@.take(p@.len() as int) =~= p@);
    true
}

/// Where one text first stands in another, if it does.
pub open spec fn position_of(s: Seq<char>, part: Seq<char>) -> Option<nat>
    decreases s.len(),
{
    if begins(s, part) {
        Some(0)
    } else if s.len() == 0 {
        None
    } else {
        match position_of(s.skip(1), part) {
            Some(n) => Some(n + 1),
            None => None,
        }
    }
}

/// Where one text first stands in another, if it does.
pub fn find(s: &[char], part: &str) -> (r: Option<usize>)
    ensures
        match position_of(s@, part@) {
            Some(n) => r == Some(n as usize) && n + part@.len() <= s@.len(),
            None => r is None,
        },
{
    let n: usize = s.len();
    let mut i: usize = 0;
    assert(s@.skip(0) =~= s@);
    while i <= n
        invariant
            i <= n + 1,
            n == s@.len(),
            i <= n ==> position_of(s@, part@) == (match position_of(s@.skip(i as int), part@) {
                Some(k) => Some((k + i) as nat),
                None => None,
            }),
            i == n + 1 ==> position_of(s@, part@) is None,
        decreases n + 1 - i,
    {
        let rest = slice_subrange(s, i, n);
        assert(rest@ =~= s@.skip(i as int));
        if starts_with(rest, part) {
            return Some(i);
        }
        if i == n {
            return None;
        }
        assert(s@.skip(i as int).skip(1) =~= s@.skip(i + 1));
        i += 1;
    }
    None
}

/// The text from its first character on that separates no words.
pub open spec fn without_leading_space(s: Seq<char>) -> Seq<char>
    decreases s.len(),
{
    if s.len() > 0 && is_space(s[0]) {
        without_leading_space(s.skip(1))
    } else {
        s
    }
}

/// The text without trailing characters that separate words.
pub open spec fn without_trailing_space(s: Seq<char>) -> Seq<char>
    decreases s.len(),
{
    if s.len() > 0 && is_space(s.last()) {
        without_trailing_space(s.drop_last())
    } else {
        s
    }
}

/// The text without a trailing run of one character.
pub open spec fn without_trailing(s: Seq<char>, c: char) -> Seq<char>
    decreases s.len(),
{
    if s.len() > 0 && s.last() == c {
        without_trailing(s.drop_last(), c)
    } else {
        s
    }
}

/// The text without characters at its ends that separate words.
pub open spec fn trimmed(s: Seq<char>) -> Seq<char> {
    without_trailing_space(without_leading_space(s))
}

/// The text from its first character on that separates no words.
pub fn trim_start(s: &[char]) -> (r: &[char])
    ensures
        r@ == without_leading_space(s@),
{
    let n: usize = s.len();
    let mut i: usize = 0;
    assert(s@.skip(0) =~= s@);
    while i < n && is_whitespace(s[i])
        invariant
            i <= n,
            n == s@.len(),
            without_leading_space(s@.skip(i as int)) == without_leading_space(s@),
        decreases n - i,
    {
        assert(s@.skip(i as int).skip(1) =~= s@.skip(i + 1));
        i += 1;
    }
    assert(s@.subrange(i as int, n as int) =~= s@.skip(i as int));
    slice_subrange(s, i, n)
}

/// The text without characters at its ends that separate words.
pub fn trim(s: &[char]) -> (r: &[char])
    ensures
        r@ == trimmed(s@),
{
    let t = trim_start(s);
    let mut n: usize = t.len();
    assert(t@.take(n as int) =~= t@);
    while n > 0 && is_whitespace(t[n - 1])
        invariant
            n <= t@.len(),
            without_trailing_space(t@.take(n as int)) == without_trailing_space(t@),
        decreases n,
    {
        assert(t@.take(n as int).drop_last() =~= t@.take(n - 1));
        n -= 1;
    }
    assert(t@.subrange(0, n as int) =~= t@.take(n as int));
    slice_subrange(t, 0, n)
}

/// The text without a trailing run of one character.
pub fn trim_end_matches(s: &[char], c: char) -> (r: &[char])
    ensures
        r@ == without_trailing(s@, c),
{
    let mut n: usize = s.len();
    assert(s@.take(n as int) =~= s@);
    while n > 0 && s[n - 1] == c
        invariant
            n <= s@.len(),
            without_trailing(s@.take(n as int), c) == without_trailing(s@, c),
        decreases n,
    {
        assert(s@.take(n as int).drop_last() =~= s@.take(n - 1));
        n -= 1;
    }
    assert(s@.subrange(0, n as int) =~= s@.take(n as int));
    slice_subrange(s, 0, n)
}

/// How many characters stand in front of the first that separates words.
pub open spec fn word_length(s: Seq<char>) -> nat
    decreases s.len(),
{
    if s.len() == 0 || is_space(s[0]) {
        0
    } else {
        1 + word_length(s.skip(1))
    }
}

/// The first word of a text, if it has one.
pub open spec fn first_word(s: Seq<char>) -> Option<Seq<char>> {
    let t = without_leading_space(s);
    if t.len() == 0 {
        None
    } else {
        Some(t.take(word_length(t) as int))
    }
}

/// The first word of a text, if it has one.
pub fn next_word(s: &[char]) -> (r: Option<&[char]>)
    ensures
        match first_word(s@) {
            Some(w) => r matches Some(v) && v@ == w,
            None => r is None,
        },
{
    let t = trim_start(s);
    let n: usize = t.len();
    if n == 0 {
        return None;
    }
    let mut i: usize = 0;
    assert(t@.skip(0) =~= t@);
    while i < n && !is_whitespace(t[i])
        invariant
            i <= n,
            n == t@.len(),
            word_length(t@) == i + word_length(t@.skip(i as int)),
        decreases n - i,
    {
        assert(t@.skip(i as int).skip(1) =~= t@.skip(i + 1));
        i += 1;
    }
    assert(t@.subrange(0, i as int) =~= t@.take(i as int));
    Some(slice_subrange(t, 0, i))
}

/// A decimal digit.
pub open spec fn is_digit(c: char) -> bool {
    '0' <= c <= '9'
}

/// The number that decimal digits stand for.
pub open spec fn digits_value(s: Seq<char>) -> nat
    decreases s.len(),
{
    if s.len() == 0 {
        0
    } else {
        (10 * digits_value(s.drop_last()) + (s.last() as int - 48)) as nat
    }
}

/// The text is decimal digits, at least one of them.
pub open spec fn is_digits(s: Seq<char>) -> bool {
    s.len() > 0 && forall|i: int| 0 <= i < s.len() ==> is_digit(#[trigger] s[i])
}

/// The digits of a number: a plus sign may stand in front of them.
pub open spec fn unsigned_part(s: Seq<char>) -> Seq<char> {
    if s.len() > 0 && s[0] == '+' {
        s.skip(1)
    } else {
        s
    }
}

/// The 64-bit number that a text stands for, if it stands for one.
pub open spec fn number(s: Seq<char>) -> Option<u64> {
    let d = unsigned_part(s);
    if is_digits(d) && digits_value(d) <= u64::MAX {
        Some(digits_value(d) as u64)
    } else {
        None
    }
}

proof fn lemma_prefix_value(s: Seq<char>, n: int)
    requires
        0 <= n <= s.len(),
        forall|i: int| 0 <= i < s.len() ==> is_digit(#[trigger] s[i]),
    ensures
        digits_value(s.take(n)) <= digits_value(s),
    decreases s.len() - n,
{
    if n < s.len() {
        lemma_prefix_value(s, n + 1);
        assert(s.take(n + 1).drop_last() =~= s.take(n));
    } else {
        assert(s.take(n) =~= s);
    }
}

/// The 64-bit number that a text stands for, if it stands for one.
pub fn parse_u64(s: &[char]) -> (r: Option<u64>)
    ensures
        r == number(s@),
{
    let n: usize = s.len();
    let from: usize = if n > 0 && s[0] == '+' {
        1
    } else {
        0
    };
    let d = slice_subrange(s, from, n);
    assert(d@ =~= unsigned_part(s@));
    let m: usize = d.len();
    if m == 0 {
        return None;
    }
    let mut value: u64 = 0;
    for i in 0..m
        invariant
            m == d@.len(),
            m > 0,
            d@ == unsigned_part(s@),
            forall|j: int| 0 <= j < i ==> is_digit(#[trigger] d@[j]),
            value == digits_value(d@.take(i as int)),
    {
        let c: char = d[i];
        if c < '0' || c > '9' {
            assert(!is_digit(d@[i as int]));
            return None;
        }
        let v: u64 = c as u64 - 48;
        assert(d@.take(i + 1).drop_last() =~= d@.take(i as int));
        if value > (u64::MAX - v) / 10 {
            proof {
                assert(10 * value + v > u64::MAX);
                if is_digits(d@) {
                    lemma_prefix_value(d@, i + 1);
                }
            }
            return None;
        }
        value = 10 * value + v;
    }
    assert(d@.take(m as int) =~= d@);
    Some(value)
}

proof fn lemma_decimal_digits(n: nat)
    ensures
        is_digits(crate::text::decimal(n)),
        digits_value(crate::text::decimal(n)) == n,
    decreases n,
{
    let s = crate::text::decimal(n);
    if n < 10 {
        reveal_with_fuel(digits_value, 2);
        assert(s =~= seq![crate::text::digit(n)]);
        assert(s.drop_last() =~= Seq::<char>::empty());
    } else {
        lemma_decimal_digits(n / 10);
        let front = crate::text::decimal(n / 10);
        assert(s == front.push(crate::text::digit(n % 10)));
        assert(s.drop_last() =~= front);
        assert forall|i: int| 0 <= i < s.len() implies is_digit(#[trigger] s[i]) by {
            if i < front.len() {
                assert(s[i] == front[i]);
            }
        }
    }
}

/// A number is read back from its decimal text, with or without a plus sign.
pub proof fn law_numbers_read_back(n: u64)
    ensures
        number(crate::text::decimal(n as nat)) == Some(n),
        number(seq!['+'] + crate::text::decimal(n as nat)) == Some(n),
{
    let s = crate::text::decimal(n as nat);
    lemma_decimal_digits(n as nat);
    assert(is_digit(s[0]));
    let t = seq!['+'] + s;
    assert(t.skip(1) =~= s);
}

/// A number that does not fit into 64 bits is not read at all.
pub proof fn law_large_numbers_are_refused(n: nat)
    requires
        n > u64::MAX,
    ensures
        number(crate::text::decimal(n)) is None,
{
    lemma_decimal_digits(n);
    assert(is_digit(crate::text::decimal(n)[0]));
}

/// Nothing but digits and a plus sign in front of them stands for a number, and
/// neither does a text without digits.
pub proof fn law_other_texts_are_no_numbers(s: Seq<char>, i: int)
    requires
        0 <= i < s.len(),
        !('0' <= s[i] <= '9'),
        i > 0 || s[i] != '+',
    ensures
        number(s) is None,
        number(Seq::empty()) is None,
        number(seq!['+']) is None,
{
    let d = unsigned_part(s);
    if s[0] == '+' {
        assert(d[i - 1] == s[i]);
        assert(!is_digit(d[i - 1]));
    } else {
        assert(!is_digit(d[i]));
    }
    assert(seq!['+'].skip(1) =~= Seq::empty());
}

/// The first place of a character: it stands there, and not before.
pub proof fn law_first_place(s: Seq<char>, c: char)
    ensures
        until(s, c) <= s.len(),
        until(s, c) < s.len() ==> s[until(s, c) as int] == c,
        forall|i: int| 0 <= i < until(s, c) ==> #[trigger] s[i] != c,
    decreases s.len(),
{
    if s.len() > 0 && s[0] != c {
        law_first_place(s.skip(1), c);
        let n = until(s.skip(1), c) as int;
        assert(n < s.skip(1).len() ==> s.skip(1)[n] == s[n + 1]);
        assert forall|i: int| 0 <= i < until(s, c) implies #[trigger] s[i] != c by {
            if i > 0 {
                assert(s.skip(1)[i - 1] != c);
            }
        }
    }
}

proof fn lemma_until(a: Seq<char>, c: char, b: Seq<char>)
    requires
        forall|i: int| 0 <= i < a.len() ==> #[trigger] a[i] != c,
    ensures
        until(a + seq![c] + b, c) == a.len(),
        until(a, c) == a.len(),
    decreases a.len(),
{
    let s = a + seq![c] + b;
    if a.len() > 0 {
        let rest = a.skip(1);
        assert(a[0] != c);
        assert(s[0] == a[0]);
        assert forall|i: int| 0 <= i < rest.len() implies #[trigger] rest[i] != c by {
            assert(a[i + 1] != c);
        }
        lemma_until(rest, c, b);
        assert(s.skip(1) =~= rest + seq![c] + b);
    } else {
        assert(s[0] == c);
    }
}

/// A line is what stands in front of a line feed, without a return in front of
/// that; the rest of the text is read as if nothing had been there.
pub proof fn law_lines_read_back(line: Seq<char>, rest: Seq<char>)
    requires
        forall|i: int| 0 <= i < line.len() ==> #[trigger] line[i] != '\n',
    ensures
        lines_of(line + seq!['\r', '\n'] + rest) == seq![line] + lines_of(rest),
        line.len() == 0 || line.last() != '\r' ==> lines_of(line + seq!['\n'] + rest) == seq![line]
            + lines_of(rest),
        line.len() > 0 ==> lines_of(line) == seq![line],
        lines_of(Seq::empty()).len() == 0,
{
    let longer = line.push('\r');
    assert forall|i: int| 0 <= i < longer.len() implies #[trigger] longer[i] != '\n' by {
        if i < line.len() {
            assert(longer[i] == line[i]);
        }
    }
    let a = line + seq!['\r', '\n'] + rest;
    assert(a =~= longer + seq!['\n'] + rest);
    lemma_until(longer, '\n', rest);
    let n = longer.len() as int;
    assert(a.take(n) =~= longer);
    assert(longer.drop_last() =~= line);
    assert(a.skip(n + 1) =~= rest);
    lemma_until(line, '\n', rest);
    let b = line + seq!['\n'] + rest;
    let m = line.len() as int;
    assert(b.take(m) =~= line);
    assert(b.skip(m + 1) =~= rest);
}

/// A text begins with another if and only if something makes the other one the
/// text.
pub proof fn law_beginnings(s: Seq<char>, prefix: Seq<char>, rest: Seq<char>)
    ensures
        begins(prefix + rest, prefix),
        begins(s, prefix) ==> s == prefix + s.skip(prefix.len() as int),
{
    assert((prefix + rest).take(prefix.len() as int) =~= prefix);
    if begins(s, prefix) {
        assert(s =~= s.take(prefix.len() as int) + s.skip(prefix.len() as int));
    }
}

/// The first place of a text within another: it stands there, and not before;
/// if there is no such place it stands nowhere.
pub proof fn law_first_occurrence(s: Seq<char>, part: Seq<char>)
    ensures
        position_of(s, part) matches Some(n) ==> n <= s.len() && begins(s.skip(n as int), part),
        forall|i: int|
            0 <= i <= s.len() && (position_of(s, part) matches Some(n) ==> i < n) ==> !begins(
                #[trigger] s.skip(i),
                part,
            ),
    decreases s.len(),
{
    assert(s.skip(0) =~= s);
    if !begins(s, part) && s.len() > 0 {
        law_first_occurrence(s.skip(1), part);
        assert forall|i: int|
            0 <= i <= s.len() && (position_of(s, part) matches Some(n) ==> i < n) implies !begins(
            #[trigger] s.skip(i),
            part,
        ) by {
            if i > 0 {
                assert(s.skip(1).skip(i - 1) =~= s.skip(i));
            }
        }
        if let Some(n) = position_of(s.skip(1), part) {
            assert(s.skip(1).skip(n as int) =~= s.skip(n as int + 1));
        }
    }
}

/// Every character of a text separates words.
pub open spec fn all_space(s: Seq<char>) -> bool {
    forall|i: int| 0 <= i < s.len() ==> is_space(#[trigger] s[i])
}

proof fn lemma_leading(a: Seq<char>, s: Seq<char>)
    requires
        all_space(a),
        s.len() == 0 || !is_space(s[0]),
    ensures
        without_leading_space(a + s) == s,
    decreases a.len(),
{
    if a.len() > 0 {
        let rest = a.skip(1);
        assert(is_space(a[0]));
        assert((a + s)[0] == a[0]);
        assert forall|i: int| 0 <= i < rest.len() implies is_space(#[trigger] rest[i]) by {
            assert(is_space(a[i + 1]));
        }
        assert((a + s).skip(1) =~= rest + s);
        lemma_leading(rest, s);
    } else {
        assert(a + s =~= s);
    }
}

proof fn lemma_trailing(s: Seq<char>, b: Seq<char>)
    requires
        all_space(b),
        s.len() == 0 || !is_space(s.last()),
    ensures
        without_trailing_space(s + b) == s,
    decreases b.len(),
{
    if b.len() > 0 {
        let rest = b.drop_last();
        assert(is_space(b[b.len() - 1]));
        assert((s + b).last() == b.last());
        assert forall|i: int| 0 <= i < rest.len() implies is_space(#[trigger] rest[i]) by {
            assert(is_space(b[i]));
        }
        assert((s + b).drop_last() =~= s + rest);
        lemma_trailing(s, rest);
    } else {
        assert(s + b =~= s);
    }
}

/// What stands around a text to separate it from others is taken away, and
/// nothing of the text itself.
pub proof fn law_trimming(a: Seq<char>, s: Seq<char>, b: Seq<char>)
    requires
        all_space(a),
        all_space(b),
        s.len() > 0,
        !is_space(s[0]),
        !is_space(s.last()),
    ensures
        trimmed(a + s + b) == s,
{
    assert(a + s + b =~= a + (s + b));
    lemma_leading(a, s + b);
    lemma_trailing(s, b);
}

proof fn lemma_word(w: Seq<char>, rest: Seq<char>)
    requires
        forall|i: int| 0 <= i < w.len() ==> !is_space(#[trigger] w[i]),
        rest.len() == 0 || is_space(rest[0]),
    ensures
        word_length(w + rest) == w.len(),
    decreases w.len(),
{
    if w.len() > 0 {
        let tail = w.skip(1);
        assert(!is_space(w[0]));
        assert((w + rest)[0] == w[0]);
        assert((w + rest).skip(1) =~= tail + rest);
        assert forall|i: int| 0 <= i < tail.len() implies !is_space(#[trigger] tail[i]) by {
            assert(!is_space(w[i + 1]));
        }
        lemma_word(tail, rest);
    } else {
        assert(w + rest =~= rest);
    }
}

/// The first word of a text is what stands between separating characters, or up
/// to the end of the text. A text of separating characters has none.
pub proof fn law_first_words(a: Seq<char>, w: Seq<char>, rest: Seq<char>)
    requires
        all_space(a),
        w.len() > 0,
        forall|i: int| 0 <= i < w.len() ==> !is_space(#[trigger] w[i]),
        rest.len() == 0 || is_space(rest[0]),
    ensures
        first_word(a + w + rest) == Some(w),
        first_word(a) is None,
{
    assert(a + w + rest =~= a + (w + rest));
    assert(!is_space(w[0]));
    assert((w + rest)[0] == w[0]);
    lemma_leading(a, w + rest);
    lemma_word(w, rest);
    assert((w + rest).take(w.len() as int) =~= w);
    assert(a + Seq::<char>::empty() =~= a);
    lemma_leading(a, Seq::empty());
}

/// A run of a character at the end of a text is taken away, and nothing else.
pub proof fn law_trailing_runs(s: Seq<char>, c: char, n: nat)
    requires
        s.len() == 0 || s.last() != c,
    ensures
        without_trailing(s + Seq::new(n, |i: int| c), c) == s,
    decreases n,
{
    let run = Seq::new(n, |i: int| c);
    if n > 0 {
        let shorter = Seq::new((n - 1) as nat, |i: int| c);
        law_trailing_runs(s, c, (n - 1) as nat);
        assert((s + run).last() == c);
        assert((s + run).drop_last() =~= s + shorter);
    } else {
        assert(s + run =~= s);
    }
}

/// The characters that separate words: the blank, the ends of lines and the
/// blanks of other scripts, but no letter, digit or sign of the English
/// alphabet.
pub proof fn law_spaces(c: char)
    ensures
        is_space(' '),
        is_space('\t'),
        is_space('\n'),
        is_space('\r'),
        '!' <= c <= '~' ==> !is_space(c),
{
}

/// The characters that separate words, by their numbers, and no others.
pub proof fn law_space_numbers(c: char)
    ensures
        is_space(c) <==> ({
            let n = c as int;
            ||| 9 <= n <= 13
            ||| n == 32
            ||| n == 133
            ||| n == 160
            ||| n == 5760
            ||| 8192 <= n <= 8202
            ||| n == 8232
            ||| n == 8233
            ||| n == 8239
            ||| n == 8287
            ||| n == 12288
        }),
{
}

} // verus!
