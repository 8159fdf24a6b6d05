//! Building messages: numbers and characters as text.

use vstd::prelude::*;
use vstd::string::*;

verus! {

/// `String::push` of std: appends one character.
pub assume_specification[ String::push ](s: &mut String, c: char)
    ensures
        final(s)@ == old(s)@.push(c),
;

/// The number is that of a character: it is no surrogate and not too large.
pub open spec fn is_scalar(x: u32) -> bool {
    x < 0xD800 || 0xE000 <= x <= 0x10FFFF
}

/// `char::from_u32` of std: the character of a number, if there is one.
pub assume_specification[ char::from_u32 ](i: u32) -> (r: Option<char>)
    ensures
        r == if is_scalar(i) {
            Some(i as char)
        } else {
            None
        },
;

/// The first half of a character that takes two UTF-16 units.
pub open spec fn is_high(u: u16) -> bool {
    0xD800 <= u < 0xDC00
}

/// The second half of a character that takes two UTF-16 units.
pub open spec fn is_low(u: u16) -> bool {
    0xDC00 <= u < 0xE000
}

/// The text that UTF-16 units stand for. A half without its other half stands
/// for the replacement character.
pub open spec fn utf16_text(units: Seq<u16>) -> Seq<char>
    decreases units.len(),
{
    if units.len() == 0 {
        Seq::empty()
    } else if units.len() >= 2 && is_high(units[0]) && is_low(units[1]) {
        seq![(0x10000 + (units[0] - 0xD800) * 0x400 + (units[1] - 0xDC00)) as char] + utf16_text(
            units.skip(2),
        )
    } else if is_high(units[0]) || is_low(units[0]) {
        seq!['\u{FFFD}'] + utf16_text(units.skip(1))
    } else {
        seq![units[0] as char] + utf16_text(units.skip(1))
    }
}

/// The UTF-16 units of a character: one below 65536, else two halves.
pub open spec fn utf16_units(c: char) -> Seq<u16> {
    let x = c as int;
    if x < 0x10000 {
        seq![x as u16]
    } else {
        seq![(0xD800 + (x - 0x10000) / 0x400) as u16, (0xDC00 + (x - 0x10000) % 0x400) as u16]
    }
}

/// The UTF-16 units of a text.
pub open spec fn utf16_of(s: Seq<char>) -> Seq<u16>
    decreases s.len(),
{
    if s.len() == 0 {
        Seq::empty()
    } else {
        utf16_units(s[0]) + utf16_of(s.drop_first())
    }
}

proof fn lemma_utf16_units(c: char)
    ensures
        utf16_units(c).len() == 1 ==> utf16_units(c)[0] as char == c && !is_high(utf16_units(c)[0])
            && !is_low(utf16_units(c)[0]),
        utf16_units(c).len() == 2 ==> is_high(utf16_units(c)[0]) && is_low(utf16_units(c)[1]) && (
        0x10000 + (utf16_units(c)[0] - 0xD800) * 0x400 + (utf16_units(c)[1] - 0xDC00)) as char == c,
{
    let x = c as u32;
    assert(is_scalar(x));
}

/// A text that was put into UTF-16 reads back as itself, whatever follows it.
pub proof fn law_utf16_reads_back(s: Seq<char>, rest: Seq<u16>)
    ensures
        utf16_text(utf16_of(s) + rest) == s + utf16_text(rest),
    decreases s.len(),
{
    let units = utf16_of(s) + rest;
    if s.len() == 0 {
        assert(units =~= rest);
        assert(s + utf16_text(rest) =~= utf16_text(rest));
    } else {
        let c = s[0];
        let tail = s.drop_first();
        law_utf16_reads_back(tail, rest);
        let first = utf16_units(c);
        lemma_utf16_units(c);
        assert(units =~= first + (utf16_of(tail) + rest));
        assert(units.skip(first.len() as int) =~= utf16_of(tail) + rest);
        assert(units[0] == first[0]);
        assert(seq![c] + (tail + utf16_text(rest)) =~= s + utf16_text(rest));
        if first.len() == 2 {
            assert(units[1] == first[1]);
            assert(utf16_text(units) == seq![c] + utf16_text(units.skip(2)));
        } else {
            assert(utf16_text(units) == seq![c] + utf16_text(units.skip(1)));
        }
    }
}

/// Half of a character without the other half reads as the replacement
/// character, and what follows is read as if nothing had been there.
pub proof fn law_lone_halves_are_replaced(u: u16, rest: Seq<u16>)
    requires
        0xD800 <= u < 0xE000,
        u >= 0xDC00 || rest.len() == 0 || rest[0] < 0xDC00 || rest[0] >= 0xE000,
    ensures
        utf16_text(seq![u] + rest) == seq!['\u{FFFD}'] + utf16_text(rest),
{
    let units = seq![u] + rest;
    assert(units[0] == u);
    assert(units.skip(1) =~= rest);
    if units.len() >= 2 {
        assert(units[1] == rest[0]);
    }
}

/// Reads UTF-16 units as text.
pub fn from_utf16_lossy(units: &[u16]) -> (r: String)
    ensures
        r@ == utf16_text(units@),
{
    let n: usize = units.len();
    let mut s: String = String::new();
    let mut i: usize = 0;
    assert(units@.skip(0) =~= units@);
    assert(s@ + utf16_text(units@) =~= utf16_text(units@));
    while i < n
        invariant
            i <= n,
            n == units@.len(),
            s@ + utf16_text(units@.skip(i as int)) == utf16_text(units@),
        decreases n - i,
    {
        let u: u16 = units[i];
        let ghost before = s@;
        let ghost rest = units@.skip(i as int);
        if n - i >= 2 && 0xD800 <= u && u < 0xDC00 && 0xDC00 <= units[i + 1] && units[i + 1]
            < 0xE000 {
            let x: u32 = 0x10000 + (u as u32 - 0xD800) * 0x400 + (units[i + 1] as u32 - 0xDC00);
            let c: char = match char::from_u32(x) {
                Some(c) => c,
                None => '\u{FFFD}',
            };
            s.push(c);
            assert(rest.skip(2) =~= units@.skip(i + 2));
            assert(before + (seq![c] + utf16_text(rest.skip(2))) =~= s@ + utf16_text(rest.skip(2)));
            i += 2;
        } else {
            let c: char = match char::from_u32(u as u32) {
                Some(c) => c,
                None => '\u{FFFD}',
            };
            s.push(c);
            assert(rest.skip(1) =~= units@.skip(i + 1));
            assert(before + (seq![c] + utf16_text(rest.skip(1))) =~= s@ + utf16_text(rest.skip(1)));
            i += 1;
        }
    }
    assert(s@ + Seq::<char>::empty() =~= s@);
    s
}

/// The character of a digit below sixteen, letters in lower case.
pub open spec fn digit(d: nat) -> char {
    if d < 10 {
        (48 + d) as char
    } else {
        (87 + d) as char
    }
}

/// `n` in base `base`, without leading zeros.
pub open spec fn numeral(n: nat, base: nat) -> Seq<char>
    decreases n,
{
    if base < 2 || n < base {
        seq![digit(n)]
    } else {
        proof {
            assert(n / base < n) by (nonlinear_arith)
                requires
                    n >= base,
                    base >= 2,
            ;
        }
        numeral(n / base, base).push(digit(n % base))
    }
}

/// `n` as decimal text.
pub open spec fn decimal(n: nat) -> Seq<char> {
    numeral(n, 10)
}

/// `n` as decimal text, with a sign where it is negative.
pub open spec fn signed_decimal(n: int) -> Seq<char> {
    if n < 0 {
        seq!['-'] + decimal((-n) as nat)
    } else {
        decimal(n as nat)
    }
}

/// A character as it stands inside a quoted message: printable ASCII as it is,
/// quotes and backslash behind a backslash, everything else by its number.
pub open spec fn escaped(c: char) -> Seq<char> {
    if c == '\t' {
        seq!['\\', 't']
    } else if c == '\r' {
        seq!['\\', 'r']
    } else if c == '\n' {
        seq!['\\', 'n']
    } else if c == '\'' || c == '"' || c == '\\' {
        seq!['\\', c]
    } else if ' ' <= c <= '~' {
        seq![c]
    } else {
        seq!['\\', 'u', '{'] + numeral(c as nat, 16) + seq!['}']
    }
}

fn digit_char(d: u64) -> (r: char)
    requires
        d < 16,
    ensures
        r == digit(d as nat),
{
    if d < 10 {
        (48 + d as u8) as char
    } else {
        (87 + d as u8) as char
    }
}

fn push_numeral(s: &mut String, n: u64, base: u64)
    requires
        2 <= base <= 16,
    ensures
        final(s)@ == old(s)@ + numeral(n as nat, base as nat),
    decreases n,
{
    if n < base {
        s.push(digit_char(n));
        assert(s@ =~= old(s)@ + numeral(n as nat, base as nat));
    } else {
        assert(n / base < n) by (nonlinear_arith)
            requires
                n >= base,
                base >= 2,
        ;
        push_numeral(s, n / base, base);
        assert(n % base < base);
        s.push(digit_char(n % base));
        assert(s@ =~= old(s)@ + numeral(n as nat, base as nat));
    }
}

/// Appends `n` in decimal.
pub fn push_decimal(s: &mut String, n: u64)
    ensures
        final(s)@ == old(s)@ + decimal(n as nat),
{
    push_numeral(s, n, 10);
}

/// Appends `n` in decimal, with a sign where it is negative.
pub fn push_signed_decimal(s: &mut String, n: i64)
    ensures
        final(s)@ == old(s)@ + signed_decimal(n as int),
{
    if n < 0 {
        s.push('-');
        let m: u64 = if n == i64::MIN {
            0x8000_0000_0000_0000
        } else {
            (-n) as u64
        };
        push_decimal(s, m);
        assert(s@ =~= old(s)@ + signed_decimal(n as int));
    } else {
        push_decimal(s, n as u64);
    }
}

/// Appends a character as it stands inside a quoted message.
pub fn push_escaped(s: &mut String, c: char)
    ensures
        final(s)@ == old(s)@ + escaped(c),
{
    if c == '\t' {
        s.push('\\');
        s.push('t');
    } else if c == '\r' {
        s.push('\\');
        s.push('r');
    } else if c == '\n' {
        s.push('\\');
        s.push('n');
    } else if c == '\'' || c == '"' || c == '\\' {
        s.push('\\');
        s.push(c);
    } else if ' ' <= c && c <= '~' {
        s.push(c);
    } else {
        s.push('\\');
        s.push('u');
        s.push('{');
        push_numeral(s, c as u64, 16);
        s.push('}');
    }
    assert(s@ =~= old(s)@ + escaped(c));
}

/// What a digit stands for.
pub open spec fn digit_value(c: char) -> int {
    if '0' <= c <= '9' {
        c as int - '0' as int
    } else {
        10 + c as int - 'a' as int
    }
}

/// The number that a text stands for in a base.
pub open spec fn value_in(s: Seq<char>, base: int) -> int
    decreases s.len(),
{
    if s.len() == 0 {
        0
    } else {
        value_in(s.drop_last(), base) * base + digit_value(s.last())
    }
}

/// A numeral stands for its number: what its digits say in its base, with no
/// zero in front unless it is zero itself.
pub proof fn law_numerals_stand_for_their_numbers(n: nat, base: nat)
    requires
        2 <= base <= 16,
    ensures
        value_in(numeral(n, base), base as int) == n,
        numeral(n, base).len() > 0,
        n > 0 ==> numeral(n, base)[0] != '0',
        n == 0 ==> numeral(n, base) == seq!['0'],
        forall|i: int|
            0 <= i < numeral(n, base).len() ==> 0 <= digit_value(#[trigger] numeral(n, base)[i])
                < base,
    decreases n,
{
    let s = numeral(n, base);
    if n < base {
        reveal_with_fuel(value_in, 2);
        assert(s.drop_last() =~= Seq::<char>::empty());
        assert(0 * base == 0) by (nonlinear_arith);
    } else {
        let q = n / base;
        let r = n % base;
        assert(q < n && q > 0) by (nonlinear_arith)
            requires
                n >= base,
                base >= 2,
                q == n / base,
        ;
        law_numerals_stand_for_their_numbers(q, base);
        let front = numeral(q, base);
        assert(s == front.push(digit(r)));
        assert(s.drop_last() =~= front);
        assert(q * base + r == n) by (nonlinear_arith)
            requires
                base >= 2,
                q == n / base,
                r == n % base,
        ;
        assert(r < base) by (nonlinear_arith)
            requires
                base >= 2,
                r == n % base,
        ;
        assert forall|i: int| 0 <= i < s.len() implies 0 <= digit_value(#[trigger] s[i]) < base by {
            if i < front.len() {
                assert(s[i] == front[i]);
            }
        }
        assert(s[0] == front[0]);
    }
}

/// A number with a sign is its size in decimal, behind a minus sign if it is
/// negative.
pub proof fn law_signs_are_shown(n: int)
    ensures
        n >= 0 ==> signed_decimal(n) == decimal(n as nat),
        n < 0 ==> signed_decimal(n).len() > 0 && signed_decimal(n)[0] == '-' && signed_decimal(
            n,
        ).drop_first() == decimal((-n) as nat),
{
    if n < 0 {
        assert(signed_decimal(n).drop_first() =~= decimal((-n) as nat));
    }
}

/// Inside a message, letters, digits and signs stand as they are, but for quotes
/// and the backslash, which stand behind a backslash. Any other character stands
/// as its number, or, if it ends a line or a word, as a letter for it.
pub proof fn law_escapes(c: char)
    ensures
        ' ' <= c <= '~' && c != '"' && c != '\'' && c != '\\' ==> escaped(c) == seq![c],
        c == '"' || c == '\'' || c == '\\' ==> escaped(c) == seq!['\\', c],
        escaped('\n') == seq!['\\', 'n'],
        escaped('\r') == seq!['\\', 'r'],
        escaped('\t') == seq!['\\', 't'],
        (c < ' ' || c > '~') && c != '\n' && c != '\r' && c != '\t' ==> {
            let n = escaped(c).len() as int;
            &&& n > 4
            &&& escaped(c).take(3) == seq!['\\', 'u', '{']
            &&& escaped(c).last() == '}'
            &&& value_in(escaped(c).subrange(3, n - 1), 16) == c as int
        },
{
    if (c < ' ' || c > '~') && c != '\n' && c != '\r' && c != '\t' {
        law_numerals_stand_for_their_numbers(c as nat, 16);
        let number = numeral(c as nat, 16);
        let all = escaped(c);
        assert(all == seq!['\\', 'u', '{'] + number + seq!['}']);
        assert(all.take(3) =~= seq!['\\', 'u', '{']);
        assert(all.subrange(3, all.len() - 1) =~= number);
    }
}

} // verus!
