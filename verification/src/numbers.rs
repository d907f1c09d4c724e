//! Whole numbers written in digits.
use crate::text::chars_of;
use vstd::prelude::*;
use vstd::string::*;

verus! {

broadcast use vstd::string::group_string_axioms;

/// Whether `c` is a digit below `radix`, which is at most ten.
pub open spec fn is_digit(c: char, radix: int) -> bool {
    0x30 <= c as u32 && (c as u32) < 0x30 + radix
}

/// The number that a row of digits stands for.
pub open spec fn digits_value(s: Seq<char>, radix: int) -> int
    decreases s.len(),
{
    if s.len() == 0 {
        0
    } else {
        digits_value(s.drop_last(), radix) * radix + (s.last() as u32 - 0x30)
    }
}

/// A row of at least one digit, and nothing else.
pub open spec fn is_number(s: Seq<char>, radix: int) -> bool {
    s.len() > 0 && forall|i: int| 0 <= i < s.len() ==> is_digit(#[trigger] s[i], radix)
}

/// `s` without one leading plus sign.
pub open spec fn unsigned_part(s: Seq<char>) -> Seq<char> {
    if s.len() > 0 && s[0] == '+' {
        s.skip(1)
    } else {
        s
    }
}

/// The number that `s` spells, with an optional plus sign before its digits,
/// where it is at most `max`.
pub open spec fn spelled_number(s: Seq<char>, radix: int, max: int) -> Option<int> {
    let digits = unsigned_part(s);
    if is_number(digits, radix) && digits_value(digits, radix) <= max {
        Some(digits_value(digits, radix))
    } else {
        None
    }
}

/// `n` in decimal digits, without leading zeros.
pub open spec fn decimal(n: int) -> Seq<char>
    decreases n,
{
    if n < 10 {
        seq![(0x30 + n) as char]
    } else {
        decimal(n / 10).push((0x30 + n % 10) as char)
    }
}

/// A row of digits stands for no less than any of its beginnings.
proof fn lemma_value_grows(s: Seq<char>, n: int, radix: int)
    requires
        0 <= n <= s.len(),
        radix >= 1,
        forall|i: int| 0 <= i < s.len() ==> is_digit(#[trigger] s[i], radix),
    ensures
        0 <= digits_value(s.take(n), radix) <= digits_value(s, radix),
    decreases s.len(),
{
    if n == s.len() {
        assert(s.take(n) == s);
        if s.len() > 0 {
            lemma_value_grows(s.drop_last(), n - 1, radix);
            assert(s.drop_last().take(n - 1) == s.drop_last());
            let v = digits_value(s.drop_last(), radix);
            assert(v * radix >= 0) by (nonlinear_arith)
                requires
                    v >= 0,
                    radix >= 1,
            ;
            assert(is_digit(s[s.len() - 1], radix));
        }
    } else {
        lemma_value_grows(s.drop_last(), n, radix);
        assert(s.drop_last().take(n) == s.take(n));
        let v = digits_value(s.drop_last(), radix);
        assert(v * radix >= v) by (nonlinear_arith)
            requires
                v >= 0,
                radix >= 1,
        ;
        assert(is_digit(s[s.len() - 1], radix));
    }
}

/// Reading the decimal digits of a number gives the number back.
pub proof fn decimal_spells_its_number(n: int)
    requires
        n >= 0,
    ensures
        is_number(decimal(n), 10),
        digits_value(decimal(n), 10) == n,
    decreases n,
{
    if n < 10 {
        assert(decimal(n).drop_last() == Seq::<char>::empty());
        assert(digits_value(decimal(n).drop_last(), 10) == 0);
    } else {
        decimal_spells_its_number(n / 10);
        assert(decimal(n).drop_last() == decimal(n / 10));
    }
}

/// The number that the text spells in digits below `radix`.
pub fn parse_number(s: &str, radix: u64, max: u64) -> (r: Option<u64>)
    requires
        1 <= radix <= 10,
    ensures
        match r {
            Some(n) => spelled_number(s@, radix as int, max as int) == Some(n as int),
            None => spelled_number(s@, radix as int, max as int) is None,
        },
{
    let chars = chars_of(s);
    let start: usize = if chars.len() > 0 && chars[0] == '+' {
        1
    } else {
        0
    };
    let ghost digits = unsigned_part(s@);
    assert(digits == chars@.skip(start as int));
    if chars.len() == start {
        return None;
    }
    let mut value: u128 = 0;
    let mut i: usize = start;
    while i < chars.len()
        invariant
            chars@ == s@,
            digits == chars@.skip(start as int),
            digits == unsigned_part(s@),
            digits.len() > 0,
            start <= i <= chars@.len(),
            1 <= radix <= 10,
            forall|j: int| 0 <= j < i - start ==> is_digit(#[trigger] digits[j], radix as int),
            value == digits_value(digits.take(i - start), radix as int),
            value <= max,
        decreases chars@.len() - i,
    {
        let c: char = chars[i];
        let n: u32 = c as u32;
        assert(c == digits[i - start]);
        if n < 0x30 || n as u64 >= 0x30 + radix {
            assert(!is_digit(digits[i - start], radix as int));
            return None;
        }
        assert(value * radix <= 10 * u64::MAX) by (nonlinear_arith)
            requires
                0 <= value <= u64::MAX,
                1 <= radix <= 10,
        ;
        assert(digits.take(i - start + 1).drop_last() == digits.take(i - start));
        value = value * (radix as u128) + (n as u128 - 0x30);
        if value > max as u128 {
            proof {
                if is_number(digits, radix as int) {
                    lemma_value_grows(digits, i - start + 1, radix as int);
                }
            }
            return None;
        }
        i += 1;
    }
    assert(digits.take(digits.len() as int) == digits);
    Some(value as u64)
}

/// The number in decimal digits.
pub fn decimal_text(n: u64) -> (r: String)
    ensures
        r@ == decimal(n as int),
    decreases n,
{
    let digit: u8 = 0x30 + (n % 10) as u8;
    if n < 10 {
        let mut out = String::new();
        out.push(digit as char);
        assert(out@ =~= decimal(n as int));
        out
    } else {
        let mut out = decimal_text(n / 10);
        out.push(digit as char);
        out
    }
}

// ---------------------------------------------------------------------------
// Laws
// ---------------------------------------------------------------------------

/// A number is read from its digits, with or without a plus sign before them,
/// exactly if it is not too large.
pub proof fn written_numbers_are_read(n: int, max: int)
    requires
        n >= 0,
    ensures
        n <= max ==> spelled_number(decimal(n), 10, max) == Some(n),
        n <= max ==> spelled_number(seq!['+'] + decimal(n), 10, max) == Some(n),
        n > max ==> spelled_number(decimal(n), 10, max) is None,
{
    decimal_spells_its_number(n);
    assert(is_digit(decimal(n)[0], 10));
    assert((seq!['+'] + decimal(n)).skip(1) =~= decimal(n));
}

/// One more digit multiplies a number by the radix and adds the digit.
pub proof fn digits_count_by_their_place(s: Seq<char>, digit: int, radix: int, max: int)
    requires
        1 <= radix <= 10,
        0 <= digit < radix,
        spelled_number(s, radix, max) is Some,
        spelled_number(s, radix, max)->0 * radix + digit <= max,
    ensures
        spelled_number(s.push((0x30 + digit) as char), radix, max) == Some(
            spelled_number(s, radix, max)->0 * radix + digit,
        ),
        digit <= max ==> spelled_number(seq![(0x30 + digit) as char], radix, max) == Some(digit),
{
    let c = (0x30 + digit) as char;
    let digits = unsigned_part(s);
    let longer = unsigned_part(s.push(c));
    assert(longer =~= digits.push(c));
    assert(longer.drop_last() =~= digits);
    assert forall|i: int| 0 <= i < longer.len() implies is_digit(#[trigger] longer[i], radix) by {
        if i < digits.len() {
            assert(longer[i] == digits[i]);
        }
    }
    let one = seq![c];
    assert(one.drop_last() =~= Seq::empty());
    assert(unsigned_part(one) == one);
    assert(digits_value(one.drop_last(), radix) == 0);
}

/// Nothing but digits and one plus sign before them makes a number.
pub proof fn numbers_are_digits_alone(s: Seq<char>, radix: int, max: int, i: int)
    requires
        0 <= i < s.len(),
        !is_digit(s[i], radix),
        s[i] != '+' || i > 0 || s.len() == 1,
    ensures
        spelled_number(s, radix, max) is None,
        spelled_number(Seq::empty(), radix, max) is None,
{
    let digits = unsigned_part(s);
    if s[0] == '+' {
        if i > 0 {
            assert(digits[i - 1] == s[i]);
        }
    } else {
        assert(digits[i] == s[i]);
    }
}

/// No number but zero is written with a zero in front.
pub proof fn decimals_have_no_leading_zeros(n: int)
    requires
        n > 0,
    ensures
        decimal(n)[0] != '0',
        decimal(0) == seq!['0'],
    decreases n,
{
    if n >= 10 {
        decimals_have_no_leading_zeros(n / 10);
    } else {
        assert(decimal(n)[0] as u32 == 0x30 + n);
    }
    assert(decimal(0) =~= seq!['0']);
}

}
