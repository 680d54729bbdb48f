//! Numbers as decimal text: writing them and reading them.

use vstd::prelude::*;
use crate::chars::{from_chars, is_digit, slice};

verus! {

/// The character of a decimal digit.
pub open spec fn digit_char(d: int) -> char {
    (('0' as u8) + (d as u8)) as char
}

/// The decimal text of a number: its digits, most significant first,
/// without leading zeros.
pub open spec fn decimal_text(n: u128) -> Seq<char>
    decreases n,
{
    if n < 10 {
        seq![digit_char(n as int)]
    } else {
        decimal_text(n / 10).push(digit_char((n % 10) as int))
    }
}

/// The decimal text of a signed number: that of its magnitude, after a
/// minus sign where the number is negative.
pub open spec fn signed_decimal_text(n: i64) -> Seq<char> {
    if n < 0 {
        seq!['-'] + decimal_text((-(n as int)) as u128)
    } else {
        decimal_text(n as u128)
    }
}

fn digit(d: u8) -> (r: char)
    requires
        d < 10,
    ensures
        r == digit_char(d as int),
{
    (('0' as u8) + d) as char
}

/// The digits of a number.
pub fn u128_to_chars(n: u128) -> (r: Vec<char>)
    ensures
        r@ == decimal_text(n),
    decreases n,
{
    if n < 10 {
        let mut out: Vec<char> = Vec::new();
        out.push(digit(n as u8));
        assert(out@ =~= seq![digit_char(n as int)]);
        out
    } else {
        let mut out = u128_to_chars(n / 10);
        out.push(digit((n % 10) as u8));
        out
    }
}

/// The decimal text of a number.
pub fn u128_to_text(n: u128) -> (r: String)
    ensures
        r@ == decimal_text(n),
{
    from_chars(&u128_to_chars(n))
}

/// The decimal text of a signed number.
pub fn i64_to_text(n: i64) -> (r: String)
    ensures
        r@ == signed_decimal_text(n),
{
    if n < 0 {
        let magnitude = (-(n as i128)) as u128;
        let mut out: Vec<char> = Vec::new();
        out.push('-');
        crate::chars::append(&mut out, &u128_to_chars(magnitude));
        assert(out@ =~= seq!['-'] + decimal_text(magnitude));
        from_chars(&out)
    } else {
        u128_to_text(n as u128)
    }
}

/// The number that the digits denote.
pub open spec fn decimal_value(digits: Seq<char>) -> nat
    decreases digits.len(),
{
    if digits.len() == 0 {
        0
    } else {
        decimal_value(digits.drop_last()) * 10 + ((digits.last() as u32 - '0' as u32) as nat)
    }
}

/// Whether `s` holds decimal digits only.
pub open spec fn only_digits(s: Seq<char>) -> bool {
    forall|i: int| 0 <= i < s.len() ==> is_digit(#[trigger] s[i])
}

/// The digits of a number text: the text without a plus sign in front.
pub open spec fn unsigned_digits(s: Seq<char>) -> Seq<char> {
    if s.len() > 0 && s[0] == '+' {
        s.skip(1)
    } else {
        s
    }
}

/// The number that a text denotes, where it is at most `max`: decimal
/// digits, at least one, with an optional plus sign in front.
pub open spec fn parse_bounded_spec(s: Seq<char>, max: u128) -> Option<u128> {
    let digits = unsigned_digits(s);
    if digits.len() > 0 && only_digits(digits) && decimal_value(digits) <= max {
        Some(decimal_value(digits) as u128)
    } else {
        None
    }
}

proof fn lemma_decimal_value_grows(digits: Seq<char>, n: int)
    requires
        0 <= n <= digits.len(),
    ensures
        decimal_value(digits.take(n)) <= decimal_value(digits),
    decreases digits.len() - n,
{
    if n == digits.len() {
        assert(digits.take(n) =~= digits);
    } else {
        assert(digits.take(n + 1).drop_last() =~= digits.take(n));
        lemma_decimal_value_grows(digits, n + 1);
        assert(decimal_value(digits.take(n + 1)) >= decimal_value(digits.take(n))) by (nonlinear_arith)
            requires
                decimal_value(digits.take(n + 1)) == decimal_value(digits.take(n)) * 10 + ((
                digits.take(n + 1).last() as u32 - '0' as u32) as nat),
        ;
    }
}

/// Read a number of at most `max` from a text.
pub fn parse_bounded(s: &Vec<char>, max: u128) -> (r: Option<u128>)
    ensures
        r == parse_bounded_spec(s@, max),
{
    let start: usize = if s.len() > 0 && s[0] == '+' {
        1
    } else {
        0
    };
    let digits = slice(s, start, s.len());
    assert(digits@ =~= unsigned_digits(s@));
    if digits.len() == 0 {
        return None;
    }
    let mut acc: u128 = 0;
    let mut i: usize = 0;
    while i < digits.len()
        invariant
            i <= digits.len(),
            forall|k: int| 0 <= k < i ==> is_digit(#[trigger] digits@[k]),
            acc == decimal_value(digits@.take(i as int)),
            acc <= max,
            digits@ == unsigned_digits(s@),
            digits.len() > 0,
        decreases digits.len() - i,
    {
        let c = digits[i];
        if !('0' <= c && c <= '9') {
            assert(!is_digit(digits@[i as int]));
            return None;
        }
        let d = (c as u32 - '0' as u32) as u128;
        proof {
            assert(digits@.take(i + 1).drop_last() =~= digits@.take(i as int));
            assert(digits@.take(i + 1).last() == c);
            lemma_decimal_value_grows(digits@, i + 1);
        }
        if d > max || acc > (max - d) / 10 {
            assert(acc * 10 + d > max) by (nonlinear_arith)
                requires
                    d > max || acc > (max - d) / 10,
                    d <= 9,
                    0 <= acc,
            ;
            return None;
        }
        assert(acc * 10 + d <= max) by (nonlinear_arith)
            requires
                d <= max,
                acc <= (max - d) / 10,
                d <= 9,
        ;
        acc = acc * 10 + d;
        i += 1;
    }
    proof {
        assert(digits@.take(digits.len() as int) =~= digits@);
    }
    Some(acc)
}

proof fn lemma_decimal_text_is_digits(n: u128)
    ensures
        decimal_text(n).len() > 0,
        only_digits(decimal_text(n)),
        decimal_value(decimal_text(n)) == n,
    decreases n,
{
    if n < 10 {
        let text = decimal_text(n);
        assert(text.len() == 1);
        assert(text.drop_last() =~= Seq::<char>::empty());
        assert(decimal_value(text.drop_last()) == 0);
        assert(text.last() == digit_char(n as int));
    } else {
        lemma_decimal_text_is_digits(n / 10);
        let front = decimal_text(n / 10);
        let text = decimal_text(n);
        assert(text.drop_last() =~= front);
        assert(text.last() == digit_char((n % 10) as int));
        assert forall|i: int| 0 <= i < text.len() implies is_digit(#[trigger] text[i]) by {
            if i < front.len() {
                assert(text[i] == front[i]);
            }
        }
    }
}

/// What is written is what is read: the decimal text of a number denotes
/// that number.
pub proof fn lemma_decimal_round_trip(n: u128)
    ensures
        parse_bounded_spec(decimal_text(n), u128::MAX) == Some(n),
{
    lemma_decimal_text_is_digits(n);
    let text = decimal_text(n);
    assert(is_digit(text[0]));
    assert(unsigned_digits(text) == text);
}

} // verus!
