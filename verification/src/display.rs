//! Display of amounts: two decimal places, zero-padded.

use vstd::prelude::*;
use crate::fraction::{
    lemma_rounding_formula, lemma_rounding_same_value, magnitude, round_half_away,
};
use crate::rational::{ratio_mul_int, ratio_to_integer, Rational};

verus! {

/// The character of the digit `d`.
pub open spec fn digit(d: int) -> char {
    if d == 0 {
        '0'
    } else if d == 1 {
        '1'
    } else if d == 2 {
        '2'
    } else if d == 3 {
        '3'
    } else if d == 4 {
        '4'
    } else if d == 5 {
        '5'
    } else if d == 6 {
        '6'
    } else if d == 7 {
        '7'
    } else if d == 8 {
        '8'
    } else {
        '9'
    }
}

/// The decimal digits of `n`, which is not negative, without leading zeros.
pub open spec fn decimal(n: int) -> Seq<char>
    decreases n,
{
    if n < 10 {
        seq![digit(n)]
    } else {
        decimal(n / 10).push(digit(n % 10))
    }
}

/// An amount of `hundredths` written with two decimal places: a minus sign
/// for a negative amount, the whole part, a point, and two digits.
pub open spec fn two_decimals(hundredths: int) -> Seq<char> {
    let size = magnitude(hundredths);
    let sign = if hundredths < 0 {
        seq!['-']
    } else {
        Seq::<char>::empty()
    };
    sign + decimal(size / 100) + seq!['.', digit((size / 10) % 10), digit(size % 10)]
}

/// `String::push`: appends the character to the end of the string.
#[verifier::external_body]
fn push_char(text: &mut String, c: char)
    ensures
        final(text)@ == old(text)@.push(c),
{
    text.push(c)
}

/// The character of a digit.
fn digit_char(d: i64) -> (c: char)
    requires
        0 <= d <= 9,
    ensures
        c == digit(d as int),
{
    if d == 0 {
        '0'
    } else if d == 1 {
        '1'
    } else if d == 2 {
        '2'
    } else if d == 3 {
        '3'
    } else if d == 4 {
        '4'
    } else if d == 5 {
        '5'
    } else if d == 6 {
        '6'
    } else if d == 7 {
        '7'
    } else if d == 8 {
        '8'
    } else {
        '9'
    }
}

/// Appends the decimal digits of `n`.
pub fn push_decimal(text: &mut String, n: i64)
    requires
        n >= 0,
    ensures
        final(text)@ == old(text)@ + decimal(n as int),
    decreases n,
{
    if n >= 10 {
        push_decimal(text, n / 10);
    }
    push_char(text, digit_char(n % 10));
    proof {
        if n >= 10 {
            assert(text@ =~= old(text)@ + decimal(n as int / 10).push(digit(n as int % 10)));
        } else {
            assert(text@ =~= old(text)@ + seq![digit(n as int)]);
        }
    }
}

/// An amount given in hundredths, written with two decimal places.
pub fn hundredths_to_string(hundredths: i64) -> (text: String)
    requires
        hundredths > i64::MIN,
    ensures
        text@ == two_decimals(hundredths as int),
{
    let mut text = String::new();
    let size: i64 = if hundredths < 0 {
        push_char(&mut text, '-');
        -hundredths
    } else {
        hundredths
    };
    let ghost sign = text@;
    push_decimal(&mut text, size / 100);
    push_char(&mut text, '.');
    push_char(&mut text, digit_char((size / 10) % 10));
    push_char(&mut text, digit_char(size % 10));
    proof {
        let size = size as int;
        assert(text@ =~= sign + decimal(size / 100) + seq![
            '.',
            digit((size / 10) % 10),
            digit(size % 10),
        ]);
    }
    text
}

/// The value of `amount` with two decimal places, rounded to the nearest
/// hundredth, a half going away from zero.
pub fn ratio_to_string(amount: &Rational) -> (text: String)
    requires
        amount.wf(),
        magnitude(amount@.num) * 100 <= i64::MAX,
    ensures
        text@ == two_decimals(round_half_away(amount@.num * 100, amount@.den)),
{
    let scaled = ratio_mul_int(amount, 100);
    let whole = scaled.round();
    let hundredths: i64 = ratio_to_integer(&whole);
    proof {
        lemma_rounding_same_value(
            whole@.num,
            scaled@.num,
            scaled@.den,
            amount@.num * 100,
            amount@.den,
        );
        lemma_rounding_formula(whole@.num, amount@.num * 100, amount@.den);
    }
    hundredths_to_string(hundredths)
}

} // verus!
