//! Exact rational numbers over 64-bit integers. The arithmetic is done by
//! `num_rational::Ratio<i64>`; this module states what each operation returns
//! and on which operands it stays within 64 bits.

use vstd::prelude::*;
use num_rational::Ratio;
use crate::fraction::{Fraction, is_rounding, lemma_integer_is_lowest, magnitude, truncated};

verus! {

/// A rational number held as a numerator and a positive denominator in
/// lowest terms.
#[derive(Clone, Copy, Debug, PartialEq, Eq, Structural)]
pub struct Rational {
    numer: i64,
    denom: i64,
}

impl View for Rational {
    type V = Fraction;

    closed spec fn view(&self) -> Fraction {
        Fraction { num: self.numer as int, den: self.denom as int }
    }
}

impl Rational {
    /// The value is in lowest terms, and numerator and denominator can both
    /// be negated within 64 bits.
    pub open spec fn wf(&self) -> bool {
        &&& self@.lowest()
        &&& magnitude(self@.num) <= i64::MAX
        &&& self@.den <= i64::MAX
    }

    /// The fraction `numer / denom` in lowest terms.
    pub fn new(numer: i64, denom: i64) -> (r: Rational)
        requires
            denom != 0,
            numer > i64::MIN,
            denom > i64::MIN,
        ensures
            r.wf(),
            r@.is_ratio(numer as int, denom as int),
    {
        ratio_new(numer, denom)
    }

    /// The integer `t` as a fraction.
    pub fn from_integer(t: i64) -> (r: Rational)
        requires
            t > i64::MIN,
        ensures
            r.wf(),
            r@ == (Fraction { num: t as int, den: 1 }),
    {
        proof {
            lemma_integer_is_lowest(t as int);
        }
        ratio_from_integer(t)
    }

    /// The numerator.
    pub fn numer(&self) -> (n: i64)
        ensures
            n == self@.num,
    {
        self.numer
    }

    /// The denominator.
    pub fn denom(&self) -> (d: i64)
        ensures
            d == self@.den,
    {
        self.denom
    }

    /// The value with its fractional part dropped.
    pub fn to_integer(&self) -> (t: i64)
        requires
            self.wf(),
        ensures
            t == truncated(self@.num, self@.den),
    {
        ratio_to_integer(self)
    }

    /// The nearest integer, half-way values going away from zero.
    pub fn round(&self) -> (r: Rational)
        requires
            self.wf(),
        ensures
            r.wf(),
            r@.den == 1,
            is_rounding(r@.num, self@.num, self@.den),
    {
        let r = ratio_round(self);
        proof {
            lemma_integer_is_lowest(r@.num);
        }
        r
    }

    /// Whether the value is below that of `other`.
    pub fn lt(&self, other: &Rational) -> (b: bool)
        requires
            self.wf(),
            other.wf(),
        ensures
            b == self@.less(other@),
    {
        ratio_lt(self, other)
    }
}

/// `Ratio::new`: puts `numer / denom` into lowest terms over a positive
/// denominator. It panics on a zero denominator, and negating the least
/// 64-bit integer overflows, so both are kept out.
#[verifier::external_body]
pub(crate) fn ratio_new(numer: i64, denom: i64) -> (r: Rational)
    requires
        denom != 0,
        numer > i64::MIN,
        denom > i64::MIN,
    ensures
        r.wf(),
        r@.is_ratio(numer as int, denom as int),
{
    let q = Ratio::new(numer, denom);
    Rational { numer: *q.numer(), denom: *q.denom() }
}

/// `Ratio::from_integer`: the pair `t / 1`.
#[verifier::external_body]
pub(crate) fn ratio_from_integer(t: i64) -> (r: Rational)
    ensures
        r@ == (Fraction { num: t as int, den: 1 }),
{
    let q = Ratio::from_integer(t);
    Rational { numer: *q.numer(), denom: *q.denom() }
}

/// `Ratio::to_integer`: the numerator divided by the denominator, rounding
/// towards zero.
#[verifier::external_body]
pub(crate) fn ratio_to_integer(a: &Rational) -> (t: i64)
    requires
        a.wf(),
    ensures
        t == truncated(a@.num, a@.den),
{
    Ratio::new_raw(a.numer, a.denom).to_integer()
}

/// `Ratio::round`: the nearest integer as a fraction over 1, half-way values
/// going away from zero.
#[verifier::external_body]
pub(crate) fn ratio_round(a: &Rational) -> (r: Rational)
    requires
        a.wf(),
    ensures
        r@.den == 1,
        is_rounding(r@.num, a@.num, a@.den),
        magnitude(r@.num) <= i64::MAX,
{
    let q = Ratio::new_raw(a.numer, a.denom).round();
    Rational { numer: *q.numer(), denom: *q.denom() }
}

/// `Ratio + Ratio`: the sum in lowest terms. The operands are brought to a
/// common denominator no larger than the product of the two, so the bounds
/// keep every intermediate value within 64 bits.
#[verifier::external_body]
pub(crate) fn ratio_add(a: &Rational, b: &Rational) -> (r: Rational)
    requires
        a.wf(),
        b.wf(),
        a@.den * b@.den <= i64::MAX,
        magnitude(a@.num) * b@.den + magnitude(b@.num) * a@.den <= i64::MAX,
    ensures
        r.wf(),
        r@.is_ratio(a@.num * b@.den + b@.num * a@.den, a@.den * b@.den),
{
    let q = Ratio::new_raw(a.numer, a.denom) + Ratio::new_raw(b.numer, b.denom);
    Rational { numer: *q.numer(), denom: *q.denom() }
}

/// `Ratio - Ratio`: the difference in lowest terms, computed as the sum is.
#[verifier::external_body]
pub(crate) fn ratio_sub(a: &Rational, b: &Rational) -> (r: Rational)
    requires
        a.wf(),
        b.wf(),
        a@.den * b@.den <= i64::MAX,
        magnitude(a@.num) * b@.den + magnitude(b@.num) * a@.den <= i64::MAX,
    ensures
        r.wf(),
        r@.is_ratio(a@.num * b@.den - b@.num * a@.den, a@.den * b@.den),
{
    let q = Ratio::new_raw(a.numer, a.denom) - Ratio::new_raw(b.numer, b.denom);
    Rational { numer: *q.numer(), denom: *q.denom() }
}

/// `Ratio * Ratio`: the product in lowest terms. Common factors are divided
/// out before multiplying, so no intermediate value exceeds the plain
/// products of the numerators and of the denominators.
#[verifier::external_body]
pub(crate) fn ratio_mul(a: &Rational, b: &Rational) -> (r: Rational)
    requires
        a.wf(),
        b.wf(),
        magnitude(a@.num * b@.num) <= i64::MAX,
        a@.den * b@.den <= i64::MAX,
    ensures
        r.wf(),
        r@.is_ratio(a@.num * b@.num, a@.den * b@.den),
{
    let q = Ratio::new_raw(a.numer, a.denom) * Ratio::new_raw(b.numer, b.denom);
    Rational { numer: *q.numer(), denom: *q.denom() }
}

/// `Ratio * i64`: the product with an integer, in lowest terms.
#[verifier::external_body]
pub(crate) fn ratio_mul_int(a: &Rational, k: i64) -> (r: Rational)
    requires
        a.wf(),
        k > i64::MIN,
        magnitude(a@.num * k) <= i64::MAX,
    ensures
        r.wf(),
        r@.is_ratio(a@.num * k, a@.den),
{
    let q = Ratio::new_raw(a.numer, a.denom) * k;
    Rational { numer: *q.numer(), denom: *q.denom() }
}

/// `Ratio / i64`: the quotient by a non-zero integer, in lowest terms.
/// Dividing by zero panics.
#[verifier::external_body]
pub(crate) fn ratio_div_int(a: &Rational, k: i64) -> (r: Rational)
    requires
        a.wf(),
        k != 0,
        k > i64::MIN,
        magnitude(a@.den * k) <= i64::MAX,
    ensures
        r.wf(),
        r@.is_ratio(a@.num, a@.den * k),
{
    let q = Ratio::new_raw(a.numer, a.denom) / k;
    Rational { numer: *q.numer(), denom: *q.denom() }
}

/// `Ratio`'s `<`: compares the values of the two fractions.
#[verifier::external_body]
pub(crate) fn ratio_lt(a: &Rational, b: &Rational) -> (r: bool)
    requires
        a.wf(),
        b.wf(),
    ensures
        r == a@.less(b@),
{
    Ratio::new_raw(a.numer, a.denom) < Ratio::new_raw(b.numer, b.denom)
}

} // verus!
