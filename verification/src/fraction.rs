//! The mathematical model of a rational number: a pair of integers read as
//! numerator over denominator, and the arithmetic facts the library relies on.

use vstd::prelude::*;
use vstd::arithmetic::div_mod::{
    lemma_fundamental_div_mod, lemma_fundamental_div_mod_converse_div, lemma_mod_bound,
    lemma_mod_multiples_basic, lemma_mod_self_0,
};

verus! {

/// `k` divides `n`.
pub open spec fn divides(k: int, n: int) -> bool {
    n % k == 0
}

/// No integer above 1 divides both `a` and `b`.
pub open spec fn coprime(a: int, b: int) -> bool {
    forall|k: int| k > 1 ==> !(#[trigger] divides(k, a) && divides(k, b))
}

/// The absolute value of `x`.
pub open spec fn magnitude(x: int) -> int {
    if x < 0 {
        -x
    } else {
        x
    }
}

/// `q` is `n / d` rounded to the nearest integer, a value half-way between
/// two integers going to the one farther from zero; `d` is positive.
pub open spec fn is_rounding(q: int, n: int, d: int) -> bool {
    if n >= 0 {
        (2 * q - 1) * d <= 2 * n < (2 * q + 1) * d
    } else {
        (2 * q - 1) * d < 2 * n <= (2 * q + 1) * d
    }
}

/// `n / d` rounded to the nearest integer, half-way values going away from
/// zero; `d` is positive.
pub open spec fn round_half_away(n: int, d: int) -> int {
    if n >= 0 {
        (2 * n + d) / (2 * d)
    } else {
        -((d - 2 * n) / (2 * d))
    }
}

/// `n / d` with the fractional part dropped, for a positive `d`.
pub open spec fn truncated(n: int, d: int) -> int {
    if n >= 0 {
        n / d
    } else {
        -((-n) / d)
    }
}

/// A ghost fraction `num / den`.
pub struct Fraction {
    pub num: int,
    pub den: int,
}

impl Fraction {
    /// The denominator is positive.
    pub open spec fn valid(self) -> bool {
        self.den > 0
    }

    /// The fraction is in lowest terms over a positive denominator.
    pub open spec fn lowest(self) -> bool {
        self.den > 0 && coprime(self.num, self.den)
    }

    /// The fraction has the value `n / d`.
    pub open spec fn is_ratio(self, n: int, d: int) -> bool {
        d != 0 && self.num * d == n * self.den
    }

    /// The difference `self - other`, over the product of the denominators.
    pub open spec fn minus(self, other: Fraction) -> Fraction {
        Fraction {
            num: self.num * other.den - other.num * self.den,
            den: self.den * other.den,
        }
    }

    /// Both fractions have the same value.
    pub open spec fn same(self, other: Fraction) -> bool {
        self.num * other.den == other.num * self.den
    }

    /// The value of `self` is below the value of `other`; both denominators
    /// are taken to be positive.
    pub open spec fn less(self, other: Fraction) -> bool {
        self.num * other.den < other.num * self.den
    }
}

/// A common divisor of `b` and `r` also divides `b * q + r`.
proof fn lemma_divides_combination(k: int, b: int, q: int, r: int)
    requires
        k > 0,
        divides(k, b),
        divides(k, r),
    ensures
        divides(k, b * q + r),
{
    lemma_fundamental_div_mod(b, k);
    lemma_fundamental_div_mod(r, k);
    let m = (b / k) * q + r / k;
    assert(b * q + r == m * k) by (nonlinear_arith)
        requires
            b == k * (b / k),
            r == k * (r / k),
            m == (b / k) * q + r / k,
    ;
    lemma_mod_multiples_basic(m, k);
}

/// Coprime integers have an integer combination equal to 1.
proof fn lemma_bezout(a: int, b: int) -> (c: (int, int))
    requires
        b > 0,
        coprime(a, b),
    ensures
        a * c.0 + b * c.1 == 1,
    decreases b,
{
    let q = a / b;
    let r = a % b;
    lemma_fundamental_div_mod(a, b);
    lemma_mod_bound(a, b);
    if r == 0 {
        if b > 1 {
            lemma_mod_self_0(b);
            assert(divides(b, a) && divides(b, b));
        }
        (0, 1)
    } else {
        assert forall|k: int| k > 1 implies !(#[trigger] divides(k, b) && divides(k, r)) by {
            if divides(k, b) && divides(k, r) {
                lemma_divides_combination(k, b, q, r);
                assert(divides(k, a) && divides(k, b));
            }
        }
        let (x, y) = lemma_bezout(b, r);
        assert(a * y + b * (x - q * y) == 1) by (nonlinear_arith)
            requires
                b * x + r * y == 1,
                a == b * q + r,
        ;
        (y, x - q * y)
    }
}

/// The denominator of a fraction in lowest terms divides the denominator of
/// every fraction of the same value.
pub proof fn lemma_lowest_divides(f: Fraction, n: int, d: int)
    requires
        f.lowest(),
        f.is_ratio(n, d),
    ensures
        divides(f.den, d),
{
    let (x, y) = lemma_bezout(f.num, f.den);
    let m = n * x + d * y;
    assert(d == m * f.den) by (nonlinear_arith)
        requires
            f.num * x + f.den * y == 1,
            f.num * d == n * f.den,
            m == n * x + d * y,
    ;
    lemma_mod_multiples_basic(m, f.den);
}

/// A fraction in lowest terms has the least positive denominator, and the
/// numerator of least magnitude, among the fractions of its value.
pub proof fn lemma_lowest_is_least(f: Fraction, n: int, d: int)
    requires
        f.lowest(),
        f.is_ratio(n, d),
        d > 0,
    ensures
        f.den <= d,
        magnitude(f.num) <= magnitude(n),
{
    lemma_lowest_divides(f, n, d);
    lemma_fundamental_div_mod(d, f.den);
    let m = d / f.den;
    assert(m >= 1 && f.den <= d) by (nonlinear_arith)
        requires
            d == f.den * m,
            d > 0,
            f.den > 0,
    ;
    assert(n == f.num * m) by (nonlinear_arith)
        requires
            f.num * d == n * f.den,
            d == f.den * m,
            f.den > 0,
    ;
    assert(magnitude(f.num) <= magnitude(n)) by (nonlinear_arith)
        requires
            n == f.num * m,
            m >= 1,
    ;
}

/// Two fractions in lowest terms with the same value are the same pair.
pub proof fn lemma_lowest_unique(f: Fraction, g: Fraction)
    requires
        f.lowest(),
        g.lowest(),
        f.same(g),
    ensures
        f == g,
{
    lemma_lowest_is_least(f, g.num, g.den);
    lemma_lowest_is_least(g, f.num, f.den);
    assert(f.num == g.num) by (nonlinear_arith)
        requires
            f.num * g.den == g.num * f.den,
            f.den == g.den,
            f.den > 0,
    ;
}

/// A fraction of the value `n1 / d1` has the value `n2 / d2` where the two
/// are equal.
pub proof fn lemma_ratio_rescale(f: Fraction, n1: int, d1: int, n2: int, d2: int)
    requires
        f.is_ratio(n1, d1),
        d2 != 0,
        n1 * d2 == n2 * d1,
    ensures
        f.is_ratio(n2, d2),
{
    assert(f.num * d2 == n2 * f.den) by (nonlinear_arith)
        requires
            f.num * d1 == n1 * f.den,
            n1 * d2 == n2 * d1,
            d1 != 0,
    ;
}

/// Fractions over positive denominators compare as their numerators do once
/// both are written over one positive denominator.
pub proof fn lemma_less_by_numerators(f: Fraction, g: Fraction, n1: int, n2: int, d: int)
    requires
        f.valid(),
        g.valid(),
        d > 0,
        f.is_ratio(n1, d),
        g.is_ratio(n2, d),
    ensures
        f.less(g) <==> n1 < n2,
        f.same(g) <==> n1 == n2,
{
    let lhs = f.num * g.den;
    let rhs = g.num * f.den;
    let scale = f.den * g.den;
    assert(lhs * d == n1 * scale && rhs * d == n2 * scale) by (nonlinear_arith)
        requires
            f.num * d == n1 * f.den,
            g.num * d == n2 * g.den,
            lhs == f.num * g.den,
            rhs == g.num * f.den,
            scale == f.den * g.den,
    ;
    assert(scale > 0) by (nonlinear_arith)
        requires
            scale == f.den * g.den,
            f.den > 0,
            g.den > 0,
    ;
    assert((lhs < rhs <==> n1 < n2) && (lhs == rhs <==> n1 == n2)) by (nonlinear_arith)
        requires
            lhs * d == n1 * scale,
            rhs * d == n2 * scale,
            d > 0,
            scale > 0,
    ;
}

/// Rounding depends on the value alone, not on how the fraction is written.
pub proof fn lemma_rounding_same_value(q: int, n1: int, d1: int, n2: int, d2: int)
    requires
        d1 > 0,
        d2 > 0,
        n1 * d2 == n2 * d1,
        is_rounding(q, n1, d1),
    ensures
        is_rounding(q, n2, d2),
{
    let low = 2 * q - 1;
    let high = 2 * q + 1;
    assert((n1 >= 0 <==> n2 >= 0) && (low * d1 <= 2 * n1 <==> low * d2 <= 2 * n2) && (low * d1 < 2
        * n1 <==> low * d2 < 2 * n2) && (2 * n1 < high * d1 <==> 2 * n2 < high * d2) && (2 * n1
        <= high * d1 <==> 2 * n2 <= high * d2)) by (nonlinear_arith)
        requires
            d1 > 0,
            d2 > 0,
            n1 * d2 == n2 * d1,
    ;
}

/// The formula gives the one integer that is the rounding.
pub proof fn lemma_rounding_formula(q: int, n: int, d: int)
    requires
        d > 0,
    ensures
        is_rounding(q, n, d) <==> q == round_half_away(n, d),
{
    let m = round_half_away(n, d);
    if n >= 0 {
        let x = 2 * n + d;
        lemma_fundamental_div_mod(x, 2 * d);
        lemma_mod_bound(x, 2 * d);
        assert(is_rounding(m, n, d)) by (nonlinear_arith)
            requires
                m == x / (2 * d),
                x == 2 * n + d,
                x == (2 * d) * (x / (2 * d)) + x % (2 * d),
                0 <= x % (2 * d) < 2 * d,
                n >= 0,
                d > 0,
        ;
        if is_rounding(q, n, d) {
            let r = x - q * (2 * d);
            assert(0 <= r < 2 * d && x == q * (2 * d) + r) by (nonlinear_arith)
                requires
                    (2 * q - 1) * d <= 2 * n < (2 * q + 1) * d,
                    x == 2 * n + d,
                    r == x - q * (2 * d),
            ;
            lemma_fundamental_div_mod_converse_div(x, 2 * d, q, r);
        }
    } else {
        let x = d - 2 * n;
        lemma_fundamental_div_mod(x, 2 * d);
        lemma_mod_bound(x, 2 * d);
        assert(is_rounding(m, n, d)) by (nonlinear_arith)
            requires
                m == -(x / (2 * d)),
                x == d - 2 * n,
                x == (2 * d) * (x / (2 * d)) + x % (2 * d),
                0 <= x % (2 * d) < 2 * d,
                n < 0,
                d > 0,
        ;
        if is_rounding(q, n, d) {
            let r = x + q * (2 * d);
            assert(0 <= r < 2 * d && x == (-q) * (2 * d) + r) by (nonlinear_arith)
                requires
                    (2 * q - 1) * d < 2 * n <= (2 * q + 1) * d,
                    x == d - 2 * n,
                    r == x + q * (2 * d),
            ;
            lemma_fundamental_div_mod_converse_div(x, 2 * d, -q, r);
        }
    }
}

/// A fraction whose value is an integer rounds to that integer.
pub proof fn lemma_rounding_of_integer(q: int, n: int, d: int)
    requires
        d > 0,
        n == q * d,
    ensures
        round_half_away(n, d) == q,
{
    assert(is_rounding(q, n, d)) by (nonlinear_arith)
        requires
            d > 0,
            n == q * d,
    ;
    lemma_rounding_formula(q, n, d);
}

/// An integer over 1 is in lowest terms.
pub proof fn lemma_integer_is_lowest(n: int)
    ensures
        (Fraction { num: n, den: 1 }).lowest(),
{
    assert forall|k: int| k > 1 implies !(#[trigger] divides(k, n) && divides(k, 1)) by {
        vstd::arithmetic::div_mod::lemma_small_mod(1, k as nat);
    }
}

} // verus!
