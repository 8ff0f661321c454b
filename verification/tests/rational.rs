use timesheet_billing::display::{hundredths_to_string, ratio_to_string};
use timesheet_billing::rational::Rational;

fn pair(r: Rational) -> (i64, i64) {
    (r.numer(), r.denom())
}

#[test]
fn new_reduces_to_lowest_terms() {
    assert_eq!(pair(Rational::new(6, 4)), (3, 2));
    assert_eq!(pair(Rational::new(5400, 3600)), (3, 2));
    assert_eq!(pair(Rational::new(0, 3600)), (0, 1));
    assert_eq!(pair(Rational::new(7, 7)), (1, 1));
}

#[test]
fn new_keeps_the_denominator_positive() {
    assert_eq!(pair(Rational::new(3, -6)), (-1, 2));
    assert_eq!(pair(Rational::new(-3, -6)), (1, 2));
}

#[test]
fn from_integer_is_over_one() {
    assert_eq!(pair(Rational::from_integer(7)), (7, 1));
    assert_eq!(pair(Rational::from_integer(-100)), (-100, 1));
    assert_eq!(Rational::from_integer(3), Rational::new(6, 2));
}

#[test]
fn to_integer_drops_the_fraction_towards_zero() {
    assert_eq!(Rational::new(7, 2).to_integer(), 3);
    assert_eq!(Rational::new(-7, 2).to_integer(), -3);
    assert_eq!(Rational::new(1, 3).to_integer(), 0);
    assert_eq!(Rational::new(12, 4).to_integer(), 3);
}

#[test]
fn round_goes_to_the_nearest_integer() {
    assert_eq!(pair(Rational::new(7, 3).round()), (2, 1));
    assert_eq!(pair(Rational::new(8, 3).round()), (3, 1));
    assert_eq!(pair(Rational::new(-7, 3).round()), (-2, 1));
    assert_eq!(pair(Rational::new(4, 1).round()), (4, 1));
}

#[test]
fn round_takes_a_half_away_from_zero() {
    assert_eq!(pair(Rational::new(5, 2).round()), (3, 1));
    assert_eq!(pair(Rational::new(1, 2).round()), (1, 1));
    assert_eq!(pair(Rational::new(-5, 2).round()), (-3, 1));
    assert_eq!(pair(Rational::new(-1, 2).round()), (-1, 1));
}

#[test]
fn lt_compares_values() {
    let third = Rational::new(1, 3);
    let half = Rational::new(1, 2);
    assert!(third.lt(&half));
    assert!(!half.lt(&third));
    assert!(!half.lt(&half));
    assert!(Rational::new(-1, 2).lt(&third));
    assert!(Rational::new(149, 100).lt(&Rational::new(3, 2)));
}

#[test]
fn ratio_to_string_pads_two_decimals() {
    assert_eq!(ratio_to_string(&Rational::new(3, 2)), "1.50");
    assert_eq!(ratio_to_string(&Rational::new(150, 1)), "150.00");
    assert_eq!(ratio_to_string(&Rational::new(1, 20)), "0.05");
    assert_eq!(ratio_to_string(&Rational::new(0, 1)), "0.00");
    assert_eq!(ratio_to_string(&Rational::new(1234567, 100)), "12345.67");
}

#[test]
fn ratio_to_string_rounds_to_the_nearest_hundredth() {
    assert_eq!(ratio_to_string(&Rational::new(1, 3)), "0.33");
    assert_eq!(ratio_to_string(&Rational::new(2, 3)), "0.67");
    assert_eq!(ratio_to_string(&Rational::new(1, 200)), "0.01");
    assert_eq!(ratio_to_string(&Rational::new(1999, 1000)), "2.00");
}

#[test]
fn ratio_to_string_writes_the_sign_once() {
    assert_eq!(ratio_to_string(&Rational::new(-1, 4)), "-0.25");
    assert_eq!(ratio_to_string(&Rational::new(-5, 2)), "-2.50");
    assert_eq!(ratio_to_string(&Rational::new(-1, 200)), "-0.01");
}

#[test]
fn hundredths_to_string_splits_whole_and_fraction() {
    assert_eq!(hundredths_to_string(0), "0.00");
    assert_eq!(hundredths_to_string(7), "0.07");
    assert_eq!(hundredths_to_string(70), "0.70");
    assert_eq!(hundredths_to_string(100), "1.00");
    assert_eq!(hundredths_to_string(-12345), "-123.45");
    assert_eq!(hundredths_to_string(i64::MAX), "92233720368547758.07");
}

#[test]
fn new_gives_the_value_in_lowest_terms_for_many_pairs() {
    for n in -60i64..=60 {
        for d in (-12i64..=12).filter(|d| *d != 0) {
            let r = Rational::new(n, d);
            assert!(r.denom() > 0);
            assert_eq!(r.numer() * d, n * r.denom());
            for k in 2..=60 {
                assert!(r.numer() % k != 0 || r.denom() % k != 0);
            }
        }
    }
}

#[test]
fn round_is_within_a_half_for_many_pairs() {
    for n in -300i64..=300 {
        for d in 1i64..=24 {
            let q = Rational::new(n, d).round();
            assert_eq!(q.denom(), 1);
            let q = q.numer();
            if n >= 0 {
                assert!((2 * q - 1) * d <= 2 * n && 2 * n < (2 * q + 1) * d);
            } else {
                assert!((2 * q - 1) * d < 2 * n && 2 * n <= (2 * q + 1) * d);
            }
        }
    }
}

#[test]
fn to_integer_truncates_for_many_pairs() {
    for n in -300i64..=300 {
        for d in 1i64..=24 {
            let expected = if n >= 0 { n / d } else { -((-n) / d) };
            assert_eq!(Rational::new(n, d).to_integer(), expected);
        }
    }
}

#[test]
fn lt_agrees_with_cross_multiplication_for_many_pairs() {
    for a in -20i64..=20 {
        for b in 1i64..=9 {
            for c in -20i64..=20 {
                for d in 1i64..=9 {
                    let (left, right) = (Rational::new(a, b), Rational::new(c, d));
                    assert_eq!(left.lt(&right), a * d < c * b);
                    assert_eq!(left == right, a * d == c * b);
                }
            }
        }
    }
}

#[test]
fn arithmetic_holds_at_the_ends_of_64_bits() {
    assert_eq!(pair(Rational::new(i64::MAX, 1)), (i64::MAX, 1));
    assert_eq!(pair(Rational::new(-i64::MAX, 1)), (-i64::MAX, 1));
    assert_eq!(pair(Rational::new(-i64::MAX, -i64::MAX)), (1, 1));
    assert_eq!(pair(Rational::new(i64::MAX, -1)), (-i64::MAX, 1));
    assert_eq!(pair(Rational::new(i64::MAX, 1).round()), (i64::MAX, 1));
    assert_eq!(pair(Rational::new(-i64::MAX, 1).round()), (-i64::MAX, 1));
    assert_eq!(pair(Rational::new(i64::MAX, 2).round()), (i64::MAX / 2 + 1, 1));
    assert_eq!(pair(Rational::new(-i64::MAX, 2).round()), (-(i64::MAX / 2) - 1, 1));
    assert_eq!(Rational::new(-i64::MAX, 1).to_integer(), -i64::MAX);
    assert!(Rational::new(-i64::MAX, 1).lt(&Rational::new(i64::MAX, 1)));
    assert!(Rational::new(i64::MAX - 1, i64::MAX).lt(&Rational::new(1, 1)));
    assert!(Rational::new(1, i64::MAX).lt(&Rational::new(1, i64::MAX - 1)));
}
