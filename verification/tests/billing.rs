use num_rational::Rational64;
use timesheet_billing::billing::{
    bill, BillingError, Report, MAX_LINES, MAX_LINE_SECONDS, MAX_RATE,
};
use timesheet_billing::rational::Rational;
use timesheet_billing::render::{deviation_text, line_text, total_hours_text, total_price_text};
use timesheet_billing::summary::Summary;

fn summary_of(lines: &[(&str, i64)]) -> Summary {
    let mut summary = Summary::new();
    for (description, seconds) in lines {
        assert!(summary.add(&description.to_string(), *seconds));
    }
    summary
}

fn ratio(r: Rational) -> Rational64 {
    Rational64::new(r.numer(), r.denom())
}

fn descriptions(report: &Report) -> Vec<String> {
    (0..report.len()).map(|i| report.line(i).description().clone()).collect()
}

#[test]
fn summary_adds_up_per_description() {
    let mut summary = Summary::new();
    assert!(summary.add(&"A".to_string(), 10));
    assert!(summary.add(&"B".to_string(), 20));
    assert!(summary.add(&"A".to_string(), 5));
    assert_eq!(summary.len(), 2);
    assert_eq!(summary.line(0).description(), "A");
    assert_eq!(summary.line(0).total_seconds(), 15);
    assert_eq!(summary.line(1).description(), "B");
    assert_eq!(summary.line(1).total_seconds(), 20);
    assert_eq!(summary.total_for(&"A".to_string()), Some(15));
    assert_eq!(summary.total_for(&"C".to_string()), None);
}

#[test]
fn summary_refuses_a_total_beyond_64_bits() {
    let mut summary = Summary::new();
    assert!(summary.add(&"A".to_string(), i64::MAX - 1));
    assert!(!summary.add(&"A".to_string(), 2));
    assert_eq!(summary.total_for(&"A".to_string()), Some(i64::MAX - 1));
    assert!(summary.add(&"A".to_string(), 1));
    assert_eq!(summary.total_for(&"A".to_string()), Some(i64::MAX));
}

#[test]
fn line_holds_exact_and_rounded_hours_and_price() {
    let report = bill(&summary_of(&[("C", 600)]), 80).unwrap();
    let line = report.line(0);
    assert_eq!(line.description(), "C");
    assert_eq!(line.total_seconds(), 600);
    assert_eq!(line.exact_hours(), Rational::new(1, 6));
    assert_eq!(line.rounded_hours(), Rational::new(17, 100));
    assert_eq!(line.price(), Rational::new(68, 5));
}

#[test]
fn half_a_hundredth_goes_up() {
    let report = bill(&summary_of(&[("A", 18)]), 200).unwrap();
    assert_eq!(report.line(0).exact_hours(), Rational::new(1, 200));
    assert_eq!(report.line(0).rounded_hours(), Rational::new(1, 100));
    assert_eq!(report.line(0).price(), Rational::new(2, 1));
    assert_eq!(report.deviation(), Rational::new(1, 1));
}

#[test]
fn less_than_half_a_hundredth_goes_down() {
    let report = bill(&summary_of(&[("A", 17)]), 3600).unwrap();
    assert_eq!(report.line(0).rounded_hours(), Rational::new(0, 1));
    assert_eq!(report.line(0).price(), Rational::new(0, 1));
    assert_eq!(report.deviation(), Rational::new(-17, 1));
}

#[test]
fn zero_seconds_cost_nothing() {
    let report = bill(&summary_of(&[("A", 0)]), 100).unwrap();
    assert_eq!(report.line(0).exact_hours(), Rational::new(0, 1));
    assert_eq!(report.line(0).rounded_hours(), Rational::new(0, 1));
    assert_eq!(report.total_price(), Rational::new(0, 1));
    assert_eq!(report.deviation(), Rational::new(0, 1));
}

#[test]
fn empty_summary_gives_an_empty_report() {
    let report = bill(&Summary::new(), 100).unwrap();
    assert_eq!(report.len(), 0);
    assert_eq!(report.total_hours(), Rational::new(0, 1));
    assert_eq!(report.total_price(), Rational::new(0, 1));
    assert_eq!(report.deviation(), Rational::new(0, 1));
}

#[test]
fn totals_add_the_rounded_hours_and_the_prices() {
    let report = bill(&summary_of(&[("A", 3600), ("B", 1800), ("C", 600)]), 80).unwrap();
    assert_eq!(report.total_hours(), Rational::new(167, 100));
    assert_eq!(report.total_price(), Rational::new(668, 5));
    assert_eq!(report.deviation(), Rational::new(4, 15));
}

#[test]
fn lines_are_ranked_by_hours_with_the_longest_first() {
    let report = bill(&summary_of(&[("B", 1800), ("C", 600), ("A", 3600), ("D", 7200)]), 1).unwrap();
    assert_eq!(descriptions(&report), vec!["D", "A", "B", "C"]);
}

#[test]
fn equal_hours_are_ranked_by_description_with_the_later_first() {
    let report = bill(&summary_of(&[("b", 60), ("a", 60), ("c", 60), ("B", 60), ("ab", 60)]), 1)
        .unwrap();
    assert_eq!(descriptions(&report), vec!["c", "b", "ab", "a", "B"]);
}

#[test]
fn equal_rounded_hours_are_ranked_by_exact_hours() {
    let report = bill(&summary_of(&[("z", 3600), ("a", 3601), ("m", 3599)]), 1).unwrap();
    assert_eq!(descriptions(&report), vec!["a", "z", "m"]);
    assert_eq!(report.line(0).rounded_hours(), Rational::new(1, 1));
    assert_eq!(report.line(2).rounded_hours(), Rational::new(1, 1));
}

#[test]
fn total_price_is_exact_price_plus_deviation() {
    let rate = 95;
    let lines = [("A", 3601), ("B", 1799), ("C", 611), ("D", 18), ("E", 54), ("F", 7_777_777)];
    let report = bill(&summary_of(&lines), rate).unwrap();
    let mut exact = Rational64::from_integer(0);
    let mut priced = Rational64::from_integer(0);
    let mut deviation = Rational64::from_integer(0);
    for i in 0..report.len() {
        let line = report.line(i);
        assert_eq!(ratio(line.exact_hours()), Rational64::new(line.total_seconds(), 3600));
        assert_eq!(ratio(line.price()), ratio(line.rounded_hours()) * rate);
        exact += ratio(line.exact_hours()) * rate;
        priced += ratio(line.price());
        deviation += (ratio(line.rounded_hours()) - ratio(line.exact_hours())) * rate;
    }
    assert_eq!(ratio(report.total_price()), priced);
    assert_eq!(ratio(report.deviation()), deviation);
    assert_eq!(ratio(report.total_price()), exact + ratio(report.deviation()));
    let bound = Rational64::new(rate * report.len() as i64, 200);
    assert!(ratio(report.deviation()) <= bound);
    assert!(ratio(report.deviation()) >= -bound);
}

#[test]
fn negative_rate_gives_negative_prices() {
    let report = bill(&summary_of(&[("A", 5400)]), -100).unwrap();
    assert_eq!(report.line(0).price(), Rational::new(-150, 1));
    assert_eq!(report.total_price(), Rational::new(-150, 1));
    assert_eq!(report.total_hours(), Rational::new(3, 2));
}

#[test]
fn rate_beyond_the_limit_is_refused() {
    let summary = summary_of(&[("A", 60)]);
    assert_eq!(bill(&summary, MAX_RATE + 1).err(), Some(BillingError::RateOutOfRange));
    assert_eq!(bill(&summary, -MAX_RATE - 1).err(), Some(BillingError::RateOutOfRange));
    assert_eq!(bill(&summary, i64::MIN).err(), Some(BillingError::RateOutOfRange));
    assert!(bill(&summary, MAX_RATE).is_ok());
    assert!(bill(&summary, -MAX_RATE).is_ok());
}

#[test]
fn line_beyond_the_limit_is_refused() {
    let summary = summary_of(&[("A", 60), ("B", MAX_LINE_SECONDS + 1)]);
    assert_eq!(bill(&summary, 100).err(), Some(BillingError::LineOutOfRange));
    let summary = summary_of(&[("A", 60), ("B", MAX_LINE_SECONDS)]);
    assert!(bill(&summary, 100).is_ok());
}

#[test]
fn rate_is_tested_before_the_lines() {
    let summary = summary_of(&[("A", MAX_LINE_SECONDS + 1)]);
    assert_eq!(bill(&summary, MAX_RATE + 1).err(), Some(BillingError::RateOutOfRange));
}

#[test]
fn too_many_lines_are_refused() {
    let mut summary = Summary::new();
    for i in 0..=MAX_LINES {
        assert!(summary.add(&format!("{}", i), 60));
    }
    assert_eq!(bill(&summary, 100).err(), Some(BillingError::TooManyLines));
}

#[test]
fn report_at_every_limit_stays_within_64_bits() {
    let mut summary = Summary::new();
    for i in 0..MAX_LINES {
        let seconds = MAX_LINE_SECONDS - (MAX_LINES - 1 - i) as i64 * 36;
        assert!(summary.add(&format!("{}", i), seconds));
    }
    let report = bill(&summary, MAX_RATE).unwrap();
    assert_eq!(report.len(), MAX_LINES);
    assert_eq!(report.line(0).total_seconds(), MAX_LINE_SECONDS);
    let mut hundredths: i64 = 0;
    for i in 0..report.len() {
        hundredths += (report.line(i).total_seconds() + 18) / 36;
    }
    assert_eq!(ratio(report.total_hours()), Rational64::new(hundredths, 100));
    assert_eq!(ratio(report.total_price()), Rational64::new(hundredths, 100) * MAX_RATE);
    let negative = bill(&summary, -MAX_RATE).unwrap();
    assert_eq!(ratio(negative.total_price()), Rational64::new(hundredths, 100) * -MAX_RATE);
    assert_eq!(ratio(negative.deviation()), -ratio(report.deviation()));
}

#[test]
fn report_keeps_its_rate() {
    assert_eq!(bill(&summary_of(&[("A", 60)]), 95).unwrap().rate(), 95);
}

#[test]
fn line_text_shows_rank_description_and_rounded_hours() {
    let report = bill(&summary_of(&[("Design", 5400), ("Review", 600), ("Calls", 36000)]), 80)
        .unwrap();
    assert_eq!(line_text(&report, 0), "1: Calls (10.00 hrs)");
    assert_eq!(line_text(&report, 1), "2: Design (1.50 hrs)");
    assert_eq!(line_text(&report, 2), "3: Review (0.17 hrs)");
}

#[test]
fn line_text_counts_ranks_beyond_nine() {
    let mut summary = Summary::new();
    for i in 0..12 {
        assert!(summary.add(&format!("task {:02}", i), 3600 * (20 - i)));
    }
    let report = bill(&summary, 1).unwrap();
    assert_eq!(line_text(&report, 8), "9: task 08 (12.00 hrs)");
    assert_eq!(line_text(&report, 9), "10: task 09 (11.00 hrs)");
    assert_eq!(line_text(&report, 11), "12: task 11 (9.00 hrs)");
}

#[test]
fn totals_are_shown_with_two_decimals() {
    let report = bill(&summary_of(&[("A", 3600), ("B", 1800), ("C", 600)]), 80).unwrap();
    assert_eq!(total_hours_text(&report), "1.67");
    assert_eq!(total_price_text(&report), "133.60");
    assert_eq!(deviation_text(&report), "0.27");
}

#[test]
fn negative_deviation_is_shown_with_its_sign() {
    let report = bill(&summary_of(&[("A", 17)]), 100).unwrap();
    assert_eq!(report.deviation(), Rational::new(-17, 36));
    assert_eq!(deviation_text(&report), "-0.47");
    assert_eq!(total_price_text(&report), "0.00");
}

#[test]
fn totals_of_an_empty_report_are_zero() {
    let report = bill(&Summary::new(), 80).unwrap();
    assert_eq!(total_hours_text(&report), "0.00");
    assert_eq!(total_price_text(&report), "0.00");
    assert_eq!(deviation_text(&report), "0.00");
}

#[test]
fn descriptions_are_ordered_by_code_point() {
    let names = ["z", "\u{e9}", "Z", "\u{20ac}", "\u{1d11e}", "zz", "\u{e9}a", ""];
    let lines: Vec<(&str, i64)> = names.iter().map(|name| (*name, 60)).collect();
    let report = bill(&summary_of(&lines), 1).unwrap();
    assert_eq!(
        descriptions(&report),
        vec!["\u{1d11e}", "\u{20ac}", "\u{e9}a", "\u{e9}", "zz", "z", "Z", ""]
    );
}

#[test]
fn hundredths_round_half_up_for_many_seconds() {
    for seconds in 0..=4000i64 {
        let report = bill(&summary_of(&[("A", seconds)]), 7).unwrap();
        let hundredths = (seconds + 18) / 36;
        let line = report.line(0);
        assert_eq!(ratio(line.exact_hours()), Rational64::new(seconds, 3600));
        assert_eq!(ratio(line.rounded_hours()), Rational64::new(hundredths, 100));
        assert_eq!(ratio(line.price()), Rational64::new(7 * hundredths, 100));
        assert_eq!(ratio(report.deviation()), Rational64::new(7 * (36 * hundredths - seconds), 3600));
    }
}
