//! The text of a report: one line per billing line, and the totals.

use vstd::prelude::*;
use vstd::string::StringExecFns;
use crate::billing::{
    hundredths, lemma_hundredths_bounds, lemma_sum_bounds, priced, sum_excess, sum_hundredths,
    BillingLineModel, Report, MAX_LINES, MAX_LINE_SECONDS, MAX_RATE,
};
use crate::display::{decimal, push_decimal, ratio_to_string, two_decimals};
use crate::fraction::{
    lemma_lowest_is_least, lemma_rounding_formula, lemma_rounding_of_integer,
    lemma_rounding_same_value, magnitude, round_half_away,
};

verus! {

/// The text of the line of rank `rank`, counted from one: the rank, the
/// description, and the rounded hours with two decimal places.
pub open spec fn line_text_of(rank: int, line: BillingLineModel) -> Seq<char> {
    decimal(rank) + ": "@ + line.description + " ("@ + two_decimals(hundredths(line.seconds))
        + " hrs)"@
}

/// The text of the line at `index` of the report.
pub fn line_text(report: &Report, index: usize) -> (text: String)
    requires
        report.wf(),
        index < report@.lines.len(),
    ensures
        text@ == line_text_of(index + 1, report@.lines[index as int]),
{
    proof {
        report.lemma_totals();
    }
    let line = report.line(index);
    let hours = line.rounded_hours();
    proof {
        line.lemma_hours();
        let h = hundredths(line@.seconds);
        lemma_hundredths_bounds(line@.seconds);
        lemma_lowest_is_least(hours@, h, 100);
        lemma_rounding_of_integer(h, hours@.num * 100, hours@.den);
    }
    let mut text = String::new();
    push_decimal(&mut text, (index + 1) as i64);
    text.append(": ");
    text.append(line.description().as_str());
    text.append(" (");
    text.append(ratio_to_string(&hours).as_str());
    text.append(" hrs)");
    text
}

/// The sum of the rounded hours with two decimal places.
pub fn total_hours_text(report: &Report) -> (text: String)
    requires
        report.wf(),
    ensures
        text@ == two_decimals(sum_hundredths(report@.lines)),
{
    let hours = report.total_hours();
    proof {
        report.lemma_totals();
        let sum = sum_hundredths(report@.lines);
        lemma_report_sums(report@.lines, report@.rate);
        lemma_lowest_is_least(hours@, sum, 100);
        lemma_rounding_of_integer(sum, hours@.num * 100, hours@.den);
    }
    ratio_to_string(&hours)
}

/// The sum of the prices with two decimal places.
pub fn total_price_text(report: &Report) -> (text: String)
    requires
        report.wf(),
    ensures
        text@ == two_decimals(report@.rate * sum_hundredths(report@.lines)),
{
    let price = report.total_price();
    proof {
        report.lemma_totals();
        let sum = report@.rate * sum_hundredths(report@.lines);
        lemma_report_sums(report@.lines, report@.rate);
        lemma_lowest_is_least(price@, sum, 100);
        lemma_rounding_of_integer(sum, price@.num * 100, price@.den);
    }
    ratio_to_string(&price)
}

/// The rounding deviation with two decimal places, rounded to the nearest
/// hundredth, a half going away from zero.
pub fn deviation_text(report: &Report) -> (text: String)
    requires
        report.wf(),
    ensures
        text@ == two_decimals(
            round_half_away(report@.rate * sum_excess(report@.lines) * 100, 3600),
        ),
{
    let deviation = report.deviation();
    proof {
        report.lemma_totals();
        let sum = report@.rate * sum_excess(report@.lines);
        lemma_report_sums(report@.lines, report@.rate);
        lemma_lowest_is_least(deviation@, sum, 3600);
        let shown = round_half_away(deviation@.num * 100, deviation@.den);
        lemma_rounding_formula(shown, deviation@.num * 100, deviation@.den);
        assert((deviation@.num * 100) * 3600 == (sum * 100) * deviation@.den) by (nonlinear_arith)
            requires
                deviation@.num * 3600 == sum * deviation@.den,
        ;
        lemma_rounding_same_value(
            shown,
            deviation@.num * 100,
            deviation@.den,
            sum * 100,
            3600,
        );
        lemma_rounding_formula(shown, sum * 100, 3600);
    }
    ratio_to_string(&deviation)
}

/// The sums of a report within the limits are far from the ends of 64 bits.
proof fn lemma_report_sums(lines: Seq<BillingLineModel>, rate: int)
    requires
        lines.len() <= MAX_LINES,
        magnitude(rate) <= MAX_RATE,
        forall|k: int|
            0 <= k < lines.len() ==> priced(#[trigger] lines[k], rate) && lines[k].seconds
                <= MAX_LINE_SECONDS,
    ensures
        0 <= sum_hundredths(lines) <= 8_333_340_000,
        magnitude(rate * sum_hundredths(lines)) <= 83_333_400_000_000_000,
        magnitude(rate * sum_excess(lines)) <= 1_800_000_000_000,
{
    assert forall|k: int| 0 <= k < lines.len() implies 0 <= (#[trigger] lines[k]).seconds by {
        assert(priced(lines[k], rate));
    }
    lemma_sum_bounds(lines);
    let (h, e) = (sum_hundredths(lines), sum_excess(lines));
    assert(magnitude(rate * h) <= 83_333_400_000_000_000 && magnitude(rate * e)
        <= 1_800_000_000_000) by (nonlinear_arith)
        requires
            -10_000_000 <= rate <= 10_000_000,
            0 <= h <= 8_333_340_000,
            -180_000 <= e <= 180_000,
            magnitude(rate * h) == if rate * h < 0 {
                -(rate * h)
            } else {
                rate * h
            },
            magnitude(rate * e) == if rate * e < 0 {
                -(rate * e)
            } else {
                rate * e
            },
    ;
}

} // verus!
