//! The billing rounder: from total seconds per description to ranked and
//! priced lines, their totals, and the rounding deviation.
//!
//! Hours are exact fractions throughout. Rounding happens once per line, on
//! the hours, to a hundredth of an hour.

use vstd::prelude::*;
use crate::fraction::{
    lemma_less_by_numerators, lemma_lowest_is_least, lemma_ratio_rescale, lemma_rounding_formula,
    lemma_rounding_same_value, magnitude, round_half_away, Fraction,
};
use crate::rational::{
    ratio_add, ratio_div_int, ratio_lt, ratio_mul, ratio_mul_int, ratio_new, ratio_sub, Rational,
};
use crate::summary::{
    has_line, lemma_push_totals, lines_wf, totals_of, LineModel, Summary, SummaryLine,
};
use crate::text::{lemma_text_less_total, lemma_text_less_transitive, text_less, text_lt};

verus! {

/// The most seconds that one line may hold for its arithmetic to stay within
/// 64 bits.
pub const MAX_LINE_SECONDS: i64 = 30_000_000;

/// The most lines that one report may hold.
pub const MAX_LINES: usize = 10_000;

/// The largest magnitude of an hourly rate.
pub const MAX_RATE: i64 = 10_000_000;

/// The hours of `seconds` in hundredths, rounded to the nearest hundredth,
/// a half going up.
pub open spec fn hundredths(seconds: int) -> int {
    round_half_away(seconds * 100, 3600)
}

/// By how much the rounded hours of `seconds` exceed the exact hours, in
/// 3600ths of an hour.
pub open spec fn excess(seconds: int) -> int {
    36 * hundredths(seconds) - seconds
}

/// The mathematical content of a billing line.
pub struct BillingLineModel {
    pub description: Seq<char>,
    pub seconds: int,
    pub exact_hours: Fraction,
    pub rounded_hours: Fraction,
    pub price: Fraction,
}

/// The line's figures are those of its seconds at `rate`: the exact hours,
/// the hours rounded to a hundredth, and the rounded hours times the rate,
/// each in lowest terms.
pub open spec fn priced(line: BillingLineModel, rate: int) -> bool {
    &&& line.seconds >= 0
    &&& line.exact_hours.lowest()
    &&& line.exact_hours.is_ratio(line.seconds, 3600)
    &&& line.rounded_hours.lowest()
    &&& line.rounded_hours.is_ratio(hundredths(line.seconds), 100)
    &&& line.price.lowest()
    &&& line.price.is_ratio(rate * hundredths(line.seconds), 100)
}

/// One line of the invoice.
#[derive(Clone, Debug)]
pub struct BillingLine {
    description: String,
    total_seconds: i64,
    exact_hours: Rational,
    rounded_hours: Rational,
    price: Rational,
}

impl View for BillingLine {
    type V = BillingLineModel;

    closed spec fn view(&self) -> BillingLineModel {
        BillingLineModel {
            description: self.description@,
            seconds: self.total_seconds as int,
            exact_hours: self.exact_hours@,
            rounded_hours: self.rounded_hours@,
            price: self.price@,
        }
    }
}

impl BillingLine {
    /// The three fractions are well-formed, the seconds are within the limit
    /// of a line, and the hours are those of the seconds.
    pub closed spec fn wf(&self) -> bool {
        &&& self.exact_hours.wf()
        &&& self.rounded_hours.wf()
        &&& self.price.wf()
        &&& 0 <= self.total_seconds <= MAX_LINE_SECONDS
        &&& self.exact_hours@.is_ratio(self.total_seconds as int, 3600)
        &&& self.rounded_hours@.is_ratio(hundredths(self.total_seconds as int), 100)
    }

    /// What holds of the hours of a well-formed line.
    pub proof fn lemma_hours(&self)
        requires
            self.wf(),
        ensures
            0 <= self@.seconds <= MAX_LINE_SECONDS,
            self@.exact_hours.lowest(),
            self@.exact_hours.is_ratio(self@.seconds, 3600),
            self@.rounded_hours.lowest(),
            self@.rounded_hours.is_ratio(hundredths(self@.seconds), 100),
    {
    }

    /// The description of the line.
    pub fn description(&self) -> (description: &String)
        ensures
            description@ == self@.description,
    {
        &self.description
    }

    /// The seconds that the line stands for.
    pub fn total_seconds(&self) -> (seconds: i64)
        ensures
            seconds == self@.seconds,
    {
        self.total_seconds
    }

    /// The hours of the line, exactly.
    pub fn exact_hours(&self) -> (hours: Rational)
        requires
            self.wf(),
        ensures
            hours.wf(),
            hours@ == self@.exact_hours,
    {
        self.exact_hours
    }

    /// The hours of the line, rounded to a hundredth.
    pub fn rounded_hours(&self) -> (hours: Rational)
        requires
            self.wf(),
        ensures
            hours.wf(),
            hours@ == self@.rounded_hours,
    {
        self.rounded_hours
    }

    /// The price of the line: the rounded hours times the rate.
    pub fn price(&self) -> (price: Rational)
        requires
            self.wf(),
        ensures
            price.wf(),
            price@ == self@.price,
    {
        self.price
    }
}

/// The hundredths of an hour of `seconds` are the rounding of
/// `seconds / 36`, and lie within half a hundredth of the exact hours.
pub proof fn lemma_hundredths_bounds(seconds: int)
    requires
        seconds >= 0,
    ensures
        hundredths(seconds) == (seconds + 18) / 36,
        0 <= hundredths(seconds) <= seconds / 36 + 1,
        -18 < excess(seconds) <= 18,
{
    let h = hundredths(seconds);
    lemma_rounding_formula(h, seconds * 100, 3600);
    lemma_rounding_same_value(h, seconds * 100, 3600, seconds, 36);
    lemma_rounding_formula(h, seconds, 36);
}

/// The product of two bounded integers is bounded by the product of the
/// bounds.
proof fn lemma_product_bound(a: int, b: int, bound_a: int, bound_b: int)
    requires
        magnitude(a) <= bound_a,
        magnitude(b) <= bound_b,
    ensures
        magnitude(a * b) <= bound_a * bound_b,
{
    assert(magnitude(a * b) <= bound_a * bound_b) by (nonlinear_arith)
        requires
            -bound_a <= a <= bound_a,
            -bound_b <= b <= bound_b,
            magnitude(a * b) == if a * b < 0 {
                -(a * b)
            } else {
                a * b
            },
    ;
}

/// The bounds under which two fractions can be added within 64 bits, from
/// bounds on their numerators and denominators.
proof fn lemma_sum_fits(a: Fraction, b: Fraction, num_a: int, den_a: int, num_b: int, den_b: int)
    requires
        magnitude(a.num) <= num_a,
        0 < a.den <= den_a,
        magnitude(b.num) <= num_b,
        0 < b.den <= den_b,
    ensures
        a.den * b.den <= den_a * den_b,
        magnitude(a.num) * b.den + magnitude(b.num) * a.den <= num_a * den_b + num_b * den_a,
{
    assert(a.den * b.den <= den_a * den_b) by (nonlinear_arith)
        requires
            0 < a.den <= den_a,
            0 < b.den <= den_b,
    ;
    assert(magnitude(a.num) * b.den <= num_a * den_b) by (nonlinear_arith)
        requires
            0 <= magnitude(a.num) <= num_a,
            0 < b.den <= den_b,
    ;
    assert(magnitude(b.num) * a.den <= num_b * den_a) by (nonlinear_arith)
        requires
            0 <= magnitude(b.num) <= num_b,
            0 < a.den <= den_a,
    ;
}

/// The billing line of a summary line at `rate`.
pub fn price_line(line: &SummaryLine, rate: i64) -> (billed: BillingLine)
    requires
        0 <= line@.seconds <= MAX_LINE_SECONDS,
        magnitude(rate as int) <= MAX_RATE,
    ensures
        billed.wf(),
        billed@.description == line@.description,
        billed@.seconds == line@.seconds,
        priced(billed@, rate as int),
{
    let seconds: i64 = line.total_seconds();
    let ghost h = hundredths(seconds as int);
    proof {
        lemma_hundredths_bounds(seconds as int);
    }
    let exact = ratio_new(seconds, 3600);
    proof {
        lemma_lowest_is_least(exact@, seconds as int, 3600);
    }
    let scaled = ratio_mul_int(&exact, 100);
    proof {
        assert((exact@.num * 100) * 3600 == (seconds * 100) * exact@.den) by (nonlinear_arith)
            requires
                exact@.num * 3600 == seconds * exact@.den,
        ;
        lemma_ratio_rescale(scaled@, exact@.num * 100, exact@.den, seconds * 100, 3600);
    }
    let whole = scaled.round();
    proof {
        lemma_rounding_same_value(whole@.num, scaled@.num, scaled@.den, seconds * 100, 3600);
        lemma_rounding_formula(whole@.num, seconds * 100, 3600);
        assert(whole@.num == h);
    }
    let rounded = ratio_div_int(&whole, 100);
    proof {
        lemma_lowest_is_least(rounded@, h, 100);
    }
    let hourly = Rational::from_integer(rate);
    proof {
        lemma_product_bound(rate as int, rounded@.num, MAX_RATE as int, 833_334);
    }
    let price = ratio_mul(&hourly, &rounded);
    proof {
        assert((rate * rounded@.num) * 100 == (rate * h) * rounded@.den) by (nonlinear_arith)
            requires
                rounded@.num * 100 == h * rounded@.den,
        ;
        lemma_ratio_rescale(price@, rate * rounded@.num, rounded@.den, rate * h, 100);
    }
    BillingLine {
        description: line.description().clone(),
        total_seconds: seconds,
        exact_hours: exact,
        rounded_hours: rounded,
        price,
    }
}

/// `a` stands before `b` in the report: more exact hours first, then more
/// rounded hours, then the description that comes later in the order of
/// texts.
pub open spec fn ranks_before(a: BillingLineModel, b: BillingLineModel) -> bool {
    ||| b.exact_hours.less(a.exact_hours)
    ||| {
        &&& a.exact_hours.same(b.exact_hours)
        &&& {
            ||| b.rounded_hours.less(a.rounded_hours)
            ||| {
                &&& a.rounded_hours.same(b.rounded_hours)
                &&& text_less(b.description, a.description)
            }
        }
    }
}

/// The order of [`ranks_before`] read off the seconds: more seconds first,
/// and among equal seconds the later description.
pub open spec fn ranks_by_seconds(a: BillingLineModel, b: BillingLineModel) -> bool {
    a.seconds > b.seconds || (a.seconds == b.seconds && text_less(b.description, a.description))
}

/// Priced lines rank as their seconds and descriptions do.
pub proof fn lemma_rank_by_seconds(a: BillingLineModel, b: BillingLineModel, rate: int)
    requires
        priced(a, rate),
        priced(b, rate),
    ensures
        ranks_before(a, b) == ranks_by_seconds(a, b),
{
    lemma_less_by_numerators(b.exact_hours, a.exact_hours, b.seconds, a.seconds, 3600);
    lemma_less_by_numerators(
        b.rounded_hours,
        a.rounded_hours,
        hundredths(b.seconds),
        hundredths(a.seconds),
        100,
    );
    assert(a.exact_hours.same(b.exact_hours) == b.exact_hours.same(a.exact_hours));
    assert(a.rounded_hours.same(b.rounded_hours) == b.rounded_hours.same(a.rounded_hours));
    if b.seconds < a.seconds {
    } else if a.seconds == b.seconds {
    } else {
    }
}

/// The models of a vector of lines.
pub open spec fn models(lines: Seq<BillingLine>) -> Seq<BillingLineModel> {
    lines.map_values(|line: BillingLine| line@)
}

/// Every line is well-formed and priced at `rate`.
pub open spec fn all_priced(lines: Seq<BillingLine>, rate: int) -> bool {
    forall|k: int| 0 <= k < lines.len() ==> (#[trigger] lines[k]).wf() && priced(lines[k]@, rate)
}

/// Each line ranks before every later one.
pub open spec fn ranked(lines: Seq<BillingLineModel>) -> bool {
    forall|i: int, j: int| 0 <= i < j < lines.len() ==> ranks_before(lines[i], lines[j])
}

/// Some line carries `description`.
pub open spec fn has_billing_line(lines: Seq<BillingLineModel>, description: Seq<char>) -> bool {
    exists|k: int| 0 <= k < lines.len() && (#[trigger] lines[k]).description == description
}

/// Whether `a` stands before `b` in the report.
fn outranks(a: &BillingLine, b: &BillingLine) -> (before: bool)
    requires
        a.wf(),
        b.wf(),
    ensures
        before == ranks_before(a@, b@),
{
    if ratio_lt(&b.exact_hours, &a.exact_hours) {
        true
    } else if ratio_lt(&a.exact_hours, &b.exact_hours) {
        false
    } else if ratio_lt(&b.rounded_hours, &a.rounded_hours) {
        true
    } else if ratio_lt(&a.rounded_hours, &b.rounded_hours) {
        false
    } else {
        text_lt(b.description.as_str(), a.description.as_str())
    }
}

/// Puts `line` into the ranked `lines` at its rank and returns the index.
fn insert_ranked(lines: &mut Vec<BillingLine>, line: BillingLine, Ghost(rate): Ghost<int>) -> (at:
    usize)
    requires
        all_priced(old(lines)@, rate),
        ranked(models(old(lines)@)),
        line.wf(),
        priced(line@, rate),
        !has_billing_line(models(old(lines)@), line@.description),
    ensures
        at <= old(lines)@.len(),
        final(lines)@ == old(lines)@.insert(at as int, line),
        all_priced(final(lines)@, rate),
        ranked(models(final(lines)@)),
{
    let ghost before = models(lines@);
    let mut at: usize = 0;
    while at < lines.len() && outranks(&lines[at], &line)
        invariant
            at <= lines.len(),
            lines@ == old(lines)@,
            before == models(lines@),
            all_priced(lines@, rate),
            line.wf(),
            forall|k: int| 0 <= k < at ==> ranks_before(#[trigger] before[k], line@),
        decreases lines.len() - at,
    {
        at += 1;
    }
    proof {
        let after = before.insert(at as int, line@);
        assert forall|i: int, j: int| 0 <= i < j < after.len() implies ranks_before(
            after[i],
            after[j],
        ) by {
            if j < at {
                assert(ranks_before(before[i], before[j]));
            } else if j == at {
                assert(ranks_before(before[i], line@));
            } else if i > at {
                assert(ranks_before(before[i - 1], before[j - 1]));
            } else {
                let pivot = before[at as int];
                let target = before[j - 1];
                assert(lines@[at as int].wf() && priced(pivot, rate));
                assert(lines@[j - 1].wf() && priced(target, rate));
                lemma_rank_by_seconds(pivot, line@, rate);
                lemma_rank_by_seconds(line@, pivot, rate);
                lemma_rank_by_seconds(line@, target, rate);
                assert(pivot.description != line@.description);
                lemma_text_less_total(pivot.description, line@.description);
                assert(ranks_by_seconds(line@, pivot));
                if j - 1 > at {
                    assert(ranks_before(pivot, target));
                    lemma_rank_by_seconds(pivot, target, rate);
                    if line@.seconds == pivot.seconds && pivot.seconds == target.seconds {
                        lemma_text_less_transitive(
                            target.description,
                            pivot.description,
                            line@.description,
                        );
                    }
                }
                if i < at {
                    assert(ranks_before(before[i], line@));
                    assert(lines@[i].wf() && priced(before[i], rate));
                    lemma_rank_by_seconds(before[i], line@, rate);
                    lemma_rank_by_seconds(before[i], target, rate);
                    if before[i].seconds == line@.seconds && line@.seconds == target.seconds {
                        lemma_text_less_transitive(
                            target.description,
                            line@.description,
                            before[i].description,
                        );
                    }
                }
            }
        }
    }
    lines.insert(at, line);
    proof {
        assert(models(lines@) =~= before.insert(at as int, line@));
        assert forall|k: int| 0 <= k < lines@.len() implies (#[trigger] lines@[k]).wf() && priced(
            lines@[k]@,
            rate,
        ) by {
            if k < at {
                assert(old(lines)@[k].wf());
            } else if k > at {
                assert(old(lines)@[k - 1].wf());
            }
        }
    }
    at
}

/// The hundredths of an hour of all lines together.
pub open spec fn sum_hundredths(lines: Seq<BillingLineModel>) -> int
    decreases lines.len(),
{
    if lines.len() == 0 {
        0
    } else {
        sum_hundredths(lines.drop_last()) + hundredths(lines.last().seconds)
    }
}

/// The seconds of all lines together.
pub open spec fn sum_seconds(lines: Seq<BillingLineModel>) -> int
    decreases lines.len(),
{
    if lines.len() == 0 {
        0
    } else {
        sum_seconds(lines.drop_last()) + lines.last().seconds
    }
}

/// The excess of all lines together: see [`excess`].
pub open spec fn sum_excess(lines: Seq<BillingLineModel>) -> int
    decreases lines.len(),
{
    if lines.len() == 0 {
        0
    } else {
        sum_excess(lines.drop_last()) + excess(lines.last().seconds)
    }
}

/// The mathematical content of a report.
pub struct ReportModel {
    pub rate: int,
    pub lines: Seq<BillingLineModel>,
    pub total_hours: Fraction,
    pub total_price: Fraction,
    pub deviation: Fraction,
}

/// The report is the one of the summary `totals` at `rate`: one priced line
/// per description, ranked; the rounded hours and the prices added up; and
/// the deviation, which is the rate times what rounding added to the hours.
pub open spec fn bills(report: ReportModel, totals: Map<Seq<char>, int>, rate: int) -> bool {
    &&& report.rate == rate
    &&& forall|k: int|
        0 <= k < report.lines.len() ==> {
            &&& priced(#[trigger] report.lines[k], rate)
            &&& totals.contains_key(report.lines[k].description)
            &&& totals[report.lines[k].description] == report.lines[k].seconds
        }
    &&& forall|description: Seq<char>|
        totals.contains_key(description) ==> has_billing_line(report.lines, description)
    &&& ranked(report.lines)
    &&& report.total_hours.lowest()
    &&& report.total_hours.is_ratio(sum_hundredths(report.lines), 100)
    &&& report.total_price.lowest()
    &&& report.total_price.is_ratio(rate * sum_hundredths(report.lines), 100)
    &&& report.deviation.lowest()
    &&& report.deviation.is_ratio(rate * sum_excess(report.lines), 3600)
}

/// Why a summary cannot be billed.
#[derive(Clone, Copy, Debug, PartialEq, Eq, Structural)]
pub enum BillingError {
    /// The rate is beyond [`MAX_RATE`] in magnitude.
    RateOutOfRange,
    /// The summary has more than [`MAX_LINES`] lines.
    TooManyLines,
    /// A line holds more than [`MAX_LINE_SECONDS`] seconds.
    LineOutOfRange,
}

/// What [`bill`] returns for a summary with these lines at `rate`, where it
/// cannot bill.
pub open spec fn refusal(lines: Seq<LineModel>, rate: int) -> Option<BillingError> {
    if magnitude(rate) > MAX_RATE {
        Some(BillingError::RateOutOfRange)
    } else if lines.len() > MAX_LINES {
        Some(BillingError::TooManyLines)
    } else if exists|i: int| 0 <= i < lines.len() && (#[trigger] lines[i]).seconds > MAX_LINE_SECONDS {
        Some(BillingError::LineOutOfRange)
    } else {
        None
    }
}

/// The ranked, priced lines of a run with their totals.
#[derive(Clone, Debug)]
pub struct Report {
    rate: i64,
    lines: Vec<BillingLine>,
    total_hours: Rational,
    total_price: Rational,
    deviation: Rational,
}

impl View for Report {
    type V = ReportModel;

    closed spec fn view(&self) -> ReportModel {
        ReportModel {
            rate: self.rate as int,
            lines: models(self.lines@),
            total_hours: self.total_hours@,
            total_price: self.total_price@,
            deviation: self.deviation@,
        }
    }
}

impl Report {
    /// Every line is well-formed and priced at the rate, the report is
    /// within the limits of this module, and the totals are those of the
    /// lines.
    pub closed spec fn wf(&self) -> bool {
        &&& all_priced(self.lines@, self.rate as int)
        &&& self.lines@.len() <= MAX_LINES
        &&& magnitude(self.rate as int) <= MAX_RATE
        &&& self.total_hours.wf()
        &&& self.total_hours@.is_ratio(sum_hundredths(models(self.lines@)), 100)
        &&& self.total_price.wf()
        &&& self.total_price@.is_ratio(self.rate * sum_hundredths(models(self.lines@)), 100)
        &&& self.deviation.wf()
        &&& self.deviation@.is_ratio(self.rate * sum_excess(models(self.lines@)), 3600)
    }

    /// What holds of the totals of a well-formed report.
    pub proof fn lemma_totals(&self)
        requires
            self.wf(),
        ensures
            self@.lines.len() <= MAX_LINES,
            magnitude(self@.rate) <= MAX_RATE,
            forall|k: int|
                0 <= k < self@.lines.len() ==> priced(#[trigger] self@.lines[k], self@.rate)
                    && self@.lines[k].seconds <= MAX_LINE_SECONDS,
            self@.total_hours.lowest(),
            self@.total_hours.is_ratio(sum_hundredths(self@.lines), 100),
            self@.total_price.lowest(),
            self@.total_price.is_ratio(self@.rate * sum_hundredths(self@.lines), 100),
            self@.deviation.lowest(),
            self@.deviation.is_ratio(self@.rate * sum_excess(self@.lines), 3600),
    {
        assert forall|k: int| 0 <= k < self@.lines.len() implies priced(
            #[trigger] self@.lines[k],
            self@.rate,
        ) && self@.lines[k].seconds <= MAX_LINE_SECONDS by {
            assert(self.lines@[k].wf());
        }
    }

    /// The rate that the report was priced at.
    pub fn rate(&self) -> (rate: i64)
        ensures
            rate == self@.rate,
    {
        self.rate
    }

    /// The number of lines.
    pub fn len(&self) -> (n: usize)
        ensures
            n == self@.lines.len(),
    {
        self.lines.len()
    }

    /// The line of rank `index`, counted from zero.
    pub fn line(&self, index: usize) -> (line: &BillingLine)
        requires
            self.wf(),
            index < self@.lines.len(),
        ensures
            line.wf(),
            line@ == self@.lines[index as int],
    {
        &self.lines[index]
    }

    /// The sum of the rounded hours.
    pub fn total_hours(&self) -> (hours: Rational)
        requires
            self.wf(),
        ensures
            hours.wf(),
            hours@ == self@.total_hours,
    {
        self.total_hours
    }

    /// The sum of the prices.
    pub fn total_price(&self) -> (price: Rational)
        requires
            self.wf(),
        ensures
            price.wf(),
            price@ == self@.total_price,
    {
        self.total_price
    }

    /// The rounding deviation: what the rounded hours cost more than the
    /// exact hours would. It is reported, not billed.
    pub fn deviation(&self) -> (deviation: Rational)
        requires
            self.wf(),
        ensures
            deviation.wf(),
            deviation@ == self@.deviation,
    {
        self.deviation
    }
}

/// The sums of priced lines within the limits are bounded by their number.
pub proof fn lemma_sum_bounds(lines: Seq<BillingLineModel>)
    requires
        forall|k: int| 0 <= k < lines.len() ==> 0 <= (#[trigger] lines[k]).seconds <= MAX_LINE_SECONDS,
    ensures
        0 <= sum_hundredths(lines) <= 833_334 * lines.len(),
        magnitude(sum_excess(lines)) <= 18 * lines.len(),
    decreases lines.len(),
{
    if lines.len() > 0 {
        lemma_sum_bounds(lines.drop_last());
        lemma_hundredths_bounds(lines.last().seconds);
    }
}

/// Adds up the rounded hours, the prices and the deviation of ranked lines.
fn add_up(lines: &Vec<BillingLine>, rate: i64) -> (sums: (Rational, Rational, Rational))
    requires
        all_priced(lines@, rate as int),
        lines@.len() <= MAX_LINES,
        magnitude(rate as int) <= MAX_RATE,
    ensures
        sums.0.wf(),
        sums.0@.is_ratio(sum_hundredths(models(lines@)), 100),
        sums.1.wf(),
        sums.1@.is_ratio(rate * sum_hundredths(models(lines@)), 100),
        sums.2.wf(),
        sums.2@.is_ratio(rate * sum_excess(models(lines@)), 3600),
{
    let ghost all = models(lines@);
    let mut total_hours = Rational::from_integer(0);
    let mut total_price = Rational::from_integer(0);
    let mut deviation = Rational::from_integer(0);
    let mut k: usize = 0;
    proof {
        assert(all.take(0) =~= Seq::<BillingLineModel>::empty());
    }
    while k < lines.len()
        invariant
            k <= lines.len(),
            all == models(lines@),
            all_priced(lines@, rate as int),
            lines@.len() <= MAX_LINES,
            magnitude(rate as int) <= MAX_RATE,
            total_hours.wf(),
            total_hours@.is_ratio(sum_hundredths(all.take(k as int)), 100),
            total_price.wf(),
            total_price@.is_ratio(rate * sum_hundredths(all.take(k as int)), 100),
            deviation.wf(),
            deviation@.is_ratio(rate * sum_excess(all.take(k as int)), 3600),
        decreases lines.len() - k,
    {
        let line = &lines[k];
        let ghost done = all.take(k as int);
        let ghost h = hundredths(line@.seconds);
        let ghost e = excess(line@.seconds);
        let ghost sum_h = sum_hundredths(done);
        let ghost sum_e = sum_excess(done);
        proof {
            assert(lines@[k as int].wf() && priced(line@, rate as int));
            assert(all.take(k + 1).drop_last() =~= done);
            assert(all.take(k + 1).last() == line@);
            assert forall|i: int| 0 <= i < done.len() implies 0 <= (#[trigger] done[i]).seconds
                <= MAX_LINE_SECONDS by {
                assert(lines@[i].wf() && priced(lines@[i]@, rate as int));
            }
            lemma_sum_bounds(done);
            lemma_hundredths_bounds(line@.seconds);
            lemma_lowest_is_least(total_hours@, sum_h, 100);
            lemma_lowest_is_least(line@.rounded_hours, h, 100);
            lemma_lowest_is_least(line@.exact_hours, line@.seconds, 3600);
            lemma_lowest_is_least(total_price@, rate * sum_h, 100);
            lemma_lowest_is_least(line@.price, rate * h, 100);
            lemma_lowest_is_least(deviation@, rate * sum_e, 3600);
            lemma_product_bound(rate as int, sum_h, MAX_RATE as int, 8_333_340_000int);
            lemma_product_bound(rate as int, h, MAX_RATE as int, 833_334);
            lemma_product_bound(rate as int, sum_e, MAX_RATE as int, 180_000int);
        }
        let rounded = line.rounded_hours;
        let exact = line.exact_hours;
        let price = line.price;

        proof {
            lemma_sum_fits(total_hours@, rounded@, 8_333_340_000int, 100, 833_334, 100);
        }
        let next_hours = ratio_add(&total_hours, &rounded);
        proof {
            let (a, b) = (total_hours@, rounded@);
            assert((a.num * b.den + b.num * a.den) * 100 == (sum_h + h) * (a.den * b.den))
                by (nonlinear_arith)
                requires
                    a.num * 100 == sum_h * a.den,
                    b.num * 100 == h * b.den,
            ;
            lemma_ratio_rescale(
                next_hours@,
                a.num * b.den + b.num * a.den,
                a.den * b.den,
                sum_h + h,
                100,
            );
        }

        proof {
            lemma_sum_fits(
                total_price@,
                price@,
                83_333_400_000_000_000int,
                100,
                8_333_340_000_000int,
                100,
            );
        }
        let next_price = ratio_add(&total_price, &price);
        proof {
            let (a, b) = (total_price@, price@);
            assert((a.num * b.den + b.num * a.den) * 100 == (rate * (sum_h + h)) * (a.den * b.den))
                by (nonlinear_arith)
                requires
                    a.num * 100 == (rate * sum_h) * a.den,
                    b.num * 100 == (rate * h) * b.den,
            ;
            lemma_ratio_rescale(
                next_price@,
                a.num * b.den + b.num * a.den,
                a.den * b.den,
                rate * (sum_h + h),
                100,
            );
        }

        proof {
            lemma_sum_fits(rounded@, exact@, 833_334, 100, MAX_LINE_SECONDS as int, 3600);
        }
        let difference = ratio_sub(&rounded, &exact);
        proof {
            let (a, b) = (rounded@, exact@);
            assert((a.num * b.den - b.num * a.den) * 3600 == e * (a.den * b.den))
                by (nonlinear_arith)
                requires
                    a.num * 100 == h * a.den,
                    b.num * 3600 == line@.seconds * b.den,
                    e == 36 * h - line@.seconds,
            ;
            lemma_ratio_rescale(
                difference@,
                a.num * b.den - b.num * a.den,
                a.den * b.den,
                e,
                3600,
            );
            lemma_lowest_is_least(difference@, e, 3600);
            lemma_product_bound(difference@.num, rate as int, 18, MAX_RATE as int);
        }
        let line_deviation = ratio_mul_int(&difference, rate);
        proof {
            assert((difference@.num * rate) * 3600 == (rate * e) * difference@.den)
                by (nonlinear_arith)
                requires
                    difference@.num * 3600 == e * difference@.den,
            ;
            lemma_ratio_rescale(
                line_deviation@,
                difference@.num * rate,
                difference@.den,
                rate * e,
                3600,
            );
            lemma_lowest_is_least(line_deviation@, rate * e, 3600);
            lemma_product_bound(rate as int, e, MAX_RATE as int, 18);
            lemma_sum_fits(
                deviation@,
                line_deviation@,
                1_800_000_000_000int,
                3600,
                180_000_000int,
                3600,
            );
        }
        let next_deviation = ratio_add(&deviation, &line_deviation);
        proof {
            let (a, b) = (deviation@, line_deviation@);
            assert((a.num * b.den + b.num * a.den) * 3600 == (rate * (sum_e + e)) * (a.den * b.den))
                by (nonlinear_arith)
                requires
                    a.num * 3600 == (rate * sum_e) * a.den,
                    b.num * 3600 == (rate * e) * b.den,
            ;
            lemma_ratio_rescale(
                next_deviation@,
                a.num * b.den + b.num * a.den,
                a.den * b.den,
                rate * (sum_e + e),
                3600,
            );
        }
        total_hours = next_hours;
        total_price = next_price;
        deviation = next_deviation;
        k += 1;
    }
    proof {
        assert(all.take(lines@.len() as int) =~= all);
    }
    (total_hours, total_price, deviation)
}

/// Ranks and prices the lines of `summary`.
fn rank_lines(summary: &Summary, rate: i64) -> (lines: Vec<BillingLine>)
    requires
        summary.wf(),
        refusal(summary.lines(), rate as int) is None,
    ensures
        all_priced(lines@, rate as int),
        ranked(models(lines@)),
        lines@.len() == summary.lines().len(),
        forall|k: int|
            0 <= k < lines@.len() ==> {
                &&& summary@.contains_key((#[trigger] lines@[k])@.description)
                &&& summary@[lines@[k]@.description] == lines@[k]@.seconds
            },
        forall|description: Seq<char>|
            summary@.contains_key(description) ==> has_billing_line(models(lines@), description),
{
    let ghost source = summary.lines();
    let mut lines: Vec<BillingLine> = Vec::new();
    let mut i: usize = 0;
    proof {
        assert(source.take(0) =~= Seq::<LineModel>::empty());
        assert(totals_of(source.take(0)) =~= Map::<Seq<char>, int>::empty());
    }
    while i < summary.len()
        invariant
            i <= source.len(),
            source == summary.lines(),
            lines_wf(source),
            refusal(source, rate as int) is None,
            all_priced(lines@, rate as int),
            ranked(models(lines@)),
            lines@.len() == i,
            forall|k: int|
                0 <= k < lines@.len() ==> {
                    &&& totals_of(source.take(i as int)).contains_key(
                        (#[trigger] lines@[k])@.description,
                    )
                    &&& totals_of(source.take(i as int))[lines@[k]@.description]
                        == lines@[k]@.seconds
                },
            forall|description: Seq<char>|
                totals_of(source.take(i as int)).contains_key(description) ==> has_billing_line(
                    models(lines@),
                    description,
                ),
        decreases source.len() - i,
    {
        let line = summary.line(i);
        let ghost done = source.take(i as int);
        let ghost grown = source.take(i + 1);
        let ghost before = lines@;
        proof {
            assert(source[i as int].seconds <= MAX_LINE_SECONDS);
            assert(source[i as int].seconds >= 0);
            assert(grown =~= done.push(source[i as int]));
            assert(lines_wf(done)) by {
                assert forall|a: int, b: int| 0 <= a < b < done.len() implies (#[trigger] done[a]).description
                    != (#[trigger] done[b]).description by {
                    assert(source[a].description != source[b].description);
                }
                assert forall|a: int| 0 <= a < done.len() implies (#[trigger] done[a]).seconds
                    >= 0 by {
                    assert(source[a].seconds >= 0);
                }
            }
            assert(!has_line(done, line@.description)) by {
                if has_line(done, line@.description) {
                    let a = choose|a: int|
                        0 <= a < done.len() && (#[trigger] done[a]).description
                            == line@.description;
                    assert(source[a].description != source[i as int].description);
                }
            }
            lemma_push_totals(done, source[i as int]);
            assert(!has_billing_line(models(lines@), line@.description)) by {
                if has_billing_line(models(lines@), line@.description) {
                    let k = choose|k: int|
                        0 <= k < models(lines@).len() && (#[trigger] models(lines@)[k]).description
                            == line@.description;
                    assert(totals_of(done).contains_key(lines@[k]@.description));
                }
            }
        }
        proof {
            assert forall|description: Seq<char>|
                totals_of(done).contains_key(description) implies has_billing_line(
                models(before),
                description,
            ) by {}
        }
        let billed = price_line(line, rate);
        let ghost billed_model = billed@;
        let at = insert_ranked(&mut lines, billed, Ghost(rate as int));
        proof {
            assert forall|k: int| 0 <= k < lines@.len() implies {
                &&& totals_of(grown).contains_key((#[trigger] lines@[k])@.description)
                &&& totals_of(grown)[lines@[k]@.description] == lines@[k]@.seconds
            } by {
                if k < at {
                    assert(lines@[k] == before[k]);
                    assert(totals_of(done).contains_key(before[k]@.description));
                } else if k > at {
                    assert(lines@[k] == before[k - 1]);
                    assert(totals_of(done).contains_key(before[k - 1]@.description));
                }
            }
            assert forall|description: Seq<char>|
                totals_of(grown).contains_key(description) implies has_billing_line(
                models(lines@),
                description,
            ) by {
                if description == billed_model.description {
                    assert(models(lines@)[at as int].description == description);
                } else {
                    assert(totals_of(done).contains_key(description));
                    assert(has_billing_line(models(before), description));
                    let k = choose|k: int|
                        0 <= k < models(before).len() && (#[trigger] models(before)[k]).description
                            == description;
                    if k < at {
                        assert(models(lines@)[k].description == description);
                    } else {
                        assert(models(lines@)[k + 1].description == description);
                    }
                }
            }
        }
        i += 1;
    }
    proof {
        assert(source.take(source.len() as int) =~= source);
    }
    lines
}

/// The report of `summary` at `rate`, an amount of currency per hour.
///
/// Each line gets its exact hours, its hours rounded to a hundredth and its
/// price. The lines are ranked by hours, the longest first. A summary beyond
/// the limits of this module is refused.
pub fn bill(summary: &Summary, rate: i64) -> (result: Result<Report, BillingError>)
    requires
        summary.wf(),
    ensures
        match result {
            Ok(report) => {
                &&& refusal(summary.lines(), rate as int) is None
                &&& report.wf()
                &&& bills(report@, summary@, rate as int)
                &&& report@.lines.len() == summary.lines().len()
            },
            Err(error) => refusal(summary.lines(), rate as int) == Some(error),
        },
{
    if rate > MAX_RATE || rate < -MAX_RATE {
        return Err(BillingError::RateOutOfRange);
    }
    if summary.len() > MAX_LINES {
        return Err(BillingError::TooManyLines);
    }
    let mut i: usize = 0;
    while i < summary.len()
        invariant
            i <= summary.lines().len(),
            magnitude(rate as int) <= MAX_RATE,
            summary.lines().len() <= MAX_LINES,
            forall|k: int| 0 <= k < i ==> (#[trigger] summary.lines()[k]).seconds <= MAX_LINE_SECONDS,
        decreases summary.lines().len() - i,
    {
        if summary.line(i).total_seconds() > MAX_LINE_SECONDS {
            assert(summary.lines()[i as int].seconds > MAX_LINE_SECONDS);
            return Err(BillingError::LineOutOfRange);
        }
        i += 1;
    }
    let lines = rank_lines(summary, rate);
    let (total_hours, total_price, deviation) = add_up(&lines, rate);
    let report = Report { rate, lines, total_hours, total_price, deviation };
    proof {
        assert forall|k: int| 0 <= k < report@.lines.len() implies {
            &&& priced(#[trigger] report@.lines[k], rate as int)
            &&& summary@.contains_key(report@.lines[k].description)
            &&& summary@[report@.lines[k].description] == report@.lines[k].seconds
        } by {
            assert(report.lines@[k].wf());
        }
    }
    Ok(report)
}

/// The exact price of the lines at `rate`: the rate times the exact hours of
/// all lines together.
pub open spec fn exact_price(lines: Seq<BillingLineModel>, rate: int) -> Fraction {
    Fraction { num: rate * sum_seconds(lines), den: 3600 }
}

/// What rounding adds to the hours of all lines is the rounded hours less
/// the exact hours, and at most half a hundredth of an hour per line.
pub proof fn lemma_excess_of_lines(lines: Seq<BillingLineModel>)
    requires
        forall|k: int| 0 <= k < lines.len() ==> (#[trigger] lines[k]).seconds >= 0,
    ensures
        sum_excess(lines) == 36 * sum_hundredths(lines) - sum_seconds(lines),
        magnitude(sum_excess(lines)) <= 18 * lines.len(),
    decreases lines.len(),
{
    if lines.len() > 0 {
        lemma_excess_of_lines(lines.drop_last());
        lemma_hundredths_bounds(lines.last().seconds);
    }
}

/// Rounding conservation: the total price is the exact price plus the
/// deviation, as fractions and without any tolerance; and the deviation is
/// at most half a hundredth of the rate per line.
pub proof fn lemma_rounding_conservation(
    report: ReportModel,
    totals: Map<Seq<char>, int>,
    rate: int,
)
    requires
        bills(report, totals, rate),
    ensures
        report.deviation.same(report.total_price.minus(exact_price(report.lines, rate))),
        magnitude(report.deviation.num) * 200 <= magnitude(rate) * report.lines.len()
            * report.deviation.den,
{
    let lines = report.lines;
    let (price, deviation) = (report.total_price, report.deviation);
    let (h, s, e) = (sum_hundredths(lines), sum_seconds(lines), sum_excess(lines));
    assert forall|k: int| 0 <= k < lines.len() implies (#[trigger] lines[k]).seconds >= 0 by {
        assert(priced(lines[k], rate));
    }
    lemma_excess_of_lines(lines);
    assert(deviation.num * (price.den * 3600) == (price.num * 3600 - (rate * s) * price.den)
        * deviation.den) by (nonlinear_arith)
        requires
            deviation.num * 3600 == (rate * e) * deviation.den,
            price.num * 100 == (rate * h) * price.den,
            e == 36 * h - s,
    ;
    let n = lines.len() as int;
    assert(magnitude(deviation.num) * 200 <= magnitude(rate) * n * deviation.den)
        by (nonlinear_arith)
        requires
            deviation.num * 3600 == (rate * e) * deviation.den,
            deviation.den > 0,
            magnitude(e) <= 18 * n,
            n >= 0,
            magnitude(deviation.num) == if deviation.num < 0 {
                -deviation.num
            } else {
                deviation.num
            },
            magnitude(rate) == if rate < 0 {
                -rate
            } else {
                rate
            },
            magnitude(e) == if e < 0 {
                -e
            } else {
                e
            },
    ;
}

} // verus!
