//! The summary of a run: one line per description, with the seconds that
//! the billable entries of that description add up to.

use vstd::prelude::*;

verus! {

/// The mathematical content of a summary line.
pub struct LineModel {
    pub description: Seq<char>,
    pub seconds: int,
}

/// A description and its accumulated seconds.
#[derive(Clone, Debug)]
pub struct SummaryLine {
    description: String,
    total_seconds: i64,
}

impl View for SummaryLine {
    type V = LineModel;

    closed spec fn view(&self) -> LineModel {
        LineModel { description: self.description@, seconds: self.total_seconds as int }
    }
}

impl SummaryLine {
    /// The line's description.
    pub fn description(&self) -> (description: &String)
        ensures
            description@ == self@.description,
    {
        &self.description
    }

    /// The line's accumulated seconds.
    pub fn total_seconds(&self) -> (seconds: i64)
        ensures
            seconds == self@.seconds,
    {
        self.total_seconds
    }
}

/// No description occurs on two lines, and no total is negative.
pub open spec fn lines_wf(lines: Seq<LineModel>) -> bool {
    &&& forall|i: int, j: int|
        0 <= i < j < lines.len() ==> (#[trigger] lines[i]).description != (
        #[trigger] lines[j]).description
    &&& forall|i: int| 0 <= i < lines.len() ==> (#[trigger] lines[i]).seconds >= 0
}

/// Whether some line carries `description`.
pub open spec fn has_line(lines: Seq<LineModel>, description: Seq<char>) -> bool {
    exists|i: int| 0 <= i < lines.len() && (#[trigger] lines[i]).description == description
}

/// The index of the line that carries `description`.
pub open spec fn line_index(lines: Seq<LineModel>, description: Seq<char>) -> int {
    choose|i: int| 0 <= i < lines.len() && (#[trigger] lines[i]).description == description
}

/// Description to total seconds, for the lines of a summary.
pub open spec fn totals_of(lines: Seq<LineModel>) -> Map<Seq<char>, int> {
    Map::new(
        |description: Seq<char>| has_line(lines, description),
        |description: Seq<char>| lines[line_index(lines, description)].seconds,
    )
}

/// The lines of one run, in the order in which their descriptions first
/// came up.
pub struct Summary {
    lines: Vec<SummaryLine>,
}

impl View for Summary {
    type V = Map<Seq<char>, int>;

    open spec fn view(&self) -> Map<Seq<char>, int> {
        totals_of(self.lines())
    }
}

impl Summary {
    /// The lines in order.
    pub closed spec fn lines(&self) -> Seq<LineModel> {
        self.lines@.map_values(|line: SummaryLine| line@)
    }

    /// The summary's invariant: see [`lines_wf`].
    pub open spec fn wf(&self) -> bool {
        lines_wf(self.lines())
    }

    /// A summary without lines.
    pub fn new() -> (summary: Summary)
        ensures
            summary.wf(),
            summary.lines() == Seq::<LineModel>::empty(),
            summary@ == Map::<Seq<char>, int>::empty(),
    {
        let summary = Summary { lines: Vec::new() };
        assert(summary.lines() =~= Seq::<LineModel>::empty());
        assert(summary@ =~= Map::<Seq<char>, int>::empty());
        summary
    }

    /// The number of lines.
    pub fn len(&self) -> (n: usize)
        ensures
            n == self.lines().len(),
    {
        self.lines.len()
    }

    /// The line at `index`.
    pub fn line(&self, index: usize) -> (line: &SummaryLine)
        requires
            index < self.lines().len(),
        ensures
            line@ == self.lines()[index as int],
    {
        &self.lines[index]
    }

    /// The position of the line that carries `description`, if there is one.
    fn find(&self, description: &String) -> (found: Option<usize>)
        ensures
            match found {
                Some(i) => i < self.lines().len() && self.lines()[i as int].description
                    == description@,
                None => !has_line(self.lines(), description@),
            },
    {
        let mut i: usize = 0;
        while i < self.lines.len()
            invariant
                i <= self.lines.len(),
                forall|j: int| 0 <= j < i ==> (#[trigger] self.lines()[j]).description != description@,
            decreases self.lines.len() - i,
        {
            if self.lines[i].description == *description {
                return Some(i);
            }
            i += 1;
        }
        None
    }

    /// The seconds accumulated under `description`; none if no line carries
    /// it.
    pub fn total_for(&self, description: &String) -> (total: Option<i64>)
        requires
            self.wf(),
        ensures
            total is Some <==> self@.contains_key(description@),
            total matches Some(seconds) ==> seconds == self@[description@],
    {
        match self.find(description) {
            Some(i) => {
                proof {
                    lemma_line_found(self.lines(), i as int);
                }
                Some(self.lines[i].total_seconds)
            },
            None => None,
        }
    }

    /// Adds `seconds` to the line of `description`, opening the line if there
    /// is none. Nothing changes, and `false` comes back, where the total
    /// would not fit in 64 bits.
    pub fn add(&mut self, description: &String, seconds: i64) -> (added: bool)
        requires
            old(self).wf(),
            seconds >= 0,
        ensures
            final(self).wf(),
            added <==> total_or_zero(old(self)@, description@) + seconds <= i64::MAX,
            added ==> final(self)@ == old(self)@.insert(
                description@,
                total_or_zero(old(self)@, description@) + seconds,
            ),
            added ==> final(self).lines() == with_added(
                old(self).lines(),
                description@,
                seconds as int,
            ),
            !added ==> final(self).lines() == old(self).lines(),
    {
        match self.find(description) {
            Some(i) => {
                proof {
                    lemma_line_found(self.lines(), i as int);
                }
                let current: i64 = self.lines[i].total_seconds;
                match current.checked_add(seconds) {
                    Some(total) => {
                        let line = SummaryLine {
                            description: description.clone(),
                            total_seconds: total,
                        };
                        self.lines.set(i, line);
                        proof {
                            let before = old(self).lines();
                            let after = self.lines();
                            assert(after =~= before.update(
                                i as int,
                                LineModel { description: description@, seconds: total as int },
                            ));
                            lemma_update_totals(before, i as int, total as int);
                        }
                        true
                    },
                    None => false,
                }
            },
            None => {
                let line = SummaryLine { description: description.clone(), total_seconds: seconds };
                self.lines.push(line);
                proof {
                    let before = old(self).lines();
                    let added_line = LineModel { description: description@, seconds: seconds as int };
                    assert(self.lines() =~= before.push(added_line));
                    lemma_push_totals(before, added_line);
                }
                true
            },
        }
    }
}

/// The lines after `seconds` were added under `description`: the line that
/// carries the description grows where it is, and a new line goes to the
/// end.
pub open spec fn with_added(lines: Seq<LineModel>, description: Seq<char>, seconds: int) -> Seq<
    LineModel,
> {
    if has_line(lines, description) {
        let at = line_index(lines, description);
        lines.update(at, LineModel { description, seconds: lines[at].seconds + seconds })
    } else {
        lines.push(LineModel { description, seconds })
    }
}

/// The total under `description`, or zero where the map has none.
pub open spec fn total_or_zero(totals: Map<Seq<char>, int>, description: Seq<char>) -> int {
    if totals.contains_key(description) {
        totals[description]
    } else {
        0
    }
}

/// In well-formed lines, the line at `i` is the one that its description
/// selects.
pub proof fn lemma_line_found(lines: Seq<LineModel>, i: int)
    requires
        lines_wf(lines),
        0 <= i < lines.len(),
    ensures
        has_line(lines, lines[i].description),
        line_index(lines, lines[i].description) == i,
        totals_of(lines).contains_key(lines[i].description),
        totals_of(lines)[lines[i].description] == lines[i].seconds,
{
    let d = lines[i].description;
    let j = line_index(lines, d);
    assert(0 <= j < lines.len() && lines[j].description == d);
    if j < i {
        assert(lines[j].description != lines[i].description);
    } else if i < j {
        assert(lines[i].description != lines[j].description);
    }
}

/// Replacing the seconds of line `i` replaces the total of its description.
proof fn lemma_update_totals(lines: Seq<LineModel>, i: int, seconds: int)
    requires
        lines_wf(lines),
        0 <= i < lines.len(),
        seconds >= 0,
    ensures
        lines_wf(lines.update(i, LineModel { description: lines[i].description, seconds })),
        totals_of(lines.update(i, LineModel { description: lines[i].description, seconds }))
            == totals_of(lines).insert(lines[i].description, seconds),
{
    let d = lines[i].description;
    let after = lines.update(i, LineModel { description: d, seconds });
    assert(lines_wf(after)) by {
        assert forall|a: int, b: int| 0 <= a < b < after.len() implies (#[trigger] after[a]).description
            != (#[trigger] after[b]).description by {
            assert(lines[a].description != lines[b].description);
        }
        assert forall|a: int| 0 <= a < after.len() implies (#[trigger] after[a]).seconds >= 0 by {
            if a != i {
                assert(lines[a].seconds >= 0);
            }
        }
    }
    let left = totals_of(after);
    let right = totals_of(lines).insert(d, seconds);
    assert forall|k: Seq<char>| left.contains_key(k) <==> right.contains_key(k) by {
        if has_line(after, k) {
            let j = line_index(after, k);
            assert(lines[j].description == k);
        }
        if has_line(lines, k) {
            let j = line_index(lines, k);
            assert(after[j].description == k);
        }
        if k == d {
            assert(after[i].description == k);
        }
    }
    assert forall|k: Seq<char>| left.contains_key(k) implies left[k] == right[k] by {
        let j = line_index(after, k);
        lemma_line_found(after, j);
        if j == i {
        } else {
            assert(lines[j].description == k);
            lemma_line_found(lines, j);
        }
    }
    assert(left =~= right);
}

/// A line with a new description adds its total to the map.
pub proof fn lemma_push_totals(lines: Seq<LineModel>, line: LineModel)
    requires
        lines_wf(lines),
        !has_line(lines, line.description),
        line.seconds >= 0,
    ensures
        lines_wf(lines.push(line)),
        totals_of(lines.push(line)) == totals_of(lines).insert(line.description, line.seconds),
{
    let after = lines.push(line);
    assert(lines_wf(after)) by {
        assert forall|a: int, b: int| 0 <= a < b < after.len() implies (#[trigger] after[a]).description
            != (#[trigger] after[b]).description by {
            if b < lines.len() {
                assert(lines[a].description != lines[b].description);
            } else {
                assert(lines[a].description != line.description);
            }
        }
        assert forall|a: int| 0 <= a < after.len() implies (#[trigger] after[a]).seconds >= 0 by {
            if a < lines.len() {
                assert(lines[a].seconds >= 0);
            }
        }
    }
    let left = totals_of(after);
    let right = totals_of(lines).insert(line.description, line.seconds);
    assert forall|k: Seq<char>| left.contains_key(k) <==> right.contains_key(k) by {
        if has_line(after, k) {
            let j = line_index(after, k);
            if j < lines.len() {
                assert(lines[j].description == k);
            }
        }
        if has_line(lines, k) {
            let j = line_index(lines, k);
            assert(after[j].description == k);
        }
        if k == line.description {
            assert(after[lines.len() as int].description == k);
        }
    }
    assert forall|k: Seq<char>| left.contains_key(k) implies left[k] == right[k] by {
        let j = line_index(after, k);
        lemma_line_found(after, j);
        if j < lines.len() {
            assert(lines[j].description == k);
            lemma_line_found(lines, j);
        }
    }
    assert(left =~= right);
}

} // verus!
