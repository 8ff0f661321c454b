//! The confirmation in front of the commit: how one line of the
//! operator's answer is read, and what it allows to be written.

use vstd::prelude::*;
use crate::text::{lowercased, to_lowercase};

verus! {

/// What one line of input says.
#[derive(Clone, Copy, Debug, PartialEq, Eq, Structural)]
pub enum Answer {
    /// The operator approves.
    Accept,
    /// The operator declines.
    Decline,
    /// The line says neither: ask again.
    Retry,
}

/// What a line says once it is in lower case: `y` or `n` as its first
/// character decide; a line with any other first character decides nothing;
/// a line without any character, which is the end of the input, takes the
/// default. A line that holds only its line break is not such a line.
pub open spec fn answer_of(lowered: Seq<char>, default: Option<bool>) -> Answer {
    if lowered.len() > 0 {
        if lowered[0] == 'y' {
            Answer::Accept
        } else if lowered[0] == 'n' {
            Answer::Decline
        } else {
            Answer::Retry
        }
    } else {
        match default {
            Some(true) => Answer::Accept,
            Some(false) => Answer::Decline,
            None => Answer::Retry,
        }
    }
}

/// The hint shown behind the question, with the default in upper case.
pub open spec fn hint_of(default: Option<bool>) -> Seq<char> {
    match default {
        Some(true) => "[Y/n]"@,
        Some(false) => "[y/N]"@,
        None => "[y/n]"@,
    }
}

/// The hint shown behind the question.
pub fn prompt_hint(default: Option<bool>) -> (hint: &'static str)
    ensures
        hint@ == hint_of(default),
{
    match default {
        Some(true) => "[Y/n]",
        Some(false) => "[y/N]",
        None => "[y/n]",
    }
}

/// Reads a line that is already in lower case.
pub fn classify_answer(lowered: &str, default: Option<bool>) -> (answer: Answer)
    ensures
        answer == answer_of(lowered@, default),
{
    if !lowered.is_empty() {
        let first = lowered.get_char(0);
        if first == 'y' {
            Answer::Accept
        } else if first == 'n' {
            Answer::Decline
        } else {
            Answer::Retry
        }
    } else {
        match default {
            Some(true) => Answer::Accept,
            Some(false) => Answer::Decline,
            None => Answer::Retry,
        }
    }
}

/// Reads one line of the operator's answer, in whatever case it was typed.
pub fn read_answer(line: &str, default: Option<bool>) -> (answer: Answer)
    ensures
        answer == answer_of(lowercased(line@), default),
{
    let lowered = to_lowercase(line);
    classify_answer(lowered.as_str(), default)
}

/// The ids that may be written after `answer`: all ids to bill after an
/// approval, none otherwise.
pub fn approved_batch(answer: Answer, to_bill: Vec<i64>) -> (batch: Vec<i64>)
    ensures
        batch@ == (if answer == Answer::Accept {
            to_bill@
        } else {
            Seq::<i64>::empty()
        }),
{
    match answer {
        Answer::Accept => to_bill,
        _ => Vec::new(),
    }
}

} // verus!
