//! A time entry as the time-tracking service reports it.

use vstd::prelude::*;
use crate::text::{description_of, normalize_description};

verus! {

/// The mathematical content of a time entry.
pub struct EntryModel {
    pub id: i64,
    pub description: Seq<char>,
    pub duration: Option<i64>,
    pub project_id: Option<i64>,
}

/// One logged record: what was done, for how many seconds, on which project.
///
/// A negative duration marks a timer that is still running. A missing
/// duration is malformed data.
#[derive(Clone, Debug)]
pub struct TimeEntry {
    id: i64,
    description: String,
    duration: Option<i64>,
    project_id: Option<i64>,
}

impl View for TimeEntry {
    type V = EntryModel;

    closed spec fn view(&self) -> EntryModel {
        EntryModel {
            id: self.id,
            description: self.description@,
            duration: self.duration,
            project_id: self.project_id,
        }
    }
}

impl TimeEntry {
    /// An entry from the fields of a record. The description is trimmed, and
    /// replaced by the default where it is missing or blank.
    pub fn new(
        id: i64,
        description: Option<&str>,
        duration: Option<i64>,
        project_id: Option<i64>,
    ) -> (entry: TimeEntry)
        ensures
            entry@ == (EntryModel {
                id,
                description: description_of(
                    match description {
                        Some(text) => Some(text@),
                        None => None,
                    },
                ),
                duration,
                project_id,
            }),
    {
        TimeEntry { id, description: normalize_description(description), duration, project_id }
    }

    /// The entry's id.
    pub fn id(&self) -> (id: i64)
        ensures
            id == self@.id,
    {
        self.id
    }

    /// The entry's description.
    pub fn description(&self) -> (description: &String)
        ensures
            description@ == self@.description,
    {
        &self.description
    }

    /// The entry's duration in seconds, if the record had one.
    pub fn duration(&self) -> (duration: Option<i64>)
        ensures
            duration == self@.duration,
    {
        self.duration
    }

    /// The entry's project, if the record had one.
    pub fn project_id(&self) -> (project_id: Option<i64>)
        ensures
            project_id == self@.project_id,
    {
        self.project_id
    }
}

} // verus!
