use crate::date::{date_of_text, date_text, lemma_date_text_round_trip, Date};
use crate::error::{Error, TaskID};
use crate::schedule::{lemma_scheduled_round_trip, scheduled_of_text, scheduled_text, Scheduled};
use vstd::prelude::*;

verus! {

/// A to-do item.
#[derive(Clone, Debug, PartialEq, Eq)]
pub struct Task {
    /// Assigned once by the store when the task is created.
    pub id: TaskID,
    pub title: String,
    pub description: String,
    pub scheduled: Scheduled,
    /// The day the task was marked done.
    pub completed: Option<Date>,
    /// The day the task was moved to the trash.
    pub deleted: Option<Date>,
}

/// A task as the persistence engine holds it: the schedule and the two dates
/// in their text form.
#[derive(Clone, Debug, PartialEq, Eq)]
pub struct TaskRow {
    pub id: TaskID,
    pub title: String,
    pub description: String,
    pub scheduled: String,
    pub completed: Option<String>,
    pub deleted: Option<String>,
}

pub open spec fn date_opt_wf(d: Option<Date>) -> bool {
    match d {
        Some(x) => x.wf(),
        None => true,
    }
}

/// An optional persisted date read back: `None` when the text is not a date.
pub open spec fn date_opt_of_text(t: Option<String>) -> Option<Option<Date>> {
    match t {
        None => Some(None),
        Some(s) => match date_of_text(s@) {
            Some(d) => Some(Some(d)),
            None => None,
        },
    }
}

/// `t` is the text of the optional date `d`.
pub open spec fn date_opt_text(t: Option<String>, d: Option<Date>) -> bool {
    match (t, d) {
        (None, None) => true,
        (Some(s), Some(x)) => s@ == date_text(x),
        _ => false,
    }
}

/// The task that a persisted row describes, or `InvalidEncoding` when the
/// schedule or one of the dates does not parse.
pub open spec fn task_of_row(row: TaskRow) -> Result<Task, Error> {
    match (
        scheduled_of_text(row.scheduled@),
        date_opt_of_text(row.completed),
        date_opt_of_text(row.deleted),
    ) {
        (Ok(s), Some(c), Some(d)) => Ok(
            Task {
                id: row.id,
                title: row.title,
                description: row.description,
                scheduled: s,
                completed: c,
                deleted: d,
            },
        ),
        _ => Err(Error::InvalidEncoding),
    }
}

/// `row` is the persisted form of `t`.
pub open spec fn encodes(row: TaskRow, t: Task) -> bool {
    &&& row.id == t.id
    &&& row.title == t.title
    &&& row.description == t.description
    &&& row.scheduled@ == scheduled_text(t.scheduled)
    &&& date_opt_text(row.completed, t.completed)
    &&& date_opt_text(row.deleted, t.deleted)
}

fn read_date_opt(t: &Option<String>) -> (r: Option<Option<Date>>)
    ensures
        r == date_opt_of_text(*t),
{
    match t {
        None => Some(None),
        Some(s) => match Date::parse_iso(s.as_str()) {
            Some(d) => Some(Some(d)),
            None => None,
        },
    }
}

fn write_date_opt(d: &Option<Date>) -> (r: Option<String>)
    requires
        date_opt_wf(*d),
    ensures
        date_opt_text(r, *d),
{
    match d {
        None => None,
        Some(x) => Some(x.to_iso_string()),
    }
}

impl Task {
    /// Every date the task carries is an existing calendar day.
    pub open spec fn wf(self) -> bool {
        &&& self.scheduled.wf()
        &&& date_opt_wf(self.completed)
        &&& date_opt_wf(self.deleted)
    }

    /// Whether every date the task carries exists, as `to_row` asks.
    pub fn is_valid(&self) -> (r: bool)
        ensures
            r == self.wf(),
    {
        let scheduled_ok = match &self.scheduled {
            Scheduled::Day(d) => d.is_valid(),
            _ => true,
        };
        let completed_ok = match &self.completed {
            Some(d) => d.is_valid(),
            None => true,
        };
        let deleted_ok = match &self.deleted {
            Some(d) => d.is_valid(),
            None => true,
        };
        scheduled_ok && completed_ok && deleted_ok
    }

    /// A copy of the task, field for field.
    pub fn duplicate(&self) -> (r: Task)
        ensures
            r == *self,
    {
        Task {
            id: self.id,
            title: self.title.clone(),
            description: self.description.clone(),
            scheduled: self.scheduled,
            completed: self.completed,
            deleted: self.deleted,
        }
    }

    /// Reads a task from its persisted row.
    pub fn from_row(row: &TaskRow) -> (r: Result<Task, Error>)
        ensures
            r == task_of_row(*row),
    {
        let scheduled = match Scheduled::from_str(row.scheduled.as_str()) {
            Ok(s) => s,
            Err(e) => return Err(e),
        };
        let completed = match read_date_opt(&row.completed) {
            Some(c) => c,
            None => return Err(Error::InvalidEncoding),
        };
        let deleted = match read_date_opt(&row.deleted) {
            Some(d) => d,
            None => return Err(Error::InvalidEncoding),
        };
        Ok(
            Task {
                id: row.id,
                title: row.title.clone(),
                description: row.description.clone(),
                scheduled,
                completed,
                deleted,
            },
        )
    }

    /// The persisted row of the task.
    pub fn to_row(&self) -> (r: TaskRow)
        requires
            self.wf(),
        ensures
            encodes(r, *self),
    {
        TaskRow {
            id: self.id,
            title: self.title.clone(),
            description: self.description.clone(),
            scheduled: self.scheduled.to_string(),
            completed: write_date_opt(&self.completed),
            deleted: write_date_opt(&self.deleted),
        }
    }
}

/// Reading back the persisted row of a task gives the task.
pub proof fn lemma_row_round_trip(t: Task, row: TaskRow)
    requires
        t.wf(),
        encodes(row, t),
    ensures
        task_of_row(row) == Ok::<Task, Error>(t),
{
    lemma_scheduled_round_trip(t.scheduled);
    if let Some(c) = t.completed {
        lemma_date_text_round_trip(c);
    }
    if let Some(d) = t.deleted {
        lemma_date_text_round_trip(d);
    }
}

} // verus!
