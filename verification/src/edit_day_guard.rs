use vstd::prelude::*;

use crate::database::{Database, Date};
use crate::day::{empty_day_view, Day, DayView};

verus! {

/// The day a session starts from: the one stored under `date`, or a fresh
/// empty day when none is stored yet.
pub open spec fn loaded_view(db: &Database, date: Date) -> DayView {
    match db.spec_get(date) {
        Some(d) => d@,
        None => empty_day_view(),
    }
}

/// An edit session over one day: it loads the day for a date, hands out the
/// mutable value, and writes it back — exactly once — when closed.
///
/// The core keeps the write explicit in [`EditDayGuard::close`]; a front end
/// that wants the write to happen on every exit path wraps the guard in its
/// own scope construct.
#[derive(Debug)]
pub struct EditDayGuard {
    pub date: Date,
    pub day: Day,
}

impl EditDayGuard {
    /// Opens a session: loads the stored day, or an empty one.
    pub fn new(database: &Database, date: Date) -> (g: Self)
        requires
            database.wf(),
        ensures
            g.date == date,
            g.day.wf(),
            g.day@ == loaded_view(database, date),
    {
        let day = match database.get(&date) {
            Some(d) => d.clone(),
            None => Day::default(),
        };
        EditDayGuard { date, day }
    }

    /// Closes the session: stores the session's day under its date,
    /// overwriting unconditionally, and touches nothing else.
    pub fn close(self, database: &mut Database)
        requires
            old(database).wf(),
            self.day.wf(),
        ensures
            final(database).wf(),
            final(database).context_view() == old(database).context_view(),
            final(database).spec_get(self.date) == Some(self.day),
            forall|other: Date|
                other != self.date ==> final(database).spec_get(other) == old(
                    database,
                ).spec_get(other),
    {
        database.set(self.date, self.day)
    }
}

} // verus!
