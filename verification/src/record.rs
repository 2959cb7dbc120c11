use vstd::prelude::*;

use crate::day::{day_wf, Day, DayView};
use crate::log::{Entry, EntryType, Log};
use crate::task::{Task, TaskId};
use crate::time::Timestamp;

verus! {

/// The tag of a `Focus` entry in a stored record.
pub const KIND_FOCUS: u8 = 0;

/// The tag of an `Unfocused` entry in a stored record.
pub const KIND_UNFOCUSED: u8 = 1;

/// The tag of a `DayEnded` entry in a stored record.
pub const KIND_DAY_ENDED: u8 = 2;

/// A task as it is persisted: every field a plain value.
#[derive(Clone, Debug, PartialEq)]
pub struct TaskRecord {
    pub id: u128,
    pub name: String,
    pub done: bool,
}

/// A log entry as it is persisted: the kind flattened to a tag, the task id
/// meaningful only for a `Focus` tag.
#[derive(Clone, Copy, Debug, PartialEq, Eq, Structural)]
pub struct EntryRecord {
    pub kind: u8,
    pub task_id: u128,
    pub start: u64,
}

/// A day as it is persisted, field for field, with `priorities` and
/// `entries` keeping their exact order.
#[derive(Clone, Debug, PartialEq)]
pub struct DayRecord {
    pub tasks: Vec<TaskRecord>,
    pub priorities: Vec<u128>,
    pub entries: Vec<EntryRecord>,
    pub notes: Vec<String>,
}

/// The abstract value of a [`DayRecord`].
pub struct DayRecordView {
    pub tasks: Seq<TaskRecord>,
    pub priorities: Seq<u128>,
    pub entries: Seq<EntryRecord>,
    pub notes: Seq<String>,
}

impl View for DayRecord {
    type V = DayRecordView;

    closed spec fn view(&self) -> DayRecordView {
        DayRecordView {
            tasks: self.tasks@,
            priorities: self.priorities@,
            entries: self.entries@,
            notes: self.notes@,
        }
    }
}

pub open spec fn task_to_record(t: Task) -> TaskRecord {
    TaskRecord { id: t.id.0, name: t.name, done: t.done }
}

pub open spec fn record_to_task(r: TaskRecord) -> Task {
    Task { id: TaskId(r.id), name: r.name, done: r.done }
}

pub open spec fn entry_to_record(e: Entry) -> EntryRecord {
    match e.type_ {
        EntryType::Focus(t) => EntryRecord { kind: KIND_FOCUS, task_id: t.0, start: e.start.secs },
        EntryType::Unfocused => EntryRecord {
            kind: KIND_UNFOCUSED,
            task_id: 0,
            start: e.start.secs,
        },
        EntryType::DayEnded => EntryRecord {
            kind: KIND_DAY_ENDED,
            task_id: 0,
            start: e.start.secs,
        },
    }
}

/// Reading an entry back; a tag above [`KIND_DAY_ENDED`] never comes from
/// [`entry_to_record`] and is refused by [`from_record`].
pub open spec fn record_to_entry(r: EntryRecord) -> Entry {
    let type_ = if r.kind == KIND_FOCUS {
        EntryType::Focus(TaskId(r.task_id))
    } else if r.kind == KIND_UNFOCUSED {
        EntryType::Unfocused
    } else {
        EntryType::DayEnded
    };
    Entry { type_, start: Timestamp { secs: r.start } }
}

/// The record a day serializes to.
pub open spec fn record_of_day(v: DayView) -> DayRecordView {
    DayRecordView {
        tasks: v.tasks.map_values(|t: Task| task_to_record(t)),
        priorities: v.priorities.map_values(|p: TaskId| p.0),
        entries: v.log.map_values(|e: Entry| entry_to_record(e)),
        notes: v.notes,
    }
}

/// The day a record deserializes to, read field for field.
pub open spec fn day_of_record(r: DayRecordView) -> DayView {
    DayView {
        tasks: r.tasks.map_values(|t: TaskRecord| record_to_task(t)),
        priorities: r.priorities.map_values(|p: u128| TaskId(p)),
        log: r.entries.map_values(|e: EntryRecord| record_to_entry(e)),
        notes: r.notes,
    }
}

/// A record deserializes to a day exactly when every entry tag is known and
/// the day it describes satisfies the day invariant.
pub open spec fn record_valid(r: DayRecordView) -> bool {
    &&& forall|i: int| 0 <= i < r.entries.len() ==> (#[trigger] r.entries[i]).kind
        <= KIND_DAY_ENDED
    &&& day_wf(day_of_record(r))
}

/// Round trip: serializing any well-formed day and deserializing the record
/// yields the same day, with `priorities` and `entries` order preserved
/// exactly.
pub proof fn lemma_record_round_trip(v: DayView)
    requires
        day_wf(v),
    ensures
        record_valid(record_of_day(v)),
        day_of_record(record_of_day(v)) == v,
{
    let r = record_of_day(v);
    let w = day_of_record(r);
    assert forall|i: int| 0 <= i < r.entries.len() implies (#[trigger] r.entries[i]).kind
        <= KIND_DAY_ENDED by {
        assert(r.entries[i] == entry_to_record(v.log[i]));
    }
    assert forall|i: int| 0 <= i < w.tasks.len() implies w.tasks[i] == v.tasks[i] by {
        let t = v.tasks[i];
        assert(w.tasks[i] == record_to_task(task_to_record(t)));
        assert(TaskId(t.id.0) == t.id);
    }
    assert(w.tasks =~= v.tasks);
    assert forall|i: int| 0 <= i < w.priorities.len() implies w.priorities[i]
        == v.priorities[i] by {
        assert(TaskId(v.priorities[i].0) == v.priorities[i]);
    }
    assert(w.priorities =~= v.priorities);
    assert forall|i: int| 0 <= i < w.log.len() implies w.log[i] == v.log[i] by {
        let e = v.log[i];
        assert(w.log[i] == record_to_entry(entry_to_record(e)));
        assert(Timestamp { secs: e.start.secs } == e.start);
        match e.type_ {
            EntryType::Focus(t) => {
                assert(TaskId(t.0) == t);
            },
            _ => {},
        }
    }
    assert(w.log =~= v.log);
    assert(w == v);
}

/// Serializes a day to its record, field for field.
pub fn to_record(day: &Day) -> (r: DayRecord)
    ensures
        r@ == record_of_day(day@),
{
    let mut tasks: Vec<TaskRecord> = Vec::new();
    let day_tasks = day.tasks();
    let mut k: usize = 0;
    while k < day_tasks.len()
        invariant
            day_tasks@.len() == day@.tasks.len(),
            forall|i: int| 0 <= i < day_tasks@.len() ==> *day_tasks@[i] == day@.tasks[i],
            k <= day_tasks@.len(),
            tasks@.len() == k,
            forall|i: int| 0 <= i < k ==> tasks@[i] == task_to_record(day@.tasks[i]),
        decreases day_tasks.len() - k,
    {
        let t = day_tasks[k];
        tasks.push(TaskRecord { id: t.id.0, name: t.name.clone(), done: t.done });
        k += 1;
    }
    let mut priorities: Vec<u128> = Vec::new();
    let day_priorities = day.priorities();
    let mut k: usize = 0;
    while k < day_priorities.len()
        invariant
            day_priorities@ == day@.priorities,
            k <= day_priorities@.len(),
            priorities@.len() == k,
            forall|i: int| 0 <= i < k ==> priorities@[i] == day@.priorities[i].0,
        decreases day_priorities.len() - k,
    {
        priorities.push(day_priorities[k].0);
        k += 1;
    }
    let mut entries: Vec<EntryRecord> = Vec::new();
    let day_entries = day.log().entries();
    let mut k: usize = 0;
    while k < day_entries.len()
        invariant
            day_entries@ == day@.log,
            k <= day_entries@.len(),
            entries@.len() == k,
            forall|i: int| 0 <= i < k ==> entries@[i] == entry_to_record(day@.log[i]),
        decreases day_entries.len() - k,
    {
        let e = day_entries[k];
        let rec = match e.type_ {
            EntryType::Focus(t) => EntryRecord {
                kind: KIND_FOCUS,
                task_id: t.0,
                start: e.start.secs,
            },
            EntryType::Unfocused => EntryRecord {
                kind: KIND_UNFOCUSED,
                task_id: 0,
                start: e.start.secs,
            },
            EntryType::DayEnded => EntryRecord {
                kind: KIND_DAY_ENDED,
                task_id: 0,
                start: e.start.secs,
            },
        };
        entries.push(rec);
        k += 1;
    }
    let mut notes: Vec<String> = Vec::new();
    let day_notes = day.notes();
    let mut k: usize = 0;
    while k < day_notes.len()
        invariant
            day_notes@ == day@.notes,
            k <= day_notes@.len(),
            notes@.len() == k,
            forall|i: int| 0 <= i < k ==> notes@[i] == day@.notes[i],
        decreases day_notes.len() - k,
    {
        notes.push(day_notes[k].clone());
        k += 1;
    }
    let r = DayRecord { tasks, priorities, entries, notes };
    proof {
        assert(r@.tasks =~= record_of_day(day@).tasks);
        assert(r@.priorities =~= record_of_day(day@).priorities);
        assert(r@.entries =~= record_of_day(day@).entries);
        assert(r@.notes =~= record_of_day(day@).notes);
    }
    r
}

/// Deserializes a record back into a day, validating everything the day
/// invariant demands; an invalid record is refused.
pub fn from_record(rec: &DayRecord) -> (r: Option<Day>)
    ensures
        match r {
            Some(d) => record_valid(rec@) && d@ == day_of_record(rec@) && d.wf(),
            None => !record_valid(rec@),
        },
{
    let ghost target = day_of_record(rec@);
    let mut tasks: Vec<Task> = Vec::new();
    let mut k: usize = 0;
    while k < rec.tasks.len()
        invariant
            target == day_of_record(rec@),
            k <= rec.tasks@.len(),
            tasks@.len() == k,
            forall|i: int| 0 <= i < k ==> tasks@[i] == record_to_task(rec.tasks@[i]),
        decreases rec.tasks.len() - k,
    {
        let t = &rec.tasks[k];
        tasks.push(Task { id: TaskId(t.id), name: t.name.clone(), done: t.done });
        k += 1;
    }
    let mut priorities: Vec<TaskId> = Vec::new();
    let mut k: usize = 0;
    while k < rec.priorities.len()
        invariant
            k <= rec.priorities@.len(),
            priorities@.len() == k,
            forall|i: int| 0 <= i < k ==> priorities@[i] == TaskId(rec.priorities@[i]),
        decreases rec.priorities.len() - k,
    {
        priorities.push(TaskId(rec.priorities[k]));
        k += 1;
    }
    let mut entries: Vec<Entry> = Vec::new();
    let mut k: usize = 0;
    while k < rec.entries.len()
        invariant
            k <= rec.entries@.len(),
            entries@.len() == k,
            forall|i: int| 0 <= i < k ==> entries@[i] == record_to_entry(rec.entries@[i]),
            forall|i: int| 0 <= i < k ==> (#[trigger] rec.entries@[i]).kind <= KIND_DAY_ENDED,
        decreases rec.entries.len() - k,
    {
        let e = rec.entries[k];
        if e.kind > KIND_DAY_ENDED {
            return None;
        }
        let type_ = if e.kind == KIND_FOCUS {
            EntryType::Focus(TaskId(e.task_id))
        } else if e.kind == KIND_UNFOCUSED {
            EntryType::Unfocused
        } else {
            EntryType::DayEnded
        };
        entries.push(Entry { type_, start: Timestamp { secs: e.start } });
        k += 1;
    }
    let mut notes: Vec<String> = Vec::new();
    let mut k: usize = 0;
    while k < rec.notes.len()
        invariant
            k <= rec.notes@.len(),
            notes@.len() == k,
            forall|i: int| 0 <= i < k ==> notes@[i] == rec.notes@[i],
        decreases rec.notes.len() - k,
    {
        notes.push(rec.notes[k].clone());
        k += 1;
    }
    proof {
        assert(tasks@ =~= target.tasks);
        assert(priorities@ =~= target.priorities);
        assert(entries@ =~= target.log);
        assert(notes@ =~= target.notes);
    }
    let log = match Log::from_entries(entries) {
        Some(l) => l,
        None => {
            return None;
        },
    };
    match Day::from_parts(tasks, priorities, log, notes) {
        Some(d) => Some(d),
        None => None,
    }
}

} // verus!
