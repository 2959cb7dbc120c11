use vstd::prelude::*;

use crate::task::TaskId;
use crate::time::{clock_now, Timestamp};

verus! {

/// What the user was doing from an entry's start time on.
#[derive(Clone, Copy, PartialEq, Eq, Structural, Debug)]
pub enum EntryType {
    Focus(TaskId),
    Unfocused,
    DayEnded,
}

/// One step of the day's history.  An entry has no end time of its own: it
/// lasts until the next entry's start, or is still ongoing if it is last.
#[derive(Clone, Copy, PartialEq, Eq, Structural, Debug)]
pub struct Entry {
    pub type_: EntryType,
    pub start: Timestamp,
}

impl Entry {
    /// An entry of the given kind, starting now.
    pub fn now(type_: EntryType) -> (e: Entry)
        ensures
            e.type_ == type_,
    {
        Entry { type_, start: clock_now() }
    }

    /// The same moment, recorded as unfocused time.
    pub fn to_unfocused(&self) -> (e: Entry)
        ensures
            e.type_ == EntryType::Unfocused,
            e.start == self.start,
    {
        Entry { type_: EntryType::Unfocused, start: self.start }
    }
}

/// The errors a log operation can signal; every one leaves the log unchanged.
#[derive(Clone, Copy, PartialEq, Eq, Structural, Debug)]
pub enum LogError {
    DayAlreadyStarted,
    AlreadyUnfocused,
    DayAlreadyEnded,
    DayNeverStarted,
    AlreadyFocusedOnFocus,
}

pub open spec fn entry_at(type_: EntryType, start: Timestamp) -> Entry {
    Entry { type_, start }
}

/// `next` may directly follow `prev`: the activity changes, and nothing
/// follows the end of the day.
pub open spec fn can_follow(prev: EntryType, next: EntryType) -> bool {
    &&& prev != next
    &&& prev != EntryType::DayEnded
}

/// Well-formedness of a log's entries: no two adjacent entries record the
/// same activity (no adjacent `Focus` of one task, no adjacent `Unfocused`),
/// and a `DayEnded` entry can only stand last, never first.
pub open spec fn log_wf(s: Seq<Entry>) -> bool {
    &&& forall|i: int| 0 <= i && i + 1 < s.len() ==> can_follow(#[trigger] s[i].type_, s[i + 1].type_)
    &&& s.len() > 0 ==> s[0].type_ != EntryType::DayEnded
}

/// The current state of the log: the kind of the last entry, or none while
/// the log is still empty.
pub open spec fn current(s: Seq<Entry>) -> Option<EntryType> {
    if s.len() == 0 {
        None
    } else {
        Some(s.last().type_)
    }
}

/// Whether `start_day` fails on a log holding `s`, and how.
pub open spec fn start_day_err(s: Seq<Entry>) -> Option<LogError> {
    if s.len() == 0 {
        None
    } else {
        Some(LogError::DayAlreadyStarted)
    }
}

/// The entries after a successful `start_day`; `now` stamps the new entry.
pub open spec fn start_day_post(s: Seq<Entry>, now: Timestamp) -> Seq<Entry> {
    s.push(entry_at(EntryType::Unfocused, now))
}

/// Whether `start_unfocused` fails on a log holding `s`, and how.
pub open spec fn start_unfocused_err(s: Seq<Entry>) -> Option<LogError> {
    match current(s) {
        None => None,
        Some(t) => match t {
            EntryType::Focus(_) => None,
            EntryType::Unfocused => Some(LogError::AlreadyUnfocused),
            EntryType::DayEnded => None,
        },
    }
}

/// The entries after a successful `start_unfocused`.  `now` stamps a freshly
/// appended entry; the resumption paths ignore it, since the entry they
/// synthesize inherits the start time of the removed `DayEnded` entry.
pub open spec fn start_unfocused_post(s: Seq<Entry>, now: Timestamp) -> Seq<Entry> {
    if s.len() == 0 {
        s.push(entry_at(EntryType::Unfocused, now))
    } else {
        match s.last().type_ {
            EntryType::Focus(_) => s.push(entry_at(EntryType::Unfocused, now)),
            EntryType::Unfocused => s,
            EntryType::DayEnded => match s[s.len() - 2].type_ {
                EntryType::Focus(_) => s.drop_last().push(
                    entry_at(EntryType::Unfocused, s.last().start),
                ),
                _ => s.drop_last(),
            },
        }
    }
}

/// Whether `start_focus(task_id)` fails on a log holding `s`, and how.
pub open spec fn start_focus_err(s: Seq<Entry>, task_id: TaskId) -> Option<LogError> {
    match current(s) {
        None => None,
        Some(t) => match t {
            EntryType::Focus(current_id) => if current_id == task_id {
                Some(LogError::AlreadyFocusedOnFocus)
            } else {
                None
            },
            EntryType::Unfocused => None,
            EntryType::DayEnded => None,
        },
    }
}

/// The entries after a successful `start_focus(task_id)`; `now` stamps the
/// appended `Focus` entry.
pub open spec fn start_focus_post(s: Seq<Entry>, task_id: TaskId, now: Timestamp) -> Seq<Entry> {
    if s.len() == 0 {
        s.push(entry_at(EntryType::Focus(task_id), now))
    } else {
        match s.last().type_ {
            EntryType::DayEnded => match s[s.len() - 2].type_ {
                EntryType::Focus(_) => s.drop_last().push(
                    entry_at(EntryType::Unfocused, s.last().start),
                ).push(entry_at(EntryType::Focus(task_id), now)),
                _ => s.drop_last().push(entry_at(EntryType::Focus(task_id), now)),
            },
            _ => s.push(entry_at(EntryType::Focus(task_id), now)),
        }
    }
}

/// Whether `end_day` fails on a log holding `s`, and how.
pub open spec fn end_day_err(s: Seq<Entry>) -> Option<LogError> {
    match current(s) {
        None => Some(LogError::DayNeverStarted),
        Some(t) => match t {
            EntryType::DayEnded => Some(LogError::DayAlreadyEnded),
            _ => None,
        },
    }
}

/// The entries after a successful `end_day`; `now` stamps the new entry.
pub open spec fn end_day_post(s: Seq<Entry>, now: Timestamp) -> Seq<Entry> {
    s.push(entry_at(EntryType::DayEnded, now))
}

/// The task currently focused: the task of the last entry when that entry is
/// a `Focus`, absent otherwise.
pub open spec fn spec_focus(s: Seq<Entry>) -> Option<TaskId> {
    if s.len() == 0 {
        None
    } else {
        match s.last().type_ {
            EntryType::Focus(id) => Some(id),
            _ => None,
        }
    }
}

/// A well-formed log whose last entry is `DayEnded` holds at least one entry
/// before it, and that entry is not itself `DayEnded`.
pub proof fn lemma_wf_day_ended(s: Seq<Entry>)
    requires
        log_wf(s),
        s.len() > 0,
        s.last().type_ == EntryType::DayEnded,
    ensures
        s.len() >= 2,
        s[s.len() - 2].type_ != EntryType::DayEnded,
{
    if s.len() == 1 {
        assert(s[0].type_ == EntryType::DayEnded);
    } else {
        assert(can_follow(s[s.len() - 2].type_, s[s.len() - 1].type_));
    }
}

/// `start_day` preserves well-formedness.
pub proof fn lemma_start_day_preserves_wf(s: Seq<Entry>, now: Timestamp)
    requires
        log_wf(s),
        start_day_err(s) is None,
    ensures
        log_wf(start_day_post(s, now)),
{
    let p = start_day_post(s, now);
    assert(p[0].type_ == EntryType::Unfocused);
}

/// `start_unfocused` preserves well-formedness.
pub proof fn lemma_start_unfocused_preserves_wf(s: Seq<Entry>, now: Timestamp)
    requires
        log_wf(s),
        start_unfocused_err(s) is None,
    ensures
        log_wf(start_unfocused_post(s, now)),
{
    let p = start_unfocused_post(s, now);
    if s.len() == 0 {
        assert(p[0].type_ == EntryType::Unfocused);
    } else {
        match s.last().type_ {
            EntryType::Focus(_) => {
                assert forall|i: int| 0 <= i && i + 1 < p.len() implies can_follow(
                    #[trigger] p[i].type_,
                    p[i + 1].type_,
                ) by {
                    if i + 1 < s.len() {
                        assert(can_follow(s[i].type_, s[i + 1].type_));
                    }
                }
            },
            EntryType::Unfocused => {},
            EntryType::DayEnded => {
                lemma_wf_day_ended(s);
                match s[s.len() - 2].type_ {
                    EntryType::Focus(_) => {
                        assert forall|i: int| 0 <= i && i + 1 < p.len() implies can_follow(
                            #[trigger] p[i].type_,
                            p[i + 1].type_,
                        ) by {
                            if i + 1 < s.len() - 1 {
                                assert(can_follow(s[i].type_, s[i + 1].type_));
                            } else {
                                assert(p[i].type_ == s[s.len() - 2].type_);
                            }
                        }
                    },
                    _ => {
                        assert forall|i: int| 0 <= i && i + 1 < p.len() implies can_follow(
                            #[trigger] p[i].type_,
                            p[i + 1].type_,
                        ) by {
                            assert(can_follow(s[i].type_, s[i + 1].type_));
                        }
                    },
                }
            },
        }
    }
}

/// `start_focus` preserves well-formedness.
pub proof fn lemma_start_focus_preserves_wf(s: Seq<Entry>, task_id: TaskId, now: Timestamp)
    requires
        log_wf(s),
        start_focus_err(s, task_id) is None,
    ensures
        log_wf(start_focus_post(s, task_id, now)),
{
    let p = start_focus_post(s, task_id, now);
    if s.len() == 0 {
        assert(p[0].type_ == EntryType::Focus(task_id));
    } else {
        match s.last().type_ {
            EntryType::DayEnded => {
                lemma_wf_day_ended(s);
                match s[s.len() - 2].type_ {
                    EntryType::Focus(_) => {
                        let q = s.drop_last().push(
                            entry_at(EntryType::Unfocused, s.last().start),
                        );
                        assert forall|i: int| 0 <= i && i + 1 < p.len() implies can_follow(
                            #[trigger] p[i].type_,
                            p[i + 1].type_,
                        ) by {
                            if i + 1 < s.len() - 1 {
                                assert(can_follow(s[i].type_, s[i + 1].type_));
                            } else if i + 1 == s.len() - 1 {
                                assert(p[i].type_ == s[s.len() - 2].type_);
                            } else {
                                assert(p[i].type_ == EntryType::Unfocused);
                            }
                        }
                    },
                    _ => {
                        assert forall|i: int| 0 <= i && i + 1 < p.len() implies can_follow(
                            #[trigger] p[i].type_,
                            p[i + 1].type_,
                        ) by {
                            if i + 1 < s.len() - 1 {
                                assert(can_follow(s[i].type_, s[i + 1].type_));
                            } else {
                                assert(p[i].type_ == s[s.len() - 2].type_);
                            }
                        }
                    },
                }
            },
            _ => {
                assert forall|i: int| 0 <= i && i + 1 < p.len() implies can_follow(
                    #[trigger] p[i].type_,
                    p[i + 1].type_,
                ) by {
                    if i + 1 < s.len() {
                        assert(can_follow(s[i].type_, s[i + 1].type_));
                    }
                }
            },
        }
    }
}

/// `end_day` preserves well-formedness.
pub proof fn lemma_end_day_preserves_wf(s: Seq<Entry>, now: Timestamp)
    requires
        log_wf(s),
        end_day_err(s) is None,
    ensures
        log_wf(end_day_post(s, now)),
{
    let p = end_day_post(s, now);
    assert forall|i: int| 0 <= i && i + 1 < p.len() implies can_follow(
        #[trigger] p[i].type_,
        p[i + 1].type_,
    ) by {
        if i + 1 < s.len() {
            assert(can_follow(s[i].type_, s[i + 1].type_));
        }
    }
}

/// Ending a day is idempotent-reject: after one successful `end_day`, a
/// second one is refused with `DayAlreadyEnded`, and across the two calls the
/// log grows by exactly one entry.
pub proof fn lemma_end_day_idempotent_reject(s: Seq<Entry>, now: Timestamp)
    requires
        log_wf(s),
        end_day_err(s) is None,
    ensures
        end_day_err(end_day_post(s, now)) == Some(LogError::DayAlreadyEnded),
        end_day_post(s, now).len() == s.len() + 1,
{
}

/// The resumption rule: on a log ending `[.., Focus(t), DayEnded]`,
/// `start_unfocused` succeeds by replacing the `DayEnded` entry with an
/// `Unfocused` entry that inherits its start time, so no elapsed time is
/// lost, and appends nothing further.
pub proof fn lemma_resume_unfocused_after_focus(s: Seq<Entry>, now: Timestamp)
    requires
        log_wf(s),
        s.len() >= 2,
        s.last().type_ == EntryType::DayEnded,
        s[s.len() - 2].type_ matches EntryType::Focus(_),
    ensures
        start_unfocused_err(s) is None,
        start_unfocused_post(s, now) == s.drop_last().push(
            entry_at(EntryType::Unfocused, s.last().start),
        ),
        start_unfocused_post(s, now).len() == s.len(),
{
}

/// The append-only history of a day's activity.
#[derive(Debug, PartialEq)]
pub struct Log {
    entries: Vec<Entry>,
}

impl View for Log {
    type V = Seq<Entry>;

    closed spec fn view(&self) -> Seq<Entry> {
        self.entries@
    }
}

impl Log {
    /// Shorthand for well-formedness of this log's entries.
    pub open spec fn wf(&self) -> bool {
        log_wf(self@)
    }

    pub fn entries(&self) -> (r: &Vec<Entry>)
        ensures
            r@ == self@,
    {
        &self.entries
    }

    pub fn is_empty(&self) -> (r: bool)
        ensures
            r == (self@.len() == 0),
    {
        self.entries.len() == 0
    }

    pub fn last(&self) -> (r: Option<&Entry>)
        ensures
            match r {
                Some(e) => self@.len() > 0 && *e == self@.last(),
                None => self@.len() == 0,
            },
    {
        if self.entries.len() == 0 {
            None
        } else {
            Some(&self.entries[self.entries.len() - 1])
        }
    }

    /// The task currently focused, if the last entry is a `Focus`.
    pub fn focus(&self) -> (r: Option<TaskId>)
        ensures
            r == spec_focus(self@),
    {
        match self.last() {
            None => None,
            Some(e) => match e.type_ {
                EntryType::Focus(task_id) => Some(task_id),
                _ => None,
            },
        }
    }

    /// Opens the day: allowed only on an empty log, and records the time from
    /// now on as unfocused.
    pub fn start_day(&mut self) -> (r: Result<(), LogError>)
        requires
            old(self).wf(),
        ensures
            final(self).wf(),
            match start_day_err(old(self)@) {
                Some(e) => r == Err::<(), LogError>(e) && final(self)@ == old(self)@,
                None => r == Ok::<(), LogError>(()) && final(self)@ == start_day_post(
                    old(self)@,
                    final(self)@.last().start,
                ),
            },
    {
        if self.entries.len() != 0 {
            return Err(LogError::DayAlreadyStarted);
        }
        self.entries.push(Entry::now(EntryType::Unfocused));
        proof {
            lemma_start_day_preserves_wf(old(self)@, self@.last().start);
            assert(self@ =~= start_day_post(old(self)@, self@.last().start));
        }
        Ok(())
    }

    /// Starts a break or idle period.  From a `Focus` entry or an empty log
    /// it appends `Unfocused`; when already unfocused it refuses; after a
    /// `DayEnded` entry it applies the resumption rule instead (see
    /// [`start_unfocused_post`]).
    #[verifier::rlimit(50)]
    pub fn start_unfocused(&mut self) -> (r: Result<(), LogError>)
        requires
            old(self).wf(),
        ensures
            final(self).wf(),
            match start_unfocused_err(old(self)@) {
                Some(e) => r == Err::<(), LogError>(e) && final(self)@ == old(self)@,
                None => r == Ok::<(), LogError>(()) && final(self)@ == start_unfocused_post(
                    old(self)@,
                    final(self)@.last().start,
                ),
            },
    {
        let ghost pre = old(self)@;
        let n = self.entries.len();
        if n == 0 {
            self.entries.push(Entry::now(EntryType::Unfocused));
            proof {
                lemma_start_unfocused_preserves_wf(pre, self@.last().start);
                assert(self@ =~= start_unfocused_post(pre, self@.last().start));
            }
            return Ok(());
        }
        let last = self.entries[n - 1];
        match last.type_ {
            EntryType::Focus(_) => {
                self.entries.push(Entry::now(EntryType::Unfocused));
                proof {
                    lemma_start_unfocused_preserves_wf(pre, self@.last().start);
                    assert(self@ =~= start_unfocused_post(pre, self@.last().start));
                }
                Ok(())
            },
            EntryType::Unfocused => Err(LogError::AlreadyUnfocused),
            EntryType::DayEnded => {
                proof {
                    lemma_wf_day_ended(pre);
                }
                let day_ended = self.entries.pop().unwrap();
                let prev = self.entries[self.entries.len() - 1];
                match prev.type_ {
                    EntryType::Focus(_) => {
                        self.entries.push(day_ended.to_unfocused());
                        proof {
                            lemma_start_unfocused_preserves_wf(pre, self@.last().start);
                            assert(self@ =~= start_unfocused_post(pre, self@.last().start));
                        }
                        Ok(())
                    },
                    EntryType::Unfocused => {
                        proof {
                            lemma_start_unfocused_preserves_wf(pre, self@.last().start);
                            assert(self@ =~= start_unfocused_post(pre, self@.last().start));
                        }
                        Ok(())
                    },
                    EntryType::DayEnded => {
                        proof {
                            assert(false);
                        }
                        Err(LogError::DayAlreadyEnded)
                    },
                }
            },
        }
    }

    /// Starts focusing on `task_id`.  Switching focus ends the previous focus
    /// implicitly; focusing on the task already focused is refused; after a
    /// `DayEnded` entry the resumption rule applies first (see
    /// [`start_focus_post`]).
    pub fn start_focus(&mut self, task_id: TaskId) -> (r: Result<(), LogError>)
        requires
            old(self).wf(),
        ensures
            final(self).wf(),
            match start_focus_err(old(self)@, task_id) {
                Some(e) => r == Err::<(), LogError>(e) && final(self)@ == old(self)@,
                None => r == Ok::<(), LogError>(()) && final(self)@ == start_focus_post(
                    old(self)@,
                    task_id,
                    final(self)@.last().start,
                ),
            },
    {
        let ghost pre = old(self)@;
        let n = self.entries.len();
        if n == 0 {
            self.entries.push(Entry::now(EntryType::Focus(task_id)));
            proof {
                lemma_start_focus_preserves_wf(pre, task_id, self@.last().start);
                assert(self@ =~= start_focus_post(pre, task_id, self@.last().start));
            }
            return Ok(());
        }
        let last = self.entries[n - 1];
        match last.type_ {
            EntryType::Focus(current_focus_id) => {
                if current_focus_id == task_id {
                    Err(LogError::AlreadyFocusedOnFocus)
                } else {
                    self.entries.push(Entry::now(EntryType::Focus(task_id)));
                    proof {
                        lemma_start_focus_preserves_wf(pre, task_id, self@.last().start);
                        assert(self@ =~= start_focus_post(pre, task_id, self@.last().start));
                    }
                    Ok(())
                }
            },
            EntryType::Unfocused => {
                self.entries.push(Entry::now(EntryType::Focus(task_id)));
                proof {
                    lemma_start_focus_preserves_wf(pre, task_id, self@.last().start);
                    assert(self@ =~= start_focus_post(pre, task_id, self@.last().start));
                }
                Ok(())
            },
            EntryType::DayEnded => {
                proof {
                    lemma_wf_day_ended(pre);
                }
                let day_ended = self.entries.pop().unwrap();
                let prev = self.entries[self.entries.len() - 1];
                match prev.type_ {
                    EntryType::Focus(_) => {
                        self.entries.push(day_ended.to_unfocused());
                    },
                    EntryType::Unfocused => {},
                    EntryType::DayEnded => {
                        proof {
                            assert(false);
                        }
                    },
                }
                self.entries.push(Entry::now(EntryType::Focus(task_id)));
                proof {
                    lemma_start_focus_preserves_wf(pre, task_id, self@.last().start);
                    assert(self@ =~= start_focus_post(pre, task_id, self@.last().start));
                }
                Ok(())
            },
        }
    }

    /// Closes the day with a `DayEnded` entry.  A day never started and a day
    /// already ended are both refused, each with its own error.
    pub fn end_day(&mut self) -> (r: Result<(), LogError>)
        requires
            old(self).wf(),
        ensures
            final(self).wf(),
            match end_day_err(old(self)@) {
                Some(e) => r == Err::<(), LogError>(e) && final(self)@ == old(self)@,
                None => r == Ok::<(), LogError>(()) && final(self)@ == end_day_post(
                    old(self)@,
                    final(self)@.last().start,
                ),
            },
    {
        let ghost pre = old(self)@;
        let n = self.entries.len();
        if n == 0 {
            return Err(LogError::DayNeverStarted);
        }
        let last = self.entries[n - 1];
        match last.type_ {
            EntryType::DayEnded => Err(LogError::DayAlreadyEnded),
            _ => {
                self.entries.push(Entry::now(EntryType::DayEnded));
                proof {
                    lemma_end_day_preserves_wf(pre, self@.last().start);
                    assert(self@ =~= end_day_post(pre, self@.last().start));
                }
                Ok(())
            },
        }
    }
}

impl Log {
    /// Rebuilds a log from stored entries, refusing any sequence that the
    /// operations above could not have produced.
    pub fn from_entries(entries: Vec<Entry>) -> (r: Option<Log>)
        ensures
            match r {
                Some(l) => l@ == entries@ && l.wf(),
                None => !log_wf(entries@),
            },
    {
        let n = entries.len();
        if n > 0 {
            let first = entries[0];
            if matches!(first.type_, EntryType::DayEnded) {
                return None;
            }
        }
        if n >= 2 {
            let mut k: usize = 0;
            while k < n - 1
                invariant
                    n == entries@.len(),
                    2 <= n,
                    k <= n - 1,
                    forall|i: int| 0 <= i < k ==> can_follow(
                        #[trigger] entries@[i].type_,
                        entries@[i + 1].type_,
                    ),
                decreases n - k,
            {
                let a = entries[k];
                let b = entries[k + 1];
                let same = a.type_ == b.type_;
                let a_ended = matches!(a.type_, EntryType::DayEnded);
                if same || a_ended {
                    return None;
                }
                k += 1;
            }
        }
        Some(Log { entries })
    }
}

impl Default for Log {
    /// An empty log: no entries, trivially well-formed.
    fn default() -> (r: Self)
        ensures
            r@ == Seq::<Entry>::empty(),
            r.wf(),
    {
        let log = Log { entries: Vec::new() };
        proof {
            assert(log@ =~= Seq::<Entry>::empty());
        }
        log
    }
}

impl Clone for Log {
    fn clone(&self) -> (r: Self)
        ensures
            r@ == self@,
    {
        let r = Log { entries: self.entries.clone() };
        proof {
            assert(r@ =~= self@);
        }
        r
    }
}

} // verus!
