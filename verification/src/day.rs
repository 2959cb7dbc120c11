use vstd::prelude::*;

use crate::log::{
    end_day_err, end_day_post, log_wf, spec_focus, start_day_err, start_day_post, start_focus_err,
    start_focus_post, start_unfocused_err, start_unfocused_post, Entry, EntryType, Log, LogError,
};
use crate::task::{Task, TaskId};

verus! {

/// The most tasks a day's priority list may rank.
pub const MAX_PRIORITIES: usize = 6;

/// The errors a day-level operation can signal.
#[derive(Clone, Copy, PartialEq, Eq, Structural, Debug)]
pub enum DayError {
    TaskAlreadyExistsInDay,
    TaskDoesNotExistInDay,
    TooManyPriorities,
    InvalidPriorityId,
    LogError(LogError),
}

impl From<LogError> for DayError {
    fn from(value: LogError) -> (r: Self)
        ensures
            r == DayError::LogError(value),
    {
        DayError::LogError(value)
    }
}

impl vstd::std_specs::convert::FromSpecImpl<LogError> for DayError {
    open spec fn obeys_from_spec() -> bool {
        true
    }

    open spec fn from_spec(v: LogError) -> Self {
        DayError::LogError(v)
    }
}

/// The abstract value of a [`Day`]: its four containers, as sequences.
pub struct DayView {
    pub tasks: Seq<Task>,
    pub priorities: Seq<TaskId>,
    pub log: Seq<Entry>,
    pub notes: Seq<String>,
}

/// Some task in `s` carries the id.
pub open spec fn has_id(s: Seq<Task>, id: TaskId) -> bool {
    exists|i: int| 0 <= i < s.len() && s[i].id == id
}

/// No two tasks in `s` share an id.
pub open spec fn unique_ids(s: Seq<Task>) -> bool {
    forall|i: int, j: int| 0 <= i < j < s.len() ==> s[i].id != s[j].id
}

/// The first task in `s` carrying the id, if any.  Under [`unique_ids`] it is
/// the only one.
pub open spec fn find_task(s: Seq<Task>, id: TaskId) -> Option<Task>
    decreases s.len(),
{
    if s.len() == 0 {
        None
    } else if s[0].id == id {
        Some(s[0])
    } else {
        find_task(s.drop_first(), id)
    }
}

/// `s` with `t` either replacing the task of the same id or appended at the
/// end: the insertion is an upsert keyed by id.
pub open spec fn upsert_task(s: Seq<Task>, t: Task) -> Seq<Task>
    decreases s.len(),
{
    if s.len() == 0 {
        seq![t]
    } else if s[0].id == t.id {
        seq![t] + s.drop_first()
    } else {
        seq![s[0]] + upsert_task(s.drop_first(), t)
    }
}

/// A `Focus` entry only ever names a task of the day.
pub open spec fn focus_id_ok(tasks: Seq<Task>, type_: EntryType) -> bool {
    match type_ {
        EntryType::Focus(id) => has_id(tasks, id),
        _ => true,
    }
}

/// Well-formedness of a day: task ids are unique, every ranked priority and
/// every logged focus refers to a task of the day, the priority list respects
/// its bound, and the log is well-formed.
pub open spec fn day_wf(v: DayView) -> bool {
    &&& unique_ids(v.tasks)
    &&& forall|i: int| 0 <= i < v.priorities.len() ==> has_id(v.tasks, #[trigger] v.priorities[i])
    &&& v.priorities.len() <= MAX_PRIORITIES
    &&& log_wf(v.log)
    &&& forall|i: int| 0 <= i < v.log.len() ==> focus_id_ok(v.tasks, #[trigger] v.log[i].type_)
}

/// The value of a freshly created day: every container empty.
pub open spec fn empty_day_view() -> DayView {
    DayView {
        tasks: Seq::empty(),
        priorities: Seq::empty(),
        log: Seq::empty(),
        notes: Seq::empty(),
    }
}

/// The tasks of `v` that its priority list does not rank, in task order.
pub open spec fn extra_tasks_of(v: DayView) -> Seq<Task> {
    v.tasks.filter(|t: Task| !v.priorities.contains(t.id))
}

/// `find_task` returns a task exactly when some task carries the id, and
/// what it returns carries the id.
pub proof fn lemma_find_has(s: Seq<Task>, id: TaskId)
    ensures
        (find_task(s, id) is Some) == has_id(s, id),
        match find_task(s, id) {
            Some(t) => t.id == id,
            None => true,
        },
    decreases s.len(),
{
    if s.len() == 0 {
    } else if s[0].id == id {
    } else {
        lemma_find_has(s.drop_first(), id);
        assert forall|i: int| 0 <= i < s.len() && s[i].id == id implies has_id(
            s.drop_first(),
            id,
        ) by {
            assert(s.drop_first()[i - 1] == s[i]);
        }
    }
}

/// When the first match sits at index `i`, `find_task` returns it.
proof fn lemma_find_at(s: Seq<Task>, id: TaskId, i: int)
    requires
        0 <= i < s.len(),
        s[i].id == id,
        forall|j: int| 0 <= j < i ==> s[j].id != id,
    ensures
        find_task(s, id) == Some(s[i]),
    decreases i,
{
    if i == 0 {
    } else {
        assert forall|j: int| 0 <= j < i - 1 implies s.drop_first()[j].id != id by {
            assert(s.drop_first()[j] == s[j + 1]);
        }
        assert(s.drop_first()[i - 1] == s[i]);
        lemma_find_at(s.drop_first(), id, i - 1);
    }
}

/// When no task matches, `find_task` finds none.
proof fn lemma_find_absent(s: Seq<Task>, id: TaskId)
    requires
        forall|j: int| 0 <= j < s.len() ==> s[j].id != id,
    ensures
        find_task(s, id) is None,
    decreases s.len(),
{
    if s.len() > 0 {
        assert forall|j: int| 0 <= j < s.len() - 1 implies s.drop_first()[j].id != id by {
            assert(s.drop_first()[j] == s[j + 1]);
        }
        lemma_find_absent(s.drop_first(), id);
    }
}

/// When the first match sits at index `i`, the upsert replaces it in place.
proof fn lemma_upsert_at(s: Seq<Task>, t: Task, i: int)
    requires
        0 <= i < s.len(),
        s[i].id == t.id,
        forall|j: int| 0 <= j < i ==> s[j].id != t.id,
    ensures
        upsert_task(s, t) == s.update(i, t),
    decreases i,
{
    if i == 0 {
        assert(upsert_task(s, t) =~= s.update(0, t));
    } else {
        assert forall|j: int| 0 <= j < i - 1 implies s.drop_first()[j].id != t.id by {
            assert(s.drop_first()[j] == s[j + 1]);
        }
        assert(s.drop_first()[i - 1] == s[i]);
        lemma_upsert_at(s.drop_first(), t, i - 1);
        assert(upsert_task(s, t) =~= s.update(i, t));
    }
}

/// When no task matches, the upsert appends.
proof fn lemma_upsert_absent(s: Seq<Task>, t: Task)
    requires
        forall|j: int| 0 <= j < s.len() ==> s[j].id != t.id,
    ensures
        upsert_task(s, t) == s.push(t),
    decreases s.len(),
{
    if s.len() == 0 {
        assert(upsert_task(s, t) =~= s.push(t));
    } else {
        assert forall|j: int| 0 <= j < s.len() - 1 implies s.drop_first()[j].id != t.id by {
            assert(s.drop_first()[j] == s[j + 1]);
        }
        lemma_upsert_absent(s.drop_first(), t);
        assert(upsert_task(s, t) =~= s.push(t));
    }
}

/// Inserting a task and then looking its id up returns exactly that task,
/// and the lookup of any other id is unaffected by the insertion.
pub proof fn lemma_upsert_find(s: Seq<Task>, t: Task, other: TaskId)
    ensures
        find_task(upsert_task(s, t), t.id) == Some(t),
        other != t.id ==> find_task(upsert_task(s, t), other) == find_task(s, other),
    decreases s.len(),
{
    if s.len() == 0 {
    } else if s[0].id == t.id {
        let u = upsert_task(s, t);
        assert(u[0] == t);
        assert(u.drop_first() =~= s.drop_first());
        assert(find_task(u, t.id) == Some(t));
        if other != t.id {
            assert(find_task(u, other) == find_task(u.drop_first(), other));
            assert(find_task(s, other) == find_task(s.drop_first(), other));
        }
    } else {
        let u = upsert_task(s, t);
        assert(u[0] == s[0]);
        assert(u.drop_first() =~= upsert_task(s.drop_first(), t));
        lemma_upsert_find(s.drop_first(), t, other);
        assert(find_task(u, t.id) == find_task(u.drop_first(), t.id));
        if other != t.id {
            if s[0].id == other {
                assert(find_task(u, other) == Some(u[0]));
                assert(find_task(s, other) == Some(s[0]));
            } else {
                assert(find_task(u, other) == find_task(u.drop_first(), other));
                assert(find_task(s, other) == find_task(s.drop_first(), other));
            }
        }
    }
}

/// One calendar date's state: the tasks it references, the ranked priority
/// list, the activity log and the user's notes.
#[derive(Debug, PartialEq)]
pub struct Day {
    tasks: Vec<Task>,
    priorities: Vec<TaskId>,
    log: Log,
    notes: Vec<String>,
}

impl View for Day {
    type V = DayView;

    closed spec fn view(&self) -> DayView {
        DayView {
            tasks: self.tasks@,
            priorities: self.priorities@,
            log: self.log@,
            notes: self.notes@,
        }
    }
}

/// The view after a log-only transition.
pub open spec fn with_log(v: DayView, log: Seq<Entry>) -> DayView {
    DayView { log, ..v }
}

impl Day {
    /// Shorthand for well-formedness of this day.
    pub open spec fn wf(&self) -> bool {
        day_wf(self@)
    }

    /// The day's tasks, in the registry's order.
    pub fn tasks(&self) -> (r: Vec<&Task>)
        ensures
            r@.len() == self@.tasks.len(),
            forall|i: int| 0 <= i < r@.len() ==> *r@[i] == self@.tasks[i],
    {
        let mut r: Vec<&Task> = Vec::new();
        let mut k: usize = 0;
        while k < self.tasks.len()
            invariant
                k <= self.tasks.len(),
                r@.len() == k,
                forall|i: int| 0 <= i < k ==> *r@[i] == self.tasks@[i],
            decreases self.tasks.len() - k,
        {
            r.push(&self.tasks[k]);
            k += 1;
        }
        r
    }

    /// Looks a task up by id.
    pub fn get_task(&self, task_id: &TaskId) -> (r: Option<&Task>)
        ensures
            match r {
                Some(t) => find_task(self@.tasks, *task_id) == Some(*t),
                None => find_task(self@.tasks, *task_id) is None,
            },
    {
        let mut k: usize = 0;
        while k < self.tasks.len()
            invariant
                k <= self.tasks.len(),
                forall|j: int| 0 <= j < k ==> self.tasks@[j].id != *task_id,
            decreases self.tasks.len() - k,
        {
            if self.tasks[k].id == *task_id {
                proof {
                    lemma_find_at(self.tasks@, *task_id, k as int);
                }
                return Some(&self.tasks[k]);
            }
            k += 1;
        }
        proof {
            lemma_find_absent(self.tasks@, *task_id);
        }
        None
    }

    /// Inserts `task` keyed by its id: replaces and returns the previous task
    /// of that id, or appends and returns nothing.
    pub fn insert_task(&mut self, task: Task) -> (r: Option<Task>)
        requires
            old(self).wf(),
        ensures
            final(self).wf(),
            final(self)@.tasks == upsert_task(old(self)@.tasks, task),
            r == find_task(old(self)@.tasks, task.id),
            final(self)@.priorities == old(self)@.priorities,
            final(self)@.log == old(self)@.log,
            final(self)@.notes == old(self)@.notes,
    {
        let ghost pre = old(self)@;
        let mut k: usize = 0;
        while k < self.tasks.len()
            invariant
                k <= self.tasks.len(),
                forall|j: int| 0 <= j < k ==> self.tasks@[j].id != task.id,
                *self == *old(self),
                pre == old(self)@,
                old(self).wf(),
            decreases self.tasks.len() - k,
        {
            if self.tasks[k].id == task.id {
                proof {
                    lemma_find_at(self.tasks@, task.id, k as int);
                    lemma_upsert_at(self.tasks@, task, k as int);
                }
                let prev = self.tasks[k].clone();
                let slot = vstd::std_specs::vec::vec_index_mut(&mut self.tasks, k);
                *slot = task;
                proof {
                    assert(self@.tasks == pre.tasks.update(k as int, task));
                    lemma_wf_after_update(pre, task, k as int);
                }
                return Some(prev);
            }
            k += 1;
        }
        proof {
            lemma_find_absent(self.tasks@, task.id);
            lemma_upsert_absent(self.tasks@, task);
        }
        self.tasks.push(task);
        proof {
            lemma_wf_after_push(pre, task);
        }
        None
    }

    /// The ranked priority list, highest first.
    pub fn priorities(&self) -> (r: &Vec<TaskId>)
        ensures
            r@ == self@.priorities,
    {
        &self.priorities
    }

    /// Replaces the priority list.  Every id must already belong to a task of
    /// the day; a list longer than [`MAX_PRIORITIES`] is refused unchanged.
    pub fn set_priorities(&mut self, priorities: Vec<TaskId>) -> (r: Result<(), DayError>)
        requires
            old(self).wf(),
            forall|i: int| 0 <= i < priorities@.len() ==> has_id(
                old(self)@.tasks,
                #[trigger] priorities@[i],
            ),
        ensures
            final(self).wf(),
            if priorities@.len() > MAX_PRIORITIES {
                r == Err::<(), DayError>(DayError::TooManyPriorities) && final(self)@ == old(
                    self,
                )@
            } else {
                r == Ok::<(), DayError>(()) && final(self)@ == (DayView {
                    priorities: priorities@,
                    ..old(self)@
                })
            },
    {
        if priorities.len() > MAX_PRIORITIES {
            return Err(DayError::TooManyPriorities);
        }
        self.priorities = priorities;
        Ok(())
    }

    /// The tasks that the priority list does not rank, in task order.
    pub fn extra_tasks(&self) -> (r: Vec<&Task>)
        ensures
            r@.map_values(|t: &Task| *t) == extra_tasks_of(self@),
    {
        let ghost pred = |t: Task| !self@.priorities.contains(t.id);
        let mut r: Vec<&Task> = Vec::new();
        let mut k: usize = 0;
        proof {
            assert(self@.tasks.take(0) =~= Seq::<Task>::empty());
            reveal_with_fuel(Seq::filter, 1);
            assert(r@.map_values(|t: &Task| *t) =~= self@.tasks.take(0).filter(pred));
        }
        while k < self.tasks.len()
            invariant
                k <= self.tasks.len(),
                pred == (|t: Task| !self@.priorities.contains(t.id)),
                r@.map_values(|t: &Task| *t) == self@.tasks.take(k as int).filter(pred),
                forall|i: int| 0 <= i < r@.len() ==> *r@[i] == r@.map_values(
                    |t: &Task| *t,
                )[i],
            decreases self.tasks.len() - k,
        {
            let ghost prefix = self@.tasks.take(k as int);
            let ghost next = self@.tasks.take(k as int + 1);
            proof {
                assert(next.drop_last() =~= prefix);
                assert(next.last() == self@.tasks[k as int]);
                reveal_with_fuel(Seq::filter, 2);
            }
            if !contains_id(&self.priorities, &self.tasks[k].id) {
                r.push(&self.tasks[k]);
                proof {
                    assert(r@.map_values(|t: &Task| *t) =~= next.filter(pred));
                }
            } else {
                proof {
                    assert(r@.map_values(|t: &Task| *t) =~= next.filter(pred));
                }
            }
            k += 1;
        }
        proof {
            assert(self@.tasks.take(self.tasks@.len() as int) =~= self@.tasks);
        }
        r
    }

    /// The activity log.
    pub fn log(&self) -> (r: &Log)
        ensures
            r@ == self@.log,
    {
        &self.log
    }

    /// The task currently focused, if the last log entry is a `Focus`.
    pub fn focus(&self) -> (r: Option<TaskId>)
        ensures
            r == spec_focus(self@.log),
    {
        self.log.focus()
    }

    /// Opens the day in the log; see [`Log::start_day`].
    pub fn start_day(&mut self) -> (r: Result<(), LogError>)
        requires
            old(self).wf(),
        ensures
            final(self).wf(),
            match start_day_err(old(self)@.log) {
                Some(e) => r == Err::<(), LogError>(e) && final(self)@ == old(self)@,
                None => r == Ok::<(), LogError>(()) && final(self)@ == with_log(
                    old(self)@,
                    start_day_post(old(self)@.log, final(self)@.log.last().start),
                ),
            },
    {
        let ghost pre = old(self)@;
        let r = self.log.start_day();
        proof {
            lemma_focus_ok_push(pre.tasks, pre.log, self@.log);
            assert(self@ == with_log(pre, self@.log));
        }
        r
    }

    /// Starts focusing on `task_id`, which must be a task of the day; the log
    /// transition is [`Log::start_focus`]'s.
    pub fn start_focus(&mut self, task_id: TaskId) -> (r: Result<(), DayError>)
        requires
            old(self).wf(),
        ensures
            final(self).wf(),
            !has_id(old(self)@.tasks, task_id) ==> r == Err::<(), DayError>(
                DayError::TaskDoesNotExistInDay,
            ) && final(self)@ == old(self)@,
            has_id(old(self)@.tasks, task_id) ==> match start_focus_err(
                old(self)@.log,
                task_id,
            ) {
                Some(e) => r == Err::<(), DayError>(DayError::LogError(e)) && final(self)@
                    == old(self)@,
                None => r == Ok::<(), DayError>(()) && final(self)@ == with_log(
                    old(self)@,
                    start_focus_post(old(self)@.log, task_id, final(self)@.log.last().start),
                ),
            },
    {
        let ghost pre = old(self)@;
        if self.get_task(&task_id).is_none() {
            proof {
                lemma_find_has(pre.tasks, task_id);
            }
            return Err(DayError::TaskDoesNotExistInDay);
        }
        proof {
            lemma_find_has(pre.tasks, task_id);
        }
        match self.log.start_focus(task_id) {
            Ok(()) => {
                proof {
                    lemma_focus_ok_start_focus(pre.tasks, pre.log, task_id, self@.log);
                    assert(self@ == with_log(pre, self@.log));
                }
                Ok(())
            },
            Err(e) => Err(DayError::LogError(e)),
        }
    }

    /// Starts a break; the log transition is [`Log::start_unfocused`]'s.
    pub fn start_break(&mut self) -> (r: Result<(), LogError>)
        requires
            old(self).wf(),
        ensures
            final(self).wf(),
            match start_unfocused_err(old(self)@.log) {
                Some(e) => r == Err::<(), LogError>(e) && final(self)@ == old(self)@,
                None => r == Ok::<(), LogError>(()) && final(self)@ == with_log(
                    old(self)@,
                    start_unfocused_post(
                        old(self)@.log,
                        final(self)@.log.last().start,
                    ),
                ),
            },
    {
        let ghost pre = old(self)@;
        let r = self.log.start_unfocused();
        proof {
            if r is Ok {
                lemma_focus_ok_start_unfocused(pre.tasks, pre.log, self@.log);
            }
            assert(self@ == with_log(pre, self@.log));
        }
        r
    }

    /// Ends the day; the log transition is [`Log::end_day`]'s.
    pub fn end_day(&mut self) -> (r: Result<(), LogError>)
        requires
            old(self).wf(),
        ensures
            final(self).wf(),
            match end_day_err(old(self)@.log) {
                Some(e) => r == Err::<(), LogError>(e) && final(self)@ == old(self)@,
                None => r == Ok::<(), LogError>(()) && final(self)@ == with_log(
                    old(self)@,
                    end_day_post(old(self)@.log, final(self)@.log.last().start),
                ),
            },
    {
        let ghost pre = old(self)@;
        let r = self.log.end_day();
        proof {
            lemma_focus_ok_push(pre.tasks, pre.log, self@.log);
            assert(self@ == with_log(pre, self@.log));
        }
        r
    }

    /// The notes recorded so far, in recording order.
    pub fn notes(&self) -> (r: &Vec<String>)
        ensures
            r@ == self@.notes,
    {
        &self.notes
    }

    /// Appends a note; notes are never edited or removed.
    pub fn add_note(&mut self, note: String)
        requires
            old(self).wf(),
        ensures
            final(self).wf(),
            final(self)@ == (DayView { notes: old(self)@.notes.push(note), ..old(self)@ }),
    {
        self.notes.push(note)
    }
}

/// Membership test: does some task of `tasks` carry `id`?
pub fn tasks_have_id(tasks: &Vec<Task>, id: &TaskId) -> (r: bool)
    ensures
        r == has_id(tasks@, *id),
{
    let mut k: usize = 0;
    while k < tasks.len()
        invariant
            k <= tasks.len(),
            forall|j: int| 0 <= j < k ==> tasks@[j].id != *id,
        decreases tasks.len() - k,
    {
        if tasks[k].id.0 == id.0 {
            return true;
        }
        k += 1;
    }
    false
}

/// Membership test for a vector of task ids.
pub fn contains_id(ids: &Vec<TaskId>, id: &TaskId) -> (r: bool)
    ensures
        r == ids@.contains(*id),
{
    let mut k: usize = 0;
    while k < ids.len()
        invariant
            k <= ids.len(),
            forall|j: int| 0 <= j < k ==> ids@[j] != *id,
        decreases ids.len() - k,
    {
        if ids[k].0 == id.0 {
            return true;
        }
        k += 1;
    }
    false
}

/// Updating a task in place with one of the same id preserves day
/// well-formedness, whatever the other containers hold.
proof fn lemma_wf_after_update(pre: DayView, task: Task, i: int)
    requires
        day_wf(pre),
        0 <= i < pre.tasks.len(),
        pre.tasks[i].id == task.id,
    ensures
        day_wf(DayView { tasks: pre.tasks.update(i, task), ..pre }),
{
    let post = pre.tasks.update(i, task);
    assert forall|x: TaskId| has_id(pre.tasks, x) implies has_id(post, x) by {
        let w = choose|j: int| 0 <= j < pre.tasks.len() && pre.tasks[j].id == x;
        if w == i {
            assert(post[i].id == x);
        } else {
            assert(post[w].id == x);
        }
    }
}

/// Appending a task under a fresh id preserves day well-formedness.
proof fn lemma_wf_after_push(pre: DayView, task: Task)
    requires
        day_wf(pre),
        !has_id(pre.tasks, task.id),
    ensures
        day_wf(DayView { tasks: pre.tasks.push(task), ..pre }),
{
    let post = pre.tasks.push(task);
    assert forall|x: TaskId| has_id(pre.tasks, x) implies has_id(post, x) by {
        let w = choose|j: int| 0 <= j < pre.tasks.len() && pre.tasks[j].id == x;
        assert(post[w].id == x);
    }
    assert forall|i: int, j: int| 0 <= i < j < post.len() implies post[i].id != post[j].id by {
        if j == pre.tasks.len() as int {
            assert(post[i] == pre.tasks[i]);
        }
    }
}

/// A log transition that only appends entries whose focus ids are already
/// sound keeps every focus id sound.  This covers `start_day` and `end_day`,
/// which append an `Unfocused` or `DayEnded` entry.
proof fn lemma_focus_ok_push(tasks: Seq<Task>, pre: Seq<Entry>, post: Seq<Entry>)
    requires
        forall|i: int| 0 <= i < pre.len() ==> focus_id_ok(tasks, #[trigger] pre[i].type_),
        post == pre || exists|e: Entry|
            !(e.type_ matches EntryType::Focus(_)) && post == pre.push(e),
    ensures
        forall|i: int| 0 <= i < post.len() ==> focus_id_ok(tasks, #[trigger] post[i].type_),
{
    if post != pre {
        let e = choose|e: Entry|
            !(e.type_ matches EntryType::Focus(_)) && post == pre.push(e);
        assert forall|i: int| 0 <= i < post.len() implies focus_id_ok(
            tasks,
            #[trigger] post[i].type_,
        ) by {
            if i < pre.len() {
                assert(post[i] == pre[i]);
            }
        }
    }
}

/// The `start_unfocused` transition keeps every focus id sound: it only
/// removes entries or appends `Unfocused` ones.
proof fn lemma_focus_ok_start_unfocused(tasks: Seq<Task>, pre: Seq<Entry>, post: Seq<Entry>)
    requires
        forall|i: int| 0 <= i < pre.len() ==> focus_id_ok(tasks, #[trigger] pre[i].type_),
        log_wf(pre),
        exists|now: crate::time::Timestamp| post == start_unfocused_post(pre, now),
    ensures
        forall|i: int| 0 <= i < post.len() ==> focus_id_ok(tasks, #[trigger] post[i].type_),
{
    let now = choose|now: crate::time::Timestamp| post == start_unfocused_post(pre, now);
    assert forall|i: int| 0 <= i < post.len() implies focus_id_ok(
        tasks,
        #[trigger] post[i].type_,
    ) by {
        if i < pre.len() - 1 {
            assert(post[i] == pre[i]);
        } else if i < pre.len() && post[i] == pre[i] {
        } else {
            assert(post[i].type_ == EntryType::Unfocused || post[i] == pre[i]);
        }
    }
}

/// The `start_focus` transition keeps every focus id sound, provided the
/// newly focused task belongs to the day.
proof fn lemma_focus_ok_start_focus(
    tasks: Seq<Task>,
    pre: Seq<Entry>,
    task_id: TaskId,
    post: Seq<Entry>,
)
    requires
        forall|i: int| 0 <= i < pre.len() ==> focus_id_ok(tasks, #[trigger] pre[i].type_),
        log_wf(pre),
        has_id(tasks, task_id),
        exists|now: crate::time::Timestamp| post == start_focus_post(pre, task_id, now),
    ensures
        forall|i: int| 0 <= i < post.len() ==> focus_id_ok(tasks, #[trigger] post[i].type_),
{
    let now = choose|now: crate::time::Timestamp|
        post == start_focus_post(pre, task_id, now);
    assert forall|i: int| 0 <= i < post.len() implies focus_id_ok(
        tasks,
        #[trigger] post[i].type_,
    ) by {
        if i < pre.len() - 1 {
            assert(post[i] == pre[i]);
        } else {
            assert(post[i] == pre[i] || post[i].type_ == EntryType::Unfocused || post[i].type_
                == EntryType::Focus(task_id));
        }
    }
}

impl Day {
    /// Rebuilds a day from stored parts, refusing any combination that the
    /// operations above could not have produced: duplicate task ids, ranked
    /// or logged ids that name no task, or an overlong priority list.
    pub fn from_parts(tasks: Vec<Task>, priorities: Vec<TaskId>, log: Log, notes: Vec<String>) -> (r:
        Option<Day>)
        requires
            log.wf(),
        ensures
            ({
                let v = DayView { tasks: tasks@, priorities: priorities@, log: log@, notes: notes@ };
                match r {
                    Some(d) => d@ == v && d.wf(),
                    None => !day_wf(v),
                }
            }),
    {
        let ghost v = DayView {
            tasks: tasks@,
            priorities: priorities@,
            log: log@,
            notes: notes@,
        };
        let n = tasks.len();
        let mut i: usize = 0;
        while i < n
            invariant
                n == tasks@.len(),
                i <= n,
                forall|a: int, b: int| 0 <= a < b < n && a < i ==> tasks@[a].id != tasks@[b].id,
            decreases n - i,
        {
            let mut j: usize = i + 1;
            while j < n
                invariant
                    n == tasks@.len(),
                    i < n,
                    i + 1 <= j <= n,
                    forall|b: int| i < b < j ==> tasks@[i as int].id != tasks@[b].id,
                decreases n - j,
            {
                if tasks[i].id.0 == tasks[j].id.0 {
                    return None;
                }
                j += 1;
            }
            i += 1;
        }
        if priorities.len() > MAX_PRIORITIES {
            return None;
        }
        let mut k: usize = 0;
        while k < priorities.len()
            invariant
                k <= priorities@.len(),
                forall|j: int| 0 <= j < k ==> has_id(tasks@, #[trigger] priorities@[j]),
            decreases priorities.len() - k,
        {
            if !tasks_have_id(&tasks, &priorities[k]) {
                return None;
            }
            k += 1;
        }
        let entries = log.entries();
        let mut k: usize = 0;
        while k < entries.len()
            invariant
                entries@ == log@,
                k <= entries@.len(),
                forall|j: int| 0 <= j < k ==> focus_id_ok(tasks@, #[trigger] entries@[j].type_),
            decreases entries.len() - k,
        {
            let e = entries[k];
            match e.type_ {
                EntryType::Focus(task_id) => {
                    if !tasks_have_id(&tasks, &task_id) {
                        return None;
                    }
                },
                _ => {},
            }
            k += 1;
        }
        Some(Day { tasks, priorities, log, notes })
    }
}

impl Default for Day {
    /// A fresh day: every container empty, trivially well-formed.
    fn default() -> (r: Self)
        ensures
            r@ == empty_day_view(),
            r.wf(),
    {
        let day = Day {
            tasks: Vec::new(),
            priorities: Vec::new(),
            log: Log::default(),
            notes: Vec::new(),
        };
        proof {
            assert(day@.tasks =~= empty_day_view().tasks);
            assert(day@.priorities =~= empty_day_view().priorities);
            assert(day@.log =~= empty_day_view().log);
            assert(day@.notes =~= empty_day_view().notes);
        }
        day
    }
}

impl Clone for Day {
    fn clone(&self) -> (r: Self)
        ensures
            r@ == self@,
    {
        let tasks = self.tasks.clone();
        let priorities = self.priorities.clone();
        let notes = self.notes.clone();
        proof {
            assert forall|i: int| 0 <= i < self.tasks@.len() implies tasks@[i]
                == self.tasks@[i] by {
                assert(vstd::pervasive::cloned::<Task>(self.tasks@[i], tasks@[i]));
            }
            assert(tasks@ =~= self.tasks@);
            assert forall|i: int| 0 <= i < self.priorities@.len() implies priorities@[i]
                == self.priorities@[i] by {
                assert(vstd::pervasive::cloned::<TaskId>(self.priorities@[i], priorities@[i]));
            }
            assert(priorities@ =~= self.priorities@);
            assert forall|i: int| 0 <= i < self.notes@.len() implies notes@[i]
                == self.notes@[i] by {
                assert(vstd::pervasive::cloned::<String>(self.notes@[i], notes@[i]));
            }
            assert(notes@ =~= self.notes@);
        }
        Day { tasks, priorities, log: self.log.clone(), notes }
    }
}

} // verus!
