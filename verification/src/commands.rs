use vstd::prelude::*;

use crate::database::{has_context, Database, Date};
use crate::day::{find_task, has_id, upsert_task, with_log, DayError, DayView};
use crate::edit_day_guard::{loaded_view, EditDayGuard};
use crate::focus::Focus;
use crate::log::{
    end_day_err, end_day_post, start_day_err, start_day_post, start_focus_err, start_focus_post,
    start_unfocused_err, start_unfocused_post, LogError,
};
use crate::task::{Task, TaskId};

verus! {

/// The database stores exactly `v` under `date`.
pub open spec fn stores(db: &Database, date: Date, v: DayView) -> bool {
    match db.spec_get(date) {
        Some(d) => d@ == v,
        None => false,
    }
}

/// What every command leaves alone: the database stays well-formed, the
/// current context stays current, and no other date's day changes.
pub open spec fn same_elsewhere(pre: &Database, post: &Database, date: Date) -> bool {
    &&& post.wf()
    &&& post.context_view() == pre.context_view()
    &&& forall|other: Date| other != date ==> post.spec_get(other) == pre.spec_get(other)
}

/// Appends a note to the day of `date`; an edit session is opened and closed
/// around the single mutation, so the day is stored back even when it did
/// not exist before.
pub fn add_note(database: &mut Database, date: Date, note: String)
    requires
        old(database).wf(),
    ensures
        same_elsewhere(old(database), final(database), date),
        ({
            let v0 = loaded_view(old(database), date);
            stores(final(database), date, DayView { notes: v0.notes.push(note), ..v0 })
        }),
{
    let mut guard = EditDayGuard::new(database, date);
    guard.day.add_note(note);
    guard.close(database);
}

/// Appends a note to the day of `date`, reading and writing the store
/// directly; same effect as [`add_note`].
pub fn note(database: &mut Database, date: Date, note: String)
    requires
        old(database).wf(),
    ensures
        same_elsewhere(old(database), final(database), date),
        ({
            let v0 = loaded_view(old(database), date);
            stores(final(database), date, DayView { notes: v0.notes.push(note), ..v0 })
        }),
{
    let mut day = match database.get(&date) {
        Some(d) => d.clone(),
        None => crate::day::Day::default(),
    };
    day.add_note(note);
    database.set(date, day);
}

/// Marks the priority at `id` (zero-based) as done.
pub fn tick(database: &mut Database, date: Date, id: usize) -> (r: Result<(), DayError>)
    requires
        old(database).wf(),
    ensures
        same_elsewhere(old(database), final(database), date),
        ({
            let v0 = loaded_view(old(database), date);
            if id >= v0.priorities.len() {
                r == Err::<(), DayError>(DayError::InvalidPriorityId) && stores(
                    final(database),
                    date,
                    v0,
                )
            } else {
                match find_task(v0.tasks, v0.priorities[id as int]) {
                    Some(t) => r == Ok::<(), DayError>(()) && stores(
                        final(database),
                        date,
                        DayView { tasks: upsert_task(v0.tasks, Task { done: true, ..t }), ..v0 },
                    ),
                    None => false,
                }
            }
        }),
{
    set_tick(database, date, id, true)
}

/// Marks the priority at `id` (zero-based) as not done.
pub fn un_tick(database: &mut Database, date: Date, id: usize) -> (r: Result<(), DayError>)
    requires
        old(database).wf(),
    ensures
        same_elsewhere(old(database), final(database), date),
        ({
            let v0 = loaded_view(old(database), date);
            if id >= v0.priorities.len() {
                r == Err::<(), DayError>(DayError::InvalidPriorityId) && stores(
                    final(database),
                    date,
                    v0,
                )
            } else {
                match find_task(v0.tasks, v0.priorities[id as int]) {
                    Some(t) => r == Ok::<(), DayError>(()) && stores(
                        final(database),
                        date,
                        DayView { tasks: upsert_task(v0.tasks, Task { done: false, ..t }), ..v0 },
                    ),
                    None => false,
                }
            }
        }),
{
    set_tick(database, date, id, false)
}

/// Sets the completion flag of the priority at `id`.  The session is stored
/// back on every path, also when the id is rejected.
fn set_tick(database: &mut Database, date: Date, id: usize, state: bool) -> (r: Result<
    (),
    DayError,
>)
    requires
        old(database).wf(),
    ensures
        same_elsewhere(old(database), final(database), date),
        ({
            let v0 = loaded_view(old(database), date);
            if id >= v0.priorities.len() {
                r == Err::<(), DayError>(DayError::InvalidPriorityId) && stores(
                    final(database),
                    date,
                    v0,
                )
            } else {
                match find_task(v0.tasks, v0.priorities[id as int]) {
                    Some(t) => r == Ok::<(), DayError>(()) && stores(
                        final(database),
                        date,
                        DayView { tasks: upsert_task(v0.tasks, Task { done: state, ..t }), ..v0 },
                    ),
                    None => false,
                }
            }
        }),
{
    let ghost v0 = loaded_view(old(database), date);
    let mut guard = EditDayGuard::new(database, date);
    let r = if id >= guard.day.priorities().len() {
        Err(DayError::InvalidPriorityId)
    } else {
        let task_id = guard.day.priorities()[id];
        proof {
            assert(has_id(v0.tasks, v0.priorities[id as int]));
            crate::day::lemma_find_has(v0.tasks, v0.priorities[id as int]);
        }
        let found = guard.day.get_task(&task_id);
        let mut task = found.unwrap().clone();
        task.done = state;
        let ghost t = find_task(v0.tasks, v0.priorities[id as int])->Some_0;
        proof {
            assert(task == Task { done: state, ..t });
        }
        guard.day.insert_task(task);
        Ok(())
    };
    guard.close(database);
    r
}

/// Switches the database to `context`, creating the context when new; every
/// other context and all stored days are left untouched, as in
/// [`Database::set_context`].
pub fn set_context(database: &mut Database, context: String)
    requires
        old(database).wf(),
    ensures
        final(database).wf(),
        final(database).context_view() == context@,
        has_context(old(database).contexts_view(), context@) ==> final(database).contexts_view()
            == old(database).contexts_view(),
        !has_context(old(database).contexts_view(), context@) ==> ({
            let cs0 = old(database).contexts_view();
            let cs1 = final(database).contexts_view();
            &&& cs1.len() == cs0.len() + 1
            &&& cs1.drop_last() == cs0
            &&& cs1.last().name == context
            &&& cs1.last().days@.len() == 0
        }),
{
    database.set_context(context)
}

/// Starts focusing, either on a ranked priority or on a task created on the
/// spot; the day is stored back on every path.  The new-task form can only
/// fail on the freshly drawn id colliding with a stored id; since a drawn id
/// is never zero, it is owed success whenever every stored task carries the
/// zero id — in particular on a fresh or empty day.
pub fn set_focus(database: &mut Database, date: Date, focus: Focus) -> (r: Result<(), DayError>)
    requires
        old(database).wf(),
    ensures
        same_elsewhere(old(database), final(database), date),
        ({
            let v0 = loaded_view(old(database), date);
            ((focus matches Focus::Other(_)) && (forall|i: int|
                0 <= i < v0.tasks.len() ==> (#[trigger] v0.tasks[i]).id.0 == 0)) ==> r
                == Ok::<(), DayError>(())
        }),
        ({
            let v0 = loaded_view(old(database), date);
            match focus {
                Focus::Priority(id) => {
                    if id >= v0.priorities.len() {
                        r == Err::<(), DayError>(DayError::InvalidPriorityId) && stores(
                            final(database),
                            date,
                            v0,
                        )
                    } else {
                        let tid = v0.priorities[id as int];
                        match start_focus_err(v0.log, tid) {
                            Some(e) => r == Err::<(), DayError>(DayError::LogError(e))
                                && stores(final(database), date, v0),
                            None => r == Ok::<(), DayError>(()) && match final(database).spec_get(date) {
                                Some(d) => d@ == with_log(
                                    v0,
                                    start_focus_post(v0.log, tid, d@.log.last().start),
                                ),
                                None => false,
                            },
                        }
                    }
                },
                Focus::Other(name) => {
                    ||| (r == Err::<(), DayError>(DayError::TaskAlreadyExistsInDay) && stores(
                        final(database),
                        date,
                        v0,
                    ))
                    ||| (r == Ok::<(), DayError>(()) && match final(database).spec_get(date) {
                        Some(d) => exists|t: Task|
                            t.name == name && t.done == false && !has_id(v0.tasks, t.id) && d@
                                == (DayView {
                                tasks: #[trigger] upsert_task(v0.tasks, t),
                                log: start_focus_post(v0.log, t.id, d@.log.last().start),
                                ..v0
                            }),
                        None => false,
                    })
                },
            }
        }),
{
    let ghost v0 = loaded_view(old(database), date);
    let mut guard = EditDayGuard::new(database, date);
    match focus {
        Focus::Priority(id) => {
            if id >= guard.day.priorities().len() {
                guard.close(database);
                return Err(DayError::InvalidPriorityId);
            }
            let task_id = guard.day.priorities()[id];
            proof {
                assert(has_id(v0.tasks, v0.priorities[id as int]));
            }
            let r = match guard.day.start_focus(task_id) {
                Ok(()) => Ok(()),
                Err(e) => {
                    proof {
                        assert(e matches DayError::LogError(_));
                    }
                    Err(e)
                },
            };
            guard.close(database);
            r
        },
        Focus::Other(name) => {
            let task = Task::new(name);
            let task_id = task.id;
            if guard.day.get_task(&task_id).is_some() {
                proof {
                    crate::day::lemma_find_has(v0.tasks, task_id);
                    if forall|i: int|
                        0 <= i < v0.tasks.len() ==> (#[trigger] v0.tasks[i]).id.0 == 0 {
                        let w = choose|i: int|
                            0 <= i < v0.tasks.len() && v0.tasks[i].id == task_id;
                        assert(v0.tasks[w].id.0 == 0);
                        assert(false);
                    }
                }
                guard.close(database);
                return Err(DayError::TaskAlreadyExistsInDay);
            }
            proof {
                crate::day::lemma_find_has(v0.tasks, task_id);
            }
            let ghost t = task;
            guard.day.insert_task(task);
            let r2 = guard.day.start_focus(task_id);
            proof {
                if r2 is Err {
                    crate::day::lemma_upsert_find(v0.tasks, t, t.id);
                    crate::day::lemma_find_has(upsert_task(v0.tasks, t), t.id);
                    assert(has_id(upsert_task(v0.tasks, t), task_id));
                    assert(start_focus_err(v0.log, task_id) is Some);
                    assert(v0.log.len() > 0 && v0.log.last().type_
                        == crate::log::EntryType::Focus(task_id));
                    assert(crate::day::focus_id_ok(
                        v0.tasks,
                        v0.log[v0.log.len() - 1].type_,
                    ));
                    assert(false);
                }
            }
            guard.close(database);
            proof {
                let d = database.spec_get(date)->Some_0;
                assert(!t.done && !has_id(v0.tasks, t.id) && d@ == (DayView {
                    tasks: upsert_task(v0.tasks, t),
                    log: start_focus_post(v0.log, t.id, d@.log.last().start),
                    ..v0
                }));
            }
            Ok(())
        },
    }
}

/// Creates a task under `name` for the day of `date`.  The only failure is
/// the freshly drawn id colliding with a stored id; since a drawn id is
/// never zero, the call is owed success whenever every stored task carries
/// the zero id — in particular on a fresh or empty day.
pub fn add_task(database: &mut Database, date: Date, name: String) -> (r: Result<(), DayError>)
    requires
        old(database).wf(),
    ensures
        same_elsewhere(old(database), final(database), date),
        ({
            let v0 = loaded_view(old(database), date);
            (forall|i: int| 0 <= i < v0.tasks.len() ==> (#[trigger] v0.tasks[i]).id.0 == 0)
                ==> r == Ok::<(), DayError>(())
        }),
        ({
            let v0 = loaded_view(old(database), date);
            ||| (r == Err::<(), DayError>(DayError::TaskAlreadyExistsInDay) && stores(
                final(database),
                date,
                v0,
            ))
            ||| (r == Ok::<(), DayError>(()) && match final(database).spec_get(date) {
                Some(d) => exists|t: Task|
                    t.name == name && t.done == false && !has_id(v0.tasks, t.id) && d@
                        == (DayView { tasks: #[trigger] upsert_task(v0.tasks, t), ..v0 }),
                None => false,
            })
        }),
{
    let ghost v0 = loaded_view(old(database), date);
    let mut guard = EditDayGuard::new(database, date);
    let task = Task::new(name);
    let task_id = task.id;
    if guard.day.get_task(&task_id).is_some() {
        proof {
            crate::day::lemma_find_has(v0.tasks, task_id);
            if forall|i: int| 0 <= i < v0.tasks.len() ==> (#[trigger] v0.tasks[i]).id.0 == 0 {
                let w = choose|i: int| 0 <= i < v0.tasks.len() && v0.tasks[i].id == task_id;
                assert(v0.tasks[w].id.0 == 0);
                assert(false);
            }
        }
        guard.close(database);
        return Err(DayError::TaskAlreadyExistsInDay);
    }
    proof {
        crate::day::lemma_find_has(v0.tasks, task_id);
    }
    let ghost t = task;
    guard.day.insert_task(task);
    guard.close(database);
    proof {
        let d = database.spec_get(date)->Some_0;
        assert(!has_id(v0.tasks, t.id) && d@ == (DayView {
            tasks: upsert_task(v0.tasks, t),
            ..v0
        }));
    }
    Ok(())
}

/// Opens the day of `date` in its log; the day is stored back on every path.
pub fn start_day(database: &mut Database, date: Date) -> (r: Result<(), LogError>)
    requires
        old(database).wf(),
    ensures
        same_elsewhere(old(database), final(database), date),
        ({
            let v0 = loaded_view(old(database), date);
            match start_day_err(v0.log) {
                Some(e) => r == Err::<(), LogError>(e) && stores(final(database), date, v0),
                None => r == Ok::<(), LogError>(()) && match final(database).spec_get(date) {
                    Some(d) => d@ == with_log(
                        v0,
                        start_day_post(v0.log, d@.log.last().start),
                    ),
                    None => false,
                },
            }
        }),
{
    let mut guard = EditDayGuard::new(database, date);
    let r = guard.day.start_day();
    guard.close(database);
    r
}

/// Starts a break for the day of `date`; the day is stored back on every
/// path.
pub fn start_break(database: &mut Database, date: Date) -> (r: Result<(), LogError>)
    requires
        old(database).wf(),
    ensures
        same_elsewhere(old(database), final(database), date),
        ({
            let v0 = loaded_view(old(database), date);
            match start_unfocused_err(v0.log) {
                Some(e) => r == Err::<(), LogError>(e) && stores(final(database), date, v0),
                None => r == Ok::<(), LogError>(()) && match final(database).spec_get(date) {
                    Some(d) => d@ == with_log(
                        v0,
                        start_unfocused_post(v0.log, d@.log.last().start),
                    ),
                    None => false,
                },
            }
        }),
{
    let mut guard = EditDayGuard::new(database, date);
    let r = guard.day.start_break();
    guard.close(database);
    r
}

/// Ends the day of `date`; the day is stored back on every path.
pub fn end_day(database: &mut Database, date: Date) -> (r: Result<(), LogError>)
    requires
        old(database).wf(),
    ensures
        same_elsewhere(old(database), final(database), date),
        ({
            let v0 = loaded_view(old(database), date);
            match end_day_err(v0.log) {
                Some(e) => r == Err::<(), LogError>(e) && stores(final(database), date, v0),
                None => r == Ok::<(), LogError>(()) && match final(database).spec_get(date) {
                    Some(d) => d@ == with_log(v0, end_day_post(v0.log, d@.log.last().start)),
                    None => false,
                },
            }
        }),
{
    let mut guard = EditDayGuard::new(database, date);
    let r = guard.day.end_day();
    guard.close(database);
    r
}

/// Upserting the tasks of `ts` into `s`, front first.
pub open spec fn upsert_all(s: Seq<Task>, ts: Seq<Task>) -> Seq<Task>
    decreases ts.len(),
{
    if ts.len() == 0 {
        s
    } else {
        upsert_all(upsert_task(s, ts[0]), ts.drop_first())
    }
}

/// Copies the tasks of one day into another: finished tasks only when asked
/// for; a missing source day contributes nothing.  The target day is stored
/// back in any case.
pub fn copy_tasks(
    database: &mut Database,
    date_from: &Date,
    date_to: &Date,
    include_finished: bool,
)
    requires
        old(database).wf(),
    ensures
        same_elsewhere(old(database), final(database), *date_to),
        ({
            let src = loaded_view(old(database), *date_from).tasks.filter(
                |t: Task| include_finished || !t.done,
            );
            let v0 = loaded_view(old(database), *date_to);
            stores(final(database), *date_to, DayView { tasks: upsert_all(v0.tasks, src), ..v0 })
        }),
{
    let ghost pred = |t: Task| include_finished || !t.done;
    let mut src: Vec<Task> = Vec::new();
    match database.get(date_from) {
        None => {
            proof {
                reveal_with_fuel(Seq::filter, 1);
                assert(src@ =~= loaded_view(database, *date_from).tasks.filter(pred));
            }
        },
        Some(d) => {
            let from_tasks = d.tasks();
            let mut k: usize = 0;
            proof {
                assert(d@.tasks.take(0) =~= Seq::<Task>::empty());
                reveal_with_fuel(Seq::filter, 1);
                assert(src@ =~= d@.tasks.take(0).filter(pred));
            }
            while k < from_tasks.len()
                invariant
                    pred == (|t: Task| include_finished || !t.done),
                    from_tasks@.len() == d@.tasks.len(),
                    forall|i: int| 0 <= i < from_tasks@.len() ==> *from_tasks@[i] == d@.tasks[i],
                    k <= from_tasks@.len(),
                    src@ == d@.tasks.take(k as int).filter(pred),
                decreases from_tasks.len() - k,
            {
                let ghost prefix = d@.tasks.take(k as int);
                let ghost next = d@.tasks.take(k as int + 1);
                proof {
                    assert(next.drop_last() =~= prefix);
                    assert(next.last() == d@.tasks[k as int]);
                    reveal_with_fuel(Seq::filter, 2);
                }
                let t = from_tasks[k];
                if include_finished || !t.done {
                    src.push(t.clone());
                    proof {
                        assert(src@ =~= next.filter(pred));
                    }
                } else {
                    proof {
                        assert(src@ =~= next.filter(pred));
                    }
                }
                k += 1;
            }
            proof {
                assert(d@.tasks.take(d@.tasks.len() as int) =~= d@.tasks);
            }
        },
    }
    let ghost srcseq = src@;
    let ghost v0 = loaded_view(database, *date_to);
    let mut guard = EditDayGuard::new(database, *date_to);
    proof {
        assert(src@.skip(0) =~= src@);
    }
    let mut k: usize = 0;
    while k < src.len()
        invariant
            srcseq == src@,
            k <= src@.len(),
            guard.day.wf(),
            guard.date == *date_to,
            guard.day@.priorities == v0.priorities,
            guard.day@.log == v0.log,
            guard.day@.notes == v0.notes,
            upsert_all(guard.day@.tasks, src@.skip(k as int)) == upsert_all(v0.tasks, src@),
        decreases src.len() - k,
    {
        let ghost before = guard.day@.tasks;
        let ghost rest = src@.skip(k as int);
        guard.day.insert_task(src[k].clone());
        proof {
            assert(rest[0] == src@[k as int]);
            assert(rest.drop_first() =~= src@.skip(k as int + 1));
            assert(upsert_all(before, rest) == upsert_all(
                upsert_task(before, src@[k as int]),
                src@.skip(k as int + 1),
            ));
        }
        k += 1;
    }
    proof {
        assert(src@.skip(src@.len() as int) =~= Seq::<Task>::empty());
    }
    guard.close(database);
}

/// Removes the task at `choice` from `remaining` and appends its id to
/// `ordered`: one step of ranking tasks into a priority list.
pub fn pick_task(remaining: &mut Vec<Task>, ordered: &mut Vec<TaskId>, choice: usize) -> (r:
    Result<(), DayError>)
    ensures
        choice >= old(remaining)@.len() ==> r == Err::<(), DayError>(
            DayError::InvalidPriorityId,
        ) && final(remaining)@ == old(remaining)@ && final(ordered)@ == old(ordered)@,
        choice < old(remaining)@.len() ==> r == Ok::<(), DayError>(()) && final(remaining)@
            == old(remaining)@.remove(choice as int) && final(ordered)@ == old(ordered)@.push(
            old(remaining)@[choice as int].id,
        ),
{
    if choice >= remaining.len() {
        return Err(DayError::InvalidPriorityId);
    }
    let t = remaining.remove(choice);
    ordered.push(t.id);
    Ok(())
}

} // verus!
