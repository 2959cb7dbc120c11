use doer::breaks::{Break, BreakError, Focus as FocusPeriod};
use doer::commands;
use doer::database::{Database, Date};
use doer::day::{Day, DayError, MAX_PRIORITIES};
use doer::focus::Focus;
use doer::log::{EntryType, Log, LogError};
use doer::record::{from_record, to_record};
use doer::render::render_day;
use doer::storage::StorageError;
use doer::task::{Task, TaskId};
use doer::time::Timestamp;

fn kinds(log: &Log) -> Vec<EntryType> {
    log.entries().iter().map(|entry| entry.type_).collect()
}

#[test]
fn full_day_scenario_logs_expected_kinds() {
    let mut day = Day::default();
    let t1 = Task::new("t1".to_string());
    day.insert_task(t1.clone());
    day.start_day().unwrap();
    day.start_focus(t1.id).unwrap();
    day.start_break().unwrap();
    day.end_day().unwrap();
    assert_eq!(
        kinds(day.log()),
        vec![
            EntryType::Unfocused,
            EntryType::Focus(t1.id),
            EntryType::Unfocused,
            EntryType::DayEnded
        ]
    );
}

#[test]
fn end_day_twice_rejects_and_grows_log_by_one() {
    let mut log = Log::default();
    log.start_day().unwrap();
    let before = log.entries().len();
    assert!(log.end_day().is_ok());
    assert!(matches!(log.end_day(), Err(LogError::DayAlreadyEnded)));
    assert_eq!(log.entries().len(), before + 1);
}

#[test]
fn resume_unfocused_keeps_day_end_time() {
    let mut log = Log::default();
    let task_id = TaskId::now_v7();
    log.start_focus(task_id).unwrap();
    log.end_day().unwrap();
    let end_start = log.entries().last().unwrap().start;
    log.start_unfocused().unwrap();
    assert_eq!(
        kinds(&log),
        vec![EntryType::Focus(task_id), EntryType::Unfocused]
    );
    assert_eq!(log.entries().last().unwrap().start, end_start);
}

#[test]
fn no_adjacent_duplicate_entries_over_many_operations() {
    let mut log = Log::default();
    let a = TaskId::now_v7();
    let b = TaskId::now_v7();
    let _ = log.start_day();
    let _ = log.start_focus(a);
    let _ = log.start_focus(a);
    let _ = log.start_focus(b);
    let _ = log.start_unfocused();
    let _ = log.start_unfocused();
    let _ = log.end_day();
    let _ = log.end_day();
    let _ = log.start_focus(b);
    let _ = log.end_day();
    let _ = log.start_unfocused();
    let entries = log.entries();
    for pair in entries.windows(2) {
        assert_ne!(pair[0].type_, pair[1].type_);
    }
}

#[test]
fn set_priorities_accepts_up_to_six() {
    let mut day = Day::default();
    let mut ids = Vec::new();
    for i in 0..MAX_PRIORITIES {
        let task = Task::new(format!("t{i}"));
        ids.push(task.id);
        day.insert_task(task);
    }
    assert!(day.set_priorities(ids.clone()).is_ok());
    assert!(day.set_priorities(Vec::new()).is_ok());
}

#[test]
fn set_priorities_rejects_seven() {
    let mut day = Day::default();
    let mut ids = Vec::new();
    for i in 0..(MAX_PRIORITIES + 1) {
        let task = Task::new(format!("t{i}"));
        ids.push(task.id);
        day.insert_task(task);
    }
    assert!(matches!(
        day.set_priorities(ids),
        Err(DayError::TooManyPriorities)
    ));
}

#[test]
fn log_error_variants_are_reported() {
    let mut log = Log::default();
    assert!(matches!(log.end_day(), Err(LogError::DayNeverStarted)));
    log.start_day().unwrap();
    assert!(matches!(log.start_day(), Err(LogError::DayAlreadyStarted)));
    assert!(matches!(
        log.start_unfocused(),
        Err(LogError::AlreadyUnfocused)
    ));
    let t = TaskId::now_v7();
    log.start_focus(t).unwrap();
    assert!(matches!(
        log.start_focus(t),
        Err(LogError::AlreadyFocusedOnFocus)
    ));
    log.end_day().unwrap();
    assert!(matches!(log.end_day(), Err(LogError::DayAlreadyEnded)));
}

#[test]
fn day_start_focus_on_unknown_task_is_rejected() {
    let mut day = Day::default();
    assert!(matches!(
        day.start_focus(TaskId::now_v7()),
        Err(DayError::TaskDoesNotExistInDay)
    ));
}

#[test]
fn record_round_trips_a_populated_day() {
    let mut day = Day::default();
    let t1 = Task::new("write".to_string());
    let t2 = Task::new("rest".to_string());
    day.insert_task(t1.clone());
    day.insert_task(t2.clone());
    day.set_priorities(vec![t2.id, t1.id]).unwrap();
    day.start_day().unwrap();
    day.start_focus(t1.id).unwrap();
    day.start_break().unwrap();
    day.end_day().unwrap();
    day.add_note("went well".to_string());
    day.add_note("stopped early".to_string());

    let record = to_record(&day);
    let back = from_record(&record).unwrap();
    assert_eq!(back, day);
    assert_eq!(back.priorities(), day.priorities());
    assert_eq!(back.log().entries(), day.log().entries());
}

#[test]
fn from_record_rejects_unknown_entry_kind() {
    let day = Day::default();
    let mut record = to_record(&day);
    record.entries.push(doer::record::EntryRecord {
        kind: 9,
        task_id: 0,
        start: 0,
    });
    assert!(from_record(&record).is_none());
}

#[test]
fn from_record_rejects_duplicate_task_ids() {
    let mut day = Day::default();
    let t1 = Task::new("a".to_string());
    day.insert_task(t1.clone());
    let mut record = to_record(&day);
    let mut dup = record.tasks[0].clone();
    dup.name = "b".to_string();
    record.tasks.push(dup);
    assert!(from_record(&record).is_none());
}

#[test]
fn from_record_rejects_unknown_priority() {
    let day = Day::default();
    let mut record = to_record(&day);
    record.priorities.push(12345);
    assert!(from_record(&record).is_none());
}

#[test]
fn render_shows_three_sections_with_placeholders() {
    let day = Day::default();
    assert_eq!(render_day(&day), "No priorities\n\nNo log\n\nNo notes\n");
}

#[test]
fn render_shows_priorities_and_notes() {
    let mut day = Day::default();
    let t1 = Task::new("write report".to_string());
    let mut t2 = Task::new("file taxes".to_string());
    t2.done = true;
    day.insert_task(t1.clone());
    day.insert_task(t2.clone());
    day.set_priorities(vec![t1.id, t2.id]).unwrap();
    day.add_note("first note".to_string());
    let text = render_day(&day);
    assert_eq!(
        text,
        "Priorities:\n0. write report\n1. file taxes - done\n\nNo log\n\nNotes:\n0. first note\n"
    );
}

#[test]
fn render_marks_the_focused_priority() {
    let mut day = Day::default();
    let t1 = Task::new("deep work".to_string());
    day.insert_task(t1.clone());
    day.set_priorities(vec![t1.id]).unwrap();
    day.start_focus(t1.id).unwrap();
    let text = render_day(&day);
    assert!(text.contains("0. deep work*"));
    assert!(text.contains("\nFocus: deep work\n"));
    assert!(text.contains("Log:\n"));
    assert!(text.contains(" - deep work\n"));
}

#[test]
fn render_counts_notes_past_ten() {
    let mut day = Day::default();
    for i in 0..11 {
        day.add_note(format!("note {i}"));
    }
    let text = render_day(&day);
    assert!(text.contains("10. note 10\n"));
}

#[test]
fn commands_add_note_persists_day() {
    let mut database = Database::default();
    let date = Date::new(2024, 3, 3);
    commands::add_note(&mut database, date, "hello".to_string());
    commands::note(&mut database, date, "again".to_string());
    assert_eq!(
        database.get(&date).unwrap().notes(),
        &vec!["hello".to_string(), "again".to_string()]
    );
}

#[test]
fn commands_tick_and_un_tick_toggle_done() {
    let mut database = Database::default();
    let date = Date::new(2024, 3, 4);
    commands::add_task(&mut database, date, "chore".to_string()).unwrap();
    let id = database.get(&date).unwrap().tasks()[0].id;
    {
        let mut day = database.get(&date).unwrap().clone();
        day.set_priorities(vec![id]).unwrap();
        database.set(date, day);
    }
    commands::tick(&mut database, date, 0).unwrap();
    assert!(database.get(&date).unwrap().get_task(&id).unwrap().done);
    commands::un_tick(&mut database, date, 0).unwrap();
    assert!(!database.get(&date).unwrap().get_task(&id).unwrap().done);
}

#[test]
fn commands_tick_rejects_bad_index() {
    let mut database = Database::default();
    let date = Date::new(2024, 3, 5);
    assert!(matches!(
        commands::tick(&mut database, date, 0),
        Err(DayError::InvalidPriorityId)
    ));
    assert!(database.get(&date).is_some());
}

#[test]
fn commands_set_focus_on_priority() {
    let mut database = Database::default();
    let date = Date::new(2024, 3, 6);
    commands::add_task(&mut database, date, "plan".to_string()).unwrap();
    let id = database.get(&date).unwrap().tasks()[0].id;
    {
        let mut day = database.get(&date).unwrap().clone();
        day.set_priorities(vec![id]).unwrap();
        database.set(date, day);
    }
    commands::set_focus(&mut database, date, Focus::Priority(0)).unwrap();
    assert_eq!(database.get(&date).unwrap().focus(), Some(id));
    assert!(matches!(
        commands::set_focus(&mut database, date, Focus::Priority(3)),
        Err(DayError::InvalidPriorityId)
    ));
}

#[test]
fn commands_set_focus_on_new_task() {
    let mut database = Database::default();
    let date = Date::new(2024, 3, 7);
    commands::set_focus(&mut database, date, Focus::Other("ad hoc".to_string())).unwrap();
    let day = database.get(&date).unwrap();
    let focused = day.focus().unwrap();
    assert_eq!(day.get_task(&focused).unwrap().name, "ad hoc");
}

#[test]
fn commands_start_and_end_day() {
    let mut database = Database::default();
    let date = Date::new(2024, 3, 8);
    commands::start_day(&mut database, date).unwrap();
    commands::start_break(&mut database, date).unwrap_err();
    commands::end_day(&mut database, date).unwrap();
    assert!(matches!(
        commands::end_day(&mut database, date),
        Err(LogError::DayAlreadyEnded)
    ));
    let day = database.get(&date).unwrap();
    assert_eq!(
        kinds(day.log()),
        vec![EntryType::Unfocused, EntryType::DayEnded]
    );
}

#[test]
fn commands_copy_tasks_skips_finished_unless_asked() {
    let mut database = Database::default();
    let from = Date::new(2024, 3, 9);
    let to = Date::new(2024, 3, 10);
    let later = Date::new(2024, 3, 11);
    commands::add_task(&mut database, from, "open".to_string()).unwrap();
    commands::add_task(&mut database, from, "closed".to_string()).unwrap();
    let ids: Vec<TaskId> = database.get(&from).unwrap().tasks().iter().map(|t| t.id).collect();
    {
        let mut day = database.get(&from).unwrap().clone();
        day.set_priorities(vec![ids[1]]).unwrap();
        database.set(from, day);
    }
    commands::tick(&mut database, from, 0).unwrap();

    commands::copy_tasks(&mut database, &from, &to, false);
    let copied = database.get(&to).unwrap();
    assert_eq!(copied.tasks().len(), 1);
    assert_eq!(copied.tasks()[0].name, "open");

    commands::copy_tasks(&mut database, &from, &later, true);
    assert_eq!(database.get(&later).unwrap().tasks().len(), 2);
}

#[test]
fn commands_set_context_switches() {
    let mut database = Database::default();
    commands::set_context(&mut database, "side".to_string());
    assert_eq!(database.context(), "side");
}

#[test]
fn pick_task_moves_chosen_task() {
    let t1 = Task::new("one".to_string());
    let t2 = Task::new("two".to_string());
    let mut remaining = vec![t1.clone(), t2.clone()];
    let mut ordered: Vec<TaskId> = Vec::new();
    commands::pick_task(&mut remaining, &mut ordered, 1).unwrap();
    assert_eq!(remaining.len(), 1);
    assert_eq!(remaining[0].id, t1.id);
    assert_eq!(ordered, vec![t2.id]);
    assert!(matches!(
        commands::pick_task(&mut remaining, &mut ordered, 5),
        Err(DayError::InvalidPriorityId)
    ));
}

#[test]
fn break_can_only_end_once() {
    let mut b = Break::new(Timestamp { secs: 100 });
    assert!(b.end.is_none());
    assert!(b.end().is_ok());
    assert!(matches!(b.end(), Err(BreakError::BreakAlreadyEnded)));
}

#[test]
fn focus_period_tracks_breaks() {
    let mut f = FocusPeriod::now("work".to_string());
    assert!(matches!(f.end_break(), Err(BreakError::NoBreak)));
    f.start_break().unwrap();
    assert!(matches!(
        f.start_break(),
        Err(BreakError::LastBreakNotEnded)
    ));
    f.end_break().unwrap();
    assert!(matches!(
        f.end_break(),
        Err(BreakError::BreakAlreadyEnded)
    ));
    f.start_break().unwrap();
    assert_eq!(f.breaks.len(), 2);
}

#[test]
fn storage_error_messages() {
    assert_eq!(
        StorageError::StorageAlreadyConnected.message(),
        "A storage handler is already connected to the data"
    );
    assert_eq!(StorageError::NoLockFile.message(), "No lock file to remove");
}
