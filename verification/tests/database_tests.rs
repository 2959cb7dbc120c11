use doer::database::{Database, Date};
use doer::day::Day;

#[test]
fn context() {
    let database = Database::default();
    assert_eq!(database.context(), "default");
}

#[test]
fn set_context() {
    let mut database = Database::default();
    database.set_context("work".to_string());
    assert_eq!(database.context(), "work");
}

#[test]
fn get_missing_day() {
    let database = Database::default();
    let day = database.get(&Date::default());
    assert!(day.is_none());
}

#[test]
fn set_day() {
    let mut database = Database::default();
    let note = "A note";
    let date = Date::default();

    let mut day = Day::default();
    day.add_note(note.to_string());

    database.set(date.clone(), day.clone());
    let day2 = database.get(&date).unwrap();

    assert_eq!(day, *day2);
}

#[test]
fn contexts_lists_known_contexts() {
    let mut database = Database::default();
    database.set_context("work".to_string());
    database.set_context("play".to_string());
    let names = database.contexts();
    assert_eq!(
        names,
        vec![
            "default".to_string(),
            "work".to_string(),
            "play".to_string()
        ]
    );
}

#[test]
fn set_context_isolates_days() {
    let mut database = Database::default();
    let date = Date::new(2024, 5, 17);
    let mut day = Day::default();
    day.add_note("in default".to_string());
    database.set(date, day);

    database.set_context("work".to_string());
    assert!(database.get(&date).is_none());

    database.set_context("default".to_string());
    assert_eq!(
        database.get(&date).unwrap().notes(),
        &vec!["in default".to_string()]
    );
}

#[test]
fn set_context_twice_keeps_one_entry() {
    let mut database = Database::default();
    database.set_context("work".to_string());
    database.set_context("work".to_string());
    assert_eq!(
        database.contexts(),
        vec!["default".to_string(), "work".to_string()]
    );
}

#[test]
fn last_date_finds_latest_not_after_today() {
    let mut database = Database::default();
    let d1 = Date::new(2024, 5, 10);
    let d2 = Date::new(2024, 5, 20);
    let d3 = Date::new(2024, 6, 1);
    database.set(d1, Day::default());
    database.set(d2, Day::default());
    database.set(d3, Day::default());
    let today = Date::new(2024, 5, 25);
    assert_eq!(database.last_date(&today), Some(d2));
}

#[test]
fn last_date_is_none_when_everything_is_later() {
    let mut database = Database::default();
    database.set(Date::new(2030, 1, 1), Day::default());
    let today = Date::new(2024, 5, 25);
    assert_eq!(database.last_date(&today), None);
}

#[test]
fn last_date_is_none_when_empty() {
    let database = Database::default();
    assert_eq!(database.last_date(&Date::new(2024, 5, 25)), None);
}
