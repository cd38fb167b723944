use chrono::Datelike;
use tasksrus::{Database, Date, Error, Mode, Scheduled, Task};

const ALL_MODES: [Mode; 7] = [
    Mode::Inbox,
    Mode::Today,
    Mode::Upcoming,
    Mode::Anytime,
    Mode::Someday,
    Mode::Logbook,
    Mode::Trash,
];

fn day(year: i32, month: u32, d: u32) -> Date {
    Date::from_ymd(year, month, d).unwrap()
}

fn modes_listing(db: &Database, t: &Task, today: Date) -> Vec<Mode> {
    ALL_MODES
        .iter()
        .copied()
        .filter(|m| db.tasks_for_mode(*m, today).iter().any(|x| x == t))
        .collect()
}

#[test]
fn buy_milk_moves_from_inbox_to_today() -> Result<(), Error> {
    let mut db = Database::new();
    let mut t1 = db.new_task()?;
    t1.title = "Buy milk".to_string();
    db.update_task(&t1)?;
    assert_eq!(db.inbox(), vec![t1.clone()]);

    let now = chrono::Local::now().date_naive();
    t1.scheduled = Scheduled::Day(day(now.year(), now.month(), now.day()));
    db.update_task(&t1)?;
    assert_eq!(db.today(), vec![t1.clone()]);
    assert_eq!(db.inbox(), Vec::<Task>::new());
    Ok(())
}

#[test]
fn unlinked_anytime_task_is_only_in_inbox() -> Result<(), Error> {
    let mut db = Database::new();
    let t = db.new_task()?;
    assert_eq!(modes_listing(&db, &t, day(2024, 1, 1)), vec![Mode::Inbox]);
    Ok(())
}

#[test]
fn linking_moves_child_to_anytime() -> Result<(), Error> {
    let mut db = Database::new();
    let parent = db.new_task()?;
    let child = db.new_task()?;
    db.link(&parent, &child)?;
    let now = day(2024, 1, 1);
    assert_eq!(modes_listing(&db, &child, now), vec![Mode::Anytime]);
    assert_eq!(modes_listing(&db, &parent, now), Vec::<Mode>::new());
    Ok(())
}

#[test]
fn completed_task_is_in_logbook() -> Result<(), Error> {
    let mut db = Database::new();
    let now = day(2024, 3, 10);
    let mut t = db.new_task()?;
    t.scheduled = Scheduled::Day(now);
    t.completed = Some(now);
    db.update_task(&t)?;
    assert_eq!(modes_listing(&db, &t, now), vec![Mode::Logbook]);
    Ok(())
}

#[test]
fn deleted_task_is_only_in_trash() -> Result<(), Error> {
    let mut db = Database::new();
    let now = day(2024, 3, 10);
    let mut t = db.new_task()?;
    t.completed = Some(now);
    t.deleted = Some(now);
    db.update_task(&t)?;
    assert_eq!(modes_listing(&db, &t, now), vec![Mode::Trash]);
    assert_eq!(db.trash(), vec![t.clone()]);
    assert_eq!(db.logbook(), Vec::<Task>::new());
    Ok(())
}

#[test]
fn today_and_upcoming_split_by_date() -> Result<(), Error> {
    let mut db = Database::new();
    let now = day(2024, 12, 31);
    let mut past = db.new_task()?;
    past.scheduled = Scheduled::Day(day(2024, 12, 30));
    db.update_task(&past)?;
    let mut present = db.new_task()?;
    present.scheduled = Scheduled::Day(now);
    db.update_task(&present)?;
    let mut next_year = db.new_task()?;
    next_year.scheduled = Scheduled::Day(day(2025, 1, 1));
    db.update_task(&next_year)?;
    let mut next_month = db.new_task()?;
    next_month.scheduled = Scheduled::Day(day(2025, 2, 1));
    db.update_task(&next_month)?;

    assert_eq!(db.tasks_for_mode(Mode::Today, now), vec![present.clone()]);
    assert_eq!(
        db.tasks_for_mode(Mode::Upcoming, now),
        vec![next_year.clone(), next_month.clone()]
    );
    assert_eq!(db.tasks_for_mode(Mode::Inbox, now), Vec::<Task>::new());
    Ok(())
}

#[test]
fn someday_excludes_completed() -> Result<(), Error> {
    let mut db = Database::new();
    let mut a = db.new_task()?;
    a.scheduled = Scheduled::Someday;
    db.update_task(&a)?;
    let mut b = db.new_task()?;
    b.scheduled = Scheduled::Someday;
    b.completed = Some(day(2020, 2, 29));
    db.update_task(&b)?;
    assert_eq!(db.someday(), vec![a]);
    Ok(())
}

#[test]
fn search_is_case_sensitive_and_skips_deleted() -> Result<(), Error> {
    let mut db = Database::new();
    let mut a = db.new_task()?;
    a.title = "Buy milk".to_string();
    db.update_task(&a)?;
    let mut b = db.new_task()?;
    b.description = "oat milk, not cow".to_string();
    db.update_task(&b)?;
    let mut c = db.new_task()?;
    c.title = "Milk the cow".to_string();
    db.update_task(&c)?;
    let mut d = db.new_task()?;
    d.title = "milk gone".to_string();
    d.deleted = Some(day(2024, 1, 2));
    db.update_task(&d)?;

    assert_eq!(db.search("milk"), vec![a.clone(), b.clone()]);
    assert_eq!(db.search("Milk"), vec![c.clone()]);
    assert_eq!(db.search("cow"), vec![b.clone(), c.clone()]);
    assert_eq!(db.search("bread"), Vec::<Task>::new());
    assert_eq!(db.search(""), vec![a, b, c]);
    Ok(())
}

#[test]
fn search_matches_non_ascii_text() -> Result<(), Error> {
    let mut db = Database::new();
    let mut a = db.new_task()?;
    a.title = "Café au lait".to_string();
    db.update_task(&a)?;
    assert_eq!(db.search("é a"), vec![a]);
    assert_eq!(db.search("e a"), Vec::<Task>::new());
    Ok(())
}
