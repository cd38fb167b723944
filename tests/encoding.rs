use tasksrus::{Date, Error, Scheduled, Task, TaskRow};

fn day(year: i32, month: u32, d: u32) -> Date {
    Date::from_ymd(year, month, d).unwrap()
}

#[test]
fn schedule_text_round_trips() {
    for s in [
        Scheduled::Anytime,
        Scheduled::Someday,
        Scheduled::Day(day(2024, 2, 29)),
        Scheduled::Day(day(1, 1, 1)),
        Scheduled::Day(day(0, 1, 1)),
        Scheduled::Day(day(9999, 12, 31)),
    ] {
        assert_eq!(Scheduled::from_str(&s.to_string()), Ok(s));
    }
}

#[test]
fn schedule_texts() {
    assert_eq!(Scheduled::Anytime.to_string(), "anytime");
    assert_eq!(Scheduled::Someday.to_string(), "someday");
    assert_eq!(Scheduled::Day(day(2024, 3, 5)).to_string(), "2024-03-05");
    assert_eq!(Scheduled::from_str("someday"), Ok(Scheduled::Someday));
    assert_eq!(Scheduled::from_str("1999-12-31"), Ok(Scheduled::Day(day(1999, 12, 31))));
}

#[test]
fn schedule_rejects_other_text() {
    for bad in [
        "", "Anytime", "anytime ", "2023-02-29", "2024-1-05", "2024-01-5", " 2024-01-05",
        "+2024-01-05", "2024/01/05", "2024-13-01", "2024-00-10", "2024-04-31", "tomorrow",
    ] {
        assert_eq!(Scheduled::from_str(bad), Err(Error::InvalidEncoding), "{bad}");
    }
}

#[test]
fn dates_exist_only_on_the_calendar() {
    assert_eq!(Date::from_ymd(2024, 2, 29), Some(Date { year: 2024, month: 2, day: 29 }));
    assert_eq!(Date::from_ymd(2000, 2, 29), Some(Date { year: 2000, month: 2, day: 29 }));
    assert_eq!(Date::from_ymd(1900, 2, 29), None);
    assert_eq!(Date::from_ymd(2023, 2, 29), None);
    assert_eq!(Date::from_ymd(2024, 13, 1), None);
    assert_eq!(Date::from_ymd(2024, 6, 0), None);
    assert_eq!(Date::from_ymd(300000, 1, 1), None);
    assert_eq!(Date::from_ymd(10000, 1, 1), None);
    assert_eq!(Date::from_ymd(-1, 12, 31), None);
    assert_eq!(Date::from_ymd(0, 2, 29), Some(Date { year: 0, month: 2, day: 29 }));
}

#[test]
fn date_text_pads_years_to_four_digits() {
    assert_eq!(day(5, 1, 2).to_iso_string(), "0005-01-02");
    assert_eq!(day(0, 12, 31).to_iso_string(), "0000-12-31");
    assert_eq!(Date::parse_iso("0005-01-02"), Some(day(5, 1, 2)));
    assert_eq!(Date::parse_iso("+10000-01-01"), None);
    assert_eq!(Date::parse_iso("-0001-12-31"), None);
    for d in [day(0, 1, 1), day(5, 1, 2), day(1970, 1, 1), day(9999, 12, 31)] {
        assert_eq!(Date::parse_iso(&d.to_iso_string()), Some(d));
    }
}

#[test]
fn dates_order_by_calendar() {
    assert!(day(2024, 1, 31).is_before(&day(2024, 2, 1)));
    assert!(day(2023, 12, 31).is_before(&day(2024, 1, 1)));
    assert!(!day(2024, 1, 1).is_before(&day(2024, 1, 1)));
    assert!(!day(2024, 1, 2).is_before(&day(2024, 1, 1)));
}

#[test]
fn task_row_round_trips() {
    let t = Task {
        id: 4,
        title: "Pay rent".to_string(),
        description: "before the 5th".to_string(),
        scheduled: Scheduled::Day(day(2024, 7, 1)),
        completed: Some(day(2024, 6, 30)),
        deleted: None,
    };
    let row = t.to_row();
    assert_eq!(row.scheduled, "2024-07-01");
    assert_eq!(row.completed, Some("2024-06-30".to_string()));
    assert_eq!(row.deleted, None);
    assert_eq!(Task::from_row(&row), Ok(t));
}

#[test]
fn task_row_with_bad_text_is_invalid() {
    let row = TaskRow {
        id: 1,
        title: String::new(),
        description: String::new(),
        scheduled: "anytime".to_string(),
        completed: Some("yesterday".to_string()),
        deleted: None,
    };
    assert_eq!(Task::from_row(&row), Err(Error::InvalidEncoding));
    let row = TaskRow { scheduled: "later".to_string(), completed: None, ..row };
    assert_eq!(Task::from_row(&row), Err(Error::InvalidEncoding));
    let row = TaskRow {
        scheduled: "someday".to_string(),
        deleted: Some("2024-02-30".to_string()),
        ..row
    };
    assert_eq!(Task::from_row(&row), Err(Error::InvalidEncoding));
}

#[test]
fn validity_checks_every_date() {
    let mut t = Task {
        id: 1,
        title: String::new(),
        description: String::new(),
        scheduled: Scheduled::Day(day(2024, 2, 29)),
        completed: None,
        deleted: None,
    };
    assert!(t.is_valid());
    t.completed = Some(Date { year: 2023, month: 2, day: 29 });
    assert!(!t.is_valid());
    t.completed = None;
    t.scheduled = Scheduled::Day(Date { year: 2024, month: 4, day: 31 });
    assert!(!t.is_valid());
    assert!(!Date { year: 2024, month: 0, day: 1 }.is_valid());
    assert!(Date { year: 0, month: 2, day: 29 }.is_valid());
    assert!(!Date { year: -4, month: 2, day: 29 }.is_valid());
    assert!(!Date { year: 10000, month: 1, day: 1 }.is_valid());
}
