use tasksrus::{Database, Date, Error, Scheduled, Task};

#[test]
fn created_task_reads_back_equal() -> Result<(), Error> {
    let mut db = Database::new();
    let first = db.new_task()?;
    let second = db.new_task()?;
    assert_eq!(db.get_task(first.id)?, first);
    assert_eq!(db.get_task(second.id)?, second);
    Ok(())
}

#[test]
fn ids_strictly_increase() -> Result<(), Error> {
    let mut db = Database::new();
    let a = db.new_task()?;
    let mut b = db.new_task()?;
    b.deleted = Some(Date::from_ymd(2024, 6, 1).unwrap());
    db.update_task(&b)?;
    db.link(&a, &b)?;
    let c = db.new_task()?;
    assert!(a.id < b.id && b.id < c.id);
    assert_eq!((a.id, b.id, c.id), (1, 2, 3));
    Ok(())
}

#[test]
fn get_missing_task_is_not_found() {
    let db = Database::new();
    assert_eq!(db.get_task(7), Err(Error::NotFound(7)));
}

#[test]
fn update_missing_task_is_not_found() -> Result<(), Error> {
    let mut db = Database::new();
    let a = db.new_task()?;
    let mut other = a.clone();
    other.id = 5;
    other.title = "ghost".to_string();
    assert_eq!(db.update_task(&other), Err(Error::NotFound(5)));
    assert_eq!(db.get_task(1)?, a);
    Ok(())
}

#[test]
fn update_overwrites_the_whole_record() -> Result<(), Error> {
    let mut db = Database::new();
    let _a = db.new_task()?;
    let mut b = db.new_task()?;
    b.title = "title".to_string();
    b.description = "details".to_string();
    b.scheduled = Scheduled::Someday;
    b.completed = Some(Date::from_ymd(2023, 7, 4).unwrap());
    db.update_task(&b)?;
    assert_eq!(db.get_task(2)?, b);
    assert_eq!(db.get_task(1)?.title, "");
    Ok(())
}

fn blank(id: i64) -> Task {
    Task {
        id,
        title: String::new(),
        description: String::new(),
        scheduled: Scheduled::Anytime,
        completed: None,
        deleted: None,
    }
}

#[test]
fn restore_rebuilds_consistent_contents() -> Result<(), Error> {
    let mut db = Database::restore(vec![blank(2), blank(5)], vec![(2, 5), (2, 5)], 9)?;
    assert_eq!(db.root_tasks(), vec![blank(2)]);
    assert_eq!(db.children(&blank(2)), vec![blank(5)]);
    let next = db.new_task()?;
    assert_eq!(next.id, 9);
    Ok(())
}

#[test]
fn restore_rejects_inconsistent_contents() {
    assert!(matches!(
        Database::restore(vec![blank(5), blank(2)], vec![], 9),
        Err(Error::InvalidEncoding)
    ));
    assert!(matches!(
        Database::restore(vec![blank(2), blank(2)], vec![], 9),
        Err(Error::InvalidEncoding)
    ));
    assert!(matches!(
        Database::restore(vec![blank(2)], vec![(2, 3)], 9),
        Err(Error::InvalidEncoding)
    ));
    assert!(matches!(
        Database::restore(vec![blank(2)], vec![], 2),
        Err(Error::InvalidEncoding)
    ));
    assert!(matches!(
        Database::restore(vec![blank(0)], vec![], 2),
        Err(Error::InvalidEncoding)
    ));
}

#[test]
fn exhausted_ids_fail_creation() -> Result<(), Error> {
    let mut db = Database::restore(vec![blank(i64::MAX - 1)], vec![], i64::MAX)?;
    assert!(matches!(db.new_task(), Err(Error::BackendFailure)));
    assert_eq!(db.root_tasks(), vec![blank(i64::MAX - 1)]);
    Ok(())
}
