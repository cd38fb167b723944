use chrono::Datelike;
use tasksrus::{Database, Date, Error, Scheduled, Task};

fn to_date(d: chrono::NaiveDate) -> Date {
    Date { year: d.year(), month: d.month(), day: d.day() }
}

fn today() -> Date {
    to_date(chrono::Local::now().date_naive())
}

#[test]
fn test_new_task() -> Result<(), Error> {
    let mut database = Database::new();
    let task = database.new_task()?;
    assert_eq!(
        task,
        Task {
            id: 1,
            title: "".into(),
            description: "".into(),
            scheduled: Scheduled::Anytime,
            completed: None,
            deleted: None,
        },
    );

    let other_new_task = database.new_task()?;
    assert_eq!(
        other_new_task,
        Task {
            id: 2,
            title: "".into(),
            description: "".into(),
            scheduled: Scheduled::Anytime,
            completed: None,
            deleted: None,
        },
    );

    Ok(())
}

#[test]
fn test_get_task() -> Result<(), Error> {
    let mut database = Database::new();

    let task = database.new_task()?;
    let retrieved_task = database.get_task(task.id)?;
    assert_eq!(task, retrieved_task);
    Ok(())
}

#[test]
fn test_inbox() -> Result<(), Error> {
    let mut database = Database::new();

    let task = database.new_task()?;
    let inbox_tasks = database.inbox();

    assert_eq!(inbox_tasks.len(), 1);
    assert_eq!(task, inbox_tasks[0]);
    Ok(())
}

#[test]
fn test_today() -> Result<(), Error> {
    let mut database = Database::new();

    let mut task = database.new_task()?;
    task.scheduled = Scheduled::Day(today());
    database.update_task(&task)?;

    let today_tasks = database.today();
    assert_eq!(today_tasks.len(), 1);
    assert_eq!(task, today_tasks[0]);

    Ok(())
}

#[test]
fn test_upcoming() -> Result<(), Error> {
    let mut database = Database::new();

    let mut task = database.new_task()?;
    let tomorrow = chrono::Local::now().date_naive() + chrono::Days::new(1);
    task.scheduled = Scheduled::Day(to_date(tomorrow));
    database.update_task(&task)?;

    {
        let mut someday_task = database.new_task()?;
        someday_task.scheduled = Scheduled::Someday;
        database.update_task(&someday_task)?;
    }

    let upcoming_tasks = database.upcoming();
    assert_eq!(upcoming_tasks.len(), 1);
    assert_eq!(task, upcoming_tasks[0]);

    Ok(())
}

#[test]
fn test_anytime() -> Result<(), Error> {
    let mut database = Database::new();

    let parent_task = database.new_task()?;
    let child_task = database.new_task()?;
    database.link(&parent_task, &child_task)?;

    let anytime_tasks = database.anytime();
    assert_eq!(anytime_tasks.len(), 1);
    assert_eq!(child_task, anytime_tasks[0]);

    Ok(())
}

#[test]
fn test_someday() -> Result<(), Error> {
    let mut database = Database::new();

    let mut task = database.new_task()?;
    task.scheduled = Scheduled::Someday;
    database.update_task(&task)?;

    let someday_tasks = database.someday();
    assert_eq!(someday_tasks.len(), 1);
    assert_eq!(task, someday_tasks[0]);

    Ok(())
}

#[test]
fn test_logbook() -> Result<(), Error> {
    let mut database = Database::new();

    let mut task = database.new_task()?;
    task.completed = Some(today());
    database.update_task(&task)?;

    let logbook_tasks = database.logbook();
    assert_eq!(logbook_tasks.len(), 1);
    assert_eq!(task, logbook_tasks[0]);

    Ok(())
}

#[test]
fn test_root_tasks() -> Result<(), Error> {
    let mut database = Database::new();

    let root_task_0 = database.new_task()?;
    let root_task_1 = database.new_task()?;
    let child_task = database.new_task()?;
    database.link(&root_task_0, &child_task)?;

    let root_tasks = database.root_tasks();
    assert_eq!(root_tasks.len(), 2);
    assert_eq!(root_task_0, root_tasks[0]);
    assert_eq!(root_task_1, root_tasks[1]);

    Ok(())
}
