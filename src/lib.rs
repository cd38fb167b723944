//! A personal task store: tasks with schedules and completion/deletion dates,
//! a parent/child link graph, and the views that bucket tasks into Inbox,
//! Today, Upcoming, Anytime, Someday, Logbook and Trash.
//!
//! The store keeps its records in memory; the persisted text of a task (its
//! schedule and dates) is read and written through `Task::from_row` and
//! `Task::to_row`, and `pending_migrations` plans schema upgrades.
pub mod date;
pub mod error;
pub mod laws;
pub mod migrate;
pub mod schedule;
pub mod store;
pub mod task;
pub mod text;
pub mod views;

pub use date::Date;
pub use error::{Error, TaskID};
pub use migrate::{pending_migrations, Migration};
pub use schedule::Scheduled;
pub use store::Database;
pub use task::{Task, TaskRow};
pub use views::Mode;
