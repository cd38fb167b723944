use crate::date::Date;
use crate::error::TaskID;
use crate::schedule::Scheduled;
use crate::task::Task;
use crate::text::contains_text;
use vstd::prelude::*;

verus! {

/// The named views of the task set.
#[derive(Clone, Copy, Debug, PartialEq, Eq, Structural)]
pub enum Mode {
    Inbox,
    Today,
    Upcoming,
    Anytime,
    Someday,
    Logbook,
    Trash,
}

impl Mode {
    /// The view depends on the current date.
    pub open spec fn is_dated(self) -> bool {
        self is Today || self is Upcoming
    }
}

/// Some link leads into `id`: the task is organized under a parent.
pub open spec fn has_parent(links: Set<(TaskID, TaskID)>, id: TaskID) -> bool {
    exists|p: TaskID| #[trigger] links.contains((p, id))
}

/// Some link leads out of `id`: the task organizes others.
pub open spec fn has_child(links: Set<(TaskID, TaskID)>, id: TaskID) -> bool {
    exists|c: TaskID| #[trigger] links.contains((id, c))
}

/// Neither completed nor deleted.
pub open spec fn is_open(t: Task) -> bool {
    t.completed is None && t.deleted is None
}

/// Whether task `t` belongs to view `mode`, given the links and today's date.
pub open spec fn member(mode: Mode, t: Task, links: Set<(TaskID, TaskID)>, today: Date) -> bool {
    match mode {
        Mode::Inbox => {
            &&& t.scheduled is Anytime
            &&& is_open(t)
            &&& !has_parent(links, t.id)
            &&& !has_child(links, t.id)
        },
        Mode::Today => is_open(t) && t.scheduled == Scheduled::Day(today),
        Mode::Upcoming => is_open(t) && match t.scheduled {
            Scheduled::Day(d) => today.precedes(d),
            _ => false,
        },
        Mode::Anytime => t.scheduled is Anytime && is_open(t) && has_parent(links, t.id),
        Mode::Someday => t.scheduled is Someday && is_open(t),
        Mode::Logbook => t.completed is Some && t.deleted is None,
        Mode::Trash => t.deleted is Some,
    }
}

/// The tasks of view `mode`, in store order (ascending id).
pub open spec fn view_of(
    tasks: Seq<Task>,
    links: Set<(TaskID, TaskID)>,
    mode: Mode,
    today: Date,
) -> Seq<Task> {
    tasks.filter(|t: Task| member(mode, t, links, today))
}

/// The tasks with no parent, in store order.
pub open spec fn roots_of(tasks: Seq<Task>, links: Set<(TaskID, TaskID)>) -> Seq<Task> {
    tasks.filter(|t: Task| !has_parent(links, t.id))
}

/// The tasks linked under `id`, in store order.
pub open spec fn children_of(tasks: Seq<Task>, links: Set<(TaskID, TaskID)>, id: TaskID) -> Seq<
    Task,
> {
    tasks.filter(|t: Task| links.contains((id, t.id)))
}

/// The tasks that `id` is linked under, in store order.
pub open spec fn parents_of(tasks: Seq<Task>, links: Set<(TaskID, TaskID)>, id: TaskID) -> Seq<
    Task,
> {
    tasks.filter(|t: Task| links.contains((t.id, id)))
}

/// The tasks not deleted whose title or description contains `token`.
pub open spec fn search_of(tasks: Seq<Task>, token: Seq<char>) -> Seq<Task> {
    tasks.filter(
        |t: Task|
            t.deleted is None && (contains_text(t.title@, token) || contains_text(
                t.description@,
                token,
            )),
    )
}

proof fn lemma_in_filter(s: Seq<Task>, p: spec_fn(Task) -> bool, x: Task)
    ensures
        s.filter(p).contains(x) <==> (s.contains(x) && p(x)),
{
    if s.filter(p).contains(x) {
        s.lemma_filter_contains_rev(p, x);
        let i = choose|i: int| 0 <= i < s.filter(p).len() && s.filter(p)[i] == x;
        s.lemma_filter_pred(p, i);
    }
    if s.contains(x) && p(x) {
        let i = choose|i: int| 0 <= i < s.len() && s[i] == x;
        s.lemma_filter_contains(p, i);
    }
}

/// A task is listed in a view exactly when it is stored and belongs to it.
pub proof fn lemma_view_contains(
    tasks: Seq<Task>,
    links: Set<(TaskID, TaskID)>,
    mode: Mode,
    today: Date,
    t: Task,
)
    ensures
        view_of(tasks, links, mode, today).contains(t) <==> (tasks.contains(t) && member(
            mode,
            t,
            links,
            today,
        )),
{
    lemma_in_filter(tasks, |x: Task| member(mode, x, links, today), t);
}

/// A task is listed among the roots exactly when it is stored and no link
/// leads into it.
pub proof fn lemma_roots_contains(tasks: Seq<Task>, links: Set<(TaskID, TaskID)>, t: Task)
    ensures
        roots_of(tasks, links).contains(t) <==> (tasks.contains(t) && !has_parent(links, t.id)),
{
    lemma_in_filter(tasks, |x: Task| !has_parent(links, x.id), t);
}

/// A view that does not depend on the date is the same on every date.
pub proof fn lemma_undated_view(
    tasks: Seq<Task>,
    links: Set<(TaskID, TaskID)>,
    mode: Mode,
    d1: Date,
    d2: Date,
)
    requires
        !mode.is_dated(),
    ensures
        view_of(tasks, links, mode, d1) == view_of(tasks, links, mode, d2),
{
    let p1 = |t: Task| member(mode, t, links, d1);
    let p2 = |t: Task| member(mode, t, links, d2);
    assert(p1 =~= p2);
}

} // verus!
