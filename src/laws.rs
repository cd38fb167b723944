use crate::date::Date;
use crate::error::TaskID;
use crate::schedule::Scheduled;
use crate::store::{created, has_id, lookup, replaced, Database};
use crate::task::Task;
use crate::views::{
    has_child, has_parent, is_open, lemma_roots_contains, lemma_view_contains, member, roots_of,
    view_of, Mode,
};
use vstd::prelude::*;

verus! {

/// Looking up the id of a task just created gives back the created record.
pub proof fn lemma_get_created(s0: Database, s1: Database, t: Task)
    requires
        s0.wf(),
        created(s0, s1, t),
    ensures
        lookup(s1.tasks(), t.id) == Some(t),
{
    let tasks = s1.tasks();
    let n = s0.tasks().len();
    assert(tasks[n as int] == t);
    assert(has_id(tasks, t.id));
    let k = choose|k: int| 0 <= k < tasks.len() && #[trigger] tasks[k].id == t.id;
    if k < n {
        assert(tasks[k] == s0.tasks()[k]);
        assert(s0.tasks()[k].id < s0.next_id());
    }
}

/// Ids handed out by two creations strictly increase, whatever runs between
/// them, as long as it does not lower the next id (no operation does); the
/// later id is carried by no stored task, so ids are never reused. (Once the
/// next id reaches `i64::MAX`, creation fails with `BackendFailure`.)
pub proof fn lemma_ids_increase(
    s0: Database,
    s1: Database,
    t1: Task,
    s2: Database,
    s3: Database,
    t2: Task,
)
    requires
        created(s0, s1, t1),
        s1.next_id() <= s2.next_id(),
        s2.wf(),
        created(s2, s3, t2),
    ensures
        t1.id < t2.id,
        !has_id(s2.tasks(), t2.id),
{
    if has_id(s2.tasks(), t2.id) {
        let k = choose|k: int| 0 <= k < s2.tasks().len() && #[trigger] s2.tasks()[k].id == t2.id;
        assert(s2.tasks()[k].id < s2.next_id());
    }
}

/// An open, unscheduled task with no link in or out is listed in the Inbox
/// and in no other view.
pub proof fn lemma_unlinked_task_in_inbox_only(s: Database, t: Task, today: Date)
    requires
        s.tasks().contains(t),
        t.scheduled == Scheduled::Anytime,
        is_open(t),
        !has_parent(s.links(), t.id),
        !has_child(s.links(), t.id),
    ensures
        view_of(s.tasks(), s.links(), Mode::Inbox, today).contains(t),
        forall|m: Mode|
            m != Mode::Inbox ==> !(#[trigger] view_of(s.tasks(), s.links(), m, today)).contains(t),
{
    lemma_view_contains(s.tasks(), s.links(), Mode::Inbox, today, t);
    assert forall|m: Mode| m != Mode::Inbox implies !(#[trigger] view_of(
        s.tasks(),
        s.links(),
        m,
        today,
    )).contains(t) by {
        lemma_view_contains(s.tasks(), s.links(), m, today, t);
    }
}

/// After linking `parent -> child`, an open unscheduled child is listed in
/// Anytime and not in the Inbox; a parent that had no parent of its own is
/// in neither.
pub proof fn lemma_link_moves_to_anytime(
    s0: Database,
    s1: Database,
    parent: Task,
    child: Task,
    today: Date,
)
    requires
        s0.tasks().contains(child),
        s0.tasks().contains(parent),
        parent.id != child.id,
        !has_parent(s0.links(), parent.id),
        s1.tasks() == s0.tasks(),
        s1.links() == s0.links().insert((parent.id, child.id)),
        child.scheduled == Scheduled::Anytime,
        is_open(child),
    ensures
        view_of(s1.tasks(), s1.links(), Mode::Anytime, today).contains(child),
        !view_of(s1.tasks(), s1.links(), Mode::Inbox, today).contains(child),
        !view_of(s1.tasks(), s1.links(), Mode::Anytime, today).contains(parent),
        !view_of(s1.tasks(), s1.links(), Mode::Inbox, today).contains(parent),
{
    let links = s1.links();
    assert(links.contains((parent.id, child.id)));
    assert(has_parent(links, child.id));
    assert(has_child(links, parent.id));
    assert(!has_parent(links, parent.id)) by {
        if has_parent(links, parent.id) {
            let p = choose|p: TaskID| #[trigger] links.contains((p, parent.id));
            assert(s0.links().contains((p, parent.id)));
        }
    }
    lemma_view_contains(s1.tasks(), links, Mode::Anytime, today, child);
    lemma_view_contains(s1.tasks(), links, Mode::Inbox, today, child);
    lemma_view_contains(s1.tasks(), links, Mode::Anytime, today, parent);
    lemma_view_contains(s1.tasks(), links, Mode::Inbox, today, parent);
}

/// After linking `a -> b`, `b` is no longer a root, and a root `a` stays one.
pub proof fn lemma_link_roots(s0: Database, s1: Database, a: Task, b: Task)
    requires
        s0.tasks().contains(a),
        s0.tasks().contains(b),
        a.id != b.id,
        !has_parent(s0.links(), a.id),
        s1.tasks() == s0.tasks(),
        s1.links() == s0.links().insert((a.id, b.id)),
    ensures
        !roots_of(s1.tasks(), s1.links()).contains(b),
        roots_of(s1.tasks(), s1.links()).contains(a),
{
    let links = s1.links();
    assert(links.contains((a.id, b.id)));
    assert(!has_parent(links, a.id)) by {
        if has_parent(links, a.id) {
            let p = choose|p: TaskID| #[trigger] links.contains((p, a.id));
            assert(s0.links().contains((p, a.id)));
        }
    }
    lemma_roots_contains(s1.tasks(), links, a);
    lemma_roots_contains(s1.tasks(), links, b);
}

proof fn lemma_replaced_contains(s0: Database, t: Task)
    requires
        has_id(s0.tasks(), t.id),
    ensures
        replaced(s0.tasks(), t).contains(t),
{
    let i = choose|i: int| 0 <= i < s0.tasks().len() && #[trigger] s0.tasks()[i].id == t.id;
    assert(replaced(s0.tasks(), t)[i] == t);
}

/// Storing a task with a completion date and no deletion date lists it in the
/// Logbook and in none of Inbox, Today, Upcoming, Anytime, Someday.
pub proof fn lemma_completed_in_logbook(s0: Database, s1: Database, t: Task, today: Date)
    requires
        has_id(s0.tasks(), t.id),
        s1.tasks() == replaced(s0.tasks(), t),
        t.completed is Some,
        t.deleted is None,
    ensures
        view_of(s1.tasks(), s1.links(), Mode::Logbook, today).contains(t),
        forall|m: Mode|
            m != Mode::Logbook && m != Mode::Trash ==> !(#[trigger] view_of(
                s1.tasks(),
                s1.links(),
                m,
                today,
            )).contains(t),
{
    lemma_replaced_contains(s0, t);
    lemma_view_contains(s1.tasks(), s1.links(), Mode::Logbook, today, t);
    assert forall|m: Mode| m != Mode::Logbook && m != Mode::Trash implies !(#[trigger] view_of(
        s1.tasks(),
        s1.links(),
        m,
        today,
    )).contains(t) by {
        lemma_view_contains(s1.tasks(), s1.links(), m, today, t);
    }
}

/// Storing a task with a deletion date lists it in the Trash and in no other
/// view, the Logbook included.
pub proof fn lemma_deleted_in_trash_only(s0: Database, s1: Database, t: Task, today: Date)
    requires
        has_id(s0.tasks(), t.id),
        s1.tasks() == replaced(s0.tasks(), t),
        t.deleted is Some,
    ensures
        view_of(s1.tasks(), s1.links(), Mode::Trash, today).contains(t),
        forall|m: Mode|
            m != Mode::Trash ==> !(#[trigger] view_of(s1.tasks(), s1.links(), m, today)).contains(
                t,
            ),
{
    lemma_replaced_contains(s0, t);
    lemma_view_contains(s1.tasks(), s1.links(), Mode::Trash, today, t);
    assert forall|m: Mode| m != Mode::Trash implies !(#[trigger] view_of(
        s1.tasks(),
        s1.links(),
        m,
        today,
    )).contains(t) by {
        lemma_view_contains(s1.tasks(), s1.links(), m, today, t);
    }
}

} // verus!
