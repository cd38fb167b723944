use crate::date::{is_calendar_day, local_today, Date};
use crate::error::{Error, TaskID};
use crate::schedule::Scheduled;
use crate::task::Task;
use crate::text::{chars_of, contains_text, occurs_in};
use crate::views::{
    children_of, has_child, has_parent, lemma_undated_view, member, parents_of, roots_of, search_of,
    view_of, Mode,
};
use vstd::prelude::*;

verus! {

/// Tasks ordered by strictly increasing id.
pub open spec fn ids_ascending(tasks: Seq<Task>) -> bool {
    forall|i: int, j: int| 0 <= i < j < tasks.len() ==> tasks[i].id < tasks[j].id
}

/// Some task carries `id`.
pub open spec fn has_id(tasks: Seq<Task>, id: TaskID) -> bool {
    exists|i: int| 0 <= i < tasks.len() && #[trigger] tasks[i].id == id
}

/// The task that carries `id`, if any.
pub open spec fn lookup(tasks: Seq<Task>, id: TaskID) -> Option<Task> {
    if has_id(tasks, id) {
        Some(tasks[choose|i: int| 0 <= i < tasks.len() && #[trigger] tasks[i].id == id])
    } else {
        None
    }
}

/// A freshly created task: empty title and description, no date, not done,
/// not deleted.
pub open spec fn is_blank(t: Task) -> bool {
    &&& t.title@.len() == 0
    &&& t.description@.len() == 0
    &&& t.scheduled == Scheduled::Anytime
    &&& t.completed is None
    &&& t.deleted is None
}

/// The store's contents are consistent: ids ascend, are positive and below
/// the next id to hand out, and every link joins two existing tasks.
pub open spec fn contents_wf(tasks: Seq<Task>, links: Set<(TaskID, TaskID)>, next_id: int) -> bool {
    &&& ids_ascending(tasks)
    &&& 1 <= next_id
    &&& forall|i: int| 0 <= i < tasks.len() ==> 0 < #[trigger] tasks[i].id < next_id
    &&& forall|l: (TaskID, TaskID)|
        #[trigger] links.contains(l) ==> has_id(tasks, l.0) && has_id(tasks, l.1)
}

/// Appending a link adds it to the set of links, and keeps them distinct when
/// it was absent.
proof fn lemma_push_links(s: Seq<(TaskID, TaskID)>, x: (TaskID, TaskID))
    ensures
        s.push(x).to_set() == s.to_set().insert(x),
        s.no_duplicates() && !s.contains(x) ==> s.push(x).no_duplicates(),
{
    let t = s.push(x);
    assert forall|l: (TaskID, TaskID)| #[trigger] t.contains(l) implies s.contains(l) || l == x by {
        let j = choose|j: int| 0 <= j < t.len() && t[j] == l;
        if j < s.len() {
            assert(s[j] == l);
        }
    }
    assert forall|l: (TaskID, TaskID)| #[trigger] s.contains(l) implies t.contains(l) by {
        let j = choose|j: int| 0 <= j < s.len() && s[j] == l;
        assert(t[j] == l);
    }
    assert(t[s.len() as int] == x);
    assert(t.to_set() =~= s.to_set().insert(x));
    if s.no_duplicates() && !s.contains(x) {
        assert forall|i: int, j: int| 0 <= i < t.len() && 0 <= j < t.len() && i != j implies t[i]
            != t[j] by {
            if i < s.len() && j == s.len() {
                assert(s.contains(s[i]));
            }
            if j < s.len() && i == s.len() {
                assert(s.contains(s[j]));
            }
        }
    }
}

/// Removing the entry at `k` from distinct links removes that link from the
/// set, and keeps them distinct.
proof fn lemma_remove_links(s: Seq<(TaskID, TaskID)>, k: int)
    requires
        s.no_duplicates(),
        0 <= k < s.len(),
    ensures
        s.remove(k).to_set() == s.to_set().remove(s[k]),
        s.remove(k).no_duplicates(),
{
    let t = s.remove(k);
    let x = s[k];
    assert forall|l: (TaskID, TaskID)| #[trigger] t.contains(l) implies s.contains(l) && l != x by {
        let j = choose|j: int| 0 <= j < t.len() && t[j] == l;
        if j < k {
            assert(s[j] == l);
        } else {
            assert(s[j + 1] == l);
        }
    }
    assert forall|l: (TaskID, TaskID)| #[trigger] s.contains(l) && l != x implies t.contains(l) by {
        let j = choose|j: int| 0 <= j < s.len() && s[j] == l;
        if j < k {
            assert(t[j] == l);
        } else {
            assert(j != k);
            assert(t[j - 1] == l);
        }
    }
    assert(t.to_set() =~= s.to_set().remove(x));
    assert forall|i: int, j: int| 0 <= i < t.len() && 0 <= j < t.len() && i != j implies t[i]
        != t[j] by {
        let oi = if i < k { i } else { i + 1 };
        let oj = if j < k { j } else { j + 1 };
        assert(s[oi] != s[oj]);
    }
}

/// What a listing selects.
enum Query {
    InView(Mode, Date),
    Root,
    ChildOf(TaskID),
    ParentOf(TaskID),
    Matching(Vec<char>),
}

spec fn selects(q: Query, t: Task, links: Set<(TaskID, TaskID)>) -> bool {
    match q {
        Query::InView(mode, today) => member(mode, t, links, today),
        Query::Root => !has_parent(links, t.id),
        Query::ChildOf(id) => links.contains((id, t.id)),
        Query::ParentOf(id) => links.contains((t.id, id)),
        Query::Matching(token) => t.deleted is None && (contains_text(t.title@, token@)
            || contains_text(t.description@, token@)),
    }
}

/// The task store: task records, parent-to-child links between them, and the
/// next id to hand out.
pub struct Database {
    tasks: Vec<Task>,
    links: Vec<(TaskID, TaskID)>,
    next_id: TaskID,
}

impl Database {
    /// The task records, by ascending id.
    pub closed spec fn tasks(&self) -> Seq<Task> {
        self.tasks@
    }

    /// The parent-to-child links, as `(from, to)` pairs.
    pub closed spec fn links(&self) -> Set<(TaskID, TaskID)> {
        self.links@.to_set()
    }

    /// The id the next created task receives.
    pub closed spec fn next_id(&self) -> int {
        self.next_id as int
    }

    /// No link is stored twice.
    pub closed spec fn links_distinct(&self) -> bool {
        self.links@.no_duplicates()
    }

    pub open spec fn wf(&self) -> bool {
        &&& self.links_distinct()
        &&& contents_wf(self.tasks(), self.links(), self.next_id())
    }

    /// The store with no tasks and no links.
    pub fn new() -> (r: Database)
        ensures
            r.wf(),
            r.tasks() == Seq::<Task>::empty(),
            r.links() == Set::<(TaskID, TaskID)>::empty(),
            r.next_id() == 1,
    {
        let r = Database { tasks: Vec::new(), links: Vec::new(), next_id: 1 };
        assert(r.links@.to_set() =~= Set::<(TaskID, TaskID)>::empty());
        r
    }

    /// Rebuilds a store from persisted contents: the task records by ascending
    /// id, the links, and the next id to hand out. Contents that are not
    /// consistent are reported as `InvalidEncoding`.
    pub fn restore(tasks: Vec<Task>, links: Vec<(TaskID, TaskID)>, next_id: TaskID) -> (r: Result<
        Database,
        Error,
    >)
        ensures
            match r {
                Ok(db) => {
                    &&& db.wf()
                    &&& db.tasks() == tasks@
                    &&& db.links() == links@.to_set()
                    &&& db.next_id() == next_id
                },
                Err(e) => e == Error::InvalidEncoding && !contents_wf(
                    tasks@,
                    links@.to_set(),
                    next_id as int,
                ),
            },
    {
        let ghost full = tasks@;
        if next_id < 1 {
            return Err(Error::InvalidEncoding);
        }
        let mut i: usize = 0;
        while i < tasks.len()
            invariant
                full == tasks@,
                1 <= next_id,
                0 <= i <= tasks@.len(),
                forall|j: int| 0 <= j < i ==> 0 < #[trigger] tasks@[j].id < next_id,
                forall|a: int, b: int| 0 <= a < b < i ==> tasks@[a].id < tasks@[b].id,
            decreases tasks@.len() - i,
        {
            let id = tasks[i].id;
            if id <= 0 || id >= next_id || (i > 0 && tasks[i - 1].id >= id) {
                return Err(Error::InvalidEncoding);
            }
            i = i + 1;
        }
        let mut db = Database { tasks, links: Vec::new(), next_id };
        proof {
            assert(db.links@.to_set() =~= Set::<(TaskID, TaskID)>::empty());
        }
        let mut k: usize = 0;
        while k < links.len()
            invariant
                full == tasks@,
                db.wf(),
                db.tasks() == full,
                db.next_id() == next_id,
                0 <= k <= links@.len(),
                db.links() == links@.subrange(0, k as int).to_set(),
            decreases links@.len() - k,
        {
            let (a, b) = links[k];
            if db.link_ids(a, b).is_err() {
                proof {
                    assert(links@.to_set().contains((a, b))) by {
                        assert(links@[k as int] == (a, b));
                    }
                    assert(!has_id(full, a) || !has_id(full, b));
                    assert(!contents_wf(full, links@.to_set(), next_id as int));
                }
                return Err(Error::InvalidEncoding);
            }
            proof {
                assert(links@.subrange(0, k + 1) =~= links@.subrange(0, k as int).push((a, b)));
                lemma_push_links(links@.subrange(0, k as int), (a, b));
            }
            k = k + 1;
        }
        proof {
            assert(links@.subrange(0, links@.len() as int) =~= links@);
        }
        Ok(db)
    }

    /// The index of the task that carries `id`.
    fn position(&self, id: TaskID) -> (r: Option<usize>)
        requires
            self.wf(),
        ensures
            match r {
                Some(i) => i < self.tasks().len() && self.tasks()[i as int].id == id,
                None => !has_id(self.tasks(), id),
            },
    {
        let mut i: usize = 0;
        while i < self.tasks.len()
            invariant
                0 <= i <= self.tasks@.len(),
                forall|j: int| 0 <= j < i ==> #[trigger] self.tasks@[j].id != id,
            decreases self.tasks@.len() - i,
        {
            if self.tasks[i].id == id {
                return Some(i);
            }
            i = i + 1;
        }
        None
    }

    proof fn lemma_lookup_at(&self, i: int)
        requires
            self.wf(),
            0 <= i < self.tasks().len(),
        ensures
            lookup(self.tasks(), self.tasks()[i].id) == Some(self.tasks()[i]),
    {
        let tasks = self.tasks();
        let id = tasks[i].id;
        assert(has_id(tasks, id));
        let k = choose|k: int| 0 <= k < tasks.len() && #[trigger] tasks[k].id == id;
        if k < i {
            assert(tasks[k].id < tasks[i].id);
        } else if i < k {
            assert(tasks[i].id < tasks[k].id);
        }
    }

    /// Creates a blank task with the next id and stores it.
    pub fn new_task(&mut self) -> (r: Result<Task, Error>)
        requires
            old(self).wf(),
        ensures
            final(self).wf(),
            final(self).links() == old(self).links(),
            match r {
                Ok(t) => created(*old(self), *final(self), t),
                Err(e) => {
                    &&& e == Error::BackendFailure
                    &&& old(self).next_id() == i64::MAX
                    &&& final(self).tasks() == old(self).tasks()
                    &&& final(self).next_id() == old(self).next_id()
                },
            },
    {
        if self.next_id == i64::MAX {
            return Err(Error::BackendFailure);
        }
        let t = Task {
            id: self.next_id,
            title: String::new(),
            description: String::new(),
            scheduled: Scheduled::Anytime,
            completed: None,
            deleted: None,
        };
        self.tasks.push(t.duplicate());
        self.next_id = self.next_id + 1;
        proof {
            let tasks = self.tasks@;
            assert forall|l: (TaskID, TaskID)| #[trigger] self.links().contains(l) implies has_id(
                tasks,
                l.0,
            ) && has_id(tasks, l.1) by {
                assert(old(self).links().contains(l));
                let a = choose|a: int| 0 <= a < old(self).tasks().len() && #[trigger] old(
                    self,
                ).tasks()[a].id == l.0;
                let b = choose|b: int| 0 <= b < old(self).tasks().len() && #[trigger] old(
                    self,
                ).tasks()[b].id == l.1;
                assert(tasks[a] == old(self).tasks()[a]);
                assert(tasks[b] == old(self).tasks()[b]);
            }
        }
        Ok(t)
    }

    /// Overwrites the stored record that carries `task.id` with `task`.
    pub fn update_task(&mut self, task: &Task) -> (r: Result<(), Error>)
        requires
            old(self).wf(),
        ensures
            final(self).wf(),
            r == if has_id(old(self).tasks(), task.id) {
                Ok::<(), Error>(())
            } else {
                Err(Error::NotFound(task.id))
            },
            final(self).tasks() == replaced(old(self).tasks(), *task),
            final(self).links() == old(self).links(),
            final(self).next_id() == old(self).next_id(),
    {
        match self.position(task.id) {
            Some(i) => {
                let ghost old_tasks = self.tasks@;
                self.tasks.set(i, task.duplicate());
                proof {
                    let tasks = self.tasks@;
                    assert forall|j: int| 0 <= j < old_tasks.len() implies #[trigger] tasks[j]
                        == (if old_tasks[j].id == task.id {
                        *task
                    } else {
                        old_tasks[j]
                    }) by {
                        if j < i {
                            assert(old_tasks[j].id < old_tasks[i as int].id);
                        } else if i < j {
                            assert(old_tasks[i as int].id < old_tasks[j].id);
                        }
                    }
                    assert(tasks =~= replaced(old_tasks, *task));
                    assert forall|j: int| 0 <= j < tasks.len() implies #[trigger] tasks[j].id
                        == old_tasks[j].id by {}
                    assert forall|l: (TaskID, TaskID)| #[trigger]
                        self.links().contains(l) implies has_id(tasks, l.0) && has_id(
                        tasks,
                        l.1,
                    ) by {
                        assert(old(self).links().contains(l));
                        let a = choose|a: int| 0 <= a < old_tasks.len() && #[trigger] old_tasks[a].id == l.0;
                        let b = choose|b: int| 0 <= b < old_tasks.len() && #[trigger] old_tasks[b].id == l.1;
                        assert(tasks[a].id == l.0);
                        assert(tasks[b].id == l.1);
                    }
                }
                Ok(())
            },
            None => {
                proof {
                    let tasks = self.tasks@;
                    assert forall|j: int| 0 <= j < tasks.len() implies #[trigger] tasks[j].id
                        != task.id by {
                        if tasks[j].id == task.id {
                            assert(has_id(tasks, task.id));
                        }
                    }
                    assert(tasks =~= replaced(tasks, *task));
                }
                Err(Error::NotFound(task.id))
            },
        }
    }

    /// The index of the link `from -> to`.
    fn link_position(&self, from: TaskID, to: TaskID) -> (r: Option<usize>)
        ensures
            match r {
                Some(k) => k < self.links@.len() && self.links@[k as int] == (from, to),
                None => !self.links().contains((from, to)),
            },
    {
        let mut k: usize = 0;
        while k < self.links.len()
            invariant
                0 <= k <= self.links@.len(),
                forall|j: int| 0 <= j < k ==> #[trigger] self.links@[j] != (from, to),
            decreases self.links@.len() - k,
        {
            let (a, b) = self.links[k];
            if a == from && b == to {
                return Some(k);
            }
            k = k + 1;
        }
        None
    }

    fn link_ids(&mut self, from: TaskID, to: TaskID) -> (r: Result<(), Error>)
        requires
            old(self).wf(),
        ensures
            final(self).wf(),
            r == endpoints_found(old(self).tasks(), from, to),
            final(self).links() == if r is Ok {
                old(self).links().insert((from, to))
            } else {
                old(self).links()
            },
            final(self).tasks() == old(self).tasks(),
            final(self).next_id() == old(self).next_id(),
    {
        if self.position(from).is_none() {
            return Err(Error::NotFound(from));
        }
        if self.position(to).is_none() {
            return Err(Error::NotFound(to));
        }
        if self.link_position(from, to).is_none() {
            let ghost old_links = self.links@;
            self.links.push((from, to));
            proof {
                lemma_push_links(old_links, (from, to));
            }
        } else {
            proof {
                assert(self.links().insert((from, to)) =~= self.links());
            }
        }
        Ok(())
    }

    /// Adds the link `from -> to`; adding a link already present changes
    /// nothing. Both tasks must exist. No cycle check is made: callers that
    /// want the links to stay acyclic keep them so.
    pub fn link(&mut self, from: &Task, to: &Task) -> (r: Result<(), Error>)
        requires
            old(self).wf(),
        ensures
            final(self).wf(),
            r == endpoints_found(old(self).tasks(), from.id, to.id),
            final(self).links() == if r is Ok {
                old(self).links().insert((from.id, to.id))
            } else {
                old(self).links()
            },
            final(self).tasks() == old(self).tasks(),
            final(self).next_id() == old(self).next_id(),
    {
        self.link_ids(from.id, to.id)
    }


    fn unlink_ids(&mut self, from: TaskID, to: TaskID) -> (r: Result<(), Error>)
        requires
            old(self).wf(),
        ensures
            final(self).wf(),
            r == endpoints_found(old(self).tasks(), from, to),
            final(self).links() == if r is Ok {
                old(self).links().remove((from, to))
            } else {
                old(self).links()
            },
            final(self).tasks() == old(self).tasks(),
            final(self).next_id() == old(self).next_id(),
    {
        if self.position(from).is_none() {
            return Err(Error::NotFound(from));
        }
        if self.position(to).is_none() {
            return Err(Error::NotFound(to));
        }
        match self.link_position(from, to) {
            Some(k) => {
                let ghost old_links = self.links@;
                self.links.remove(k);
                proof {
                    lemma_remove_links(old_links, k as int);
                }
            },
            None => {
                proof {
                    assert(self.links().remove((from, to)) =~= self.links());
                }
            },
        }
        Ok(())
    }

    /// Removes the link `from -> to`; removing an absent link changes nothing.
    /// Both tasks must exist.
    pub fn unlink(&mut self, from: &Task, to: &Task) -> (r: Result<(), Error>)
        requires
            old(self).wf(),
        ensures
            final(self).wf(),
            r == endpoints_found(old(self).tasks(), from.id, to.id),
            final(self).links() == if r is Ok {
                old(self).links().remove((from.id, to.id))
            } else {
                old(self).links()
            },
            final(self).tasks() == old(self).tasks(),
            final(self).next_id() == old(self).next_id(),
    {
        self.unlink_ids(from.id, to.id)
    }


    fn has_incoming(&self, id: TaskID) -> (r: bool)
        ensures
            r == has_parent(self.links(), id),
    {
        let mut k: usize = 0;
        while k < self.links.len()
            invariant
                0 <= k <= self.links@.len(),
                forall|j: int| 0 <= j < k ==> (#[trigger] self.links@[j]).1 != id,
            decreases self.links@.len() - k,
        {
            if self.links[k].1 == id {
                proof {
                    assert(self.links@.contains(self.links@[k as int]));
                    assert(self.links().contains((self.links@[k as int].0, id)));
                }
                return true;
            }
            k = k + 1;
        }
        proof {
            assert forall|p: TaskID| !#[trigger] self.links().contains((p, id)) by {
                if self.links@.contains((p, id)) {
                    let j = choose|j: int| 0 <= j < self.links@.len() && self.links@[j] == (p, id);
                    assert(self.links@[j].1 == id);
                }
            }
        }
        false
    }

    fn has_outgoing(&self, id: TaskID) -> (r: bool)
        ensures
            r == has_child(self.links(), id),
    {
        let mut k: usize = 0;
        while k < self.links.len()
            invariant
                0 <= k <= self.links@.len(),
                forall|j: int| 0 <= j < k ==> (#[trigger] self.links@[j]).0 != id,
            decreases self.links@.len() - k,
        {
            if self.links[k].0 == id {
                proof {
                    assert(self.links@.contains(self.links@[k as int]));
                    assert(self.links().contains((id, self.links@[k as int].1)));
                }
                return true;
            }
            k = k + 1;
        }
        proof {
            assert forall|c: TaskID| !#[trigger] self.links().contains((id, c)) by {
                if self.links@.contains((id, c)) {
                    let j = choose|j: int| 0 <= j < self.links@.len() && self.links@[j] == (id, c);
                    assert(self.links@[j].0 == id);
                }
            }
        }
        false
    }

    fn satisfies(&self, q: &Query, t: &Task) -> (r: bool)
        ensures
            r == selects(*q, *t, self.links()),
    {
        match q {
            Query::InView(mode, today) => match mode {
                Mode::Inbox => {
                    t.scheduled == Scheduled::Anytime && t.completed.is_none()
                        && t.deleted.is_none() && !self.has_incoming(t.id) && !self.has_outgoing(
                        t.id,
                    )
                },
                Mode::Today => {
                    t.completed.is_none() && t.deleted.is_none() && t.scheduled
                        == Scheduled::Day(*today)
                },
                Mode::Upcoming => {
                    t.completed.is_none() && t.deleted.is_none() && match t.scheduled {
                        Scheduled::Day(d) => today.is_before(&d),
                        _ => false,
                    }
                },
                Mode::Anytime => {
                    t.scheduled == Scheduled::Anytime && t.completed.is_none()
                        && t.deleted.is_none() && self.has_incoming(t.id)
                },
                Mode::Someday => {
                    t.scheduled == Scheduled::Someday && t.completed.is_none()
                        && t.deleted.is_none()
                },
                Mode::Logbook => t.completed.is_some() && t.deleted.is_none(),
                Mode::Trash => t.deleted.is_some(),
            },
            Query::Root => !self.has_incoming(t.id),
            Query::ChildOf(id) => self.link_position(*id, t.id).is_some(),
            Query::ParentOf(id) => self.link_position(t.id, *id).is_some(),
            Query::Matching(token) => {
                t.deleted.is_none() && (occurs_in(&chars_of(t.title.as_str()), token) || occurs_in(
                    &chars_of(t.description.as_str()),
                    token,
                ))
            },
        }
    }

    /// Copies of the stored tasks that `q` selects, in store order.
    fn select(&self, q: &Query) -> (r: Vec<Task>)
        ensures
            r@ == self.tasks().filter(|t: Task| selects(*q, t, self.links())),
    {
        let ghost pred = |t: Task| selects(*q, t, self.links());
        let mut r: Vec<Task> = Vec::new();
        let mut i: usize = 0;
        while i < self.tasks.len()
            invariant
                0 <= i <= self.tasks@.len(),
                pred == (|t: Task| selects(*q, t, self.links())),
                r@ == self.tasks@.subrange(0, i as int).filter(pred),
            decreases self.tasks@.len() - i,
        {
            proof {
                reveal(Seq::filter);
                assert(self.tasks@.subrange(0, i + 1).drop_last() =~= self.tasks@.subrange(
                    0,
                    i as int,
                ));
            }
            if self.satisfies(q, &self.tasks[i]) {
                r.push(self.tasks[i].duplicate());
            }
            i = i + 1;
        }
        proof {
            assert(self.tasks@.subrange(0, self.tasks@.len() as int) =~= self.tasks@);
        }
        r
    }

    /// The tasks of view `mode` on the day `today`, by ascending id.
    pub fn tasks_for_mode(&self, mode: Mode, today: Date) -> (r: Vec<Task>)
        ensures
            r@ == view_of(self.tasks(), self.links(), mode, today),
    {
        let q = Query::InView(mode, today);
        let r = self.select(&q);
        proof {
            let p1 = |t: Task| selects(q, t, self.links());
            let p2 = |t: Task| member(mode, t, self.links(), today);
            assert(p1 =~= p2);
        }
        r
    }

    fn undated(&self, mode: Mode) -> (r: Vec<Task>)
        requires
            !mode.is_dated(),
        ensures
            forall|d: Date| #[trigger] view_of(self.tasks(), self.links(), mode, d) == r@,
    {
        let any_day = Date { year: 1970, month: 1, day: 1 };
        let r = self.tasks_for_mode(mode, any_day);
        proof {
            assert forall|d: Date| #[trigger]
                view_of(self.tasks(), self.links(), mode, d) == r@ by {
                lemma_undated_view(self.tasks(), self.links(), mode, d, any_day);
            }
        }
        r
    }

    /// Unscheduled open tasks with no link in or out.
    pub fn inbox(&self) -> (r: Vec<Task>)
        ensures
            forall|d: Date| #[trigger] view_of(self.tasks(), self.links(), Mode::Inbox, d) == r@,
    {
        self.undated(Mode::Inbox)
    }

    /// Open tasks scheduled for the current local day.
    pub fn today(&self) -> (r: Vec<Task>)
        ensures
            exists|d: Date|
                is_calendar_day(d.year as int, d.month as int, d.day as int) && r@ == view_of(
                    self.tasks(),
                    self.links(),
                    Mode::Today,
                    d,
                ),
    {
        let d = local_today();
        self.tasks_for_mode(Mode::Today, d)
    }

    /// Open tasks scheduled for a day after the current local day.
    pub fn upcoming(&self) -> (r: Vec<Task>)
        ensures
            exists|d: Date|
                is_calendar_day(d.year as int, d.month as int, d.day as int) && r@ == view_of(
                    self.tasks(),
                    self.links(),
                    Mode::Upcoming,
                    d,
                ),
    {
        let d = local_today();
        self.tasks_for_mode(Mode::Upcoming, d)
    }

    /// Unscheduled open tasks organized under some parent.
    pub fn anytime(&self) -> (r: Vec<Task>)
        ensures
            forall|d: Date| #[trigger] view_of(self.tasks(), self.links(), Mode::Anytime, d) == r@,
    {
        self.undated(Mode::Anytime)
    }

    /// Open tasks deferred to some day.
    pub fn someday(&self) -> (r: Vec<Task>)
        ensures
            forall|d: Date| #[trigger] view_of(self.tasks(), self.links(), Mode::Someday, d) == r@,
    {
        self.undated(Mode::Someday)
    }

    /// Completed tasks that are not deleted.
    pub fn logbook(&self) -> (r: Vec<Task>)
        ensures
            forall|d: Date| #[trigger] view_of(self.tasks(), self.links(), Mode::Logbook, d) == r@,
    {
        self.undated(Mode::Logbook)
    }

    /// Deleted tasks.
    pub fn trash(&self) -> (r: Vec<Task>)
        ensures
            forall|d: Date| #[trigger] view_of(self.tasks(), self.links(), Mode::Trash, d) == r@,
    {
        self.undated(Mode::Trash)
    }

    /// The tasks that no link leads into, by ascending id.
    pub fn root_tasks(&self) -> (r: Vec<Task>)
        ensures
            r@ == roots_of(self.tasks(), self.links()),
    {
        let q = Query::Root;
        let r = self.select(&q);
        proof {
            let p1 = |t: Task| selects(q, t, self.links());
            let p2 = |t: Task| !has_parent(self.links(), t.id);
            assert(p1 =~= p2);
        }
        r
    }

    /// The tasks linked as parents of `task`, by ascending id.
    pub fn parents(&self, task: &Task) -> (r: Vec<Task>)
        ensures
            r@ == parents_of(self.tasks(), self.links(), task.id),
    {
        let q = Query::ParentOf(task.id);
        let r = self.select(&q);
        proof {
            let p1 = |t: Task| selects(q, t, self.links());
            let p2 = |t: Task| self.links().contains((t.id, task.id));
            assert(p1 =~= p2);
        }
        r
    }

    /// The tasks linked as children of `task`, by ascending id.
    pub fn children(&self, task: &Task) -> (r: Vec<Task>)
        ensures
            r@ == children_of(self.tasks(), self.links(), task.id),
    {
        let q = Query::ChildOf(task.id);
        let r = self.select(&q);
        proof {
            let p1 = |t: Task| selects(q, t, self.links());
            let p2 = |t: Task| self.links().contains((task.id, t.id));
            assert(p1 =~= p2);
        }
        r
    }

    /// The tasks not deleted whose title or description contains `token`,
    /// case-sensitively, by ascending id.
    pub fn search(&self, token: &str) -> (r: Vec<Task>)
        ensures
            r@ == search_of(self.tasks(), token@),
    {
        let q = Query::Matching(chars_of(token));
        let r = self.select(&q);
        proof {
            let p1 = |t: Task| selects(q, t, self.links());
            let p2 = |t: Task|
                t.deleted is None && (contains_text(t.title@, token@) || contains_text(
                    t.description@,
                    token@,
                ));
            assert(p1 =~= p2);
        }
        r
    }

    /// The task that carries `id`.
    pub fn get_task(&self, id: TaskID) -> (r: Result<Task, Error>)
        requires
            self.wf(),
        ensures
            r == match lookup(self.tasks(), id) {
                Some(t) => Ok::<Task, Error>(t),
                None => Err(Error::NotFound(id)),
            },
    {
        match self.position(id) {
            Some(i) => {
                proof {
                    self.lemma_lookup_at(i as int);
                }
                Ok(self.tasks[i].duplicate())
            },
            None => Err(Error::NotFound(id)),
        }
    }
}

/// `tasks` with the record that carries `task.id` replaced by `task`.
pub open spec fn replaced(tasks: Seq<Task>, task: Task) -> Seq<Task> {
    tasks.map_values(|t: Task| if t.id == task.id { task } else { t })
}

/// What an operation on the edge `from -> to` reports: `NotFound` for the
/// first endpoint that no task carries.
pub open spec fn endpoints_found(tasks: Seq<Task>, from: TaskID, to: TaskID) -> Result<(), Error> {
    if !has_id(tasks, from) {
        Err(Error::NotFound(from))
    } else if !has_id(tasks, to) {
        Err(Error::NotFound(to))
    } else {
        Ok(())
    }
}

/// `s1` is `s0` with the blank task `t` added under the next id.
pub open spec fn created(s0: Database, s1: Database, t: Task) -> bool {
    &&& s0.next_id() < i64::MAX
    &&& t.id == s0.next_id()
    &&& is_blank(t)
    &&& s1.tasks() == s0.tasks().push(t)
    &&& s1.next_id() == s0.next_id() + 1
}

} // verus!
