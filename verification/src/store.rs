//! The task store: the single authoritative, ordered task collection.
//!
//! Every mutating operation is specified against the sequence-of-views
//! model. New tasks enter at the head; completing a task with a recurrence
//! rule and a due date appends exactly one follow-up task, computed only
//! after the lookup pass over the collection has finished.

use vstd::prelude::*;
use vstd::pervasive::VecAdditionalExecFns;
use crate::model::{Task, TaskView, clone_task, task_consistent};
use crate::recurrence::{next_occurrence, next_occurrence_spec, next_fits};

verus! {

/// Relies on std::time: `SystemTime::now`, read as milliseconds since
/// `UNIX_EPOCH` via `duration_since` (zero if the clock sits before the
/// epoch). Nothing is promised of the value: it is the machine's clock.
#[verifier::external_body]
fn now_millis() -> u64 {
    std::time::SystemTime::now()
        .duration_since(std::time::UNIX_EPOCH)
        .map(|d| d.as_millis() as u64)
        .unwrap_or(0)
}

/// Relies on uuid: `Uuid::new_v4` rendered in its hyphenated text form.
/// The value is random, so nothing is promised of it.
#[verifier::external_body]
fn fresh_task_id() -> String {
    uuid::Uuid::new_v4().to_string()
}

/// Index of the first task with identifier `id` at or after position `i`,
/// or -1 when there is none.
pub open spec fn find_from(s: Seq<TaskView>, id: Seq<char>, i: int) -> int
    decreases s.len() - i,
{
    if i < 0 || i >= s.len() {
        -1
    } else if s[i].id == id {
        i
    } else {
        find_from(s, id, i + 1)
    }
}

/// Index of the first task with identifier `id`, or -1 when there is none.
pub open spec fn find_index(s: Seq<TaskView>, id: Seq<char>) -> int {
    find_from(s, id, 0)
}

/// The task marked complete at time `now`.
pub open spec fn set_completed(t: TaskView, now: u64) -> TaskView {
    TaskView { completed: true, completed_at: Some(now), ..t }
}

/// The task marked not complete, its completion time cleared.
pub open spec fn clear_completed(t: TaskView) -> TaskView {
    TaskView { completed: false, completed_at: None, ..t }
}

/// The follow-up instance of a recurring task: same content, fresh
/// identifier, not complete, created at `now` and due at `next`.
pub open spec fn follow_up(t: TaskView, now: u64, new_id: Seq<char>, next: u64) -> TaskView {
    TaskView {
        id: new_id,
        completed: false,
        completed_at: None,
        created_at: now,
        due_date: Some(next),
        ..t
    }
}

/// What toggling the task with identifier `id` does to the collection:
/// nothing when the identifier is absent; otherwise the completion flag
/// flips, the completion timestamp follows it, and a newly completed task
/// with a recurrence rule and a due date appends one follow-up task when
/// the rule yields a next occurrence.
pub open spec fn toggle_spec(s: Seq<TaskView>, id: Seq<char>, now: u64, new_id: Seq<char>) -> Seq<
    TaskView,
> {
    let i = find_index(s, id);
    if i < 0 {
        s
    } else {
        let t = s[i];
        if t.completed {
            s.update(i, clear_completed(t))
        } else {
            let s1 = s.update(i, set_completed(t, now));
            match (t.recurrence_rule, t.due_date) {
                (Some(rule), Some(due)) => match next_occurrence_spec(rule, due as int) {
                    Some(next) => s1.push(follow_up(t, now, new_id, next as u64)),
                    None => s1,
                },
                _ => s1,
            }
        }
    }
}

/// The machine bounds under which a toggle is computable: when it would
/// complete a recurring task, the next occurrence must fit (see
/// [`next_fits`]).
pub open spec fn toggle_fits(s: Seq<TaskView>, id: Seq<char>) -> bool {
    let i = find_index(s, id);
    (i >= 0 && !s[i].completed) ==> match (s[i].recurrence_rule, s[i].due_date) {
        (Some(rule), Some(due)) => next_fits(rule, due),
        _ => true,
    }
}

/// Keeping a task means its identifier differs from the deleted one.
pub open spec fn keeps(id: Seq<char>) -> spec_fn(TaskView) -> bool {
    |t: TaskView| t.id != id
}

/// Wherever `find_from` lands, the identifier matches there and nowhere
/// earlier in the scanned range.
pub proof fn lemma_find_from_props(s: Seq<TaskView>, id: Seq<char>, i: int)
    requires
        0 <= i <= s.len(),
    ensures
        ({
            let r = find_from(s, id, i);
            &&& (r == -1 ==> forall|j: int| i <= j < s.len() ==> s[j].id != id)
            &&& (r != -1 ==> i <= r < s.len() && s[r].id == id && forall|j: int|
                i <= j < r ==> s[j].id != id)
        }),
    decreases s.len() - i,
{
    if i < s.len() && s[i].id != id {
        lemma_find_from_props(s, id, i + 1);
    }
}

/// A scan that starts at or before the first match finds exactly it.
pub proof fn lemma_find_from_found(s: Seq<TaskView>, id: Seq<char>, k: int, i: int)
    requires
        0 <= k <= i < s.len(),
        s[i].id == id,
        forall|j: int| 0 <= j < i ==> s[j].id != id,
    ensures
        find_from(s, id, k) == i,
    decreases i - k,
{
    if k < i {
        lemma_find_from_found(s, id, k + 1, i);
    }
}

/// Completing a task without a recurrence rule or without a due date
/// produces no follow-up task: only the toggled entry changes, and the
/// collection keeps its length.
pub proof fn lemma_toggle_no_follow_up(s: Seq<TaskView>, id: Seq<char>, now: u64, new_id: Seq<char>)
    requires
        find_index(s, id) >= 0,
        !s[find_index(s, id)].completed,
        s[find_index(s, id)].recurrence_rule is None || s[find_index(s, id)].due_date is None,
    ensures
        toggle_spec(s, id, now, new_id) == s.update(
            find_index(s, id),
            set_completed(s[find_index(s, id)], now),
        ),
        toggle_spec(s, id, now, new_id).len() == s.len(),
        task_consistent(toggle_spec(s, id, now, new_id)[find_index(s, id)]),
{
    lemma_find_from_props(s, id, 0);
}

/// Completing a recurring task with a due date sets `completed` and the
/// completion time, and appends exactly one follow-up task: not complete,
/// no completion time, identifier `new_id` (distinct from the original's
/// whenever `new_id` is), created at `now`, due at the computed next
/// occurrence; every other entry is unchanged.
pub proof fn lemma_toggle_appends_follow_up(
    s: Seq<TaskView>,
    id: Seq<char>,
    now: u64,
    new_id: Seq<char>,
)
    requires
        ({
            &&& find_index(s, id) >= 0
            &&& !s[find_index(s, id)].completed
            &&& s[find_index(s, id)].recurrence_rule matches Some(rule)
            &&& s[find_index(s, id)].due_date matches Some(due)
            &&& next_occurrence_spec(rule, due as int) is Some
        }),
    ensures
        ({
            let i = find_index(s, id);
            let t = s[i];
            let rule = t.recurrence_rule->Some_0;
            let due = t.due_date->Some_0;
            let next = next_occurrence_spec(rule, due as int)->Some_0;
            let r = toggle_spec(s, id, now, new_id);
            &&& r.len() == s.len() + 1
            &&& r[i] == set_completed(t, now)
            &&& r[i].completed == true
            &&& r[i].completed_at == Some(now)
            &&& r.last() == follow_up(t, now, new_id, next as u64)
            &&& r.last().completed == false
            &&& r.last().completed_at is None
            &&& r.last().id == new_id
            &&& r.last().created_at == now
            &&& r.last().due_date == Some(next as u64)
            &&& (new_id != t.id ==> r.last().id != r[i].id)
            &&& task_consistent(r[i])
            &&& task_consistent(r.last())
            &&& forall|j: int| 0 <= j < s.len() && j != i ==> r[j] == s[j]
        }),
{
    lemma_find_from_props(s, id, 0);
}

/// Toggling the same task twice returns it to not complete with its
/// completion time cleared, and does not remove a follow-up task the
/// first toggle appended.
pub proof fn lemma_toggle_twice_restores(
    s: Seq<TaskView>,
    id: Seq<char>,
    now1: u64,
    new_id1: Seq<char>,
    now2: u64,
    new_id2: Seq<char>,
)
    requires
        find_index(s, id) >= 0,
        !s[find_index(s, id)].completed,
    ensures
        ({
            let i = find_index(s, id);
            let s1 = toggle_spec(s, id, now1, new_id1);
            let s2 = toggle_spec(s1, id, now2, new_id2);
            &&& s2.len() == s1.len()
            &&& s2[i] == clear_completed(s[i])
            &&& s2[i].completed == false
            &&& s2[i].completed_at is None
            &&& task_consistent(s2[i])
            &&& (s1.len() > s.len() ==> s2[s1.len() - 1] == s1[s1.len() - 1])
            &&& forall|j: int| 0 <= j < s.len() && j != i ==> s2[j] == s1[j]
        }),
{
    let i = find_index(s, id);
    lemma_find_from_props(s, id, 0);
    let s1 = toggle_spec(s, id, now1, new_id1);
    assert(forall|j: int| 0 <= j < i ==> s1[j] == s[j]);
    assert(s1[i] == set_completed(s[i], now1));
    lemma_find_from_found(s1, id, 0, i);
    assert(find_index(s1, id) == i);
    assert(toggle_spec(s1, id, now2, new_id2) == s1.update(i, clear_completed(s1[i])));
}

/// The ordered task collection and its operations. The store is the sole
/// owner of the collection; callers get snapshots.
pub struct TaskStore {
    tasks: Vec<Task>,
}

impl View for TaskStore {
    type V = Seq<TaskView>;

    closed spec fn view(&self) -> Seq<TaskView> {
        self.tasks.deep_view()
    }
}

impl TaskStore {
    /// An empty store.
    pub fn new() -> (s: Self)
        ensures
            s@ == Seq::<TaskView>::empty(),
    {
        let s = TaskStore { tasks: Vec::new() };
        proof {
            assert(s@ =~= Seq::<TaskView>::empty());
        }
        s
    }

    /// The store a process starts with: the loaded collection when the
    /// durable file was present and parsed, else an empty collection. A
    /// missing or corrupt file therefore never prevents startup.
    pub fn from_loaded(loaded: Option<Vec<Task>>) -> (s: Self)
        ensures
            match loaded {
                Some(v) => s@ == v.deep_view(),
                None => s@ == Seq::<TaskView>::empty(),
            },
    {
        match loaded {
            Some(v) => TaskStore { tasks: v },
            None => {
                let s = TaskStore { tasks: Vec::new() };
                proof {
                    assert(s@ =~= Seq::<TaskView>::empty());
                }
                s
            },
        }
    }

    /// A snapshot of the current collection, in order.
    #[verifier::loop_isolation(false)]
    pub fn get_tasks(&self) -> (r: Vec<Task>)
        ensures
            r.deep_view() == self@,
    {
        let mut r: Vec<Task> = Vec::new();
        let mut i: usize = 0;
        while i < self.tasks.len()
            invariant
                i <= self.tasks.len(),
                r.deep_view() =~= self@.subrange(0, i as int),
            decreases self.tasks.len() - i,
        {
            r.push(clone_task(&self.tasks[i]));
            i = i + 1;
        }
        proof {
            assert(self@.subrange(0, self@.len() as int) =~= self@);
        }
        r
    }

    /// Inserts the new task at the head: it is at index 0 of the resulting
    /// collection, everything else keeps its order.
    pub fn add_task(&mut self, task: Task)
        ensures
            final(self)@ == seq![task.deep_view()] + old(self)@,
    {
        let ghost pre = self.tasks.deep_view();
        let ghost dv = task.deep_view();
        self.tasks.insert(0, task);
        proof {
            assert(self.tasks.deep_view() =~= seq![dv] + pre);
        }
    }

    /// Index of the first task with the given identifier, if any.
    #[verifier::loop_isolation(false)]
    fn find_position(&self, id: &String) -> (r: Option<usize>)
        ensures
            match r {
                Some(i) => i < self@.len() && find_index(self@, id@) == i as int,
                None => find_index(self@, id@) == -1,
            },
    {
        let mut i: usize = 0;
        while i < self.tasks.len()
            invariant
                i <= self.tasks.len(),
                find_index(self@, id@) == find_from(self@, id@, i as int),
            decreases self.tasks.len() - i,
        {
            if self.tasks[i].id == *id {
                return Some(i);
            }
            i = i + 1;
        }
        None
    }

    /// Replaces the task whose identifier matches `updated_task`, in place,
    /// keeping its position; does nothing when no identifier matches.
    pub fn update_task(&mut self, updated_task: Task)
        ensures
            ({
                let i = find_index(old(self)@, updated_task.deep_view().id);
                if i < 0 {
                    final(self)@ == old(self)@
                } else {
                    final(self)@ == old(self)@.update(i, updated_task.deep_view())
                }
            }),
    {
        let ghost pre = self.tasks.deep_view();
        let ghost dv = updated_task.deep_view();
        let pos = self.find_position(&updated_task.id);
        match pos {
            None => {},
            Some(i) => {
                self.tasks.set(i, updated_task);
                proof {
                    assert(self.tasks.deep_view() =~= pre.update(i as int, dv));
                }
            },
        }
    }

    /// Removes every task with the given identifier; the rest keep their
    /// order.
    #[verifier::loop_isolation(false)]
    pub fn delete_task(&mut self, id: &String)
        ensures
            final(self)@ == old(self)@.filter(keeps(id@)),
    {
        let ghost pre = self.tasks.deep_view();
        let ghost pred = keeps(id@);
        let mut kept: Vec<Task> = Vec::new();
        let mut i: usize = 0;
        proof {
            reveal(Seq::filter);
            assert(kept.deep_view() =~= pre.subrange(0, 0).filter(pred));
        }
        while i < self.tasks.len()
            invariant
                i <= self.tasks.len(),
                self.tasks.deep_view() == pre,
                kept.deep_view() == pre.subrange(0, i as int).filter(pred),
            decreases self.tasks.len() - i,
        {
            let ghost prefix = pre.subrange(0, i as int);
            let ghost kept_pre = kept.deep_view();
            if !(self.tasks[i].id == *id) {
                kept.push(clone_task(&self.tasks[i]));
            }
            i = i + 1;
            proof {
                reveal(Seq::filter);
                let prefix2 = pre.subrange(0, i as int);
                assert(prefix2.drop_last() =~= prefix);
                assert(prefix2.last() == pre[i - 1]);
                if pred(pre[i - 1]) {
                    assert(kept.deep_view() =~= kept_pre.push(pre[i - 1]));
                    assert(prefix2.filter(pred) == prefix.filter(pred).push(pre[i - 1]));
                } else {
                    assert(prefix2.filter(pred) == prefix.filter(pred));
                }
            }
        }
        proof {
            assert(pre.subrange(0, pre.len() as int) =~= pre);
        }
        self.tasks = kept;
    }

    /// Replaces the whole collection with the submitted one, wholesale; a
    /// later snapshot returns exactly the submitted order.
    pub fn update_tasks_order(&mut self, new_tasks: Vec<Task>)
        ensures
            final(self)@ == new_tasks.deep_view(),
    {
        self.tasks = new_tasks;
    }

    /// Clears the collection entirely.
    pub fn reset_app(&mut self)
        ensures
            final(self)@ == Seq::<TaskView>::empty(),
    {
        self.tasks = Vec::new();
        proof {
            assert(self.tasks.deep_view() =~= Seq::<TaskView>::empty());
        }
    }

    /// Toggles the task with the given identifier, per [`toggle_spec`]:
    /// `now` is the completion timestamp and `new_id` the identifier a
    /// follow-up task gets. The follow-up is computed after the lookup pass
    /// over the collection and appended at the end.
    pub fn toggle_task_with(&mut self, id: &String, now: u64, new_id: String)
        requires
            toggle_fits(old(self)@, id@),
        ensures
            final(self)@ == toggle_spec(old(self)@, id@, now, new_id@),
    {
        let ghost pre = self.tasks.deep_view();
        let pos = self.find_position(id);
        match pos {
            None => {},
            Some(i) => {
                let ghost t0 = pre[i as int];
                let was_completed = self.tasks[i].completed;
                let mut t = clone_task(&self.tasks[i]);
                if was_completed {
                    t.completed = false;
                    t.completed_at = None;
                    self.tasks.set(i, t);
                    proof {
                        assert(self.tasks.deep_view() =~= pre.update(
                            i as int,
                            clear_completed(t0),
                        ));
                    }
                } else {
                    t.completed = true;
                    t.completed_at = Some(now);
                    self.tasks.set(i, t);
                    proof {
                        assert(self.tasks.deep_view() =~= pre.update(
                            i as int,
                            set_completed(t0, now),
                        ));
                    }
                    let ghost s1 = pre.update(i as int, set_completed(t0, now));
                    let next_opt = match (&self.tasks[i].recurrence_rule, self.tasks[i].due_date) {
                        (Some(rule), Some(due)) => next_occurrence(rule, due),
                        _ => None,
                    };
                    match next_opt {
                        None => {},
                        Some(next) => {
                            let mut f = clone_task(&self.tasks[i]);
                            f.id = new_id;
                            f.completed = false;
                            f.completed_at = None;
                            f.created_at = now;
                            f.due_date = Some(next);
                            let ghost fv = f.deep_view();
                            self.tasks.push(f);
                            proof {
                                assert(self.tasks.deep_view() =~= s1.push(fv));
                            }
                        },
                    }
                }
            },
        }
    }

    /// Toggles the task with the given identifier, taking the completion
    /// time from the system clock and a fresh random identifier for a
    /// possible follow-up task. Whatever the clock and the identifier
    /// source return, the result is a toggle per [`toggle_spec`].
    pub fn toggle_task(&mut self, id: &String)
        requires
            toggle_fits(old(self)@, id@),
        ensures
            exists|now: u64, new_id: Seq<char>|
                final(self)@ == toggle_spec(old(self)@, id@, now, new_id),
    {
        let now: u64 = now_millis();
        let new_id = fresh_task_id();
        let ghost nid = new_id@;
        self.toggle_task_with(id, now, new_id);
        proof {
            assert(self@ == toggle_spec(old(self)@, id@, now, nid));
        }
    }

    /// Whether a toggle of the task with the given identifier stays within
    /// the machine bounds of [`toggle_fits`].
    pub fn can_toggle(&self, id: &String) -> (r: bool)
        ensures
            r == toggle_fits(self@, id@),
    {
        let pos = self.find_position(id);
        match pos {
            None => true,
            Some(i) => {
                if self.tasks[i].completed {
                    true
                } else {
                    match (&self.tasks[i].recurrence_rule, self.tasks[i].due_date) {
                        (Some(rule), Some(due)) => crate::recurrence::next_fits_check(rule, due),
                        _ => true,
                    }
                }
            },
        }
    }
}

} // verus!
