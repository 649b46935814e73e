//! Task records, recurrence rules, and their mathematical views.

use vstd::prelude::*;

verus! {

/// One to-do record.
///
/// `completed_at` is present exactly while `completed` holds; the store
/// enforces that on every toggle ([`crate::model::task_consistent`]).
/// `due_date`, `include_time` and `notification_offset` are optional
/// scheduling metadata; recurrence needs a `due_date` to anchor from.
#[derive(Debug)]
pub struct Task {
    pub id: String,
    pub text: String,
    pub completed: bool,
    pub created_at: u64,
    pub completed_at: Option<u64>,
    pub due_date: Option<u64>,
    pub include_time: bool,
    pub notification_offset: Option<i64>,
    pub priority: Option<String>,
    pub tags: Vec<String>,
    pub notes: Option<String>,
    pub recurrence_rule: Option<RecurrenceRule>,
    pub attachments: Vec<String>,
}

/// How a completed task regenerates: every `interval` days, weeks or months.
///
/// `week_days` and `month_days` are reserved refinements; the
/// next-occurrence computation does not consult them.
#[derive(Debug)]
pub struct RecurrenceRule {
    pub freq: String,
    pub interval: u32,
    pub week_days: Option<Vec<u32>>,
    pub month_days: Option<Vec<u32>>,
}

/// Mathematical image of a [`Task`]: strings become character sequences.
pub struct TaskView {
    pub id: Seq<char>,
    pub text: Seq<char>,
    pub completed: bool,
    pub created_at: u64,
    pub completed_at: Option<u64>,
    pub due_date: Option<u64>,
    pub include_time: bool,
    pub notification_offset: Option<i64>,
    pub priority: Option<Seq<char>>,
    pub tags: Seq<Seq<char>>,
    pub notes: Option<Seq<char>>,
    pub recurrence_rule: Option<RuleView>,
    pub attachments: Seq<Seq<char>>,
}

/// Mathematical image of a [`RecurrenceRule`].
pub struct RuleView {
    pub freq: Seq<char>,
    pub interval: u32,
    pub week_days: Option<Seq<u32>>,
    pub month_days: Option<Seq<u32>>,
}

impl DeepView for RecurrenceRule {
    type V = RuleView;

    open spec fn deep_view(&self) -> RuleView {
        RuleView {
            freq: self.freq@,
            interval: self.interval,
            week_days: self.week_days.deep_view(),
            month_days: self.month_days.deep_view(),
        }
    }
}

impl DeepView for Task {
    type V = TaskView;

    open spec fn deep_view(&self) -> TaskView {
        TaskView {
            id: self.id@,
            text: self.text@,
            completed: self.completed,
            created_at: self.created_at,
            completed_at: self.completed_at,
            due_date: self.due_date,
            include_time: self.include_time,
            notification_offset: self.notification_offset,
            priority: self.priority.deep_view(),
            tags: self.tags.deep_view(),
            notes: self.notes.deep_view(),
            recurrence_rule: self.recurrence_rule.deep_view(),
            attachments: self.attachments.deep_view(),
        }
    }
}

/// The completion flag and the completion timestamp agree.
pub open spec fn task_consistent(t: TaskView) -> bool {
    t.completed <==> t.completed_at is Some
}

/// Copies a string vector element by element; the view is kept exactly.
fn clone_strings(v: &Vec<String>) -> (r: Vec<String>)
    ensures
        r@ == v@,
{
    let mut r: Vec<String> = Vec::new();
    let mut i: usize = 0;
    while i < v.len()
        invariant
            i <= v.len(),
            r@ == v@.subrange(0, i as int),
        decreases v.len() - i,
    {
        r.push(v[i].clone());
        i = i + 1;
        proof {
            assert(r@ =~= v@.subrange(0, i as int));
        }
    }
    proof {
        assert(v@.subrange(0, v@.len() as int) =~= v@);
    }
    r
}

/// Copies an optional integer vector; the deep view is kept exactly.
fn clone_opt_u32s(v: &Option<Vec<u32>>) -> (r: Option<Vec<u32>>)
    ensures
        r.deep_view() == v.deep_view(),
{
    match v {
        None => None,
        Some(xs) => {
            let mut r: Vec<u32> = Vec::new();
            let mut i: usize = 0;
            while i < xs.len()
                invariant
                    i <= xs.len(),
                    r@ == xs@.subrange(0, i as int),
                decreases xs.len() - i,
            {
                r.push(xs[i]);
                i = i + 1;
                proof {
                    assert(r@ =~= xs@.subrange(0, i as int));
                }
            }
            proof {
                assert(xs@.subrange(0, xs@.len() as int) =~= xs@);
            }
            Some(r)
        },
    }
}

fn clone_opt_string(v: &Option<String>) -> (r: Option<String>)
    ensures
        r.deep_view() == v.deep_view(),
{
    match v {
        None => None,
        Some(s) => Some(s.clone()),
    }
}

/// Copies a rule; the deep view is kept exactly.
pub fn clone_rule(rule: &RecurrenceRule) -> (r: RecurrenceRule)
    ensures
        r.deep_view() == rule.deep_view(),
{
    RecurrenceRule {
        freq: rule.freq.clone(),
        interval: rule.interval,
        week_days: clone_opt_u32s(&rule.week_days),
        month_days: clone_opt_u32s(&rule.month_days),
    }
}

/// Copies a task; the deep view is kept exactly.
pub fn clone_task(t: &Task) -> (r: Task)
    ensures
        r.deep_view() == t.deep_view(),
{
    Task {
        id: t.id.clone(),
        text: t.text.clone(),
        completed: t.completed,
        created_at: t.created_at,
        completed_at: t.completed_at,
        due_date: t.due_date,
        include_time: t.include_time,
        notification_offset: t.notification_offset,
        priority: clone_opt_string(&t.priority),
        tags: clone_strings(&t.tags),
        notes: clone_opt_string(&t.notes),
        recurrence_rule: match &t.recurrence_rule {
            None => None,
            Some(rule) => Some(clone_rule(rule)),
        },
        attachments: clone_strings(&t.attachments),
    }
}

} // verus!
