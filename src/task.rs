use vstd::prelude::*;

verus! {

/// The three mutually exclusive states of a task.
#[derive(Clone, Copy, PartialEq, Eq, Debug, Structural)]
pub enum TaskStatus {
    Undone,
    Pending,
    Done,
}

/// Position of a status in the grouping order: undone, then pending, then done.
pub open spec fn rank(s: TaskStatus) -> nat {
    match s {
        TaskStatus::Undone => 0,
        TaskStatus::Pending => 1,
        TaskStatus::Done => 2,
    }
}

/// The status that the "done" toggle moves to.
pub open spec fn done_toggled(s: TaskStatus) -> TaskStatus {
    match s {
        TaskStatus::Undone => TaskStatus::Done,
        TaskStatus::Pending => TaskStatus::Undone,
        TaskStatus::Done => TaskStatus::Undone,
    }
}

/// The status that the "pending" toggle moves to.
pub open spec fn pending_toggled(s: TaskStatus) -> TaskStatus {
    match s {
        TaskStatus::Undone => TaskStatus::Pending,
        TaskStatus::Pending => TaskStatus::Undone,
        TaskStatus::Done => TaskStatus::Pending,
    }
}

impl TaskStatus {
    pub fn toggle_done(self) -> (r: TaskStatus)
        ensures
            r == done_toggled(self),
    {
        match self {
            TaskStatus::Undone => TaskStatus::Done,
            TaskStatus::Pending => TaskStatus::Undone,
            TaskStatus::Done => TaskStatus::Undone,
        }
    }

    pub fn toggle_pending(self) -> (r: TaskStatus)
        ensures
            r == pending_toggled(self),
    {
        match self {
            TaskStatus::Undone => TaskStatus::Pending,
            TaskStatus::Pending => TaskStatus::Undone,
            TaskStatus::Done => TaskStatus::Pending,
        }
    }
}

/// Toggling "done" twice brings an undone or a done task back to where it
/// started; a pending task goes to undone on the first toggle.
pub proof fn lemma_toggle_done_twice(s: TaskStatus)
    ensures
        s != TaskStatus::Pending ==> done_toggled(done_toggled(s)) == s,
        done_toggled(TaskStatus::Undone) == TaskStatus::Done,
        done_toggled(TaskStatus::Pending) == TaskStatus::Undone,
{
}

/// A point in time: seconds and nanoseconds since the Unix epoch (UTC), and
/// the local offset from UTC in seconds that was in force at that moment.
#[derive(Clone, Copy, PartialEq, Eq, Debug, Structural)]
pub struct Timestamp {
    pub secs: i64,
    pub nanos: u32,
    pub offset_secs: i32,
}

impl Timestamp {
    /// Nanoseconds stay under two seconds (a leap second runs past one), and
    /// the offset stays strictly within one day.
    pub open spec fn wf(&self) -> bool {
        &&& self.nanos < 2_000_000_000
        &&& -86_400 < self.offset_secs < 86_400
    }
}

/// A single to-do item.
#[derive(Clone, Debug)]
pub struct Task {
    pub description: String,
    pub status: TaskStatus,
    pub created_at: Option<Timestamp>,
}

/// What a task is, mathematically.
pub struct TaskModel {
    pub description: Seq<char>,
    pub status: TaskStatus,
    pub created_at: Option<Timestamp>,
}

impl View for Task {
    type V = TaskModel;

    open spec fn view(&self) -> TaskModel {
        TaskModel {
            description: self.description@,
            status: self.status,
            created_at: self.created_at,
        }
    }
}

impl Task {
    pub fn new(description: String, status: TaskStatus, created_at: Option<Timestamp>) -> (r: Task)
        ensures
            r.description@ == description@,
            r.status == status,
            r.created_at == created_at,
    {
        Task { description, status, created_at }
    }

    /// A task equal to this one in description, status and creation time.
    pub fn duplicate(&self) -> (r: Task)
        ensures
            r@ == self@,
    {
        Task {
            description: self.description.clone(),
            status: self.status,
            created_at: self.created_at,
        }
    }
}

} // verus!
