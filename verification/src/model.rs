//! The records a run works with, and the order in which completion times
//! are compared.

use vstd::prelude::*;

verus! {

/// A workspace or a project. Only its identifier is ever read, and it is
/// used for nothing but the address of a later request.
#[derive(Debug, Clone, PartialEq, Eq)]
pub struct Entry {
    pub gid: String,
}

impl View for Entry {
    type V = Seq<char>;

    /// An entry is modelled by the text of its identifier.
    open spec fn view(&self) -> Seq<char> {
        self.gid@
    }
}

/// A point in time: whole seconds since 1970-01-01T00:00:00 UTC and the
/// nanoseconds past that second. During a leap second `nanos` runs on past
/// 999,999,999 while `secs` stays on the second before it.
#[derive(Debug, Clone, Copy, PartialEq, Eq, Structural)]
pub struct Timestamp {
    pub secs: i64,
    pub nanos: u32,
}

impl Timestamp {
    /// Strictly earlier: by the second first, then by the nanosecond.
    pub open spec fn precedes(self, other: Timestamp) -> bool {
        self.secs < other.secs || (self.secs == other.secs && self.nanos < other.nanos)
    }

    pub fn is_before(&self, other: &Timestamp) -> (earlier: bool)
        ensures
            earlier == self.precedes(*other),
    {
        self.secs < other.secs || (self.secs == other.secs && self.nanos < other.nanos)
    }
}

/// The strict order on completion times. A task without one comes before
/// every task that has one; two tasks without one are tied.
pub open spec fn completion_precedes(a: Option<Timestamp>, b: Option<Timestamp>) -> bool {
    match (a, b) {
        (None, Some(_)) => true,
        (Some(x), Some(y)) => x.precedes(y),
        _ => false,
    }
}

pub fn completion_is_before(a: &Option<Timestamp>, b: &Option<Timestamp>) -> (earlier: bool)
    ensures
        earlier == completion_precedes(*a, *b),
{
    match (a, b) {
        (None, Some(_)) => true,
        (Some(x), Some(y)) => x.is_before(y),
        _ => false,
    }
}

/// The order is strict: nothing precedes itself, no two times precede each
/// other, and it is transitive. Times that do not precede one another in
/// either direction are equal.
pub proof fn completion_order_is_strict_and_total(
    a: Option<Timestamp>,
    b: Option<Timestamp>,
    c: Option<Timestamp>,
)
    ensures
        !completion_precedes(a, a),
        !(completion_precedes(a, b) && completion_precedes(b, a)),
        completion_precedes(a, b) && completion_precedes(b, c) ==> completion_precedes(a, c),
        !completion_precedes(a, b) && !completion_precedes(b, a) ==> a == b,
{
}

/// One task as the service reports it.
#[derive(Debug, Clone, PartialEq, Eq)]
pub struct Task {
    pub completed: bool,
    pub completed_at: Option<Timestamp>,
    pub name: String,
}

/// What a task is to the contracts: its fields, the name as text.
pub struct TaskView {
    pub completed: bool,
    pub completed_at: Option<Timestamp>,
    pub name: Seq<char>,
}

impl View for Task {
    type V = TaskView;

    open spec fn view(&self) -> TaskView {
        TaskView { completed: self.completed, completed_at: self.completed_at, name: self.name@ }
    }
}

/// The models of a run of tasks, one for one.
pub open spec fn task_views(tasks: Seq<Task>) -> Seq<TaskView> {
    tasks.map_values(|t: Task| t@)
}

/// The models of a run of entries, one for one.
pub open spec fn entry_views(entries: Seq<Entry>) -> Seq<Seq<char>> {
    entries.map_values(|e: Entry| e@)
}

} // verus!
