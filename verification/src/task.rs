use vstd::prelude::*;

verus! {

/// One to-do record: a numeric id assigned once at creation and a
/// free-form description, mutable afterwards.
#[derive(Debug)]
pub struct Task {
    pub id: u64,
    pub description: String,
}

/// Mathematical image of a [`Task`]: its id together with the
/// description's character sequence.
#[verifier::ext_equal]
pub ghost struct TaskView {
    pub id: u64,
    pub description: Seq<char>,
}

impl View for Task {
    type V = TaskView;

    open spec fn view(&self) -> TaskView {
        TaskView { id: self.id, description: self.description@ }
    }
}

impl Task {
    /// Builds a record from its parts.
    pub fn new(id: u64, description: String) -> (t: Task)
        ensures
            t@ == (TaskView { id, description: description@ }),
    {
        Task { id, description }
    }

    /// An independent copy: same id, same description text.
    pub fn duplicate(&self) -> (t: Task)
        ensures
            t@ == self@,
    {
        Task { id: self.id, description: self.description.clone() }
    }
}

/// The one domain error: an operation addressed an id that is not in
/// the store.
#[derive(Clone, Copy, Debug, PartialEq, Eq, Structural)]
pub enum TaskError {
    NotFound,
}

} // verus!
