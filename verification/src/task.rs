use vstd::prelude::*;

verus! {

/// Identifier of a task: the 128 bits of a time-ordered UUID.
///
/// Identifiers are handed out once, at task creation, and never reused; every
/// other structure refers to a task only through its id.
#[derive(Clone, Copy, PartialEq, Eq, Structural, Debug, Hash)]
pub struct TaskId(pub u128);

impl TaskId {
    /// The all-zero identifier, never returned by [`TaskId::now_v7`].
    pub fn nil() -> (r: TaskId)
        ensures
            r.0 == 0,
    {
        TaskId(0)
    }

    /// A fresh, time-ordered identifier.
    ///
    /// Relies on `uuid::Uuid::now_v7`: the result carries the version number
    /// seven in its version bits, so it is never the nil (all-zero) value.
    /// Nothing else can be promised of it; in particular uniqueness holds in
    /// practice but is not stated.  On a machine whose clock is set before
    /// 1970 the underlying call does not return.
    #[verifier::external_body]
    pub fn now_v7() -> (r: TaskId)
        ensures
            r.0 != 0,
    {
        TaskId(uuid::Uuid::now_v7().as_u128())
    }
}

impl Default for TaskId {
    fn default() -> (r: Self)
        ensures
            r.0 == 0,
    {
        TaskId(0)
    }
}

/// A unit of work: a stable id, a user-visible name and a completion flag.
#[derive(Debug, PartialEq)]
pub struct Task {
    pub id: TaskId,
    pub name: String,
    pub done: bool,
}

impl Task {
    /// A new task under a fresh id, not yet done.
    pub fn new(name: String) -> (t: Task)
        ensures
            t.id.0 != 0,
            t.name == name,
            t.done == false,
    {
        Task { id: TaskId::now_v7(), name, done: false }
    }
}

impl Task {
    /// Sets the completion flag; a pure mutation that always succeeds.
    pub fn set_done(&mut self, done: bool)
        ensures
            *final(self) == (Task { done, ..*old(self) }),
    {
        self.done = done;
    }
}

impl Clone for Task {
    fn clone(&self) -> (r: Self)
        ensures
            r == *self,
    {
        Task { id: self.id, name: self.name.clone(), done: self.done }
    }
}

} // verus!
