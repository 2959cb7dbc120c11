use vstd::prelude::*;

verus! {

/// A ranked item of a day's plan, as the early revisions of the tool stored
/// it: a bare name with a completion flag, before tasks got stable ids.
#[derive(Clone, Debug)]
pub struct Priority {
    pub name: String,
    pub done: bool,
}

impl Priority {
    /// A new priority, not yet done.
    pub fn new(name: String) -> (r: Self)
        ensures
            r.name == name,
            r.done == false,
    {
        Priority { name, done: false }
    }
}

} // verus!
