use vstd::prelude::*;

verus! {

/// What a focus request names, resolved once at the command boundary: either
/// an index into the day's priority list, or the name of a task to create on
/// the spot.
#[derive(Clone, Debug)]
pub enum Focus {
    Priority(usize),
    Other(String),
}

} // verus!
