use vstd::prelude::*;

use crate::time::{clock_now, Timestamp};

verus! {

/// The errors of the break-tracking operations.
#[derive(Clone, Copy, PartialEq, Eq, Structural, Debug)]
pub enum BreakError {
    NoBreak,
    BreakAlreadyEnded,
    LastBreakNotEnded,
    NoFocus,
}

/// A pause inside a focus period: a start time, and an end time once the
/// break is over.
#[derive(Clone, Copy, Debug)]
pub struct Break {
    pub start: Timestamp,
    pub end: Option<Timestamp>,
}

impl Break {
    /// A break starting at `start`, still ongoing.
    pub fn new(start: Timestamp) -> (r: Self)
        ensures
            r.start == start,
            r.end is None,
    {
        Break { start, end: None }
    }

    /// Ends the break now; a break already over is refused unchanged.
    pub fn end(&mut self) -> (r: Result<(), BreakError>)
        ensures
            match old(self).end {
                None => r == Ok::<(), BreakError>(()) && final(self).end is Some
                    && final(self).start == old(self).start,
                Some(_) => r == Err::<(), BreakError>(BreakError::BreakAlreadyEnded)
                    && *final(self) == *old(self),
            },
    {
        match self.end {
            None => {
                self.end = Some(clock_now());
                Ok(())
            },
            Some(_) => Err(BreakError::BreakAlreadyEnded),
        }
    }
}

/// One focus period of the older, name-based day model: a named stretch of
/// work with the breaks taken during it.
#[derive(Clone, Debug)]
pub struct Focus {
    pub name: String,
    pub start: Timestamp,
    pub breaks: Vec<Break>,
}

impl Focus {
    /// A focus on `name`, starting now, with no breaks yet.
    pub fn now(name: String) -> (r: Self)
        ensures
            r.name == name,
            r.breaks@.len() == 0,
    {
        Focus { name, start: clock_now(), breaks: Vec::new() }
    }

    /// Starts a break, unless the previous one is still going.
    pub fn start_break(&mut self) -> (r: Result<(), BreakError>)
        ensures
            ({
                let bs = old(self).breaks@;
                if bs.len() > 0 && bs.last().end is None {
                    r == Err::<(), BreakError>(BreakError::LastBreakNotEnded)
                        && *final(self) == *old(self)
                } else {
                    &&& r == Ok::<(), BreakError>(())
                    &&& final(self).breaks@.drop_last() == bs
                    &&& final(self).breaks@.len() == bs.len() + 1
                    &&& final(self).breaks@.last().end is None
                    &&& final(self).name == old(self).name
                    &&& final(self).start == old(self).start
                }
            }),
    {
        let n = self.breaks.len();
        if n > 0 {
            let last = self.breaks[n - 1];
            if last.end.is_none() {
                return Err(BreakError::LastBreakNotEnded);
            }
        }
        self.breaks.push(Break::new(clock_now()));
        proof {
            assert(self.breaks@.drop_last() =~= old(self).breaks@);
        }
        Ok(())
    }

    /// Ends the last break; with no break yet, or the last one already over,
    /// it refuses unchanged.
    pub fn end_break(&mut self) -> (r: Result<(), BreakError>)
        ensures
            ({
                let bs = old(self).breaks@;
                if bs.len() == 0 {
                    r == Err::<(), BreakError>(BreakError::NoBreak) && *final(self) == *old(self)
                } else if bs.last().end is Some {
                    &&& r == Err::<(), BreakError>(BreakError::BreakAlreadyEnded)
                    &&& final(self).breaks@ == bs
                    &&& final(self).name == old(self).name
                    &&& final(self).start == old(self).start
                } else {
                    &&& r == Ok::<(), BreakError>(())
                    &&& final(self).breaks@.len() == bs.len()
                    &&& final(self).breaks@.drop_last() == bs.drop_last()
                    &&& final(self).breaks@.last().start == bs.last().start
                    &&& final(self).breaks@.last().end is Some
                    &&& final(self).name == old(self).name
                    &&& final(self).start == old(self).start
                }
            }),
    {
        let n = self.breaks.len();
        if n == 0 {
            return Err(BreakError::NoBreak);
        }
        let slot = vstd::std_specs::vec::vec_index_mut(&mut self.breaks, n - 1);
        let r = slot.end();
        proof {
            if old(self).breaks@.last().end is None {
                assert(self.breaks@ =~= old(self).breaks@.update(
                    n - 1,
                    self.breaks@.last(),
                ));
                assert(self.breaks@.drop_last() =~= old(self).breaks@.drop_last());
            } else {
                assert(self.breaks@ =~= old(self).breaks@);
            }
        }
        r
    }
}

/// A pause of the oldest model, kept by itself rather than inside a focus.
#[derive(Clone, Copy, Debug)]
pub struct FocusBreak {
    start: Timestamp,
    end: Option<Timestamp>,
}

impl FocusBreak {
    /// Whether the break has been ended.
    pub closed spec fn ended(&self) -> bool {
        self.end is Some
    }

    /// A break starting now.
    pub fn start() -> (r: Self)
        ensures
            !r.ended(),
    {
        FocusBreak { start: clock_now(), end: None }
    }

    /// Ends the break now; ending it twice is refused.
    pub fn end(&mut self) -> (r: Result<(), BreakError>)
        ensures
            !old(self).ended() ==> r == Ok::<(), BreakError>(()) && final(self).ended(),
            old(self).ended() ==> r == Err::<(), BreakError>(BreakError::BreakAlreadyEnded)
                && *final(self) == *old(self),
    {
        match self.end {
            None => {
                self.end = Some(clock_now());
                Ok(())
            },
            Some(_) => Err(BreakError::BreakAlreadyEnded),
        }
    }

    pub fn is_over(&self) -> (r: bool)
        ensures
            r == self.ended(),
    {
        self.end.is_some()
    }
}

} // verus!
