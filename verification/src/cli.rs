use vstd::prelude::*;

verus! {

/// The context subcommand's arguments, as plain data.  The front end parses
/// the command line into this shape and acts on it against the database.
#[derive(Clone, Debug)]
pub struct ContextArgs {
    pub command: ContextCommand,
}

/// What to do with contexts: show the current one, list all, or switch.
#[derive(Clone, Debug)]
pub enum ContextCommand {
    Show,
    List,
    Switch { context: String },
}

/// The note command's argument: the text to append to today.
#[derive(Clone, Debug)]
pub struct NoteArgs {
    pub note: String,
}

} // verus!
