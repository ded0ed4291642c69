use vstd::prelude::*;

verus! {

/// What the user asked for.
#[derive(Debug)]
pub struct Cli {
    pub command: Command,
}

/// The commands.
#[derive(Debug)]
pub enum Command {
    /// Create a new note.
    Create { path: String, tags: Vec<String> },
    /// Edit an existing note.
    Edit { path: String },
    /// Search for notes.
    Find { args: SearchArgs },
    /// Delete a note.
    Delete { path: String },
    /// Manage the tags of a note.
    Tag { subcommand: TagCommand },
    /// Move a note, or rename it in place.
    Move { path: String, new_path: String, rename: bool },
    /// Export the index.
    Export,
}

/// The commands on tags.
#[derive(Debug)]
pub enum TagCommand {
    /// Add tags to a note.
    Add { path: String, tags: Vec<String> },
    /// Remove tags from a note.
    Remove { path: String, tags: Vec<String> },
}

/// What to search by. The three are alternatives: a path or a title, a
/// list of tags, or everything.
#[derive(Debug, Clone)]
pub struct SearchArgs {
    pub path: Option<String>,
    pub tags: Vec<String>,
    pub all: bool,
}

} // verus!
