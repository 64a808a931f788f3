//! The command line, as plain values: the root invocation opens the status
//! view; subcommands review a range, work the comments store, or manage the
//! bundled agent skill.

use vstd::prelude::*;
use crate::git::status::{clone_opt, opt_view};

verus! {

/// The parsed command line.
pub struct Cli {
    /// Path to the git repository (defaults to the current directory).
    pub path: Option<String>,
    pub command: Option<Command>,
    /// Theme for this run: a built-in preset or a file in the themes folder.
    pub theme: Option<String>,
    /// Render a single frame to stdout as text, then exit.
    pub dump_frame: bool,
    /// Terminal width to use with `--dump-frame`.
    pub width: u16,
    /// Terminal height to use with `--dump-frame`.
    pub height: u16,
}

/// A subcommand; without one the status view opens.
pub enum Command {
    /// Review a branch range (a base…head diff).
    Diff { range: String, path: Option<String> },
    /// Read and edit review comments for the checked-out branch.
    Comment { action: CommentAction, path: Option<String> },
    /// Manage the bundled agent skill.
    Skill { action: SkillAction },
}

/// A `skill` action.
pub enum SkillAction {
    /// Write the bundled skill to the data directory and print its path.
    Path { json: bool },
}

/// A `comment` action; all act on the current HEAD branch's inbox.
pub enum CommentAction {
    /// List this branch's comments.
    List { json: bool },
    /// Add an agent-authored comment anchored to a line of a file's diff.
    Add {
        file: String,
        old_line: Option<usize>,
        new_line: Option<usize>,
        text: String,
        json: bool,
    },
    /// Remove one comment by id from this branch.
    Rm { id: u64, json: bool },
    /// Remove every comment on this branch.
    Clear { json: bool },
    /// Drop inboxes for branches and commits that no longer exist.
    Gc { json: bool },
}

/// The repository path and, for a review, the range the command line names:
/// the subcommand's path when it has one, else the root path.
pub open spec fn target_of(cli: Cli) -> (Option<Seq<char>>, Option<Seq<char>>) {
    match cli.command {
        Some(Command::Diff { range, path }) => (opt_view(path), Some(range@)),
        Some(Command::Comment { path, .. }) => (opt_view(path), None),
        Some(Command::Skill { .. }) => (None, None),
        None => (opt_view(cli.path), None),
    }
}

impl Cli {
    /// The repository path and, for a review subcommand, the range to
    /// resolve.
    pub fn target(&self) -> (r: (Option<String>, Option<String>))
        ensures
            (opt_view(r.0), opt_view(r.1)) == target_of(*self),
    {
        match &self.command {
            Some(Command::Diff { range, path }) => (clone_opt(path), Some(range.clone())),
            Some(Command::Comment { path, .. }) => (clone_opt(path), None),
            Some(Command::Skill { .. }) => (None, None),
            None => (clone_opt(&self.path), None),
        }
    }
}

} // verus!
