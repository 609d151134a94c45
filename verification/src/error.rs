//! The errors a command can surface.

use vstd::prelude::*;

use crate::codec::ParseError;

verus! {

/// Everything that can go wrong inside the command logic. I/O errors
/// arise only in the surrounding program and are reported there.
#[derive(Clone, Copy, Debug, PartialEq, Eq, Structural)]
pub enum TodoPluginError {
    /// No file was named and no home directory is known.
    MissingHomeDirectory,
    /// A removal was asked for without any task id.
    NoIndex,
    /// A task id points past the end of the list.
    IndexOutOfRange,
    /// A priority was given that is not a letter.
    UnknownPriority(u8),
    /// A line of the file is not a task.
    Malformed(ParseError),
}

} // verus!
