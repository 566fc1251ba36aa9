//! What the program around the library observed on the host, handed to the
//! library's decisions as plain values.

use vstd::prelude::*;

verus! {

/// The type of a filesystem entry as `symlink_metadata` (or, where the
/// library says so, `metadata`) reports it.
#[derive(Debug, Clone, Copy, PartialEq, Eq, Structural)]
pub enum EntryType {
    /// A symbolic link (never followed).
    Symlink,
    /// A directory.
    Directory,
    /// A regular file.
    File,
    /// Anything else (socket, device, FIFO, ...).
    Other,
}

/// The part of an I/O error that decisions depend on.
#[derive(Debug, Clone, Copy, PartialEq, Eq, Structural)]
pub enum IoKind {
    /// The path does not exist.
    NotFound,
    /// The path already exists.
    AlreadyExists,
    /// Any other failure.
    Other,
}

/// A failed host operation: its kind and the host's description.
#[derive(Debug, Clone, PartialEq, Eq)]
pub struct IoFailure {
    /// What kind of failure it was.
    pub kind: IoKind,
    /// The host's message.
    pub detail: String,
}

/// The description of an error that no host operation reported.
pub open spec fn no_detail() -> Seq<char> {
    Seq::<char>::empty()
}

} // verus!
