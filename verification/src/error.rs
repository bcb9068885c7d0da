//! The error kinds that the library reports.

use vstd::prelude::*;

verus! {

/// What went wrong. Each fallible function says in its contract exactly when
/// each kind is returned.
#[derive(Debug, Clone, Copy, PartialEq, Eq, Structural)]
pub enum GitError {
    /// No repository directory could be found.
    NotARepository,
    /// An object's frame or payload violates the object format.
    CorruptObject,
    /// The staging index violates the index format.
    CorruptIndex,
    /// A header record violates the header-record grammar.
    CorruptKvlm,
    /// An object's kind token is not one of the four known kinds.
    UnknownKind,
    /// An object exists but is not of the kind that was asked for.
    WrongKind,
    /// A name or an object does not resolve.
    NotFound,
    /// A name is neither a hash nor `HEAD` nor the name of a reference.
    NotAValidName,
    /// An object that must be a commit is of another kind.
    NotCommit,
    /// An abbreviated hash matches more than one object.
    Ambiguous,
    /// A path lies outside the working tree.
    OutsideWorktree,
    /// The thing to be created is already there.
    AlreadyExists,
    /// The file system or the compressor failed.
    IoFailure,
}

impl GitError {
    /// A short description for the user.
    pub fn message(&self) -> (text: &'static str)
        ensures
            text@ == self.message_text(),
    {
        match self {
            GitError::NotARepository => "not a repository",
            GitError::CorruptObject => "corrupt object",
            GitError::CorruptIndex => "corrupt index",
            GitError::CorruptKvlm => "corrupt header record",
            GitError::UnknownKind => "unknown object kind",
            GitError::WrongKind => "object is not of the expected kind",
            GitError::NotFound => "not found",
            GitError::NotAValidName => "not a valid object name",
            GitError::NotCommit => "object is not a commit",
            GitError::Ambiguous => "ambiguous abbreviated hash",
            GitError::OutsideWorktree => "path is outside the working tree",
            GitError::AlreadyExists => "already exists",
            GitError::IoFailure => "input or output failed",
        }
    }

    /// The description as a sequence of characters.
    pub open spec fn message_text(&self) -> Seq<char> {
        match self {
            GitError::NotARepository => "not a repository"@,
            GitError::CorruptObject => "corrupt object"@,
            GitError::CorruptIndex => "corrupt index"@,
            GitError::CorruptKvlm => "corrupt header record"@,
            GitError::UnknownKind => "unknown object kind"@,
            GitError::WrongKind => "object is not of the expected kind"@,
            GitError::NotFound => "not found"@,
            GitError::NotAValidName => "not a valid object name"@,
            GitError::NotCommit => "object is not a commit"@,
            GitError::Ambiguous => "ambiguous abbreviated hash"@,
            GitError::OutsideWorktree => "path is outside the working tree"@,
            GitError::AlreadyExists => "already exists"@,
            GitError::IoFailure => "input or output failed"@,
        }
    }
}

} // verus!
