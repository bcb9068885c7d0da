//! `init`: makes a new repository.

use vstd::prelude::*;
use crate::error::GitError;
use crate::repo::{fresh_repository, occupied, GitRepository};
use crate::store::FileStore;

verus! {

/// What `init` prints.
pub open spec fn init_message() -> Seq<char> {
    "Initialized empty rust-git repository"@
}

/// Makes a new repository for the working tree at `path`, and says so.
/// `worktree` names what lies directly in that path, and `gitdir` holds what
/// the repository directory holds already, `None` where there is none.
/// `AlreadyExists` exactly where either holds anything.
pub fn run(path: &str, worktree: &[&str], gitdir: Option<FileStore>) -> (r: Result<
    (GitRepository, &'static str),
    GitError,
>)
    ensures
        match r {
            Err(e) => e == GitError::AlreadyExists && occupied(worktree@, gitdir),
            Ok((repo, message)) => {
                &&& !occupied(worktree@, gitdir)
                &&& fresh_repository(repo, path@)
                &&& message@ == init_message()
            },
        },
{
    match GitRepository::create(path, worktree, gitdir) {
        Err(e) => Err(e),
        Ok(repo) => Ok((repo, "Initialized empty rust-git repository")),
    }
}

} // verus!
