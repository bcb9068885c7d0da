//! `rev-parse`: the full name of the object that a name stands for.

use vstd::prelude::*;
use crate::error::GitError;
use crate::frame::GitObjectType;
use crate::refs::{object_find, object_find_spec};
use crate::repo::GitRepository;

verus! {

/// Resolves `name`, and checks the kind of the object where one is asked for.
pub fn run(repo: &GitRepository, name: &str, fmt: Option<GitObjectType>) -> (r: Result<
    String,
    GitError,
>)
    ensures
        match object_find_spec(&repo.store, name@, fmt) {
            Ok(t) => r is Ok && r->Ok_0@ == t,
            Err(e) => r == Err::<String, GitError>(e),
        },
{
    object_find(repo, name, fmt)
}

} // verus!
