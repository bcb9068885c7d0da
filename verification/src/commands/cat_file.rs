//! `cat-file`: the payload of an object.

use vstd::prelude::*;
use crate::error::GitError;
use crate::frame::GitObjectType;
use crate::objects::{object_read, stored_object, view_payload};
use crate::refs::{object_find, object_find_spec};
use crate::repo::GitRepository;
use crate::store::FileStore;

verus! {

/// The payload of the object that `name` stands for, where it is of the
/// given kind; the error of finding or reading it otherwise.
pub open spec fn cat_file_spec(store: &FileStore, kind: GitObjectType, name: Seq<char>) -> Result<
    Seq<u8>,
    GitError,
> {
    match object_find_spec(store, name, Some(kind)) {
        Err(e) => Err(e),
        Ok(sha) => match stored_object(store, sha) {
            Err(e) => Err(e),
            Ok(v) => Ok(view_payload(v)),
        },
    }
}

/// Resolves `object`, checks that it is of the kind `object_type`, and hands
/// out its payload.
pub fn run(repo: &GitRepository, object_type: &GitObjectType, object: &str) -> (r: Result<
    Vec<u8>,
    GitError,
>)
    ensures
        match cat_file_spec(&repo.store, *object_type, object@) {
            Ok(data) => r is Ok && r->Ok_0@ == data,
            Err(e) => r == Err::<Vec<u8>, GitError>(e),
        },
{
    let sha = match object_find(repo, object, Some(*object_type)) {
        Err(e) => { return Err(e); },
        Ok(sha) => sha,
    };
    match object_read(repo, sha.as_str()) {
        Err(e) => Err(e),
        Ok((_, obj)) => Ok(obj.serialize()),
    }
}

} // verus!
