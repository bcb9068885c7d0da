//! `hash-object`: names the object that a file's content makes, and stores
//! it where asked.

use vstd::prelude::*;
use crate::error::GitError;
use crate::frame::GitObjectType;
use crate::objects::{store_payload, write_outcome};
use crate::repo::GitRepository;

verus! {

/// Frames `data` as an object of the given kind and names it; stores it
/// where `write` is set. `IoFailure` exactly where the object is to be
/// stored, is not stored yet, and its frame cannot be compressed.
pub fn run(repo: &mut GitRepository, write: bool, kind: &GitObjectType, data: Vec<u8>) -> (r: Result<
    String,
    GitError,
>)
    ensures
        write_outcome(old(repo), final(repo), r, *kind, data@, write),
{
    store_payload(repo, data.as_slice(), kind, write)
}

} // verus!
