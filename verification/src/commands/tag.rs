//! `tag`: lists the tags, or makes one.

use vstd::prelude::*;
use vstd::string::StringExecFns;
use crate::commands::ls_files::strings_view;
use crate::error::GitError;
use crate::refs::{object_resolve, object_resolve_spec, ref_content, ref_create};
use crate::repo::GitRepository;
use crate::store::{names_in_dir, FileStore};
use crate::text::{chars_of, find_char, find_char_from};

verus! {

/// The path of the tag `name` inside the repository directory.
pub open spec fn tag_path(name: Seq<char>) -> Seq<char> {
    "refs/tags/"@ + name
}

/// The name of the object at which a new tag `name` for `object` points.
///
/// `NotAValidName` where the name holds a slash; `AlreadyExists` where there
/// is such a tag; the error of resolving `object` where it does not resolve.
pub open spec fn create_tag_spec(store: &FileStore, name: Seq<char>, object: Seq<char>) -> Result<
    Seq<char>,
    GitError,
> {
    if find_char(name, '/', 0) < name.len() {
        Err(GitError::NotAValidName)
    } else if store.content(tag_path(name)) is Some {
        Err(GitError::AlreadyExists)
    } else {
        object_resolve_spec(store, object)
    }
}

/// The names of the tags: of the files directly in `refs/tags`.
pub fn list_tags(repo: &GitRepository) -> (names: Vec<String>)
    ensures
        strings_view(names@) == names_in_dir(repo.store.files@, "refs/tags"@),
{
    let found = repo.store.names_in("refs/tags");
    let mut names: Vec<String> = Vec::new();
    let mut i: usize = 0;
    while i < found.len()
        invariant
            i <= found@.len(),
            names@.len() == i,
            forall|j: int| 0 <= j < i ==> (#[trigger] names@[j])@ == found@[j]@,
        decreases found@.len() - i,
    {
        names.push(String::from_str(found[i]));
        i += 1;
    }
    assert(strings_view(names@) =~= names_in_dir(repo.store.files@, "refs/tags"@));
    names
}

/// Makes the tag `name`: a reference in `refs/tags` that points at the
/// object that `object` stands for.
pub fn create_tag(repo: &mut GitRepository, name: &str, object: &str) -> (r: Result<(), GitError>)
    ensures
        final(repo).worktree == old(repo).worktree,
        final(repo).gitdir == old(repo).gitdir,
        final(repo).config == old(repo).config,
        final(repo).store.dirs == old(repo).store.dirs,
        match create_tag_spec(&old(repo).store, name@, object@) {
            Err(e) => r == Err::<(), GitError>(e) && final(repo).store == old(repo).store,
            Ok(sha) => {
                &&& r is Ok
                &&& final(repo).store.content(tag_path(name@)) == Some(ref_content(sha))
                &&& final(repo).store.listing() == crate::store::view_put(
                    old(repo).store.listing(),
                    tag_path(name@),
                    ref_content(sha),
                )
                &&& forall|p: Seq<char>|
                    p != tag_path(name@) ==> final(repo).store.content(p) == old(repo).store.content(p)
            },
        },
{
    let chars = chars_of(name);
    if find_char_from(chars.as_slice(), '/', 0) < chars.len() {
        return Err(GitError::NotAValidName);
    }
    let mut path = String::from_str("refs/tags/");
    path.append(name);
    if repo.store.contains(path.as_str()) {
        return Err(GitError::AlreadyExists);
    }
    let sha = match object_resolve(repo, object) {
        Err(e) => { return Err(e); },
        Ok(sha) => sha,
    };
    ref_create(repo, path.as_str(), sha.as_str());
    Ok(())
}

} // verus!
