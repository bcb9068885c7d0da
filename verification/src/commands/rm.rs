//! `rm`: takes files out of the index.

use vstd::prelude::*;
use vstd::string::StringExecFns;
use crate::commands::ls_files::{entry_paths, strings_view};
use crate::commands::status::strs_view;
use crate::error::GitError;
use crate::ignore::stored_index;
use crate::index::{index_bytes, index_file, index_writable, read_index, write_index, EntryView,
    GitIndex, GitIndexEntry};
use crate::repo::GitRepository;
use crate::text::str_eq;

verus! {

/// The entries whose path is not among `paths`, in their order.
pub open spec fn kept_entries(es: Seq<EntryView>, paths: Seq<Seq<char>>) -> Seq<EntryView>
    decreases es.len(),
{
    if es.len() == 0 {
        Seq::empty()
    } else {
        let before = kept_entries(es.drop_last(), paths);
        if paths.contains(es.last().path) {
            before
        } else {
            before.push(es.last())
        }
    }
}

/// The paths of the entries whose path is among `paths`, in the order of the
/// entries.
pub open spec fn removed_paths(es: Seq<EntryView>, paths: Seq<Seq<char>>) -> Seq<Seq<char>>
    decreases es.len(),
{
    if es.len() == 0 {
        Seq::empty()
    } else {
        let before = removed_paths(es.drop_last(), paths);
        if paths.contains(es.last().path) {
            before.push(es.last().path)
        } else {
            before
        }
    }
}

/// Whether each of `paths` is the path of an entry.
pub open spec fn all_listed(es: Seq<EntryView>, paths: Seq<Seq<char>>) -> bool {
    forall|i: int| 0 <= i < paths.len() ==> entry_paths(es).contains(#[trigger] paths[i])
}

/// What `rm` does: the new index and the paths of the files to delete, or
/// the error.
///
/// The error of reading the index; `NotFound` where a path is not in the
/// index, unless `skip_missing` is set; `CorruptIndex` where what is kept
/// cannot be written.
pub open spec fn rm_spec(
    es: Result<Seq<EntryView>, GitError>,
    paths: Seq<Seq<char>>,
    delete: bool,
    skip_missing: bool,
) -> Result<(Seq<EntryView>, Seq<Seq<char>>), GitError> {
    match es {
        Err(e) => Err(e),
        Ok(es) => if !skip_missing && !all_listed(es, paths) {
            Err(GitError::NotFound)
        } else if !index_writable(kept_entries(es, paths)) {
            Err(GitError::CorruptIndex)
        } else {
            Ok(
                (
                    kept_entries(es, paths),
                    if delete {
                        removed_paths(es, paths)
                    } else {
                        Seq::empty()
                    },
                ),
            )
        },
    }
}

/// Whether `path` is among `paths`.
pub fn is_listed(paths: &[&str], path: &str) -> (found: bool)
    ensures
        found == strs_view(paths@).contains(path@),
{
    let mut i: usize = 0;
    while i < paths.len()
        invariant
            i <= paths@.len(),
            forall|j: int| 0 <= j < i ==> strs_view(paths@)[j] != path@,
        decreases paths@.len() - i,
    {
        if str_eq(paths[i], path) {
            assert(strs_view(paths@)[i as int] == path@);
            return true;
        }
        i += 1;
    }
    false
}

/// Whether `path` is the path of an entry.
fn in_index(index: &GitIndex, path: &str) -> (found: bool)
    ensures
        found == entry_paths(index@).contains(path@),
{
    let mut i: usize = 0;
    while i < index.entries.len()
        invariant
            i <= index.entries@.len(),
            forall|j: int| 0 <= j < i ==> entry_paths(index@)[j] != path@,
        decreases index.entries@.len() - i,
    {
        if str_eq(index.entries[i].path.as_str(), path) {
            assert(entry_paths(index@)[i as int] == path@);
            return true;
        }
        i += 1;
    }
    false
}

/// Parts an index into the entries whose path is not among `paths`, and the
/// paths of the others.
pub fn index_without(index: &GitIndex, paths: &[&str]) -> (r: (GitIndex, Vec<String>))
    ensures
        r.0@ == kept_entries(index@, strs_view(paths@)),
        strings_view(r.1@) == removed_paths(index@, strs_view(paths@)),
{
    let ghost es = index@;
    let ghost ps = strs_view(paths@);
    let mut kept: Vec<GitIndexEntry> = Vec::new();
    let mut removed: Vec<String> = Vec::new();
    let mut i: usize = 0;
    assert(Seq::new(kept@.len(), |k: int| kept@[k]@) == Seq::<EntryView>::empty());
    assert(strings_view(removed@) == Seq::<Seq<char>>::empty());
    while i < index.entries.len()
        invariant
            i <= index.entries@.len(),
            es == index@,
            ps == strs_view(paths@),
            Seq::new(kept@.len(), |k: int| kept@[k]@) == kept_entries(es.take(i as int), ps),
            strings_view(removed@) == removed_paths(es.take(i as int), ps),
        decreases index.entries@.len() - i,
    {
        proof {
            assert(es.take(i + 1).drop_last() == es.take(i as int));
            assert(es.take(i + 1).last() == index.entries@[i as int]@);
        }
        let entry = &index.entries[i];
        if is_listed(paths, entry.path.as_str()) {
            let ghost before = strings_view(removed@);
            removed.push(String::from_str(entry.path.as_str()));
            assert(strings_view(removed@) == before.push(entry@.path));
        } else {
            let ghost before = Seq::new(kept@.len(), |k: int| kept@[k]@);
            kept.push(entry.duplicate());
            assert(Seq::new(kept@.len(), |k: int| kept@[k]@) == before.push(entry@));
        }
        i += 1;
    }
    proof {
        assert(es.take(i as int) == es);
    }
    let rest = GitIndex { entries: kept };
    assert(rest@ == Seq::new(kept@.len(), |k: int| kept@[k]@));
    (rest, removed)
}

/// Takes the entries with the given paths out of the index, and names the
/// files that are to be deleted from the working tree: those that were taken
/// out, where `delete` is set, and none where it is not. The paths are given
/// from the root of the working tree.
///
/// On an error the repository stays as it is.
#[verifier::loop_isolation(false)]
pub fn rm(repo: &mut GitRepository, paths: &[&str], delete: bool, skip_missing: bool) -> (r: Result<
    Vec<String>,
    GitError,
>)
    ensures
        final(repo).worktree == old(repo).worktree,
        final(repo).gitdir == old(repo).gitdir,
        final(repo).config == old(repo).config,
        final(repo).store.dirs == old(repo).store.dirs,
        match rm_spec(stored_index(&old(repo).store), strs_view(paths@), delete, skip_missing) {
            Err(e) => r == Err::<Vec<String>, GitError>(e) && final(repo).store == old(repo).store,
            Ok((kept, deleted)) => {
                &&& r is Ok
                &&& strings_view(r->Ok_0@) == deleted
                &&& final(repo).store.content(index_file()) == Some(index_bytes(kept))
                &&& final(repo).store.listing() == crate::store::view_put(
                    old(repo).store.listing(),
                    index_file(),
                    index_bytes(kept),
                )
                &&& forall|p: Seq<char>|
                    p != index_file() ==> final(repo).store.content(p) == old(repo).store.content(p)
            },
        },
{
    let index = match read_index(repo) {
        Err(e) => { return Err(e); },
        Ok(index) => index,
    };
    proof {
        if repo.store.content(index_file()) is None {
            assert(index@ == Seq::<EntryView>::empty());
        }
    }
    let ghost es = index@;
    let ghost ps = strs_view(paths@);
    if !skip_missing {
        let mut i: usize = 0;
        while i < paths.len()
            invariant
                i <= paths@.len(),
                forall|j: int| 0 <= j < i ==> entry_paths(es).contains(#[trigger] ps[j]),
            decreases paths@.len() - i,
        {
            if !in_index(&index, paths[i]) {
                assert(!entry_paths(es).contains(ps[i as int]));
                return Err(GitError::NotFound);
            }
            i += 1;
        }
    }
    let (kept, removed) = index_without(&index, paths);
    match write_index(repo, &kept) {
        Err(e) => { return Err(e); },
        Ok(_) => {},
    }
    if delete {
        Ok(removed)
    } else {
        let none: Vec<String> = Vec::new();
        assert(strings_view(none@) == Seq::<Seq<char>>::empty());
        Ok(none)
    }
}

/// `rm` as the command runs it: the files are deleted, and a path that is
/// not in the index is an error.
pub fn run(repo: &mut GitRepository, paths: &[&str]) -> (r: Result<Vec<String>, GitError>)
    ensures
        final(repo).worktree == old(repo).worktree,
        final(repo).gitdir == old(repo).gitdir,
        final(repo).config == old(repo).config,
        final(repo).store.dirs == old(repo).store.dirs,
        match rm_spec(stored_index(&old(repo).store), strs_view(paths@), true, false) {
            Err(e) => r == Err::<Vec<String>, GitError>(e) && final(repo).store == old(repo).store,
            Ok((kept, deleted)) => {
                &&& r is Ok
                &&& strings_view(r->Ok_0@) == deleted
                &&& final(repo).store.content(index_file()) == Some(index_bytes(kept))
                &&& final(repo).store.listing() == crate::store::view_put(
                    old(repo).store.listing(),
                    index_file(),
                    index_bytes(kept),
                )
                &&& forall|p: Seq<char>|
                    p != index_file() ==> final(repo).store.content(p) == old(repo).store.content(p)
            },
        },
{
    rm(repo, paths, true, false)
}

} // verus!
