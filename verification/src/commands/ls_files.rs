//! `ls-files`: the paths that the index lists.

use vstd::prelude::*;
use vstd::string::StringExecFns;
use crate::error::GitError;
use crate::ignore::stored_index;
use crate::index::{index_file, read_index, EntryView};
use crate::repo::GitRepository;

verus! {

/// The paths of the entries, in their order.
pub open spec fn entry_paths(es: Seq<EntryView>) -> Seq<Seq<char>> {
    Seq::new(es.len(), |i: int| es[i].path)
}

/// The texts of a vector as mathematical sequences.
pub open spec fn strings_view(v: Seq<String>) -> Seq<Seq<char>> {
    Seq::new(v.len(), |i: int| v[i]@)
}

/// The path of every entry of the index, in stored order. `CorruptIndex`
/// where the index file is no index.
pub fn run(repo: &GitRepository) -> (r: Result<Vec<String>, GitError>)
    ensures
        match stored_index(&repo.store) {
            Ok(es) => r is Ok && strings_view(r->Ok_0@) == entry_paths(es),
            Err(e) => r == Err::<Vec<String>, GitError>(e),
        },
{
    let index = match read_index(repo) {
        Err(e) => { return Err(e); },
        Ok(index) => index,
    };
    proof {
        if repo.store.content(index_file()) is None {
            assert(index@ == Seq::<EntryView>::empty());
        }
    }
    let mut paths: Vec<String> = Vec::new();
    let mut i: usize = 0;
    while i < index.entries.len()
        invariant
            i <= index.entries@.len(),
            paths@.len() == i,
            forall|j: int| 0 <= j < i ==> (#[trigger] paths@[j])@ == index@[j].path,
        decreases index.entries@.len() - i,
    {
        paths.push(String::from_str(index.entries[i].path.as_str()));
        i += 1;
    }
    assert(strings_view(paths@) =~= entry_paths(index@));
    Ok(paths)
}

} // verus!
