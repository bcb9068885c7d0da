//! `show-ref`: the references and what they point at.

use vstd::prelude::*;
use vstd::string::StringExecFns;
use crate::commands::ls_files::strings_view;
use crate::error::GitError;
use crate::refs::{collect_refs, listed_refs, refs_view};
use crate::repo::GitRepository;
use crate::store::paths_below;

verus! {

/// The lines for the references: what each holds, a space, and its path.
pub open spec fn ref_lines(refs: Seq<(Seq<char>, Seq<char>)>) -> Seq<Seq<char>> {
    Seq::new(refs.len(), |i: int| refs[i].0 + " "@ + refs[i].1)
}

/// One line for each file below `refs`: what it holds, a space, and its
/// path. `IoFailure` where a file is no text.
pub fn run(repo: &GitRepository) -> (r: Result<Vec<String>, GitError>)
    ensures
        match listed_refs(&repo.store, paths_below(repo.store.files@, "refs"@)) {
            Some(refs) => r is Ok && strings_view(r->Ok_0@) == ref_lines(refs),
            None => r == Err::<Vec<String>, GitError>(GitError::IoFailure),
        },
{
    let refs = match collect_refs(repo, "refs") {
        Err(e) => { return Err(e); },
        Ok(refs) => refs,
    };
    let ghost rv = refs_view(refs@);
    let mut lines: Vec<String> = Vec::new();
    let mut i: usize = 0;
    while i < refs.len()
        invariant
            i <= refs@.len(),
            rv == refs_view(refs@),
            lines@.len() == i,
            forall|j: int| 0 <= j < i ==> (#[trigger] lines@[j])@ == ref_lines(rv)[j],
        decreases refs@.len() - i,
    {
        let mut line = String::from_str(refs[i].0.as_str());
        line.append(" ");
        line.append(refs[i].1.as_str());
        lines.push(line);
        i += 1;
    }
    assert(strings_view(lines@) =~= ref_lines(rv));
    Ok(lines)
}

} // verus!
