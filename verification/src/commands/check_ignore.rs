//! `check-ignore`: which of the given paths are ignored.

use vstd::prelude::*;
use vstd::string::StringExecFns;
use crate::commands::ls_files::strings_view;
use crate::commands::status::{any_absolute, ignored_files, is_absolute, strs_view};
use crate::error::GitError;
use crate::ignore::{absolute_view, check_ignore, gitignore_read, given_text, rules_spec, scoped_view};
use crate::repo::GitRepository;

verus! {

/// The paths among `paths` that are ignored, in their order. The paths are
/// given from the root of the working tree; `global` is the user's ignore
/// file, where the user has one.
///
/// The error of reading the ignore rules where they cannot be read;
/// `OutsideWorktree` where a path begins with a slash.
#[verifier::loop_isolation(false)]
pub fn run(repo: &GitRepository, global: Option<&str>, paths: &[&str]) -> (r: Result<
    Vec<String>,
    GitError,
>)
    ensures
        match rules_spec(&repo.store, given_text(global)) {
            Err(e) => r == Err::<Vec<String>, GitError>(e),
            Ok((absolute, scoped)) => if any_absolute(strs_view(paths@)) {
                r == Err::<Vec<String>, GitError>(GitError::OutsideWorktree)
            } else {
                r is Ok && strings_view(r->Ok_0@) == ignored_files(
                    absolute,
                    scoped,
                    strs_view(paths@),
                )
            },
        },
{
    let rules = match gitignore_read(repo, global) {
        Err(e) => { return Err(e); },
        Ok(rules) => rules,
    };
    let ghost absolute = absolute_view(rules.absolute@);
    let ghost scoped = scoped_view(rules.scoped@);
    let ghost all = strs_view(paths@);
    let mut ignored: Vec<String> = Vec::new();
    let mut i: usize = 0;
    assert(strings_view(ignored@) == Seq::<Seq<char>>::empty());
    while i < paths.len()
        invariant
            i <= paths@.len(),
            all == strs_view(paths@),
            absolute == absolute_view(rules.absolute@),
            scoped == scoped_view(rules.scoped@),
            forall|j: int| 0 <= j < i ==> !is_absolute(#[trigger] all[j]),
            strings_view(ignored@) == ignored_files(absolute, scoped, all.take(i as int)),
        decreases paths@.len() - i,
    {
        proof {
            assert(all.take(i + 1).drop_last() == all.take(i as int));
            assert(all.take(i + 1).last() == paths@[i as int]@);
        }
        let path = paths[i];
        match check_ignore(&rules, path) {
            Err(e) => {
                assert(is_absolute(all[i as int]));
                return Err(GitError::OutsideWorktree);
            },
            Ok(true) => {
                let ghost before = strings_view(ignored@);
                ignored.push(String::from_str(path));
                assert(strings_view(ignored@) == before.push(path@));
            },
            Ok(false) => {},
        }
        i += 1;
    }
    proof {
        assert(all.take(i as int) == all);
    }
    Ok(ignored)
}

} // verus!
