//! `status`: the branch, and which files of the working tree are tracked,
//! untracked or ignored.

use vstd::prelude::*;
use vstd::string::StrSliceExecFns;
use vstd::string::StringExecFns;
use crate::commands::ls_files::{entry_paths, strings_view};
use crate::error::GitError;
use crate::ignore::{absolute_view, check_ignore, gitignore_read, given_text, is_ignored,
    rules_spec, scoped_view, stored_index, RuleView};
use crate::refs::{read_trimmed, trimmed_text};
use crate::repo::GitRepository;
use crate::store::FileStore;
use crate::text::{chars_of, chars_start_with, starts_with, str_eq};

verus! {

/// What `status` reports.
#[derive(Debug, Clone)]
pub struct StatusReport {
    /// The branch that `HEAD` names, where it names one.
    pub branch: Option<String>,
    /// What `HEAD` holds.
    pub head: String,
    /// The paths of the index, in stored order.
    pub staged: Vec<String>,
    /// The files of the working tree that are neither in the index nor ignored.
    pub untracked: Vec<String>,
    /// The files of the working tree that are ignored.
    pub ignored: Vec<String>,
}

/// What `HEAD` holds: its trimmed text. `IoFailure` where the file is
/// missing or no text.
pub open spec fn head_text(store: &FileStore) -> Result<Seq<char>, GitError> {
    match store.content("HEAD"@) {
        None => Err(GitError::IoFailure),
        Some(bytes) => trimmed_text(bytes),
    }
}

/// The branch that a head names: where the head is `ref: ` and a path, the
/// path without `refs/heads/` in front, or the whole path where it lies
/// elsewhere. `None` where the head is the name of a commit.
pub open spec fn branch_of(head: Seq<char>) -> Option<Seq<char>> {
    if starts_with(head, "ref: "@) {
        let target = head.skip(5);
        if starts_with(target, "refs/heads/"@) {
            Some(target.skip(11))
        } else {
            Some(target)
        }
    } else {
        None
    }
}

/// Whether a path begins with a slash.
pub open spec fn is_absolute(path: Seq<char>) -> bool {
    path.len() > 0 && path[0] == '/'
}

/// Whether one of the paths begins with a slash.
pub open spec fn any_absolute(paths: Seq<Seq<char>>) -> bool {
    exists|i: int| 0 <= i < paths.len() && is_absolute(#[trigger] paths[i])
}

/// The files that are ignored, in their order.
pub open spec fn ignored_files(
    absolute: Seq<Seq<RuleView>>,
    scoped: Seq<(Seq<char>, Seq<RuleView>)>,
    files: Seq<Seq<char>>,
) -> Seq<Seq<char>>
    decreases files.len(),
{
    if files.len() == 0 {
        Seq::empty()
    } else {
        let before = ignored_files(absolute, scoped, files.drop_last());
        if is_ignored(absolute, scoped, files.last()) {
            before.push(files.last())
        } else {
            before
        }
    }
}

/// The files that are neither tracked nor ignored, in their order.
pub open spec fn untracked_files(
    absolute: Seq<Seq<RuleView>>,
    scoped: Seq<(Seq<char>, Seq<RuleView>)>,
    staged: Seq<Seq<char>>,
    files: Seq<Seq<char>>,
) -> Seq<Seq<char>>
    decreases files.len(),
{
    if files.len() == 0 {
        Seq::empty()
    } else {
        let before = untracked_files(absolute, scoped, staged, files.drop_last());
        if !staged.contains(files.last()) && !is_ignored(absolute, scoped, files.last()) {
            before.push(files.last())
        } else {
            before
        }
    }
}

/// The paths of a slice as mathematical sequences.
pub open spec fn strs_view(v: Seq<&str>) -> Seq<Seq<char>> {
    Seq::new(v.len(), |i: int| v[i]@)
}

/// What `HEAD` holds.
pub fn head_resolve(repo: &GitRepository) -> (r: Result<String, GitError>)
    ensures
        match head_text(&repo.store) {
            Ok(t) => r is Ok && r->Ok_0@ == t,
            Err(e) => r == Err::<String, GitError>(e),
        },
{
    match repo.store.read("HEAD") {
        None => Err(GitError::IoFailure),
        Some(bytes) => read_trimmed(bytes.as_slice()),
    }
}

/// The branch that `HEAD` names; `None` where `HEAD` is detached.
pub fn branch_get_active(repo: &GitRepository) -> (r: Result<Option<String>, GitError>)
    ensures
        match head_text(&repo.store) {
            Err(e) => r == Err::<Option<String>, GitError>(e),
            Ok(head) => match branch_of(head) {
                None => r == Ok::<Option<String>, GitError>(None),
                Some(branch) => r is Ok && r->Ok_0 is Some && r->Ok_0->0@ == branch,
            },
        },
{
    let head = match head_resolve(repo) {
        Err(e) => { return Err(e); },
        Ok(head) => head,
    };
    proof {
        reveal_strlit("ref: ");
        reveal_strlit("refs/heads/");
    }
    let chars = chars_of(head.as_str());
    let marker = chars_of("ref: ");
    if !chars_start_with(chars.as_slice(), marker.as_slice()) {
        return Ok(None);
    }
    let n = chars.len();
    let target = head.as_str().substring_char(5, n);
    assert(target@ == head@.skip(5));
    let target_chars = chars_of(target);
    let heads = chars_of("refs/heads/");
    if chars_start_with(target_chars.as_slice(), heads.as_slice()) {
        let branch = target.substring_char(11, target_chars.len());
        assert(branch@ == target@.skip(11));
        Ok(Some(String::from_str(branch)))
    } else {
        Ok(Some(String::from_str(target)))
    }
}

/// Whether `path` is among `paths`.
fn has_path(paths: &Vec<String>, path: &str) -> (found: bool)
    ensures
        found == strings_view(paths@).contains(path@),
{
    let mut i: usize = 0;
    while i < paths.len()
        invariant
            i <= paths@.len(),
            forall|j: int| 0 <= j < i ==> strings_view(paths@)[j] != path@,
        decreases paths@.len() - i,
    {
        if str_eq(paths[i].as_str(), path) {
            assert(strings_view(paths@)[i as int] == path@);
            return true;
        }
        i += 1;
    }
    false
}

/// What `status` reports for a repository and the files of its working
/// tree, given by their paths from the root of the working tree, and the
/// user's ignore file `global`, where the user has one.
///
/// The first of these errors: that of reading `HEAD`; that of reading the
/// index; that of reading the ignore rules; `OutsideWorktree` where a file's
/// path begins with a slash.
#[verifier::loop_isolation(false)]
pub fn run(repo: &GitRepository, global: Option<&str>, files: &[&str]) -> (r: Result<
    StatusReport,
    GitError,
>)
    ensures
        match head_text(&repo.store) {
            Err(e) => r == Err::<StatusReport, GitError>(e),
            Ok(head) => match stored_index(&repo.store) {
                Err(e) => r == Err::<StatusReport, GitError>(e),
                Ok(es) => match rules_spec(&repo.store, given_text(global)) {
                    Err(e) => r == Err::<StatusReport, GitError>(e),
                    Ok((absolute, scoped)) => if any_absolute(strs_view(files@)) {
                        r == Err::<StatusReport, GitError>(GitError::OutsideWorktree)
                    } else {
                        &&& r is Ok
                        &&& r->Ok_0.head@ == head
                        &&& match branch_of(head) {
                            None => r->Ok_0.branch is None,
                            Some(b) => r->Ok_0.branch is Some && r->Ok_0.branch->0@ == b,
                        }
                        &&& strings_view(r->Ok_0.staged@) == entry_paths(es)
                        &&& strings_view(r->Ok_0.untracked@) == untracked_files(
                            absolute,
                            scoped,
                            entry_paths(es),
                            strs_view(files@),
                        )
                        &&& strings_view(r->Ok_0.ignored@) == ignored_files(
                            absolute,
                            scoped,
                            strs_view(files@),
                        )
                    },
                },
            },
        },
{
    let head = match head_resolve(repo) {
        Err(e) => { return Err(e); },
        Ok(head) => head,
    };
    let branch = match branch_get_active(repo) {
        Err(e) => { return Err(e); },
        Ok(branch) => branch,
    };
    let staged = match crate::commands::ls_files::run(repo) {
        Err(e) => { return Err(e); },
        Ok(staged) => staged,
    };
    let rules = match gitignore_read(repo, global) {
        Err(e) => { return Err(e); },
        Ok(rules) => rules,
    };
    let ghost absolute = absolute_view(rules.absolute@);
    let ghost scoped = scoped_view(rules.scoped@);
    let ghost all = strs_view(files@);
    let ghost known = strings_view(staged@);
    let mut untracked: Vec<String> = Vec::new();
    let mut ignored: Vec<String> = Vec::new();
    let mut i: usize = 0;
    assert(strings_view(untracked@) == Seq::<Seq<char>>::empty());
    assert(strings_view(ignored@) == Seq::<Seq<char>>::empty());
    while i < files.len()
        invariant
            i <= files@.len(),
            all == strs_view(files@),
            known == strings_view(staged@),
            absolute == absolute_view(rules.absolute@),
            scoped == scoped_view(rules.scoped@),
            forall|j: int| 0 <= j < i ==> !is_absolute(#[trigger] all[j]),
            strings_view(untracked@) == untracked_files(absolute, scoped, known, all.take(i as int)),
            strings_view(ignored@) == ignored_files(absolute, scoped, all.take(i as int)),
        decreases files@.len() - i,
    {
        proof {
            assert(all.take(i + 1).drop_last() == all.take(i as int));
            assert(all.take(i + 1).last() == files@[i as int]@);
        }
        let file = files[i];
        let is_ignored = match check_ignore(&rules, file) {
            Err(e) => {
                assert(is_absolute(all[i as int]));
                return Err(GitError::OutsideWorktree);
            },
            Ok(v) => v,
        };
        if is_ignored {
            let ghost before = strings_view(ignored@);
            ignored.push(String::from_str(file));
            assert(strings_view(ignored@) == before.push(file@));
        } else if !has_path(&staged, file) {
            let ghost before = strings_view(untracked@);
            untracked.push(String::from_str(file));
            assert(strings_view(untracked@) == before.push(file@));
        }
        i += 1;
    }
    proof {
        assert(all.take(i as int) == all);
    }
    Ok(StatusReport { branch, head, staged, untracked, ignored })
}

} // verus!
