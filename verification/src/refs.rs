//! References: files that hold the name of an object, or `ref: ` and the path
//! of another reference. Names given by the user (`HEAD`, a branch, a tag, a
//! hash or the beginning of one) are resolved to the full name of an object.

use vstd::prelude::*;
use vstd::string::StrSliceExecFns;
use vstd::string::StringExecFns;
use vstd::utf8::encode_utf8;
use crate::error::GitError;
use crate::frame::GitObjectType;
use crate::hashing::hex_value;
use crate::objects::{object_read, stored_object, view_kind};
use crate::repo::GitRepository;
use crate::store::{names_in_dir, paths_below, FileStore};
use crate::text::{bytes_to_text, chars_of, chars_start_with, starts_with, str_eq, str_starts_with,
    text_of, trim, trimmed};

verus! {

/// The trimmed text of a file; `IoFailure` where the file is no text.
pub open spec fn trimmed_text(bytes: Seq<u8>) -> Result<Seq<char>, GitError> {
    match text_of(bytes) {
        None => Err(GitError::IoFailure),
        Some(t) => Ok(trimmed(t)),
    }
}

/// What the reference at `path` holds: the trimmed text of the file.
/// `NotFound` where there is no such file.
pub open spec fn resolve_ref_spec(store: &FileStore, path: Seq<char>) -> Result<
    Seq<char>,
    GitError,
> {
    match store.content(path) {
        None => Err(GitError::NotFound),
        Some(bytes) => trimmed_text(bytes),
    }
}

/// Whether `name` may be a hash or the beginning of one: 4 to 40 hexadecimal
/// digits.
pub open spec fn is_hash_like(name: Seq<char>) -> bool {
    &&& 4 <= name.len() <= 40
    &&& forall|i: int| 0 <= i < name.len() ==> hex_value(#[trigger] name[i]) is Some
}

/// The names among `names` that begin with `rest`.
pub open spec fn matching(names: Seq<Seq<char>>, rest: Seq<char>) -> Seq<Seq<char>>
    decreases names.len(),
{
    if names.len() == 0 {
        Seq::empty()
    } else {
        let before = matching(names.drop_last(), rest);
        if starts_with(names.last(), rest) {
            before.push(names.last())
        } else {
            before
        }
    }
}

/// The directory in which the objects lie whose name begins as `short` does.
pub open spec fn object_dir(short: Seq<char>) -> Seq<char> {
    "objects/"@ + short.take(2)
}

/// The full name that `short` stands for.
///
/// A name of 40 characters stands for itself. Otherwise the objects whose
/// name begins with `short` are sought: `NotFound` where there is none,
/// `Ambiguous` where there are several.
pub open spec fn resolve_sha_spec(store: &FileStore, short: Seq<char>) -> Result<
    Seq<char>,
    GitError,
> {
    let found = matching(names_in_dir(store.files@, object_dir(short)), short.skip(2));
    if short.len() == 40 {
        Ok(short)
    } else if short.len() < 2 || found.len() == 0 {
        Err(GitError::NotFound)
    } else if found.len() == 1 {
        Ok(short.take(2) + found[0])
    } else {
        Err(GitError::Ambiguous)
    }
}

/// What the first of the files `name`, `refs/heads/name`, `refs/tags/name`
/// and `refs/remotes/name` holds; `NotAValidName` where there is none of them.
pub open spec fn named_ref_spec(store: &FileStore, name: Seq<char>) -> Result<Seq<char>, GitError> {
    if store.content(name) is Some {
        trimmed_text(store.content(name)->0)
    } else if store.content("refs/heads/"@ + name) is Some {
        trimmed_text(store.content("refs/heads/"@ + name)->0)
    } else if store.content("refs/tags/"@ + name) is Some {
        trimmed_text(store.content("refs/tags/"@ + name)->0)
    } else if store.content("refs/remotes/"@ + name) is Some {
        trimmed_text(store.content("refs/remotes/"@ + name)->0)
    } else {
        Err(GitError::NotAValidName)
    }
}

/// What `HEAD` stands for: where the file begins with `ref: `, what the
/// reference behind it holds; otherwise its own trimmed text. `IoFailure`
/// where there is no such file or it is no text.
pub open spec fn head_spec(store: &FileStore) -> Result<Seq<char>, GitError> {
    match store.content("HEAD"@) {
        None => Err(GitError::IoFailure),
        Some(bytes) => match text_of(bytes) {
            None => Err(GitError::IoFailure),
            Some(data) => if starts_with(data, "ref: "@) {
                resolve_ref_spec(store, trimmed(data.skip(5)))
            } else {
                Ok(trimmed(data))
            },
        },
    }
}

/// The name of the object that `name` stands for.
///
/// 4 to 40 hexadecimal digits are a hash or the beginning of one; `HEAD` is
/// the head; anything else is the name of a reference.
pub open spec fn object_resolve_spec(store: &FileStore, name: Seq<char>) -> Result<
    Seq<char>,
    GitError,
> {
    if is_hash_like(name) {
        resolve_sha_spec(store, name)
    } else if name == "HEAD"@ {
        head_spec(store)
    } else {
        named_ref_spec(store, name)
    }
}

/// The name of the object that `name` stands for, where it is of the kind
/// that is asked for: `WrongKind` where it is of another, and the error of
/// reading it where it cannot be read. Where no kind is asked for, the object
/// is not read.
pub open spec fn object_find_spec(
    store: &FileStore,
    name: Seq<char>,
    fmt: Option<GitObjectType>,
) -> Result<Seq<char>, GitError> {
    match object_resolve_spec(store, name) {
        Err(e) => Err(e),
        Ok(sha) => match fmt {
            None => Ok(sha),
            Some(expected) => match stored_object(store, sha) {
                Err(e) => Err(e),
                Ok(v) => if view_kind(v) == expected {
                    Ok(sha)
                } else {
                    Err(GitError::WrongKind)
                },
            },
        },
    }
}

/// The full name of an object is found as itself: without a kind asked for
/// in any store, and with a kind where the store holds the object and it is
/// of that kind.
pub proof fn lemma_find_full_name(store: &FileStore, name: Seq<char>, fmt: Option<GitObjectType>)
    requires
        name.len() == 40,
        forall|i: int| 0 <= i < name.len() ==> hex_value(#[trigger] name[i]) is Some,
        fmt is Some ==> stored_object(store, name) is Ok && view_kind(stored_object(store, name)->Ok_0)
            == fmt->0,
    ensures
        object_resolve_spec(store, name) == Ok::<Seq<char>, GitError>(name),
        object_find_spec(store, name, fmt) == Ok::<Seq<char>, GitError>(name),
{
}

/// The trimmed text of a file.
pub fn read_trimmed(bytes: &[u8]) -> (r: Result<String, GitError>)
    ensures
        match trimmed_text(bytes@) {
            Ok(t) => r is Ok && r->Ok_0@ == t,
            Err(e) => r == Err::<String, GitError>(e),
        },
{
    match bytes_to_text(bytes) {
        None => Err(GitError::IoFailure),
        Some(text) => Ok(String::from_str(trim(text))),
    }
}

/// Expands the beginning of a hash to the full name of the one object whose
/// name begins so.
pub fn resolve_sha(repo: &GitRepository, short: &str) -> (r: Result<String, GitError>)
    ensures
        match resolve_sha_spec(&repo.store, short@) {
            Ok(t) => r is Ok && r->Ok_0@ == t,
            Err(e) => r == Err::<String, GitError>(e),
        },
{
    let n = short.unicode_len();
    if n == 40 {
        return Ok(String::from_str(short));
    }
    if n < 2 {
        return Err(GitError::NotFound);
    }
    let head = short.substring_char(0, 2);
    let rest = chars_of(short.substring_char(2, n));
    let mut dir = String::from_str("objects/");
    dir.append(head);
    proof {
        assert(short@.subrange(0, 2) == short@.take(2));
        assert(short@.subrange(2, n as int) == short@.skip(2));
    }
    let names = repo.store.names_in(dir.as_str());
    let ghost all = names_in_dir(repo.store.files@, object_dir(short@));
    let mut count: usize = 0;
    let mut first: usize = 0;
    let mut i: usize = 0;
    while i < names.len()
        invariant
            i <= names@.len(),
            names@.len() == all.len(),
            forall|j: int| 0 <= j < names@.len() ==> names@[j]@ == all[j],
            rest@ == short@.skip(2),
            count == matching(all.take(i as int), rest@).len(),
            count <= i,
            count > 0 ==> first < i && all[first as int] == matching(all.take(i as int), rest@)[0],
        decreases names@.len() - i,
    {
        proof {
            assert(all.take(i + 1).drop_last() == all.take(i as int));
            assert(all.take(i + 1).last() == all[i as int]);
        }
        let name = chars_of(names[i]);
        if chars_start_with(name.as_slice(), rest.as_slice()) {
            if count == 0 {
                first = i;
            }
            count += 1;
        }
        i += 1;
    }
    proof {
        assert(all.take(i as int) == all);
    }
    if count == 0 {
        Err(GitError::NotFound)
    } else if count == 1 {
        let mut full = String::from_str(head);
        full.append(names[first]);
        Ok(full)
    } else {
        Err(GitError::Ambiguous)
    }
}

/// Reads the reference at `refname`, a path inside the repository directory.
pub fn resolve_ref(repo: &GitRepository, refname: &str) -> (r: Result<String, GitError>)
    ensures
        match resolve_ref_spec(&repo.store, refname@) {
            Ok(t) => r is Ok && r->Ok_0@ == t,
            Err(e) => r == Err::<String, GitError>(e),
        },
{
    match repo.store.read(refname) {
        None => Err(GitError::NotFound),
        Some(bytes) => read_trimmed(bytes.as_slice()),
    }
}

/// Whether `name` may be a hash or the beginning of one.
pub fn hash_like(name: &str) -> (yes: bool)
    ensures
        yes == is_hash_like(name@),
{
    let chars = chars_of(name);
    if chars.len() < 4 || chars.len() > 40 {
        return false;
    }
    let mut i: usize = 0;
    while i < chars.len()
        invariant
            i <= chars@.len(),
            chars@ == name@,
            4 <= chars@.len() <= 40,
            forall|j: int| 0 <= j < i ==> hex_value(#[trigger] chars@[j]) is Some,
        decreases chars@.len() - i,
    {
        let c = chars[i];
        if !(('0' <= c && c <= '9') || ('a' <= c && c <= 'f') || ('A' <= c && c <= 'F')) {
            assert(hex_value(name@[i as int]) is None);
            return false;
        }
        i += 1;
    }
    true
}

/// Resolves the name of a reference that is neither a hash nor `HEAD`.
fn named_ref(repo: &GitRepository, name: &str) -> (r: Result<String, GitError>)
    ensures
        match named_ref_spec(&repo.store, name@) {
            Ok(t) => r is Ok && r->Ok_0@ == t,
            Err(e) => r == Err::<String, GitError>(e),
        },
{
    match repo.store.read(name) {
        Some(bytes) => { return read_trimmed(bytes.as_slice()); },
        None => {},
    }
    let mut heads = String::from_str("refs/heads/");
    heads.append(name);
    match repo.store.read(heads.as_str()) {
        Some(bytes) => { return read_trimmed(bytes.as_slice()); },
        None => {},
    }
    let mut tags = String::from_str("refs/tags/");
    tags.append(name);
    match repo.store.read(tags.as_str()) {
        Some(bytes) => { return read_trimmed(bytes.as_slice()); },
        None => {},
    }
    let mut remotes = String::from_str("refs/remotes/");
    remotes.append(name);
    match repo.store.read(remotes.as_str()) {
        Some(bytes) => { return read_trimmed(bytes.as_slice()); },
        None => {},
    }
    Err(GitError::NotAValidName)
}

/// Resolves `HEAD`.
fn head_target(repo: &GitRepository) -> (r: Result<String, GitError>)
    ensures
        match head_spec(&repo.store) {
            Ok(t) => r is Ok && r->Ok_0@ == t,
            Err(e) => r == Err::<String, GitError>(e),
        },
{
    let bytes = match repo.store.read("HEAD") {
        None => { return Err(GitError::IoFailure); },
        Some(bytes) => bytes,
    };
    let data = match bytes_to_text(bytes.as_slice()) {
        None => { return Err(GitError::IoFailure); },
        Some(data) => data,
    };
    proof {
        reveal_strlit("ref: ");
    }
    if str_starts_with(data, "ref: ") {
        let n = data.unicode_len();
        let target = trim(data.substring_char(5, n));
        assert(data@.subrange(5, n as int) == data@.skip(5));
        resolve_ref(repo, target)
    } else {
        Ok(String::from_str(trim(data)))
    }
}

/// Resolves a name (`HEAD`, a branch, a tag, a hash or the beginning of one)
/// to the full name of an object.
pub fn object_resolve(repo: &GitRepository, name: &str) -> (r: Result<String, GitError>)
    ensures
        match object_resolve_spec(&repo.store, name@) {
            Ok(t) => r is Ok && r->Ok_0@ == t,
            Err(e) => r == Err::<String, GitError>(e),
        },
{
    if hash_like(name) {
        resolve_sha(repo, name)
    } else if str_eq(name, "HEAD") {
        head_target(repo)
    } else {
        named_ref(repo, name)
    }
}

/// Resolves a name and, where a kind is asked for, checks that the object is
/// of that kind.
pub fn object_find(repo: &GitRepository, name: &str, fmt: Option<GitObjectType>) -> (r: Result<
    String,
    GitError,
>)
    ensures
        match object_find_spec(&repo.store, name@, fmt) {
            Ok(t) => r is Ok && r->Ok_0@ == t,
            Err(e) => r == Err::<String, GitError>(e),
        },
{
    let sha = match object_resolve(repo, name) {
        Ok(sha) => sha,
        Err(e) => { return Err(e); },
    };
    match fmt {
        None => Ok(sha),
        Some(expected) => match object_read(repo, sha.as_str()) {
            Err(e) => Err(e),
            Ok((got, _)) => if got == expected {
                Ok(sha)
            } else {
                Err(GitError::WrongKind)
            },
        },
    }
}

/// What a reference that points at `sha` holds: the name and a line break.
pub open spec fn ref_content(sha: Seq<char>) -> Seq<u8> {
    encode_utf8(sha).push(0x0au8)
}

/// Makes the reference at `ref_name` point at `sha`.
pub fn ref_create(repo: &mut GitRepository, ref_name: &str, sha: &str)
    ensures
        final(repo).worktree == old(repo).worktree,
        final(repo).gitdir == old(repo).gitdir,
        final(repo).config == old(repo).config,
        final(repo).store.dirs == old(repo).store.dirs,
        final(repo).store.content(ref_name@) == Some(ref_content(sha@)),
        forall|p: Seq<char>|
            p != ref_name@ ==> final(repo).store.content(p) == old(repo).store.content(p),
        final(repo).store.listing() == crate::store::view_put(
            old(repo).store.listing(),
            ref_name@,
            ref_content(sha@),
        ),
{
    let mut content: Vec<u8> = Vec::new();
    crate::bytes::append_bytes(&mut content, sha.as_bytes());
    content.push(0x0a);
    assert(content@ == ref_content(sha@));
    repo.store.write(String::from_str(ref_name), content);
}

/// The references at `prefix` and below it as they are listed: for each file
/// its trimmed text and its path. `None` where a file is no text.
pub open spec fn listed_refs(store: &FileStore, paths: Seq<Seq<char>>) -> Option<
    Seq<(Seq<char>, Seq<char>)>,
>
    decreases paths.len(),
{
    if paths.len() == 0 {
        Some(Seq::empty())
    } else {
        match (listed_refs(store, paths.drop_last()), resolve_ref_spec(store, paths.last())) {
            (Some(before), Ok(sha)) => Some(before.push((sha, paths.last()))),
            _ => None,
        }
    }
}

/// The references as pairs of mathematical sequences.
pub open spec fn refs_view(refs: Seq<(String, String)>) -> Seq<(Seq<char>, Seq<char>)> {
    Seq::new(refs.len(), |i: int| (refs[i].0@, refs[i].1@))
}

/// Lists the references at `prefix` and below it: what each holds, and its
/// path. `IoFailure` where a file is no text.
pub fn collect_refs(repo: &GitRepository, prefix: &str) -> (r: Result<
    Vec<(String, String)>,
    GitError,
>)
    ensures
        match listed_refs(&repo.store, paths_below(repo.store.files@, prefix@)) {
            Some(refs) => r is Ok && refs_view(r->Ok_0@) == refs,
            None => r == Err::<Vec<(String, String)>, GitError>(GitError::IoFailure),
        },
{
    let paths = repo.store.paths_in(prefix);
    let ghost all = paths_below(repo.store.files@, prefix@);
    let mut refs: Vec<(String, String)> = Vec::new();
    let mut i: usize = 0;
    assert(refs_view(refs@) == Seq::<(Seq<char>, Seq<char>)>::empty());
    while i < paths.len()
        invariant
            i <= paths@.len(),
            paths@.len() == all.len(),
            forall|j: int| 0 <= j < paths@.len() ==> paths@[j]@ == all[j],
            all == paths_below(repo.store.files@, prefix@),
            listed_refs(&repo.store, all.take(i as int)) == Some(refs_view(refs@)),
        decreases paths@.len() - i,
    {
        proof {
            assert(all.take(i + 1).drop_last() == all.take(i as int));
            assert(all.take(i + 1).last() == all[i as int]);
        }
        let ghost before = refs_view(refs@);
        match resolve_ref(repo, paths[i]) {
            Err(_) => {
                proof {
                    lemma_listed_refs_fail(&repo.store, all, i as int);
                }
                return Err(GitError::IoFailure);
            },
            Ok(sha) => {
                let ghost pair = (sha@, paths@[i as int]@);
                refs.push((sha, String::from_str(paths[i])));
                assert(refs_view(refs@) == before.push(pair));
            },
        }
        i += 1;
    }
    proof {
        assert(all.take(i as int) == all);
    }
    Ok(refs)
}

/// Where one file cannot be listed, the list cannot be made.
pub proof fn lemma_listed_refs_fail(store: &FileStore, paths: Seq<Seq<char>>, at: int)
    requires
        0 <= at < paths.len(),
        resolve_ref_spec(store, paths[at]) is Err,
    ensures
        listed_refs(store, paths) is None,
    decreases paths.len(),
{
    if at < paths.len() - 1 {
        lemma_listed_refs_fail(store, paths.drop_last(), at);
    }
}

} // verus!
