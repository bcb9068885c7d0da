//! `commit`: records the index as a commit, and moves the branch to it.

use vstd::prelude::*;
use vstd::string::StrSliceExecFns;
use vstd::string::StringExecFns;
use vstd::utf8::encode_utf8;
use crate::bytes::append_bytes;
use crate::error::GitError;
use crate::frame::{decimal, GitObjectType};
use crate::ignore::stored_index;
use crate::index::{index_file, read_index, EntryView};
use crate::kvlm::{kvlm_bytes, Kvlm, KvlmView};
use crate::objects::{lemma_object_stored_extends, object_name, object_path, object_write,
    put_object, GitCommit, GitObject};
use crate::refs::{ref_content, ref_create, resolve_ref, resolve_ref_spec};
use crate::repo::{initial_head, text_bytes, GitRepository};
use crate::compress::{zlib_deflate, zlib_inflate};
use crate::frame::frame_bytes;
use crate::store::{lemma_extends_trans, lemma_files_view, view_content, view_put, FileStore,
    FilesView};
use crate::text::{bytes_to_text, starts_with, str_starts_with, text_of, trim, trimmed};
use crate::tree_build::{index_hashable, index_items, index_tree_name, lemma_trees_stay_stored,
    max_path_len, put_index_trees, tree_from_index, trees_stored};

verus! {

/// What `HEAD` says.
pub enum HeadState {
    /// There is no `HEAD`.
    Missing,
    /// `HEAD` names a reference: `ref: ` and its path.
    Symbolic(String),
    /// `HEAD` holds anything else: the name of a commit, when all is well.
    Detached(String),
}

/// What `HEAD` says, as mathematical values.
pub enum HeadView {
    Missing,
    Symbolic(Seq<char>),
    Detached(Seq<char>),
}

impl View for HeadState {
    type V = HeadView;

    open spec fn view(&self) -> HeadView {
        match self {
            HeadState::Missing => HeadView::Missing,
            HeadState::Symbolic(path) => HeadView::Symbolic(path@),
            HeadState::Detached(text) => HeadView::Detached(text@),
        }
    }
}

/// What a commit made: its name, and the line that reports it.
#[derive(Debug, Clone)]
pub struct CommitOutcome {
    pub sha: String,
    pub line: String,
}

/// What the `HEAD` of a store says. `IoFailure` where the file is no text.
pub open spec fn head_state(store: &FileStore) -> Result<HeadView, GitError> {
    match store.content("HEAD"@) {
        None => Ok(HeadView::Missing),
        Some(bytes) => match text_of(bytes) {
            None => Err(GitError::IoFailure),
            Some(text) => if starts_with(trimmed(text), "ref: "@) {
                Ok(HeadView::Symbolic(trimmed(text).skip(5)))
            } else {
                Ok(HeadView::Detached(trimmed(text)))
            },
        },
    }
}

/// The parent of the next commit: what the reference holds that `HEAD`
/// names, where there is such a reference; what `HEAD` holds, where that is
/// 40 characters; and none otherwise.
pub open spec fn parent_of(store: &FileStore, head: HeadView) -> Option<Seq<char>> {
    match head {
        HeadView::Missing => None,
        HeadView::Symbolic(path) => match resolve_ref_spec(store, path) {
            Ok(sha) => Some(sha),
            Err(_) => None,
        },
        HeadView::Detached(text) => if text.len() == 40 {
            Some(text)
        } else {
            None
        },
    }
}

/// The file that the next commit moves: the reference that `HEAD` names,
/// `HEAD` itself where it names none, and `refs/heads/master` where there
/// is no `HEAD`.
pub open spec fn moved_ref(head: HeadView) -> Seq<char> {
    match head {
        HeadView::Missing => "refs/heads/master"@,
        HeadView::Symbolic(path) => path,
        HeadView::Detached(_) => "HEAD"@,
    }
}

/// A number in decimal digits, with `-` in front where it is negative.
pub open spec fn signed_decimal(n: int) -> Seq<u8> {
    if n < 0 {
        seq![0x2du8] + decimal((-n) as nat)
    } else {
        decimal(n as nat)
    }
}

/// The author or committer of a commit as it is written: the user, the time
/// in seconds, and the time zone `+0000`.
pub open spec fn signature(author: Seq<char>, timestamp: int) -> Seq<u8> {
    encode_utf8(author) + seq![0x20u8] + signed_decimal(timestamp) + encode_utf8(" +0000"@)
}

/// The headers of a commit: `tree`, `parent` where there is one, `author`
/// and `committer`.
pub open spec fn commit_headers(
    tree: Seq<char>,
    parent: Option<Seq<char>>,
    author: Seq<char>,
    timestamp: int,
) -> Seq<(Seq<u8>, Seq<u8>)> {
    let first = seq![(encode_utf8("tree"@), encode_utf8(tree))];
    let second = match parent {
        Some(p) => first.push((encode_utf8("parent"@), encode_utf8(p))),
        None => first,
    };
    second.push((encode_utf8("author"@), signature(author, timestamp))).push(
        (encode_utf8("committer"@), signature(author, timestamp)),
    )
}

/// The record of a commit.
pub open spec fn commit_kvlm(
    tree: Seq<char>,
    parent: Option<Seq<char>>,
    author: Seq<char>,
    timestamp: int,
    message: Seq<char>,
) -> KvlmView {
    KvlmView {
        headers: commit_headers(tree, parent, author, timestamp),
        message: encode_utf8(message),
    }
}

/// The line that reports a commit: the first seven digits of its name in
/// square brackets, and the trimmed message.
pub open spec fn commit_line(sha: Seq<char>, message: Seq<char>) -> Seq<char> {
    "["@ + sha.take(7) + "] "@ + trimmed(message)
}

/// Appends `n` in decimal digits.
fn push_decimal_u64(out: &mut Vec<u8>, n: u64)
    ensures
        final(out)@ == old(out)@ + decimal(n as nat),
    decreases n,
{
    if n >= 10 {
        push_decimal_u64(out, n / 10);
    }
    let digit: u8 = 48 + (n % 10) as u8;
    out.push(digit);
}

/// The author or committer of a commit as it is written.
pub fn signature_bytes(author: &str, timestamp: i64) -> (out: Vec<u8>)
    ensures
        out@ == signature(author@, timestamp as int),
{
    let mut out: Vec<u8> = Vec::new();
    append_bytes(&mut out, author.as_bytes());
    assert(out@ == encode_utf8(author@));
    out.push(0x20);
    if timestamp < 0 {
        out.push(0x2d);
        let magnitude: u64 = ((-(timestamp + 1)) as u64) + 1;
        assert(magnitude == -(timestamp as int));
        push_decimal_u64(&mut out, magnitude);
        assert(out@ == encode_utf8(author@) + seq![0x20u8] + (seq![0x2du8] + decimal(
            (-(timestamp as int)) as nat,
        )));
    } else {
        push_decimal_u64(&mut out, timestamp as u64);
    }
    append_bytes(&mut out, " +0000".as_bytes());
    out
}

/// Reads what `HEAD` says.
pub fn read_head(repo: &GitRepository) -> (r: Result<HeadState, GitError>)
    ensures
        match head_state(&repo.store) {
            Ok(h) => r is Ok && r->Ok_0@ == h,
            Err(e) => r is Err && r->Err_0 == e,
        },
{
    let bytes = match repo.store.read("HEAD") {
        None => { return Ok(HeadState::Missing); },
        Some(bytes) => bytes,
    };
    let text = match bytes_to_text(bytes.as_slice()) {
        None => { return Err(GitError::IoFailure); },
        Some(text) => text,
    };
    let target = trim(text);
    proof {
        reveal_strlit("ref: ");
    }
    if str_starts_with(target, "ref: ") {
        let n = target.unicode_len();
        let path = target.substring_char(5, n);
        assert(path@ == target@.skip(5));
        Ok(HeadState::Symbolic(String::from_str(path)))
    } else {
        Ok(HeadState::Detached(String::from_str(target)))
    }
}

/// The parent of the next commit.
fn read_parent(repo: &GitRepository, head: &HeadState) -> (r: Option<String>)
    ensures
        match parent_of(&repo.store, head@) {
            Some(p) => r is Some && r->0@ == p,
            None => r is None,
        },
{
    match head {
        HeadState::Missing => None,
        HeadState::Symbolic(path) => match resolve_ref(repo, path.as_str()) {
            Ok(sha) => Some(sha),
            Err(_) => None,
        },
        HeadState::Detached(text) => if text.as_str().unicode_len() == 40 {
            Some(String::from_str(text.as_str()))
        } else {
            None
        },
    }
}

/// Builds the record of a commit.
pub fn build_commit(
    tree: &str,
    parent: &Option<String>,
    author: &str,
    timestamp: i64,
    message: &str,
) -> (commit: GitCommit)
    ensures
        commit.kvlm@ == commit_kvlm(
            tree@,
            match parent {
                Some(p) => Some(p@),
                None => None,
            },
            author@,
            timestamp as int,
            message@,
        ),
{
    let mut kvlm = Kvlm::new();
    kvlm.headers.push((text_bytes("tree"), text_bytes(tree)));
    match parent {
        Some(p) => {
            kvlm.headers.push((text_bytes("parent"), text_bytes(p.as_str())));
        },
        None => {},
    }
    kvlm.headers.push((text_bytes("author"), signature_bytes(author, timestamp)));
    kvlm.headers.push((text_bytes("committer"), signature_bytes(author, timestamp)));
    kvlm.message = text_bytes(message);
    let ghost parent_view = match parent {
        Some(p) => Some(p@),
        None => None,
    };
    assert(kvlm@.headers =~= commit_headers(tree@, parent_view, author@, timestamp as int));
    GitCommit { kvlm }
}

/// The files after the next commit's reference is moved to `sha`: a missing
/// `HEAD` is written to name the branch `master`, and that branch is moved; a
/// `HEAD` that names a reference has that reference moved; any other `HEAD`
/// is moved itself.
pub open spec fn refs_moved(v: FilesView, head: HeadView, sha: Seq<char>) -> FilesView {
    match head {
        HeadView::Missing => view_put(
            view_put(v, "HEAD"@, encode_utf8(initial_head())),
            "refs/heads/master"@,
            ref_content(sha),
        ),
        HeadView::Symbolic(path) => view_put(v, path, ref_content(sha)),
        HeadView::Detached(_) => view_put(v, "HEAD"@, ref_content(sha)),
    }
}

/// The payload of the commit that records the index `es` of a store.
pub open spec fn commit_payload(
    store: &FileStore,
    es: Seq<EntryView>,
    head: HeadView,
    author: Seq<char>,
    timestamp: int,
    message: Seq<char>,
) -> Seq<u8> {
    kvlm_bytes(
        commit_kvlm(index_tree_name(es), parent_of(store, head), author, timestamp, message),
    )
}

/// The files after the trees of the index and then the commit are stored;
/// `None` where one of them is not stored yet and cannot be compressed.
pub open spec fn commit_stored(v: FilesView, es: Seq<EntryView>, payload: Seq<u8>) -> Option<
    FilesView,
> {
    match put_index_trees(v, es) {
        None => None,
        Some(with_trees) => put_object(with_trees, GitObjectType::Commit, payload),
    }
}

/// What a commit gives and does.
///
/// The first of these errors, and then nothing is changed: that of reading
/// the index; that of reading `HEAD`; `CorruptIndex` where a hash of the index
/// is not 40 hexadecimal digits. Then `IoFailure` exactly where a tree or the
/// commit is not stored yet and cannot be compressed; no reference is moved
/// then, and files that were stored stay. In all other cases the commit
/// succeeds: the trees and the commit are stored, the reference is moved, and
/// the files are exactly those that this gives.
pub open spec fn commit_outcome(
    old: &GitRepository,
    new: &GitRepository,
    r: Result<CommitOutcome, GitError>,
    message: Seq<char>,
    author: Seq<char>,
    timestamp: int,
) -> bool {
    &&& new.worktree == old.worktree
    &&& new.gitdir == old.gitdir
    &&& new.config == old.config
    &&& new.store.dirs == old.store.dirs
    &&& match stored_index(&old.store) {
        Err(first) => r is Err && r->Err_0 == first && new.store == old.store,
        Ok(es) => match head_state(&old.store) {
            Err(second) => r is Err && r->Err_0 == second && new.store == old.store,
            Ok(head) => if !index_hashable(es) {
                r is Err && r->Err_0 == GitError::CorruptIndex && new.store == old.store
            } else {
                let payload = commit_payload(&old.store, es, head, author, timestamp, message);
                match commit_stored(old.store.listing(), es, payload) {
                    None => r is Err && r->Err_0 == GitError::IoFailure && new.store.extends(
                        &old.store,
                    ),
                    Some(v) => r is Ok && committed(old, new, r->Ok_0, es, head, payload, v, message),
                }
            },
        },
    }
}

/// What holds after a commit that succeeded.
pub open spec fn committed(
    old: &GitRepository,
    new: &GitRepository,
    out: CommitOutcome,
    es: Seq<EntryView>,
    head: HeadView,
    payload: Seq<u8>,
    stored: FilesView,
    message: Seq<char>,
) -> bool {
    let path = object_path(out.sha@);
    &&& out.sha@ == object_name(GitObjectType::Commit, payload)
    &&& out.sha@.len() == 40
    &&& out.line@ == commit_line(out.sha@, message)
    &&& new.store.listing() == refs_moved(stored, head, out.sha@)
    &&& new.store.content(moved_ref(head)) == Some(ref_content(out.sha@))
    &&& head is Missing ==> new.store.content("HEAD"@) == Some(encode_utf8(initial_head()))
    &&& head is Symbolic && moved_ref(head) != "HEAD"@ ==> new.store.content("HEAD"@)
        == old.store.content("HEAD"@)
    &&& forall|p: Seq<char>|
        p != "HEAD"@ && p != moved_ref(head) && #[trigger] old.store.content(p) is Some
            ==> new.store.content(p) == old.store.content(p)
    &&& new.store.content(path) is Some
    &&& old.store.content(path) is None && put_index_trees(old.store.listing(), es) is Some
        && view_content(put_index_trees(old.store.listing(), es)->0, path) is None && path
        != moved_ref(head) && path != "HEAD"@ ==> {
        &&& new.store.content(path) == zlib_deflate(frame_bytes(GitObjectType::Commit, payload))
        &&& zlib_inflate(new.store.content(path)->0) == Some(
            frame_bytes(GitObjectType::Commit, payload),
        )
    }
    &&& trees_stored(&new.store, index_items(es), Seq::empty(), max_path_len(index_items(es)))
}

/// Moves the reference of the next commit to `sha`.
fn move_ref(repo: &mut GitRepository, head: &HeadState, sha: &str)
    ensures
        final(repo).worktree == old(repo).worktree,
        final(repo).gitdir == old(repo).gitdir,
        final(repo).config == old(repo).config,
        final(repo).store.dirs == old(repo).store.dirs,
        final(repo).store.listing() == refs_moved(old(repo).store.listing(), head@, sha@),
        final(repo).store.content(moved_ref(head@)) == Some(ref_content(sha@)),
        head@ is Missing ==> final(repo).store.content("HEAD"@) == Some(
            encode_utf8(initial_head()),
        ),
        forall|p: Seq<char>|
            p != "HEAD"@ && p != moved_ref(head@) ==> final(repo).store.content(p) == old(
                repo,
            ).store.content(p),
        head@ is Symbolic && moved_ref(head@) != "HEAD"@ ==> final(repo).store.content("HEAD"@)
            == old(repo).store.content("HEAD"@),
        final(repo).store.keeps(&old(repo).store),
{
    match head {
        HeadState::Missing => {
            proof {
                reveal_strlit("HEAD");
                reveal_strlit("refs/heads/master");
                assert("HEAD"@.len() != "refs/heads/master"@.len());
            }
            repo.store.write(String::from_str("HEAD"), text_bytes("ref: refs/heads/master\n"));
            assert(repo.store.content("HEAD"@) == Some(encode_utf8(initial_head())));
            ref_create(repo, "refs/heads/master", sha);
            assert(repo.store.content("HEAD"@) == Some(encode_utf8(initial_head())));
        },
        HeadState::Symbolic(path) => {
            ref_create(repo, path.as_str(), sha);
        },
        HeadState::Detached(_) => {
            ref_create(repo, "HEAD", sha);
        },
    }
}

/// The line that reports a commit.
fn report_line(sha: &str, message: &str) -> (line: String)
    requires
        sha@.len() >= 7,
    ensures
        line@ == commit_line(sha@, message@),
{
    let mut line = String::from_str("[");
    line.append(sha.substring_char(0, 7));
    line.append("] ");
    line.append(trim(message));
    assert(sha@.subrange(0, 7) == sha@.take(7));
    line
}

/// Records the index as a commit by `author` at the time `timestamp`, with
/// the given message, and moves the branch to it.
///
/// The trees of the index are built and stored; the commit names the root
/// tree and, as its parent, the commit at which the branch stood; the commit
/// is stored; and the reference that `HEAD` names is made to point at it. A
/// detached `HEAD` is moved itself, and a missing one is made to name the
/// branch `master`. `commit_outcome` says when this succeeds and what the
/// repository holds afterwards.
#[verifier::rlimit(30)]
pub fn run(repo: &mut GitRepository, message: &str, author: &str, timestamp: i64) -> (r: Result<
    CommitOutcome,
    GitError,
>)
    ensures
        commit_outcome(old(repo), final(repo), r, message@, author@, timestamp as int),
{
    let index = match read_index(repo) {
        Err(e) => { return Err(e); },
        Ok(index) => index,
    };
    proof {
        if repo.store.content(index_file()) is None {
            assert(index@ == Seq::<EntryView>::empty());
        }
    }
    let head = match read_head(repo) {
        Err(e) => { return Err(e); },
        Ok(head) => head,
    };
    let parent = read_parent(repo, &head);
    let tree = match tree_from_index(repo, &index) {
        Err(e) => { return Err(e); },
        Ok(tree) => tree,
    };
    let commit = build_commit(tree.as_str(), &parent, author, timestamp, message);
    let ghost payload = commit.payload();
    let ghost before_commit = repo.store;
    let sha = match object_write(repo, &commit, &GitObjectType::Commit, true) {
        Err(e) => {
            proof {
                lemma_extends_trans(&old(repo).store, &before_commit, &repo.store);
            }
            return Err(e);
        },
        Ok(sha) => sha,
    };
    let ghost with_commit = repo.store;
    proof {
        lemma_object_stored_extends(
            &before_commit,
            &repo.store,
            sha@,
            crate::frame::frame_bytes(GitObjectType::Commit, payload),
        );
        lemma_extends_trans(&old(repo).store, &before_commit, &repo.store);
        lemma_files_view(before_commit.files@, object_path(sha@), 0);
        lemma_trees_stay_stored(
            &before_commit,
            &with_commit,
            index_items(index@),
            Seq::empty(),
            max_path_len(index_items(index@)),
        );
    }
    move_ref(repo, &head, sha.as_str());
    proof {
        lemma_trees_stay_stored(
            &with_commit,
            &repo.store,
            index_items(index@),
            Seq::empty(),
            max_path_len(index_items(index@)),
        );
    }
    let line = report_line(sha.as_str(), message);
    Ok(CommitOutcome { sha, line })
}

} // verus!
