//! `ls-tree`: the entries of a tree, one line each.

use vstd::prelude::*;
use vstd::utf8::encode_utf8;
use crate::bytes::append_bytes;
use crate::error::GitError;
use crate::frame::{kind_name, GitObjectType};
use crate::hashing::{hex_chars, hex_encode};
use crate::objects::{object_read, stored_object, AnyObject, ObjectView};
use crate::refs::{object_find, object_find_spec};
use crate::repo::GitRepository;
use crate::store::FileStore;
use crate::tree::{GitTreeLeaf, LeafView};

verus! {

/// The digit `0`.
pub const ZERO_DIGIT: u8 = 0x30;

/// The mode with zeros in front, up to six digits.
pub open spec fn padded_mode(mode: Seq<u8>) -> Seq<u8> {
    if mode.len() < 6 {
        Seq::new((6 - mode.len()) as nat, |i: int| ZERO_DIGIT) + mode
    } else {
        mode
    }
}

/// The kind of object that an entry with this mode stands for, by the first
/// two digits of the padded mode: `04` a tree, `10` and `12` a blob, `16` a
/// commit. `None` for any other mode.
pub open spec fn mode_kind(mode: Seq<u8>) -> Option<GitObjectType> {
    let p = padded_mode(mode);
    if p[0] == 0x30 && p[1] == 0x34 {
        Some(GitObjectType::Tree)
    } else if p[0] == 0x31 && (p[1] == 0x30 || p[1] == 0x32) {
        Some(GitObjectType::Blob)
    } else if p[0] == 0x31 && p[1] == 0x36 {
        Some(GitObjectType::Commit)
    } else {
        None
    }
}

/// The path of an entry: its name behind the path of its tree and a slash,
/// or its name alone in the root.
pub open spec fn entry_path(prefix: Seq<u8>, name: Seq<u8>) -> Seq<u8> {
    if prefix.len() == 0 {
        name
    } else {
        prefix + seq![0x2fu8] + name
    }
}

/// The line for an entry: the padded mode, the kind, the hash in hexadecimal
/// digits, a tab, and the path.
pub open spec fn entry_line(e: LeafView, kind: GitObjectType, prefix: Seq<u8>) -> Seq<u8> {
    padded_mode(e.mode) + seq![0x20u8] + kind_name(kind) + seq![0x20u8] + encode_utf8(
        hex_chars(e.sha),
    ) + seq![0x09u8] + entry_path(prefix, e.path)
}

/// The lines for the tree `sha`. With `recursive`, the entries of a tree
/// that is an entry stand in the place of its line, `depth` levels down.
///
/// The error of reading an object that is looked at; `CorruptObject` where
/// an entry has a mode of no kind, or where the trees go deeper than `depth`.
/// An object that is no tree has no lines.
pub open spec fn ls_tree_spec(
    store: &FileStore,
    sha: Seq<char>,
    recursive: bool,
    prefix: Seq<u8>,
    depth: nat,
) -> Result<Seq<Seq<u8>>, GitError>
    decreases depth, 1nat, 0nat,
{
    match stored_object(store, sha) {
        Err(e) => Err(e),
        Ok(ObjectView::Tree(entries)) => ls_entries(store, entries, recursive, prefix, depth),
        Ok(_) => Ok(Seq::empty()),
    }
}

/// The lines for the entries of a tree.
pub open spec fn ls_entries(
    store: &FileStore,
    entries: Seq<LeafView>,
    recursive: bool,
    prefix: Seq<u8>,
    depth: nat,
) -> Result<Seq<Seq<u8>>, GitError>
    decreases depth, 0nat, entries.len(),
{
    if entries.len() == 0 {
        Ok(Seq::empty())
    } else {
        let e = entries.last();
        match ls_entries(store, entries.drop_last(), recursive, prefix, depth) {
            Err(err) => Err(err),
            Ok(before) => match mode_kind(e.mode) {
                None => Err(GitError::CorruptObject),
                Some(kind) => if recursive && kind == GitObjectType::Tree {
                    if depth == 0 {
                        Err(GitError::CorruptObject)
                    } else {
                        match ls_tree_spec(
                            store,
                            hex_chars(e.sha),
                            recursive,
                            entry_path(prefix, e.path),
                            (depth - 1) as nat,
                        ) {
                            Err(err) => Err(err),
                            Ok(lines) => Ok(before + lines),
                        }
                    }
                } else {
                    Ok(before.push(entry_line(e, kind, prefix)))
                },
            },
        }
    }
}

/// The lines of a vector as mathematical sequences.
pub open spec fn lines_view(v: Seq<Vec<u8>>) -> Seq<Seq<u8>> {
    Seq::new(v.len(), |i: int| v[i]@)
}

/// The mode with zeros in front, up to six digits.
pub fn pad_mode(mode: &[u8]) -> (out: Vec<u8>)
    ensures
        out@ == padded_mode(mode@),
        out@.len() >= 6,
{
    let mut out: Vec<u8> = Vec::new();
    let mut i: usize = mode.len();
    while i < 6
        invariant
            mode@.len() <= i,
            mode@.len() < 6 ==> i <= 6,
            mode@.len() >= 6 ==> i == mode@.len(),
            out@ == Seq::new((i - mode@.len()) as nat, |k: int| ZERO_DIGIT),
        decreases 6 - i,
    {
        out.push(ZERO_DIGIT);
        i += 1;
    }
    assert(out@ + mode@ =~= padded_mode(mode@));
    append_bytes(&mut out, mode);
    out
}

/// The kind of object that an entry with this mode stands for.
/// `CorruptObject` for a mode of no kind.
pub fn mode_to_type(mode: &[u8]) -> (r: Result<GitObjectType, GitError>)
    ensures
        match mode_kind(mode@) {
            Some(kind) => r == Ok::<GitObjectType, GitError>(kind),
            None => r == Err::<GitObjectType, GitError>(GitError::CorruptObject),
        },
{
    let p = pad_mode(mode);
    if p[0] == 0x30 && p[1] == 0x34 {
        Ok(GitObjectType::Tree)
    } else if p[0] == 0x31 && (p[1] == 0x30 || p[1] == 0x32) {
        Ok(GitObjectType::Blob)
    } else if p[0] == 0x31 && p[1] == 0x36 {
        Ok(GitObjectType::Commit)
    } else {
        Err(GitError::CorruptObject)
    }
}

/// The path of an entry.
pub fn join_entry(prefix: &[u8], name: &[u8]) -> (path: Vec<u8>)
    ensures
        path@ == entry_path(prefix@, name@),
{
    let mut path: Vec<u8> = Vec::new();
    if prefix.len() > 0 {
        append_bytes(&mut path, prefix);
        path.push(0x2f);
    }
    append_bytes(&mut path, name);
    assert(prefix@.len() == 0 ==> path@ == name@);
    path
}

/// The line for an entry.
fn line_of(entry: &GitTreeLeaf, kind: GitObjectType, prefix: &[u8]) -> (line: Vec<u8>)
    ensures
        line@ == entry_line(entry@, kind, prefix@),
{
    let mut line = pad_mode(entry.mode.as_slice());
    line.push(0x20);
    append_bytes(&mut line, kind.name().as_slice());
    line.push(0x20);
    let hex = hex_encode(entry.sha.as_slice());
    append_bytes(&mut line, hex.as_str().as_bytes());
    line.push(0x09);
    append_bytes(&mut line, join_entry(prefix, entry.path.as_slice()).as_slice());
    line
}

/// Lists the tree `sha`.
#[verifier::loop_isolation(false)]
pub fn ls_tree(repo: &GitRepository, sha: &str, recursive: bool, prefix: &[u8], depth: usize) -> (r:
    Result<Vec<Vec<u8>>, GitError>)
    ensures
        match ls_tree_spec(&repo.store, sha@, recursive, prefix@, depth as nat) {
            Ok(lines) => r is Ok && lines_view(r->Ok_0@) == lines,
            Err(e) => r == Err::<Vec<Vec<u8>>, GitError>(e),
        },
    decreases depth,
{
    let mut out: Vec<Vec<u8>> = Vec::new();
    assert(lines_view(out@) == Seq::<Seq<u8>>::empty());
    let tree = match object_read(repo, sha) {
        Err(e) => { return Err(e); },
        Ok((_, AnyObject::Tree(tree))) => tree,
        Ok(_) => { return Ok(out); },
    };
    let ghost entries = tree@;
    let mut i: usize = 0;
    while i < tree.entries.len()
        invariant
            i <= tree.entries@.len(),
            entries == tree@,
            ls_entries(&repo.store, entries.take(i as int), recursive, prefix@, depth as nat)
                == Ok::<Seq<Seq<u8>>, GitError>(lines_view(out@)),
        decreases tree.entries@.len() - i,
    {
        proof {
            assert(entries.take(i + 1).drop_last() == entries.take(i as int));
            assert(entries.take(i + 1).last() == tree.entries@[i as int]@);
        }
        let entry = &tree.entries[i];
        let ghost before = lines_view(out@);
        let kind = match mode_to_type(entry.mode.as_slice()) {
            Err(e) => {
                proof {
                    lemma_ls_entries_fail(
                        &repo.store,
                        entries,
                        recursive,
                        prefix@,
                        depth as nat,
                        i as int,
                    );
                }
                return Err(e);
            },
            Ok(kind) => kind,
        };
        if recursive && kind == GitObjectType::Tree {
            if depth == 0 {
                proof {
                    lemma_ls_entries_fail(
                        &repo.store,
                        entries,
                        recursive,
                        prefix@,
                        depth as nat,
                        i as int,
                    );
                }
                return Err(GitError::CorruptObject);
            }
            let path = join_entry(prefix, entry.path.as_slice());
            let hex = hex_encode(entry.sha.as_slice());
            let mut lines = match ls_tree(repo, hex.as_str(), recursive, path.as_slice(), depth - 1) {
                Err(e) => {
                    proof {
                        lemma_ls_entries_fail(
                            &repo.store,
                            entries,
                            recursive,
                            prefix@,
                            depth as nat,
                            i as int,
                        );
                    }
                    return Err(e);
                },
                Ok(lines) => lines,
            };
            let ghost added = lines_view(lines@);
            out.append(&mut lines);
            assert(lines_view(out@) == before + added);
        } else {
            let line = line_of(entry, kind, prefix);
            out.push(line);
            assert(lines_view(out@) == before.push(line@));
        }
        i += 1;
    }
    proof {
        assert(entries.take(i as int) == entries);
    }
    Ok(out)
}

/// Where one entry cannot be listed, and those before it can, its error is
/// that of listing the entries.
pub proof fn lemma_ls_entries_fail(
    store: &FileStore,
    entries: Seq<LeafView>,
    recursive: bool,
    prefix: Seq<u8>,
    depth: nat,
    at: int,
)
    requires
        0 <= at < entries.len(),
        ls_entries(store, entries.take(at), recursive, prefix, depth) is Ok,
        ls_entries(store, entries.take(at + 1), recursive, prefix, depth) is Err,
    ensures
        ls_entries(store, entries, recursive, prefix, depth) == ls_entries(
            store,
            entries.take(at + 1),
            recursive,
            prefix,
            depth,
        ),
    decreases entries.len(),
{
    if at < entries.len() - 1 {
        assert(entries.drop_last().take(at) == entries.take(at));
        assert(entries.drop_last().take(at + 1) == entries.take(at + 1));
        lemma_ls_entries_fail(store, entries.drop_last(), recursive, prefix, depth, at);
    } else {
        assert(entries.take(at + 1) == entries);
    }
}

/// The lines for the tree that `name` stands for.
///
/// The error of finding the tree, `WrongKind` where `name` stands for
/// another kind of object; then as `ls_tree_spec`, the trees being followed as
/// many levels down as the store has files.
pub open spec fn run_spec(store: &FileStore, name: Seq<char>, recursive: bool) -> Result<
    Seq<Seq<u8>>,
    GitError,
> {
    match object_find_spec(store, name, Some(GitObjectType::Tree)) {
        Err(e) => Err(e),
        Ok(sha) => ls_tree_spec(store, sha, recursive, Seq::empty(), store.files@.len()),
    }
}

/// Lists the tree that `tree` stands for: one line for each entry, and with
/// `recursive` the entries of the trees below it in the place of their lines.
pub fn run(repo: &GitRepository, tree: &str, recursive: bool) -> (r: Result<Vec<Vec<u8>>, GitError>)
    ensures
        match run_spec(&repo.store, tree@, recursive) {
            Ok(lines) => r is Ok && lines_view(r->Ok_0@) == lines,
            Err(e) => r == Err::<Vec<Vec<u8>>, GitError>(e),
        },
{
    let sha = match object_find(repo, tree, Some(GitObjectType::Tree)) {
        Err(e) => { return Err(e); },
        Ok(sha) => sha,
    };
    let root: Vec<u8> = Vec::new();
    ls_tree(repo, sha.as_str(), recursive, root.as_slice(), repo.store.files.len())
}

} // verus!
