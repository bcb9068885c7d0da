//! `checkout`: the files of a commit, as they are to be written into the
//! working tree.

use vstd::prelude::*;
use vstd::string::StringExecFns;
use vstd::utf8::encode_utf8;
use crate::bytes::append_bytes;
use crate::commands::ls_files::strings_view;
use crate::commands::ls_tree::{entry_path, join_entry, mode_kind, mode_to_type, pad_mode,
    padded_mode};
use crate::commands::status::strs_view;
use crate::error::GitError;
use crate::frame::GitObjectType;
use crate::hashing::{hex_chars, hex_encode};
use crate::kvlm::first_header;
use crate::objects::{object_read, stored_object, AnyObject, ObjectView};
use crate::refs::{object_resolve, object_resolve_spec};
use crate::repo::{text_bytes, GitRepository};
use crate::store::FileStore;
use crate::text::{bytes_to_text, str_eq, text_of};
use crate::tree::{GitTreeLeaf, LeafView};

verus! {

/// One step of writing a tree into the working tree.
#[derive(Debug, Clone)]
pub enum CheckoutAction {
    /// Make the directory at `path`, and those above it.
    MakeDir { path: Vec<u8> },
    /// Write `data` to the file at `path`, with the permissions `mode`.
    WriteFile { path: Vec<u8>, data: Vec<u8>, mode: u32 },
}

/// A step as mathematical values.
pub enum ActionView {
    MakeDir(Seq<u8>),
    WriteFile(Seq<u8>, Seq<u8>, u32),
}

impl View for CheckoutAction {
    type V = ActionView;

    open spec fn view(&self) -> ActionView {
        match self {
            CheckoutAction::MakeDir { path } => ActionView::MakeDir(path@),
            CheckoutAction::WriteFile { path, data, mode } => ActionView::WriteFile(
                path@,
                data@,
                *mode,
            ),
        }
    }
}

/// The steps of a vector as mathematical values.
pub open spec fn actions_view(v: Seq<CheckoutAction>) -> Seq<ActionView> {
    Seq::new(v.len(), |i: int| v[i]@)
}

/// What `checkout` asks for: what is to be removed from the working tree,
/// and what is to be written into it, in this order.
#[derive(Debug, Clone)]
pub struct CheckoutPlan {
    pub remove: Vec<String>,
    pub actions: Vec<CheckoutAction>,
}

/// Whether a byte is an octal digit.
pub open spec fn is_octal(b: u8) -> bool {
    0x30 <= b <= 0x37
}

/// The permissions that a mode gives: the low nine bits, which its last three
/// octal digits spell. `None` where these are no octal digits.
pub open spec fn permissions(mode: Seq<u8>) -> Option<u32> {
    let p = padded_mode(mode);
    let n = p.len() as int;
    if is_octal(p[n - 3]) && is_octal(p[n - 2]) && is_octal(p[n - 1]) {
        Some(((p[n - 3] - 0x30) * 64 + (p[n - 2] - 0x30) * 8 + (p[n - 1] - 0x30)) as u32)
    } else {
        None
    }
}

/// `steps` with `before` put in front, where there are `steps`.
pub open spec fn with_actions(before: Seq<ActionView>, steps: Result<Seq<ActionView>, GitError>) -> Result<
    Seq<ActionView>,
    GitError,
> {
    match steps {
        Err(e) => Err(e),
        Ok(s) => Ok(before + s),
    }
}

/// The steps that write the tree `sha` to the directory `path`: the
/// directory is made, and then each entry is written in its order, `depth`
/// levels down.
///
/// The error of reading an object that is needed; `WrongKind` where `sha` is
/// no tree; and the errors of the entries.
pub open spec fn checkout_tree_spec(store: &FileStore, sha: Seq<char>, path: Seq<u8>, depth: nat) -> Result<
    Seq<ActionView>,
    GitError,
>
    decreases depth, 1nat, 0nat,
{
    match stored_object(store, sha) {
        Err(e) => Err(e),
        Ok(ObjectView::Tree(entries)) => with_actions(
            seq![ActionView::MakeDir(path)],
            checkout_entries(store, entries, path, depth),
        ),
        Ok(_) => Err(GitError::WrongKind),
    }
}

/// The steps that write the entries of a tree into the directory `path`.
///
/// An entry of a tree is written as that tree, into the entry's path. An
/// entry of a blob is written as a file that holds the blob; `WrongKind`
/// where its object is no blob. An entry of a commit, which stands for a
/// repository inside this one, is written as a file that holds the name of
/// the commit. `CorruptObject` where a mode has no kind or gives no
/// permissions, or where the trees go deeper than `depth`.
pub open spec fn checkout_entries(
    store: &FileStore,
    entries: Seq<LeafView>,
    path: Seq<u8>,
    depth: nat,
) -> Result<Seq<ActionView>, GitError>
    decreases depth, 0nat, entries.len(),
{
    if entries.len() == 0 {
        Ok(Seq::empty())
    } else {
        let e = entries.last();
        let target = entry_path(path, e.path);
        match checkout_entries(store, entries.drop_last(), path, depth) {
            Err(err) => Err(err),
            Ok(before) => match (mode_kind(e.mode), permissions(e.mode)) {
                (Some(GitObjectType::Tree), _) => if depth == 0 {
                    Err(GitError::CorruptObject)
                } else {
                    with_actions(
                        before,
                        checkout_tree_spec(store, hex_chars(e.sha), target, (depth - 1) as nat),
                    )
                },
                (Some(GitObjectType::Blob), Some(mode)) => match stored_object(
                    store,
                    hex_chars(e.sha),
                ) {
                    Err(err) => Err(err),
                    Ok(ObjectView::Blob(data)) => Ok(
                        before.push(ActionView::WriteFile(target, data, mode)),
                    ),
                    Ok(_) => Err(GitError::WrongKind),
                },
                (Some(GitObjectType::Commit), Some(mode)) => Ok(
                    before.push(
                        ActionView::WriteFile(target, encode_utf8(hex_chars(e.sha)), mode),
                    ),
                ),
                _ => Err(GitError::CorruptObject),
            },
        }
    }
}

/// The permissions that a mode gives.
pub fn mode_permissions(mode: &[u8]) -> (r: Option<u32>)
    ensures
        r == permissions(mode@),
{
    let p = pad_mode(mode);
    let n = p.len();
    let a = p[n - 3];
    let b = p[n - 2];
    let c = p[n - 1];
    if 0x30 <= a && a <= 0x37 && 0x30 <= b && b <= 0x37 && 0x30 <= c && c <= 0x37 {
        Some((a - 0x30) as u32 * 64 + (b - 0x30) as u32 * 8 + (c - 0x30) as u32)
    } else {
        None
    }
}

/// Where one entry cannot be written, and those before it can, its error is
/// that of writing the entries.
pub proof fn lemma_checkout_entries_fail(
    store: &FileStore,
    entries: Seq<LeafView>,
    path: Seq<u8>,
    depth: nat,
    at: int,
)
    requires
        0 <= at < entries.len(),
        checkout_entries(store, entries.take(at), path, depth) is Ok,
        checkout_entries(store, entries.take(at + 1), path, depth) is Err,
    ensures
        checkout_entries(store, entries, path, depth) == checkout_entries(
            store,
            entries.take(at + 1),
            path,
            depth,
        ),
    decreases entries.len(),
{
    if at < entries.len() - 1 {
        assert(entries.drop_last().take(at) == entries.take(at));
        assert(entries.drop_last().take(at + 1) == entries.take(at + 1));
        lemma_checkout_entries_fail(store, entries.drop_last(), path, depth, at);
    } else {
        assert(entries.take(at + 1) == entries);
    }
}

/// The steps that write one entry of a tree.
fn checkout_entry(repo: &GitRepository, entry: &GitTreeLeaf, path: &[u8], depth: usize) -> (r: Result<
    Vec<CheckoutAction>,
    GitError,
>)
    ensures
        match checkout_entries(&repo.store, seq![entry@], path@, depth as nat) {
            Ok(steps) => r is Ok && actions_view(r->Ok_0@) == steps,
            Err(e) => r == Err::<Vec<CheckoutAction>, GitError>(e),
        },
    decreases depth, 0nat,
{
    proof {
        assert(seq![entry@].drop_last() == Seq::<LeafView>::empty());
        assert(seq![entry@].last() == entry@);
        assert(checkout_entries(&repo.store, Seq::<LeafView>::empty(), path@, depth as nat) == Ok::<
            Seq<ActionView>,
            GitError,
        >(Seq::empty()));
    }
    let kind = match mode_to_type(entry.mode.as_slice()) {
        Err(e) => { return Err(e); },
        Ok(kind) => kind,
    };
    let target = join_entry(path, entry.path.as_slice());
    let hex = hex_encode(entry.sha.as_slice());
    let ghost none: Seq<ActionView> = Seq::empty();
    match kind {
        GitObjectType::Tree => {
            if depth == 0 {
                return Err(GitError::CorruptObject);
            }
            match checkout_tree(repo, hex.as_str(), target.as_slice(), depth - 1) {
                Err(e) => Err(e),
                Ok(steps) => {
                    assert(none + actions_view(steps@) == actions_view(steps@));
                    Ok(steps)
                },
            }
        },
        GitObjectType::Blob => {
            let mode = match mode_permissions(entry.mode.as_slice()) {
                None => { return Err(GitError::CorruptObject); },
                Some(mode) => mode,
            };
            match object_read(repo, hex.as_str()) {
                Err(e) => Err(e),
                Ok((_, AnyObject::Blob(blob))) => {
                    let step = CheckoutAction::WriteFile { path: target, data: blob.data, mode };
                    let steps = vec![step];
                    assert(actions_view(steps@) == none.push(step@));
                    Ok(steps)
                },
                Ok(_) => Err(GitError::WrongKind),
            }
        },
        GitObjectType::Commit => {
            let mode = match mode_permissions(entry.mode.as_slice()) {
                None => { return Err(GitError::CorruptObject); },
                Some(mode) => mode,
            };
            let step = CheckoutAction::WriteFile {
                path: target,
                data: text_bytes(hex.as_str()),
                mode,
            };
            let steps = vec![step];
            assert(actions_view(steps@) == none.push(step@));
            Ok(steps)
        },
        GitObjectType::Tag => Err(GitError::CorruptObject),
    }
}

/// The entries one more are the entries and the one.
pub proof fn lemma_checkout_entries_push(
    store: &FileStore,
    entries: Seq<LeafView>,
    e: LeafView,
    path: Seq<u8>,
    depth: nat,
)
    requires
        checkout_entries(store, entries, path, depth) is Ok,
    ensures
        checkout_entries(store, entries.push(e), path, depth) == with_actions(
            checkout_entries(store, entries, path, depth)->Ok_0,
            checkout_entries(store, seq![e], path, depth),
        ),
{
    let none: Seq<ActionView> = Seq::empty();
    let before = checkout_entries(store, entries, path, depth)->Ok_0;
    assert(entries.push(e).drop_last() == entries);
    assert(entries.push(e).last() == e);
    assert(seq![e].drop_last() == Seq::<LeafView>::empty());
    assert(seq![e].last() == e);
    assert(checkout_entries(store, Seq::<LeafView>::empty(), path, depth) == Ok::<
        Seq<ActionView>,
        GitError,
    >(none));
    match checkout_entries(store, seq![e], path, depth) {
        Err(_) => {},
        Ok(steps) => {
            match (mode_kind(e.mode), permissions(e.mode)) {
                (Some(GitObjectType::Tree), _) => {
                    assert(none + steps == steps);
                },
                (Some(GitObjectType::Blob), Some(mode)) => {
                    assert(before + none.push(steps[0]) == before.push(steps[0]));
                },
                (Some(GitObjectType::Commit), Some(mode)) => {
                    assert(before + none.push(steps[0]) == before.push(steps[0]));
                },
                _ => {},
            }
        },
    }
}

/// The steps that write the tree `sha` to the directory `path`.
#[verifier::rlimit(30)]
#[verifier::loop_isolation(false)]
pub fn checkout_tree(repo: &GitRepository, sha: &str, path: &[u8], depth: usize) -> (r: Result<
    Vec<CheckoutAction>,
    GitError,
>)
    ensures
        match checkout_tree_spec(&repo.store, sha@, path@, depth as nat) {
            Ok(steps) => r is Ok && actions_view(r->Ok_0@) == steps,
            Err(e) => r == Err::<Vec<CheckoutAction>, GitError>(e),
        },
    decreases depth, 1nat,
{
    let tree = match object_read(repo, sha) {
        Err(e) => { return Err(e); },
        Ok((_, AnyObject::Tree(tree))) => tree,
        Ok(_) => { return Err(GitError::WrongKind); },
    };
    let ghost entries = tree@;
    let mut dir: Vec<u8> = Vec::new();
    append_bytes(&mut dir, path);
    let first = CheckoutAction::MakeDir { path: dir };
    let mut out: Vec<CheckoutAction> = vec![first];
    let ghost head = seq![ActionView::MakeDir(path@)];
    assert(actions_view(out@) == head + Seq::<ActionView>::empty());
    let mut i: usize = 0;
    while i < tree.entries.len()
        invariant
            i <= tree.entries@.len(),
            entries == tree@,
            checkout_entries(&repo.store, entries.take(i as int), path@, depth as nat) is Ok,
            actions_view(out@) == head + checkout_entries(
                &repo.store,
                entries.take(i as int),
                path@,
                depth as nat,
            )->Ok_0,
        decreases tree.entries@.len() - i,
    {
        let ghost before = checkout_entries(
            &repo.store,
            entries.take(i as int),
            path@,
            depth as nat,
        )->Ok_0;
        let ghost old_out = actions_view(out@);
        proof {
            assert(entries.take(i + 1) == entries.take(i as int).push(tree.entries@[i as int]@));
            lemma_checkout_entries_push(
                &repo.store,
                entries.take(i as int),
                tree.entries@[i as int]@,
                path@,
                depth as nat,
            );
        }
        let mut steps = match checkout_entry(repo, &tree.entries[i], path, depth) {
            Err(e) => {
                proof {
                    lemma_checkout_entries_fail(&repo.store, entries, path@, depth as nat, i as int);
                }
                return Err(e);
            },
            Ok(steps) => steps,
        };
        let ghost added = actions_view(steps@);
        out.append(&mut steps);
        proof {
            assert(actions_view(out@) == old_out + added);
            assert(head + (before + added) == (head + before) + added);
        }
        i += 1;
    }
    proof {
        assert(entries.take(i as int) == entries);
    }
    Ok(out)
}

/// The names among `names` that are not `.git`, in their order.
pub open spec fn removable(names: Seq<Seq<char>>) -> Seq<Seq<char>>
    decreases names.len(),
{
    if names.len() == 0 {
        Seq::empty()
    } else {
        let before = removable(names.drop_last());
        if names.last() == ".git"@ {
            before
        } else {
            before.push(names.last())
        }
    }
}

/// The name of the tree that a commit names: the text of its first `tree`
/// header. `CorruptObject` where it has none, or where that is no text.
pub open spec fn commit_tree(headers: Seq<(Seq<u8>, Seq<u8>)>) -> Result<Seq<char>, GitError> {
    let at = first_header(headers, encode_utf8("tree"@), 0);
    if at >= headers.len() {
        Err(GitError::CorruptObject)
    } else {
        match text_of(headers[at].1) {
            None => Err(GitError::CorruptObject),
            Some(sha) => Ok(sha),
        }
    }
}

/// The steps that write the commit that `name` stands for.
///
/// The error of resolving `name` or of reading its object; `NotCommit`
/// where the object is no commit; `CorruptObject` where the commit names no
/// tree; then as `checkout_tree_spec` for the commit's tree and the root of
/// the working tree, the trees being followed as many levels down as the
/// store has files.
pub open spec fn run_spec(store: &FileStore, name: Seq<char>) -> Result<Seq<ActionView>, GitError> {
    match object_resolve_spec(store, name) {
        Err(e) => Err(e),
        Ok(sha) => match stored_object(store, sha) {
            Err(e) => Err(e),
            Ok(ObjectView::Commit(k)) => match commit_tree(k.headers) {
                Err(e) => Err(e),
                Ok(tree) => checkout_tree_spec(store, tree, Seq::empty(), store.files@.len()),
            },
            Ok(_) => Err(GitError::NotCommit),
        },
    }
}

/// Plans the checkout of the commit that `commit` stands for into the
/// working tree, of which `worktree` names what lies directly in it:
/// everything but the repository directory is to be removed, and then the
/// commit's tree is to be written.
#[verifier::loop_isolation(false)]
pub fn run(repo: &GitRepository, commit: &str, worktree: &[&str]) -> (r: Result<CheckoutPlan, GitError>)
    ensures
        match run_spec(&repo.store, commit@) {
            Err(e) => r == Err::<CheckoutPlan, GitError>(e),
            Ok(steps) => {
                &&& r is Ok
                &&& actions_view(r->Ok_0.actions@) == steps
                &&& strings_view(r->Ok_0.remove@) == removable(strs_view(worktree@))
            },
        },
{
    let sha = match object_resolve(repo, commit) {
        Err(e) => { return Err(e); },
        Ok(sha) => sha,
    };
    let found = match object_read(repo, sha.as_str()) {
        Err(e) => { return Err(e); },
        Ok((_, AnyObject::Commit(found))) => found,
        Ok(_) => { return Err(GitError::NotCommit); },
    };
    let key = text_bytes("tree");
    let tree = match found.kvlm.get(key.as_slice()) {
        None => { return Err(GitError::CorruptObject); },
        Some(value) => match bytes_to_text(value) {
            None => { return Err(GitError::CorruptObject); },
            Some(tree) => tree,
        },
    };
    let root: Vec<u8> = Vec::new();
    let actions = match checkout_tree(repo, tree, root.as_slice(), repo.store.files.len()) {
        Err(e) => { return Err(e); },
        Ok(actions) => actions,
    };
    let ghost all = strs_view(worktree@);
    let mut remove: Vec<String> = Vec::new();
    let mut i: usize = 0;
    assert(strings_view(remove@) == Seq::<Seq<char>>::empty());
    while i < worktree.len()
        invariant
            i <= worktree@.len(),
            strings_view(remove@) == removable(all.take(i as int)),
        decreases worktree@.len() - i,
    {
        proof {
            assert(all.take(i + 1).drop_last() == all.take(i as int));
            assert(all.take(i + 1).last() == worktree@[i as int]@);
        }
        if !str_eq(worktree[i], ".git") {
            let ghost before = strings_view(remove@);
            remove.push(String::from_str(worktree[i]));
            assert(strings_view(remove@) == before.push(worktree@[i as int]@));
        }
        i += 1;
    }
    proof {
        assert(all.take(i as int) == all);
    }
    Ok(CheckoutPlan { remove, actions })
}

} // verus!
