//! From the index to trees: the files of each directory and its
//! sub-directories become the entries of one tree, in order, and every tree
//! is stored.

use vstd::prelude::*;
use vstd::utf8::encode_utf8;
use crate::bytes::{append_bytes, bytes_eq, copy_range, find_byte, find_byte_from,
    lemma_find_byte_skip};
use crate::error::GitError;
use crate::frame::{frame_bytes, GitObjectType};
use crate::hashing::{hex_bytes, hex_chars, hex_decode, is_hex, lemma_hex_bytes_chars, sha1_digest};
use crate::index::{EntryView, GitIndex};
use crate::objects::{lemma_object_stored_extends, object_path, object_write, put_object};
use crate::repo::GitRepository;
use crate::store::{lemma_extends_trans, FileStore, FilesView};
use crate::tree::{hash_at, tree_bytes, GitTree, GitTreeLeaf, LeafView};
use crate::tree_order::{dir_mode, file_mode, insert_leaf, leaves_view, sort_leaves, SLASH_BYTE};

verus! {

/// A file of the index as the trees hold it: its path in bytes and the hash
/// of its blob.
pub struct TreeItem {
    pub path: Vec<u8>,
    pub sha: [u8; 20],
}

/// What a `TreeItem` holds, as mathematical sequences.
pub struct ItemView {
    pub path: Seq<u8>,
    pub sha: Seq<u8>,
}

impl View for TreeItem {
    type V = ItemView;

    open spec fn view(&self) -> ItemView {
        ItemView { path: self.path@, sha: self.sha@ }
    }
}

/// The items of a vector as mathematical values.
pub open spec fn items_view(v: Seq<TreeItem>) -> Seq<ItemView> {
    Seq::new(v.len(), |i: int| v[i]@)
}

/// The names of a vector as mathematical values.
pub open spec fn names_view(v: Seq<Vec<u8>>) -> Seq<Seq<u8>> {
    Seq::new(v.len(), |i: int| v[i]@)
}

/// Whether `path` lies in the directory `prefix` or below it. A directory is
/// given by its path with a slash behind it, the root by the empty prefix.
pub open spec fn is_below(path: Seq<u8>, prefix: Seq<u8>) -> bool {
    prefix.len() < path.len() && path.take(prefix.len() as int) == prefix
}

/// What follows the prefix in a path.
pub open spec fn tail_of(path: Seq<u8>, prefix: Seq<u8>) -> Seq<u8> {
    path.skip(prefix.len() as int)
}

/// Whether `path` is a file directly in the directory `prefix`: nothing but a
/// name follows the prefix.
pub open spec fn is_file_in(path: Seq<u8>, prefix: Seq<u8>) -> bool {
    is_below(path, prefix) && find_byte(tail_of(path, prefix), SLASH_BYTE, 0) >= tail_of(
        path,
        prefix,
    ).len()
}

/// Whether `path` lies in a sub-directory of the directory `prefix`.
pub open spec fn is_dir_in(path: Seq<u8>, prefix: Seq<u8>) -> bool {
    is_below(path, prefix) && find_byte(tail_of(path, prefix), SLASH_BYTE, 0) < tail_of(
        path,
        prefix,
    ).len()
}

/// The name of the sub-directory of `prefix` in which `path` lies: what
/// stands between the prefix and the next slash.
pub open spec fn dir_of(path: Seq<u8>, prefix: Seq<u8>) -> Seq<u8> {
    tail_of(path, prefix).take(find_byte(tail_of(path, prefix), SLASH_BYTE, 0))
}

/// The prefix of the sub-directory `name` of the directory `prefix`.
pub open spec fn child_prefix(prefix: Seq<u8>, name: Seq<u8>) -> Seq<u8> {
    prefix + name + seq![SLASH_BYTE]
}

/// The entries for the files directly in the directory `prefix`, in the order
/// of the items: mode `100644`, the file's name, the hash of its blob.
pub open spec fn file_leaves(items: Seq<ItemView>, prefix: Seq<u8>) -> Seq<LeafView>
    decreases items.len(),
{
    if items.len() == 0 {
        Seq::empty()
    } else {
        let before = file_leaves(items.drop_last(), prefix);
        let item = items.last();
        if is_file_in(item.path, prefix) {
            before.push(
                LeafView { mode: file_mode(), path: tail_of(item.path, prefix), sha: item.sha },
            )
        } else {
            before
        }
    }
}

/// The names of the sub-directories of the directory `prefix`, each once, in
/// the order in which the items first name them.
pub open spec fn dir_names(items: Seq<ItemView>, prefix: Seq<u8>) -> Seq<Seq<u8>>
    decreases items.len(),
{
    if items.len() == 0 {
        Seq::empty()
    } else {
        let before = dir_names(items.drop_last(), prefix);
        let item = items.last();
        if is_dir_in(item.path, prefix) && !before.contains(dir_of(item.path, prefix)) {
            before.push(dir_of(item.path, prefix))
        } else {
            before
        }
    }
}

/// The hash of the tree with these entries.
pub open spec fn tree_id(entries: Seq<LeafView>) -> Seq<u8> {
    sha1_digest(frame_bytes(GitObjectType::Tree, tree_bytes(entries)))
}

/// The entries of the tree for the directory `prefix`: its files and its
/// sub-directories, in the order of trees. Sub-directories are followed
/// `depth` levels down.
pub open spec fn tree_at(items: Seq<ItemView>, prefix: Seq<u8>, depth: nat) -> Seq<LeafView>
    decreases depth, 1nat, 0nat,
{
    sort_leaves(
        file_leaves(items, prefix) + subtree_leaves(
            items,
            prefix,
            dir_names(items, prefix),
            depth,
        ),
    )
}

/// The entries for the sub-directories `names` of the directory `prefix`:
/// mode `40000`, the name, and the hash of the sub-directory's tree.
pub open spec fn subtree_leaves(
    items: Seq<ItemView>,
    prefix: Seq<u8>,
    names: Seq<Seq<u8>>,
    depth: nat,
) -> Seq<LeafView>
    decreases depth, 0nat, names.len(),
{
    if depth == 0 || names.len() == 0 {
        Seq::empty()
    } else {
        subtree_leaves(items, prefix, names.drop_last(), depth).push(
            LeafView {
                mode: dir_mode(),
                path: names.last(),
                sha: tree_id(
                    tree_at(items, child_prefix(prefix, names.last()), (depth - 1) as nat),
                ),
            },
        )
    }
}

/// The length of the longest path.
pub open spec fn max_path_len(items: Seq<ItemView>) -> nat
    decreases items.len(),
{
    if items.len() == 0 {
        0
    } else {
        let before = max_path_len(items.drop_last());
        if items.last().path.len() > before {
            items.last().path.len()
        } else {
            before
        }
    }
}

/// An index whose entries can go into trees: each hash is 40 hexadecimal
/// digits.
pub open spec fn index_hashable(es: Seq<EntryView>) -> bool {
    forall|i: int| 0 <= i < es.len() ==> (#[trigger] es[i]).sha.len() == 40 && is_hex(es[i].sha)
}

/// The files of an index as the trees hold them.
pub open spec fn index_items(es: Seq<EntryView>) -> Seq<ItemView> {
    Seq::new(
        es.len(),
        |i: int| ItemView { path: encode_utf8(es[i].path), sha: hex_bytes(es[i].sha) },
    )
}

/// The entries of the root tree of an index.
pub open spec fn index_tree(es: Seq<EntryView>) -> Seq<LeafView> {
    tree_at(index_items(es), Seq::empty(), max_path_len(index_items(es)))
}

/// The files after the trees of an index are stored; `None` where one of
/// them is not stored yet and cannot be compressed.
pub open spec fn put_index_trees(v: FilesView, es: Seq<EntryView>) -> Option<FilesView> {
    put_trees(v, index_items(es), Seq::empty(), max_path_len(index_items(es)))
}

/// The name of the root tree of an index. It depends on the entries of the
/// index alone.
pub open spec fn index_tree_name(es: Seq<EntryView>) -> Seq<char> {
    hex_chars(tree_id(index_tree(es)))
}

/// Whether the store holds the tree of the directory `prefix` and the trees
/// of all directories below it, `depth` levels down.
pub open spec fn trees_stored(
    store: &FileStore,
    items: Seq<ItemView>,
    prefix: Seq<u8>,
    depth: nat,
) -> bool
    decreases depth, 1nat, 0nat,
{
    &&& store.content(object_path(hex_chars(tree_id(tree_at(items, prefix, depth))))) is Some
    &&& subtrees_stored(store, items, prefix, dir_names(items, prefix), depth)
}

/// Whether the store holds the trees of the sub-directories `names` of the
/// directory `prefix`, and the trees below them.
pub open spec fn subtrees_stored(
    store: &FileStore,
    items: Seq<ItemView>,
    prefix: Seq<u8>,
    names: Seq<Seq<u8>>,
    depth: nat,
) -> bool
    decreases depth, 0nat, names.len(),
{
    depth == 0 || names.len() == 0 || (subtrees_stored(
        store,
        items,
        prefix,
        names.drop_last(),
        depth,
    ) && trees_stored(store, items, child_prefix(prefix, names.last()), (depth - 1) as nat))
}

/// The files after the tree of the directory `prefix` and the trees below it
/// are stored, those below first; `None` where one of them cannot be stored.
pub open spec fn put_trees(v: FilesView, items: Seq<ItemView>, prefix: Seq<u8>, depth: nat) -> Option<
    FilesView,
>
    decreases depth, 1nat, 0nat,
{
    match put_subtrees(v, items, prefix, dir_names(items, prefix), depth) {
        None => None,
        Some(below) => put_object(
            below,
            GitObjectType::Tree,
            tree_bytes(tree_at(items, prefix, depth)),
        ),
    }
}

/// The files after the trees of the sub-directories `names` of the directory
/// `prefix` are stored, in the order of the names.
pub open spec fn put_subtrees(
    v: FilesView,
    items: Seq<ItemView>,
    prefix: Seq<u8>,
    names: Seq<Seq<u8>>,
    depth: nat,
) -> Option<FilesView>
    decreases depth, 0nat, names.len(),
{
    if depth == 0 || names.len() == 0 {
        Some(v)
    } else {
        match put_subtrees(v, items, prefix, names.drop_last(), depth) {
            None => None,
            Some(before) => put_trees(
                before,
                items,
                child_prefix(prefix, names.last()),
                (depth - 1) as nat,
            ),
        }
    }
}

/// Where the trees of the first sub-directories cannot be stored, those of
/// all of them cannot.
pub proof fn lemma_put_subtrees_fails(
    v: FilesView,
    items: Seq<ItemView>,
    prefix: Seq<u8>,
    names: Seq<Seq<u8>>,
    depth: nat,
    upto: int,
)
    requires
        0 <= upto <= names.len(),
        put_subtrees(v, items, prefix, names.take(upto), depth) is None,
    ensures
        put_subtrees(v, items, prefix, names, depth) is None,
    decreases names.len(),
{
    if upto < names.len() {
        assert(names.drop_last().take(upto) == names.take(upto));
        lemma_put_subtrees_fails(v, items, prefix, names.drop_last(), depth, upto);
    } else {
        assert(names.take(upto) == names);
    }
}

/// Trees that a store holds are held by every store that has a file wherever
/// that store has one.
pub proof fn lemma_trees_stay_stored(
    old: &FileStore,
    new: &FileStore,
    items: Seq<ItemView>,
    prefix: Seq<u8>,
    depth: nat,
)
    requires
        new.keeps(old),
        trees_stored(old, items, prefix, depth),
    ensures
        trees_stored(new, items, prefix, depth),
    decreases depth, 1nat, 0nat,
{
    lemma_subtrees_stay_stored(old, new, items, prefix, dir_names(items, prefix), depth);
}

/// Trees of sub-directories that a store holds are held by every store that
/// has a file wherever that store has one.
pub proof fn lemma_subtrees_stay_stored(
    old: &FileStore,
    new: &FileStore,
    items: Seq<ItemView>,
    prefix: Seq<u8>,
    names: Seq<Seq<u8>>,
    depth: nat,
)
    requires
        new.keeps(old),
        subtrees_stored(old, items, prefix, names, depth),
    ensures
        subtrees_stored(new, items, prefix, names, depth),
    decreases depth, 0nat, names.len(),
{
    if depth > 0 && names.len() > 0 {
        lemma_subtrees_stay_stored(old, new, items, prefix, names.drop_last(), depth);
        lemma_trees_stay_stored(
            old,
            new,
            items,
            child_prefix(prefix, names.last()),
            (depth - 1) as nat,
        );
    }
}

/// No path is longer than the longest.
pub proof fn lemma_max_path_len(items: Seq<ItemView>, at: int)
    requires
        0 <= at < items.len(),
    ensures
        items[at].path.len() <= max_path_len(items),
    decreases items.len(),
{
    if at < items.len() - 1 {
        lemma_max_path_len(items.drop_last(), at);
    }
}

/// A directory whose prefix is as long as the longest path has no
/// sub-directories.
pub proof fn lemma_no_dirs_at_the_bottom(items: Seq<ItemView>, all: Seq<ItemView>, prefix: Seq<u8>)
    requires
        max_path_len(all) <= prefix.len(),
        items.len() <= all.len(),
        items == all.take(items.len() as int),
    ensures
        dir_names(items, prefix).len() == 0,
    decreases items.len(),
{
    if items.len() > 0 {
        assert(items.drop_last() == all.take(items.len() - 1));
        lemma_no_dirs_at_the_bottom(items.drop_last(), all, prefix);
        lemma_max_path_len(all, items.len() - 1);
        assert(items.last() == all[items.len() - 1]);
    }
}

/// Following the directories further down than the longest path reaches
/// changes nothing: with a depth that, together with the length of the
/// prefix, is no less than the length of the longest path, the tree is the
/// same as with any greater depth.
pub proof fn lemma_depth_suffices(items: Seq<ItemView>, prefix: Seq<u8>, depth: nat)
    requires
        depth + prefix.len() >= max_path_len(items),
    ensures
        tree_at(items, prefix, depth) == tree_at(items, prefix, depth + 1),
    decreases depth, 1nat, 0nat,
{
    if depth == 0 {
        assert(items.take(items.len() as int) == items);
        lemma_no_dirs_at_the_bottom(items, items, prefix);
    }
    lemma_subtrees_depth_suffices(items, prefix, dir_names(items, prefix), depth);
}

/// The entries of sub-directories are the same with any greater depth.
pub proof fn lemma_subtrees_depth_suffices(
    items: Seq<ItemView>,
    prefix: Seq<u8>,
    names: Seq<Seq<u8>>,
    depth: nat,
)
    requires
        depth + prefix.len() >= max_path_len(items),
        depth == 0 ==> names.len() == 0,
    ensures
        subtree_leaves(items, prefix, names, depth) == subtree_leaves(
            items,
            prefix,
            names,
            depth + 1,
        ),
    decreases depth, 0nat, names.len(),
{
    if depth > 0 && names.len() > 0 {
        lemma_subtrees_depth_suffices(items, prefix, names.drop_last(), depth);
        lemma_depth_suffices(items, child_prefix(prefix, names.last()), (depth - 1) as nat);
    }
}

/// The root tree of an index is the same however much deeper than its
/// longest path the directories are followed.
pub proof fn lemma_index_tree_is_complete(es: Seq<EntryView>, more: nat)
    ensures
        tree_at(index_items(es), Seq::empty(), max_path_len(index_items(es)) + more) == index_tree(
            es,
        ),
    decreases more,
{
    if more > 0 {
        lemma_index_tree_is_complete(es, (more - 1) as nat);
        lemma_depth_suffices(
            index_items(es),
            Seq::empty(),
            (max_path_len(index_items(es)) + more - 1) as nat,
        );
    }
}

/// Whether `path` lies in the directory `prefix` or below it.
fn path_is_below(path: &[u8], prefix: &[u8]) -> (below: bool)
    ensures
        below == is_below(path@, prefix@),
{
    if prefix.len() >= path.len() {
        return false;
    }
    let head = vstd::slice::slice_subrange(path, 0, prefix.len());
    assert(head@ == path@.take(prefix@.len() as int));
    bytes_eq(head, prefix)
}

/// Whether `name` is among `names`.
fn has_name(names: &Vec<Vec<u8>>, name: &[u8]) -> (found: bool)
    ensures
        found == names_view(names@).contains(name@),
{
    let mut i: usize = 0;
    while i < names.len()
        invariant
            i <= names@.len(),
            forall|j: int| 0 <= j < i ==> names_view(names@)[j] != name@,
        decreases names@.len() - i,
    {
        if bytes_eq(names[i].as_slice(), name) {
            assert(names_view(names@)[i as int] == name@);
            return true;
        }
        i += 1;
    }
    false
}

/// The mode of a regular file.
fn file_mode_bytes() -> (mode: Vec<u8>)
    ensures
        mode@ == file_mode(),
{
    vec![0x31u8, 0x30, 0x30, 0x36, 0x34, 0x34]
}

/// The mode of a directory.
fn dir_mode_bytes() -> (mode: Vec<u8>)
    ensures
        mode@ == dir_mode(),
{
    vec![0x34u8, 0x30, 0x30, 0x30, 0x30]
}

/// Builds and stores the tree of the directory `prefix` and the trees below
/// it, `depth` levels down, and names the tree.
#[verifier::rlimit(30)]
fn build_tree(repo: &mut GitRepository, items: &Vec<TreeItem>, prefix: &Vec<u8>, depth: usize) -> (r:
    Result<String, GitError>)
    ensures
        final(repo).worktree == old(repo).worktree,
        final(repo).gitdir == old(repo).gitdir,
        final(repo).config == old(repo).config,
        final(repo).store.dirs == old(repo).store.dirs,
        final(repo).store.extends(&old(repo).store),
        match put_trees(old(repo).store.listing(), items_view(items@), prefix@, depth as nat) {
            Some(v) => r is Ok && final(repo).store.listing() == v,
            None => r is Err,
        },
        match r {
            Ok(sha) => {
                &&& sha@.len() == 40
                &&& sha@ == hex_chars(tree_id(tree_at(items_view(items@), prefix@, depth as nat)))
                &&& trees_stored(&final(repo).store, items_view(items@), prefix@, depth as nat)
            },
            Err(e) => e == GitError::IoFailure,
        },
    decreases depth,
{
    let ghost iv = items_view(items@);
    let mut sorted: Vec<GitTreeLeaf> = Vec::new();
    let mut names: Vec<Vec<u8>> = Vec::new();
    let mut i: usize = 0;
    assert(leaves_view(sorted@) == Seq::<LeafView>::empty());
    assert(names_view(names@) == Seq::<Seq<u8>>::empty());
    while i < items.len()
        invariant
            i <= items@.len(),
            iv == items_view(items@),
            leaves_view(sorted@) == sort_leaves(file_leaves(iv.take(i as int), prefix@)),
            names_view(names@) == dir_names(iv.take(i as int), prefix@),
        decreases items@.len() - i,
    {
        proof {
            assert(iv.take(i + 1).drop_last() == iv.take(i as int));
            assert(iv.take(i + 1).last() == items@[i as int]@);
        }
        let path = items[i].path.as_slice();
        if path_is_below(path, prefix.as_slice()) {
            let start = prefix.len();
            let slash = find_byte_from(path, SLASH_BYTE, start);
            proof {
                lemma_find_byte_skip(path@, SLASH_BYTE, start as int, start as int);
            }
            if slash >= path.len() {
                let ghost before = file_leaves(iv.take(i as int), prefix@);
                let leaf = GitTreeLeaf {
                    mode: file_mode_bytes(),
                    path: copy_range(path, start, path.len()),
                    sha: items[i].sha,
                };
                proof {
                    assert(leaf@.path == tail_of(path@, prefix@));
                    assert(before.push(leaf@).drop_last() == before);
                }
                insert_leaf(&mut sorted, leaf);
            } else {
                let name = copy_range(path, start, slash);
                assert(name@ == dir_of(path@, prefix@));
                if !has_name(&names, name.as_slice()) {
                    let ghost before = names_view(names@);
                    names.push(name);
                    assert(names_view(names@) == before.push(name@));
                }
            }
        }
        i += 1;
    }
    proof {
        assert(iv.take(i as int) == iv);
    }
    let ghost files = file_leaves(iv, prefix@);
    let ghost all_names = names_view(names@);
    proof {
        assert(files + Seq::<LeafView>::empty() == files);
    }
    if depth > 0 {
        let mut k: usize = 0;
        assert(all_names.take(0) == Seq::<Seq<u8>>::empty());
        while k < names.len()
            invariant
                k <= names@.len(),
                depth > 0,
                iv == items_view(items@),
                all_names == names_view(names@),
                files == file_leaves(iv, prefix@),
                leaves_view(sorted@) == sort_leaves(
                    files + subtree_leaves(iv, prefix@, all_names.take(k as int), depth as nat),
                ),
                repo.worktree == old(repo).worktree,
                repo.gitdir == old(repo).gitdir,
                repo.config == old(repo).config,
                repo.store.extends(&old(repo).store),
                repo.store.dirs == old(repo).store.dirs,
                all_names == dir_names(iv, prefix@),
                subtrees_stored(&repo.store, iv, prefix@, all_names.take(k as int), depth as nat),
                put_subtrees(
                    old(repo).store.listing(),
                    iv,
                    prefix@,
                    all_names.take(k as int),
                    depth as nat,
                ) == Some(repo.store.listing()),
            decreases names@.len() - k,
        {
            let ghost before_store = repo.store;
            let ghost subs = subtree_leaves(iv, prefix@, all_names.take(k as int), depth as nat);
            let mut child: Vec<u8> = Vec::new();
            append_bytes(&mut child, prefix.as_slice());
            append_bytes(&mut child, names[k].as_slice());
            child.push(SLASH_BYTE);
            assert(child@ == child_prefix(prefix@, all_names[k as int]));
            proof {
                assert(all_names.take(k + 1).drop_last() == all_names.take(k as int));
                assert(all_names.take(k + 1).last() == all_names[k as int]);
            }
            let sub = match build_tree(repo, items, &child, depth - 1) {
                Ok(sub) => sub,
                Err(e) => {
                    proof {
                        lemma_extends_trans(&old(repo).store, &before_store, &repo.store);
                        assert(put_trees(
                            before_store.listing(),
                            iv,
                            child@,
                            (depth - 1) as nat,
                        ) is None);
                        assert(put_subtrees(
                            old(repo).store.listing(),
                            iv,
                            prefix@,
                            all_names.take(k + 1),
                            depth as nat,
                        ) is None);
                        lemma_put_subtrees_fails(
                            old(repo).store.listing(),
                            iv,
                            prefix@,
                            all_names,
                            depth as nat,
                            k + 1,
                        );
                    }
                    return Err(GitError::IoFailure);
                },
            };
            proof {
                lemma_extends_trans(&old(repo).store, &before_store, &repo.store);
                lemma_subtrees_stay_stored(
                    &before_store,
                    &repo.store,
                    iv,
                    prefix@,
                    all_names.take(k as int),
                    depth as nat,
                );
            }
            let ghost id = tree_id(tree_at(iv, child@, (depth - 1) as nat));
            proof {
                lemma_hex_bytes_chars(id);
            }
            let raw = match hex_decode(sub.as_str()) {
                Ok(raw) => raw,
                Err(_) => { return Err(GitError::IoFailure); },
            };
            assert(raw@ == id);
            let mut name: Vec<u8> = Vec::new();
            append_bytes(&mut name, names[k].as_slice());
            let leaf = GitTreeLeaf {
                mode: dir_mode_bytes(),
                path: name,
                sha: hash_at(raw.as_slice(), 0),
            };
            proof {
                assert(raw@.subrange(0, 20) == raw@);
                assert(all_names.take(k + 1).drop_last() == all_names.take(k as int));
                assert(all_names.take(k + 1).last() == all_names[k as int]);
                let now = subtree_leaves(iv, prefix@, all_names.take(k + 1), depth as nat);
                assert(now == subs.push(leaf@));
                assert(files + now == (files + subs).push(leaf@));
                assert((files + subs).push(leaf@).drop_last() == files + subs);
            }
            insert_leaf(&mut sorted, leaf);
            k += 1;
        }
        proof {
            assert(all_names.take(k as int) == all_names);
        }
    }
    let tree = GitTree { entries: sorted };
    assert(tree@ == tree_at(iv, prefix@, depth as nat));
    let ghost before_store = repo.store;
    let r = object_write(repo, &tree, &GitObjectType::Tree, true);
    proof {
        if r is Ok {
            lemma_object_stored_extends(
                &before_store,
                &repo.store,
                r->Ok_0@,
                frame_bytes(GitObjectType::Tree, tree_bytes(tree@)),
            );
            lemma_subtrees_stay_stored(
                &before_store,
                &repo.store,
                iv,
                prefix@,
                all_names,
                depth as nat,
            );
        }
        lemma_extends_trans(&old(repo).store, &before_store, &repo.store);
    }
    r
}

/// The files of an index as the trees hold them; `None` where a hash is not
/// 40 hexadecimal digits.
fn items_of(index: &GitIndex) -> (r: Option<Vec<TreeItem>>)
    ensures
        r is Some <==> index_hashable(index@),
        r is Some ==> items_view(r->0@) == index_items(index@),
{
    let mut items: Vec<TreeItem> = Vec::new();
    let mut i: usize = 0;
    while i < index.entries.len()
        invariant
            i <= index.entries@.len(),
            items@.len() == i,
            forall|j: int|
                0 <= j < i ==> (#[trigger] index@[j]).sha.len() == 40 && is_hex(index@[j].sha),
            forall|j: int| 0 <= j < i ==> (#[trigger] items@[j])@ == index_items(index@)[j],
        decreases index.entries@.len() - i,
    {
        let entry = &index.entries[i];
        let raw = match hex_decode(entry.sha.as_str()) {
            Ok(raw) => raw,
            Err(_) => {
                assert(!is_hex(index@[i as int].sha));
                return None;
            },
        };
        if raw.len() != 20 {
            assert(index@[i as int].sha.len() != 40);
            return None;
        }
        let mut path: Vec<u8> = Vec::new();
        append_bytes(&mut path, entry.path.as_str().as_bytes());
        let item = TreeItem { path, sha: hash_at(raw.as_slice(), 0) };
        assert(raw@.subrange(0, 20) == raw@);
        items.push(item);
        i += 1;
    }
    assert(items_view(items@) =~= index_items(index@));
    Some(items)
}

/// The length of the longest path.
fn longest_path(items: &Vec<TreeItem>) -> (n: usize)
    ensures
        n == max_path_len(items_view(items@)),
{
    let ghost iv = items_view(items@);
    let mut n: usize = 0;
    let mut i: usize = 0;
    while i < items.len()
        invariant
            i <= items@.len(),
            iv == items_view(items@),
            n == max_path_len(iv.take(i as int)),
        decreases items@.len() - i,
    {
        proof {
            assert(iv.take(i + 1).drop_last() == iv.take(i as int));
            assert(iv.take(i + 1).last() == items@[i as int]@);
        }
        if items[i].path.len() > n {
            n = items[i].path.len();
        }
        i += 1;
    }
    proof {
        assert(iv.take(i as int) == iv);
    }
    n
}

/// Builds the trees of an index, stores them, and names the root tree.
///
/// Each directory becomes a tree of its files, with mode `100644`, and of its
/// sub-directories, with mode `40000`, in the order of trees; the store holds
/// all of them afterwards. The name depends on the entries of the index alone. `CorruptIndex` where a hash of
/// the index is not 40 hexadecimal digits; nothing is stored then.
/// `IoFailure` exactly where a tree is not stored yet and its frame cannot
/// be compressed. Files that were stored stay.
pub fn tree_from_index(repo: &mut GitRepository, index: &GitIndex) -> (r: Result<String, GitError>)
    ensures
        final(repo).worktree == old(repo).worktree,
        final(repo).gitdir == old(repo).gitdir,
        final(repo).config == old(repo).config,
        final(repo).store.dirs == old(repo).store.dirs,
        final(repo).store.extends(&old(repo).store),
        r is Ok <==> index_hashable(index@) && put_index_trees(
            old(repo).store.listing(),
            index@,
        ) is Some,
        r is Ok ==> Some(final(repo).store.listing()) == put_index_trees(
            old(repo).store.listing(),
            index@,
        ),
        match r {
            Ok(sha) => {
                &&& index_hashable(index@)
                &&& sha@ == index_tree_name(index@)
                &&& sha@.len() == 40
                &&& final(repo).store.content(object_path(sha@)) is Some
                &&& trees_stored(
                    &final(repo).store,
                    index_items(index@),
                    Seq::empty(),
                    max_path_len(index_items(index@)),
                )
            },
            Err(e) => {
                ||| e == GitError::CorruptIndex && !index_hashable(index@) && final(repo).store
                    == old(repo).store
                ||| e == GitError::IoFailure && index_hashable(index@)
            },
        },
{
    let items = match items_of(index) {
        Some(items) => items,
        None => { return Err(GitError::CorruptIndex); },
    };
    let depth = longest_path(&items);
    let root: Vec<u8> = Vec::new();
    build_tree(repo, &items, &root, depth)
}

} // verus!
