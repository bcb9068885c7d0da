use rust_git::error::GitError;
use rust_git::index::{GitIndex, GitIndexEntry};
use rust_git::objects::{object_read, AnyObject};
use rust_git::repo::GitRepository;
use rust_git::store::FileStore;
use rust_git::tree::{GitTree, GitTreeLeaf};
use rust_git::tree_build::tree_from_index;
use rust_git::tree_order::{insert_leaf, key_le, key_of};

const HI: &str = "45b983be36b73c0788dc9cbcb76cbb80fc7bb057";

fn empty_repo() -> GitRepository {
    GitRepository {
        worktree: String::from("/w"),
        gitdir: String::from("/w/.git"),
        config: None,
        store: FileStore::new(),
    }
}

fn entry(path: &str, sha: &str) -> GitIndexEntry {
    GitIndexEntry {
        ctime: 0,
        ctime_ns: 0,
        mtime: 0,
        mtime_ns: 0,
        dev: 0,
        ino: 0,
        mode: 0o100644,
        uid: 0,
        gid: 0,
        size: 3,
        sha: sha.to_string(),
        flags: 0,
        path: path.to_string(),
    }
}

fn leaf(mode: &str, path: &str, fill: u8) -> GitTreeLeaf {
    GitTreeLeaf { mode: mode.as_bytes().to_vec(), path: path.as_bytes().to_vec(), sha: [fill; 20] }
}

fn tree_of(repo: &GitRepository, sha: &str) -> GitTree {
    match object_read(repo, sha).unwrap() {
        (_, AnyObject::Tree(t)) => t,
        _ => panic!("not a tree"),
    }
}

#[test]
fn tree_round_trip() {
    let tree = GitTree {
        entries: vec![leaf("100644", "a.txt", 1), leaf("40000", "dir", 0), leaf("120000", "z", 255)],
    };
    let bytes = tree.to_bytes();
    let mut expected = b"100644 a.txt\0".to_vec();
    expected.extend_from_slice(&[1u8; 20]);
    expected.extend_from_slice(b"40000 dir\0");
    expected.extend_from_slice(&[0u8; 20]);
    expected.extend_from_slice(b"120000 z\0");
    expected.extend_from_slice(&[255u8; 20]);
    assert_eq!(bytes, expected);
    let back = GitTree::from_bytes(&bytes).unwrap();
    assert_eq!(back.entries.len(), 3);
    for (a, b) in back.entries.iter().zip(tree.entries.iter()) {
        assert_eq!(a.mode, b.mode);
        assert_eq!(a.path, b.path);
        assert_eq!(a.sha, b.sha);
    }
}

#[test]
fn empty_payload_is_the_empty_tree() {
    assert!(GitTree::from_bytes(b"").unwrap().entries.is_empty());
    assert!(GitTree::empty().to_bytes().is_empty());
}

#[test]
fn truncated_tree_is_rejected() {
    let tree = GitTree { entries: vec![leaf("100644", "a", 7)] };
    let bytes = tree.to_bytes();
    assert_eq!(GitTree::from_bytes(&bytes[..bytes.len() - 1]).err(), Some(GitError::CorruptObject));
    assert_eq!(GitTree::from_bytes(b"100644").err(), Some(GitError::CorruptObject));
    assert_eq!(GitTree::from_bytes(b"100644 name").err(), Some(GitError::CorruptObject));
}

#[test]
fn directories_are_ordered_as_if_a_slash_followed() {
    assert_eq!(key_of(&leaf("40000", "a", 0)), b"a/".to_vec());
    assert_eq!(key_of(&leaf("100644", "a", 0)), b"a".to_vec());
    assert!(key_le(b"a.b", b"a/"));
    assert!(key_le(b"a/", b"a0"));
    assert!(!key_le(b"a0", b"a/"));
    assert!(key_le(b"a", b"a"));
    assert!(key_le(b"", b"a"));
    assert!(!key_le(b"a", b""));
    let mut sorted = Vec::new();
    insert_leaf(&mut sorted, leaf("100644", "a0", 1));
    insert_leaf(&mut sorted, leaf("40000", "a", 2));
    insert_leaf(&mut sorted, leaf("100644", "a.b", 3));
    let names: Vec<&[u8]> = sorted.iter().map(|l| l.path.as_slice()).collect();
    assert_eq!(names, vec![&b"a.b"[..], &b"a"[..], &b"a0"[..]]);
}

#[test]
fn empty_index_gives_the_empty_tree() {
    let mut repo = empty_repo();
    let index = GitIndex { entries: Vec::new() };
    let sha = tree_from_index(&mut repo, &index).unwrap();
    assert_eq!(sha, "4b825dc642cb6eb9a060e54bf8d69288fbee4904");
    assert!(tree_of(&repo, &sha).entries.is_empty());
}

#[test]
fn one_file_gives_one_leaf() {
    let mut repo = empty_repo();
    let index = GitIndex { entries: vec![entry("a.txt", HI)] };
    let sha = tree_from_index(&mut repo, &index).unwrap();
    assert_eq!(sha, "0d8a474fc67971fb3dd7616e26323d3066442555");
    let tree = tree_of(&repo, &sha);
    assert_eq!(tree.entries.len(), 1);
    assert_eq!(tree.entries[0].mode, b"100644".to_vec());
    assert_eq!(tree.entries[0].path, b"a.txt".to_vec());
    assert_eq!(tree.entries[0].sha.to_vec(), hex::decode(HI).unwrap());
}

#[test]
fn nested_paths_give_nested_trees() {
    let mut repo = empty_repo();
    let index = GitIndex {
        entries: vec![entry("a", HI), entry("b/c", HI), entry("zzzzzzzzzzzzzzz", HI)],
    };
    let sha = tree_from_index(&mut repo, &index).unwrap();
    assert_eq!(sha, "f645d773e60026ecfddd39524d1f8ca2fd0b0cc1");
    let root = tree_of(&repo, &sha);
    assert_eq!(root.entries.len(), 3);
    assert_eq!(root.entries[1].mode, b"40000".to_vec());
    assert_eq!(root.entries[1].path, b"b".to_vec());
    let sub = tree_of(&repo, &hex::encode(root.entries[1].sha));
    assert_eq!(hex::encode(root.entries[1].sha), "13de1bb14ac61a37f558f2732bb9896c5bf058a1");
    assert_eq!(sub.entries.len(), 1);
    assert_eq!(sub.entries[0].path, b"c".to_vec());
}

#[test]
fn tree_entries_are_sorted_whatever_the_index_order() {
    let mut repo = empty_repo();
    let index = GitIndex { entries: vec![entry("a0", HI), entry("a/x", HI), entry("a.b", HI)] };
    let sha = tree_from_index(&mut repo, &index).unwrap();
    assert_eq!(sha, "0b430b4268bf7e4e40370cc31ee2a371bf4700c0");
    let mut other = empty_repo();
    let index = GitIndex { entries: vec![entry("a.b", HI), entry("a0", HI), entry("a/x", HI)] };
    assert_eq!(tree_from_index(&mut other, &index).unwrap(), sha);
}

#[test]
fn same_index_gives_the_same_tree() {
    let index = GitIndex {
        entries: vec![entry("src/lib.rs", HI), entry("src/bin/main.rs", HI), entry("README", HI)],
    };
    let mut one = empty_repo();
    let mut two = empty_repo();
    let a = tree_from_index(&mut one, &index).unwrap();
    let b = tree_from_index(&mut two, &index).unwrap();
    assert_eq!(a, b);
    assert_eq!(one.store.files, two.store.files);
    assert_eq!(one.store.files.len(), 3);
    assert_eq!(tree_from_index(&mut one, &index).unwrap(), a);
    assert_eq!(one.store.files.len(), 3);
}

#[test]
fn index_with_a_bad_hash_gives_no_tree() {
    let mut repo = empty_repo();
    let index = GitIndex { entries: vec![entry("a", "xyz")] };
    assert_eq!(tree_from_index(&mut repo, &index).err(), Some(GitError::CorruptIndex));
    let index = GitIndex { entries: vec![entry("a", "abcd")] };
    assert_eq!(tree_from_index(&mut repo, &index).err(), Some(GitError::CorruptIndex));
    assert!(repo.store.files.is_empty());
}
