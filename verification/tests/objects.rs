use rust_git::error::GitError;
use rust_git::frame::{frame_split, object_frame, GitObjectType};
use rust_git::kvlm::Kvlm;
use rust_git::objects::{
    object_decode, object_file, object_hash, object_read, object_write, store_payload, AnyObject,
    GitBlob, GitCommit, GitObject, GitTag,
};
use rust_git::repo::GitRepository;
use rust_git::store::FileStore;
use rust_git::tree::GitTree;
use std::io::Read;

fn empty_repo() -> GitRepository {
    GitRepository {
        worktree: String::from("/w"),
        gitdir: String::from("/w/.git"),
        config: None,
        store: FileStore::new(),
    }
}

fn inflate(data: &[u8]) -> Vec<u8> {
    let mut out = Vec::new();
    flate2::read::ZlibDecoder::new(data).read_to_end(&mut out).unwrap();
    out
}

#[test]
fn empty_blob_has_the_well_known_name() {
    let mut repo = empty_repo();
    let sha = object_hash(&mut repo, Vec::new(), &GitObjectType::Blob).unwrap();
    assert_eq!(sha, "e69de29bb2d1d6434b8b29ae775ad8c2e48c5391");
    let stored = repo
        .store
        .read("objects/e6/9de29bb2d1d6434b8b29ae775ad8c2e48c5391")
        .unwrap()
        .clone();
    assert_eq!(inflate(&stored), b"blob 0\0".to_vec());
    let (kind, obj) = object_read(&repo, &sha).unwrap();
    assert_eq!(kind, GitObjectType::Blob);
    assert!(matches!(obj, AnyObject::Blob(b) if b.data.is_empty()));
}

#[test]
fn known_blob_names() {
    let mut repo = empty_repo();
    let hi = GitBlob { data: b"hi\n".to_vec() };
    assert_eq!(
        object_write(&mut repo, &hi, &GitObjectType::Blob, false).unwrap(),
        "45b983be36b73c0788dc9cbcb76cbb80fc7bb057"
    );
    let doc = GitBlob { data: b"what is up, doc?".to_vec() };
    assert_eq!(
        object_write(&mut repo, &doc, &GitObjectType::Blob, false).unwrap(),
        "bd9dbf5aae1a3862dd1526723246b20206e5fc37"
    );
    assert!(repo.store.files.is_empty());
}

#[test]
fn the_name_depends_on_the_kind() {
    let mut repo = empty_repo();
    let blob = store_payload(&mut repo, b"", &GitObjectType::Blob, false).unwrap();
    let tree = store_payload(&mut repo, b"", &GitObjectType::Tree, false).unwrap();
    assert_eq!(tree, "4b825dc642cb6eb9a060e54bf8d69288fbee4904");
    assert_ne!(blob, tree);
}

#[test]
fn hash_is_the_same_after_reading_back() {
    let mut repo = empty_repo();
    let blob = GitBlob { data: b"hello world\n".to_vec() };
    let sha = object_write(&mut repo, &blob, &GitObjectType::Blob, true).unwrap();
    assert_eq!(sha, "3b18e512dba79e4c8300dd08aeb37f8e728b8dad");
    let (kind, obj) = object_read(&repo, &sha).unwrap();
    let again = store_payload(&mut repo, &obj.serialize(), &kind, false).unwrap();
    assert_eq!(again, sha);
}

#[test]
fn writing_twice_leaves_one_file() {
    let mut repo = empty_repo();
    let blob = GitBlob { data: b"hi\n".to_vec() };
    let first = object_write(&mut repo, &blob, &GitObjectType::Blob, true).unwrap();
    let stored = repo.store.files.clone();
    let second = object_write(&mut repo, &blob, &GitObjectType::Blob, true).unwrap();
    assert_eq!(first, second);
    assert_eq!(repo.store.files.len(), 1);
    assert_eq!(repo.store.files, stored);
    assert_eq!(repo.store.files[0].0, "objects/45/b983be36b73c0788dc9cbcb76cbb80fc7bb057");
}

#[test]
fn object_path_splits_the_name() {
    assert_eq!(
        object_file("e69de29bb2d1d6434b8b29ae775ad8c2e48c5391"),
        "objects/e6/9de29bb2d1d6434b8b29ae775ad8c2e48c5391"
    );
    assert_eq!(object_file("ab"), "objects/ab/");
}

#[test]
fn frame_has_kind_length_and_payload() {
    assert_eq!(object_frame(&GitObjectType::Blob, b"hi\n"), b"blob 3\0hi\n".to_vec());
    assert_eq!(object_frame(&GitObjectType::Commit, b""), b"commit 0\0".to_vec());
    assert_eq!(object_frame(&GitObjectType::Tag, &[7u8; 12]).len(), 7 + 12);
    assert_eq!(&object_frame(&GitObjectType::Tree, &[0u8; 1234])[..10], b"tree 1234\0");
}

#[test]
fn frame_split_reads_the_header() {
    assert_eq!(frame_split(b"blob 3\0hi\n"), Ok((GitObjectType::Blob, 7)));
    assert_eq!(frame_split(b"tag 0\0"), Ok((GitObjectType::Tag, 6)));
}

#[test]
fn frame_errors() {
    assert_eq!(frame_split(b"blob 3 hi\n"), Err(GitError::CorruptObject));
    assert_eq!(frame_split(b"blob\0hi\n"), Err(GitError::CorruptObject));
    assert_eq!(frame_split(b"blub 3\0hi\n"), Err(GitError::UnknownKind));
    assert_eq!(frame_split(b"Blob 3\0hi\n"), Err(GitError::UnknownKind));
    assert_eq!(frame_split(b"blob 4\0hi\n"), Err(GitError::CorruptObject));
    assert_eq!(frame_split(b"blob 03\0hi\n"), Err(GitError::CorruptObject));
    assert_eq!(frame_split(b"blob \0"), Err(GitError::CorruptObject));
    assert_eq!(frame_split(b""), Err(GitError::CorruptObject));
}

#[test]
fn kind_names() {
    assert_eq!(GitObjectType::Blob.name(), b"blob".to_vec());
    assert_eq!(GitObjectType::Commit.name(), b"commit".to_vec());
    assert_eq!(GitObjectType::Tree.name(), b"tree".to_vec());
    assert_eq!(GitObjectType::Tag.name(), b"tag".to_vec());
    assert_eq!(GitObjectType::from_name(b"tree"), Some(GitObjectType::Tree));
    assert_eq!(GitObjectType::from_name(b"tre"), None);
}

#[test]
fn reading_a_missing_object_fails() {
    let repo = empty_repo();
    assert_eq!(
        object_read(&repo, "e69de29bb2d1d6434b8b29ae775ad8c2e48c5391").err(),
        Some(GitError::NotFound)
    );
    assert_eq!(object_read(&repo, "e").err(), Some(GitError::NotFound));
}

#[test]
fn bytes_that_are_no_zlib_stream_fail() {
    assert_eq!(object_decode(b"not compressed").err(), Some(GitError::IoFailure));
}

#[test]
fn commit_and_tag_go_through_the_store() {
    let mut repo = empty_repo();
    let mut kvlm = Kvlm::new();
    kvlm.headers.push((b"object".to_vec(), b"abc".to_vec()));
    kvlm.message = b"a tag\n".to_vec();
    let tag = GitTag { kvlm: kvlm.clone() };
    let sha = object_write(&mut repo, &tag, &GitObjectType::Tag, true).unwrap();
    let (kind, obj) = object_read(&repo, &sha).unwrap();
    assert_eq!(kind, GitObjectType::Tag);
    match obj {
        AnyObject::Tag(t) => {
            assert_eq!(t.kvlm.headers, kvlm.headers);
            assert_eq!(t.kvlm.message, kvlm.message);
        }
        _ => panic!("not a tag"),
    }
    let commit = GitCommit { kvlm };
    let sha = object_write(&mut repo, &commit, &GitObjectType::Commit, true).unwrap();
    let (kind, obj) = object_read(&repo, &sha).unwrap();
    assert_eq!(kind, GitObjectType::Commit);
    assert_eq!(obj.kind(), GitObjectType::Commit);
}

#[test]
fn object_hash_checks_the_payload() {
    let mut repo = empty_repo();
    assert_eq!(
        object_hash(&mut repo, b"no header here".to_vec(), &GitObjectType::Commit).err(),
        Some(GitError::CorruptKvlm)
    );
    assert_eq!(
        object_hash(&mut repo, b"100644 a\0short".to_vec(), &GitObjectType::Tree).err(),
        Some(GitError::CorruptObject)
    );
    assert!(repo.store.files.is_empty());
    assert!(object_hash(&mut repo, b"anything".to_vec(), &GitObjectType::Blob).is_ok());
    assert_eq!(repo.store.files.len(), 1);
}

#[test]
fn trait_objects_start_empty() {
    assert!(GitBlob::init().unwrap().data.is_empty());
    assert!(GitCommit::init().unwrap().kvlm.headers.is_empty());
    assert!(GitTag::init().unwrap().kvlm.message.is_empty());
    assert!(GitTree::init().unwrap().entries.is_empty());
    assert_eq!(GitCommit::init().unwrap().serialize().unwrap(), b"\n".to_vec());
    assert_eq!(GitBlob::deserialize(b"xyz").unwrap().serialize().unwrap(), b"xyz".to_vec());
    assert_eq!(GitTag::deserialize(b"oops").err(), Some(GitError::CorruptKvlm));
}
