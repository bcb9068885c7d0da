use rust_git::error::GitError;
use rust_git::frame::GitObjectType;
use rust_git::objects::{object_hash, GitBlob, object_write};
use rust_git::refs::{
    collect_refs, hash_like, object_find, object_resolve, read_trimmed, ref_create, resolve_ref,
    resolve_sha,
};
use rust_git::repo::GitRepository;
use rust_git::store::FileStore;

fn empty_repo() -> GitRepository {
    GitRepository {
        worktree: String::from("/w"),
        gitdir: String::from("/w/.git"),
        config: None,
        store: FileStore::new(),
    }
}

fn put(repo: &mut GitRepository, path: &str, content: &[u8]) {
    repo.store.write(path.to_string(), content.to_vec());
}

const A0: &str = "abcd0aaaaaaaaaaaaaaaaaaaaaaaaaaaaaaaaaaa";
const A1: &str = "abcd1bbbbbbbbbbbbbbbbbbbbbbbbbbbbbbbbbbb";

fn two_objects() -> GitRepository {
    let mut repo = empty_repo();
    put(&mut repo, &format!("objects/ab/{}", &A0[2..]), b"x");
    put(&mut repo, &format!("objects/ab/{}", &A1[2..]), b"y");
    put(&mut repo, "objects/ac/cd0ccccccccccccccccccccccccccccccccccc", b"z");
    repo
}

#[test]
fn abbreviation_of_two_objects_is_ambiguous() {
    let repo = two_objects();
    assert_eq!(object_resolve(&repo, "abcd").err(), Some(GitError::Ambiguous));
    assert_eq!(object_find(&repo, "abcd", None).err(), Some(GitError::Ambiguous));
    assert_eq!(object_resolve(&repo, "abcd0").unwrap(), A0);
    assert_eq!(object_resolve(&repo, "abcd1").unwrap(), A1);
    assert_eq!(resolve_sha(&repo, "ab").err(), Some(GitError::Ambiguous));
    assert_eq!(resolve_sha(&repo, "ac").unwrap(), "accd0ccccccccccccccccccccccccccccccccccc");
}

#[test]
fn abbreviation_without_object_is_not_found() {
    let repo = two_objects();
    assert_eq!(object_resolve(&repo, "abce").err(), Some(GitError::NotFound));
    assert_eq!(object_resolve(&repo, "ffff").err(), Some(GitError::NotFound));
    assert_eq!(resolve_sha(&repo, "a").err(), Some(GitError::NotFound));
    assert_eq!(resolve_sha(&repo, "").err(), Some(GitError::NotFound));
}

#[test]
fn full_name_resolves_to_itself() {
    let mut repo = empty_repo();
    let sha = object_hash(&mut repo, b"hi\n".to_vec(), &GitObjectType::Blob).unwrap();
    assert_eq!(object_find(&repo, &sha, None).unwrap(), sha);
    assert_eq!(object_find(&repo, &sha, Some(GitObjectType::Blob)).unwrap(), sha);
    assert_eq!(object_resolve(&empty_repo(), &sha).unwrap(), sha);
    let upper = sha.to_uppercase();
    assert_eq!(object_resolve(&repo, &upper).unwrap(), upper);
}

#[test]
fn find_checks_the_kind() {
    let mut repo = empty_repo();
    let sha = object_hash(&mut repo, b"hi\n".to_vec(), &GitObjectType::Blob).unwrap();
    assert_eq!(
        object_find(&repo, &sha, Some(GitObjectType::Commit)).err(),
        Some(GitError::WrongKind)
    );
    assert_eq!(
        object_find(&repo, &sha[..6], Some(GitObjectType::Tree)).err(),
        Some(GitError::WrongKind)
    );
    assert_eq!(object_find(&repo, &sha[..6], Some(GitObjectType::Blob)).unwrap(), sha);
    let missing = "0123456789012345678901234567890123456789";
    assert_eq!(
        object_find(&repo, missing, Some(GitObjectType::Blob)).err(),
        Some(GitError::NotFound)
    );
}

#[test]
fn head_follows_one_reference() {
    let mut repo = empty_repo();
    put(&mut repo, "HEAD", b"ref: refs/heads/master\n");
    assert_eq!(object_resolve(&repo, "HEAD").err(), Some(GitError::NotFound));
    put(&mut repo, "refs/heads/master", format!("{}\n", A0).as_bytes());
    assert_eq!(object_resolve(&repo, "HEAD").unwrap(), A0);
    put(&mut repo, "HEAD", format!("  {}\r\n", A1).as_bytes());
    assert_eq!(object_resolve(&repo, "HEAD").unwrap(), A1);
}

#[test]
fn missing_or_unreadable_head_is_an_io_failure() {
    let mut repo = empty_repo();
    assert_eq!(object_resolve(&repo, "HEAD").err(), Some(GitError::IoFailure));
    put(&mut repo, "HEAD", &[0xff, 0xfe]);
    assert_eq!(object_resolve(&repo, "HEAD").err(), Some(GitError::IoFailure));
}

#[test]
fn names_are_sought_as_path_branch_tag_remote() {
    let mut repo = empty_repo();
    put(&mut repo, "refs/remotes/topic", b"remote\n");
    assert_eq!(object_resolve(&repo, "topic").unwrap(), "remote");
    put(&mut repo, "refs/tags/topic", b"tag\n");
    assert_eq!(object_resolve(&repo, "topic").unwrap(), "tag");
    put(&mut repo, "refs/heads/topic", b"branch\n");
    assert_eq!(object_resolve(&repo, "topic").unwrap(), "branch");
    put(&mut repo, "topic", b"direct\n");
    assert_eq!(object_resolve(&repo, "topic").unwrap(), "direct");
    assert_eq!(object_resolve(&repo, "refs/tags/topic").unwrap(), "tag");
    assert_eq!(object_resolve(&repo, "other").err(), Some(GitError::NotAValidName));
}

#[test]
fn hexadecimal_names_are_hashes_not_branches() {
    let mut repo = empty_repo();
    put(&mut repo, "refs/heads/beef", b"branch\n");
    assert_eq!(object_resolve(&repo, "beef").err(), Some(GitError::NotFound));
    put(&mut repo, "refs/heads/bee", b"branch\n");
    assert_eq!(object_resolve(&repo, "bee").unwrap(), "branch");
}

#[test]
fn hash_like_wants_four_to_forty_digits() {
    assert!(hash_like("abcd"));
    assert!(hash_like("ABCDEF0123456789"));
    assert!(hash_like(&"a".repeat(40)));
    assert!(!hash_like("abc"));
    assert!(!hash_like(&"a".repeat(41)));
    assert!(!hash_like("abcg"));
    assert!(!hash_like("HEAD"));
    assert!(!hash_like(""));
}

#[test]
fn references_are_trimmed() {
    assert_eq!(read_trimmed(b" \t abc def \n\n").unwrap(), "abc def");
    assert_eq!(read_trimmed(b"\n").unwrap(), "");
    assert_eq!(read_trimmed("\u{a0}x\u{3000}".as_bytes()).unwrap(), "x");
    assert_eq!(read_trimmed(&[0x80]).err(), Some(GitError::IoFailure));
}

#[test]
fn created_reference_is_read_back() {
    let mut repo = empty_repo();
    ref_create(&mut repo, "refs/heads/main", A0);
    assert_eq!(repo.store.read("refs/heads/main").unwrap(), &format!("{}\n", A0).into_bytes());
    assert_eq!(resolve_ref(&repo, "refs/heads/main").unwrap(), A0);
    assert_eq!(resolve_ref(&repo, "refs/heads/other").err(), Some(GitError::NotFound));
    ref_create(&mut repo, "refs/heads/main", A1);
    assert_eq!(resolve_ref(&repo, "refs/heads/main").unwrap(), A1);
    assert_eq!(repo.store.files.len(), 1);
}

#[test]
fn references_are_listed_with_their_paths() {
    let mut repo = empty_repo();
    ref_create(&mut repo, "refs/heads/main", A0);
    ref_create(&mut repo, "refs/tags/v1", A1);
    ref_create(&mut repo, "refs/remotes/origin/main", A0);
    put(&mut repo, "HEAD", b"ref: refs/heads/main\n");
    put(&mut repo, "refsx/other", b"no\n");
    let refs = collect_refs(&repo, "refs").unwrap();
    assert_eq!(
        refs,
        vec![
            (A0.to_string(), "refs/heads/main".to_string()),
            (A1.to_string(), "refs/tags/v1".to_string()),
            (A0.to_string(), "refs/remotes/origin/main".to_string()),
        ]
    );
    assert_eq!(collect_refs(&repo, "refs/tags").unwrap().len(), 1);
    put(&mut repo, "refs/heads/broken", &[0xc0]);
    assert_eq!(collect_refs(&repo, "refs").err(), Some(GitError::IoFailure));
}

#[test]
fn blob_written_without_hashing_is_found_by_abbreviation() {
    let mut repo = empty_repo();
    let blob = GitBlob { data: b"what is up, doc?".to_vec() };
    let sha = object_write(&mut repo, &blob, &GitObjectType::Blob, true).unwrap();
    assert_eq!(object_find(&repo, "bd9d", Some(GitObjectType::Blob)).unwrap(), sha);
}
