use rust_git::error::GitError;
use rust_git::index::{
    index_from_bytes, index_to_bytes, read_index, write_index, GitIndex, GitIndexEntry,
};
use rust_git::repo::GitRepository;
use rust_git::store::FileStore;

fn empty_repo() -> GitRepository {
    GitRepository {
        worktree: String::from("/w"),
        gitdir: String::from("/w/.git"),
        config: None,
        store: FileStore::new(),
    }
}

fn entry(path: &str, n: u32) -> GitIndexEntry {
    GitIndexEntry {
        ctime: 1_700_000_000 + n,
        ctime_ns: 11 * n,
        mtime: 1_600_000_000 + n,
        mtime_ns: 0xffff_ffff - n,
        dev: 0x0102_0304,
        ino: n,
        mode: 0o100644,
        uid: 1000,
        gid: 100,
        size: 3 + n,
        sha: format!("45b983be36b73c0788dc9cbcb76cbb80fc7bb0{:02x}", n),
        flags: 0x1234,
        path: path.to_string(),
    }
}

fn assert_same(a: &GitIndexEntry, b: &GitIndexEntry) {
    assert_eq!(a.ctime, b.ctime);
    assert_eq!(a.ctime_ns, b.ctime_ns);
    assert_eq!(a.mtime, b.mtime);
    assert_eq!(a.mtime_ns, b.mtime_ns);
    assert_eq!(a.dev, b.dev);
    assert_eq!(a.ino, b.ino);
    assert_eq!(a.mode, b.mode);
    assert_eq!(a.uid, b.uid);
    assert_eq!(a.gid, b.gid);
    assert_eq!(a.size, b.size);
    assert_eq!(a.sha, b.sha);
    assert_eq!(a.flags, b.flags);
    assert_eq!(a.path, b.path);
}

#[test]
fn round_trip_index() {
    let index = GitIndex {
        entries: vec![entry("a", 1), entry("b/c", 2), entry("zzzzzzzzzzzzzzz", 3)],
    };
    let mut repo = empty_repo();
    write_index(&mut repo, &index).unwrap();
    let back = read_index(&repo).unwrap();
    assert_eq!(back.entries.len(), 3);
    for (a, b) in back.entries.iter().zip(index.entries.iter()) {
        assert_same(a, b);
    }
}

#[test]
fn round_trip_with_paths_of_every_length_and_other_scripts() {
    let mut entries = Vec::new();
    for n in 0..20u32 {
        entries.push(entry(&"p".repeat(n as usize), n));
    }
    entries.push(entry("d\u{e9}j\u{e0}/\u{4e2d}\u{6587}.txt", 21));
    let index = GitIndex { entries };
    let bytes = index_to_bytes(&index).unwrap();
    let back = index_from_bytes(&bytes).unwrap();
    assert_eq!(back.entries.len(), index.entries.len());
    for (a, b) in back.entries.iter().zip(index.entries.iter()) {
        assert_same(a, b);
    }
}

#[test]
fn written_form_is_exact() {
    let e = GitIndexEntry {
        ctime: 1,
        ctime_ns: 2,
        mtime: 3,
        mtime_ns: 4,
        dev: 5,
        ino: 6,
        mode: 0x81a4,
        uid: 7,
        gid: 8,
        size: 0x0a0b0c0d,
        sha: "000102030405060708090a0b0c0d0e0f10111213".to_string(),
        flags: 0x0102,
        path: "a".to_string(),
    };
    let bytes = index_to_bytes(&GitIndex { entries: vec![e] }).unwrap();
    let mut expected = b"DIRC".to_vec();
    expected.extend_from_slice(&[0, 0, 0, 2, 0, 0, 0, 1]);
    for n in [1u8, 2, 3, 4, 5, 6] {
        expected.extend_from_slice(&[0, 0, 0, n]);
    }
    expected.extend_from_slice(&[0, 0, 0x81, 0xa4]);
    expected.extend_from_slice(&[0, 0, 0, 7, 0, 0, 0, 8]);
    expected.extend_from_slice(&[0x0a, 0x0b, 0x0c, 0x0d]);
    expected.extend_from_slice(&(0u8..20).collect::<Vec<u8>>());
    expected.extend_from_slice(&[1, 2]);
    expected.extend_from_slice(b"a\0");
    assert_eq!(bytes, expected);
    assert_eq!(bytes.len(), 12 + 64);
}

#[test]
fn every_entry_starts_four_past_a_multiple_of_eight() {
    for n in 0..40usize {
        let index = GitIndex { entries: vec![entry(&"x".repeat(n), 1), entry("y", 2)] };
        let bytes = index_to_bytes(&index).unwrap();
        let first = 62 + n + 1;
        let padded = (first + 7) / 8 * 8;
        assert_eq!(bytes.len(), 12 + padded + 64);
        assert_eq!((bytes.len() - 12) % 8, 0);
        assert_eq!((12 + padded) % 8, 4);
        assert!(bytes[12 + first..12 + padded].iter().all(|b| *b == 0));
        assert_eq!(bytes[12 + padded + 62], b'y');
    }
}

#[test]
fn empty_index_is_the_header_alone() {
    let bytes = index_to_bytes(&GitIndex { entries: Vec::new() }).unwrap();
    assert_eq!(bytes, b"DIRC\0\0\0\x02\0\0\0\0".to_vec());
    assert!(index_from_bytes(&bytes).unwrap().entries.is_empty());
}

#[test]
fn repository_without_index_has_the_empty_index() {
    assert!(read_index(&empty_repo()).unwrap().entries.is_empty());
}

#[test]
fn wrong_magic_or_version_is_corrupt() {
    assert_eq!(index_from_bytes(b"DIRX\0\0\0\x02\0\0\0\0").err(), Some(GitError::CorruptIndex));
    assert_eq!(index_from_bytes(b"DIRC\0\0\0\x03\0\0\0\0").err(), Some(GitError::CorruptIndex));
    assert_eq!(index_from_bytes(b"DIRC\0\0\0\x02\0\0").err(), Some(GitError::CorruptIndex));
    assert_eq!(index_from_bytes(b"").err(), Some(GitError::CorruptIndex));
}

#[test]
fn fewer_entries_than_declared_is_corrupt() {
    let index = GitIndex { entries: vec![entry("a", 1)] };
    let mut bytes = index_to_bytes(&index).unwrap();
    bytes[11] = 2;
    assert_eq!(index_from_bytes(&bytes).err(), Some(GitError::CorruptIndex));
    let bytes = index_to_bytes(&index).unwrap();
    assert_eq!(index_from_bytes(&bytes[..40]).err(), Some(GitError::CorruptIndex));
}

#[test]
fn path_that_is_no_utf8_is_corrupt() {
    let index = GitIndex { entries: vec![entry("ab", 1)] };
    let mut bytes = index_to_bytes(&index).unwrap();
    bytes[12 + 62] = 0xff;
    assert_eq!(index_from_bytes(&bytes).err(), Some(GitError::CorruptIndex));
}

#[test]
fn what_follows_the_entries_is_not_read() {
    let index = GitIndex { entries: vec![entry("a", 1)] };
    let mut bytes = index_to_bytes(&index).unwrap();
    bytes.extend_from_slice(b"TREE and a checksum");
    let back = index_from_bytes(&bytes).unwrap();
    assert_eq!(back.entries.len(), 1);
    assert_same(&back.entries[0], &index.entries[0]);
}

#[test]
fn entries_that_cannot_be_written_are_refused() {
    let mut bad = entry("a", 1);
    bad.sha = "zz".to_string();
    assert_eq!(index_to_bytes(&GitIndex { entries: vec![bad] }).err(), Some(GitError::CorruptIndex));
    let mut short = entry("a", 1);
    short.sha = "abcd".to_string();
    assert_eq!(
        index_to_bytes(&GitIndex { entries: vec![short] }).err(),
        Some(GitError::CorruptIndex)
    );
    let nul = entry("a\0b", 1);
    let mut repo = empty_repo();
    assert_eq!(
        write_index(&mut repo, &GitIndex { entries: vec![nul] }).err(),
        Some(GitError::CorruptIndex)
    );
    assert!(repo.store.files.is_empty());
}

#[test]
fn hash_in_upper_case_is_read_back_in_lower_case() {
    let mut e = entry("a", 1);
    e.sha = "45B983BE36B73C0788DC9CBCB76CBB80FC7BB057".to_string();
    let bytes = index_to_bytes(&GitIndex { entries: vec![e] }).unwrap();
    let back = index_from_bytes(&bytes).unwrap();
    assert_eq!(back.entries[0].sha, "45b983be36b73c0788dc9cbcb76cbb80fc7bb057");
}

#[test]
fn duplicate_copies_every_field() {
    let e = entry("some/path", 9);
    assert_same(&e.duplicate(), &e);
}
