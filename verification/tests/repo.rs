use rust_git::error::GitError;
use rust_git::repo::{
    gitconfig_paths, gitconfig_read, gitconfig_user_get, join_paths, read_config, read_u8,
    repo_find, GitConfig, GitRepository, RepositoryConfig,
};
use rust_git::store::FileStore;

fn store_with(files: &[(&str, &[u8])]) -> FileStore {
    let mut store = FileStore::new();
    for (path, data) in files {
        store.write(path.to_string(), data.to_vec());
    }
    store
}

#[test]
fn create_lays_out_the_repository() {
    let repo = GitRepository::create("/work", &[], None).unwrap();
    assert_eq!(repo.worktree, "/work");
    assert_eq!(repo.gitdir, "/work/.git");
    assert!(repo.config.is_none());
    assert_eq!(repo.store.dirs, vec!["branches", "objects", "refs/tags", "refs/heads"]);
    assert_eq!(repo.store.read("HEAD").unwrap(), &b"ref: refs/heads/master\n".to_vec());
    assert_eq!(
        repo.store.read("description").unwrap(),
        &b"Unnamed repository; edit this file 'description' to name the repository.\n".to_vec()
    );
    assert_eq!(
        repo.store.read("config").unwrap(),
        &b"[core]\n\trepositoryformatversion = 0\n\tfilemode = false\n\tbare = false\n".to_vec()
    );
    assert_eq!(repo.store.files.len(), 3);
    assert_eq!(repo.repo_path("objects"), "/work/.git/objects");
}

#[test]
fn create_wants_an_empty_directory() {
    assert!(GitRepository::create("w", &[], Some(FileStore::new())).is_ok());
    let used = store_with(&[("HEAD", b"x")]);
    assert_eq!(GitRepository::create("w", &[".git"], Some(used)).err(), Some(GitError::AlreadyExists));
    assert_eq!(GitRepository::create("w", &["notes.txt"], None).err(), Some(GitError::AlreadyExists));
    assert_eq!(GitRepository::create("w", &[".git"], None).err(), Some(GitError::AlreadyExists));
    let mut dirs = FileStore::new();
    dirs.add_dir("objects".to_string());
    assert_eq!(GitRepository::create("w", &[], Some(dirs)).err(), Some(GitError::AlreadyExists));
}

#[test]
fn created_repository_can_be_opened() {
    let made = GitRepository::create("w", &[], None).unwrap();
    let repo = GitRepository::new("w", false, Some(made.store)).unwrap();
    assert_eq!(repo.config, Some(RepositoryConfig { repository_format_version: 0 }));
    assert_eq!(repo.gitdir, "w/.git");
}

#[test]
fn open_checks_directory_config_and_version() {
    assert_eq!(GitRepository::new("w", false, None).err(), Some(GitError::NotARepository));
    assert_eq!(
        GitRepository::new("w", false, Some(FileStore::new())).err(),
        Some(GitError::NotARepository)
    );
    let v1 = store_with(&[("config", b"[core]\n\trepositoryformatversion = 1\n")]);
    assert_eq!(GitRepository::new("w", false, Some(v1.clone())).err(), Some(GitError::NotARepository));
    let forced = GitRepository::new("w", true, Some(v1)).unwrap();
    assert_eq!(forced.config, Some(RepositoryConfig { repository_format_version: 1 }));
    let bad = store_with(&[("config", b"repositoryformatversion = many\n")]);
    assert_eq!(GitRepository::new("w", true, Some(bad)).err(), Some(GitError::NotARepository));
    let binary = store_with(&[("config", &[0xff])]);
    assert_eq!(GitRepository::new("w", true, Some(binary)).err(), Some(GitError::IoFailure));
    let fresh = GitRepository::new("w", true, None).unwrap();
    assert!(fresh.config.is_none());
    assert!(fresh.store.files.is_empty());
}

#[test]
fn config_sets_the_format_version() {
    let v = |n| Ok(RepositoryConfig { repository_format_version: n });
    assert_eq!(read_config(""), v(0));
    assert_eq!(read_config("[core]\n\tbare = false\n"), v(0));
    assert_eq!(read_config("repositoryformatversion = 0"), v(0));
    assert_eq!(read_config("  repositoryformatversion=7  \r\n"), v(7));
    assert_eq!(read_config("repositoryformatversion = 1\nrepositoryformatversion = +255\n"), v(255));
    assert_eq!(read_config("repositoryformatversion = 007"), v(7));
    assert_eq!(read_config("repositoryformatversion 3"), v(0));
    assert_eq!(read_config("repositoryformatversion = 256"), Err(GitError::NotARepository));
    assert_eq!(read_config("repositoryformatversion = "), Err(GitError::NotARepository));
    assert_eq!(read_config("repositoryformatversion = -1"), Err(GitError::NotARepository));
    assert_eq!(read_config("repositoryformatversion = x\nrepositoryformatversion = 0"), Err(GitError::NotARepository));
}

#[test]
fn numbers_below_256_are_read() {
    assert_eq!(read_u8("0"), Some(0));
    assert_eq!(read_u8("255"), Some(255));
    assert_eq!(read_u8("+12"), Some(12));
    assert_eq!(read_u8("0000000000000000000000000000012"), Some(12));
    assert_eq!(read_u8("256"), None);
    assert_eq!(read_u8("99999999999999999999999999999999"), None);
    assert_eq!(read_u8(""), None);
    assert_eq!(read_u8("+"), None);
    assert_eq!(read_u8("-1"), None);
    assert_eq!(read_u8("1 "), None);
    assert_eq!(read_u8("1a"), None);
    assert_eq!(read_u8("2561x"), None);
}

#[test]
fn nearest_repository_is_found() {
    let made = GitRepository::create("/a/b", &[], None).unwrap();
    let dirs = vec![
        ("/a/b/c".to_string(), None),
        ("/a/b".to_string(), Some(made.store.clone())),
        ("/a".to_string(), Some(made.store)),
        ("/".to_string(), None),
    ];
    let repo = repo_find(dirs, true).unwrap().unwrap();
    assert_eq!(repo.worktree, "/a/b");
    assert_eq!(repo.gitdir, "/a/b/.git");
    assert_eq!(repo.store.files.len(), 3);
}

#[test]
fn no_repository_is_an_error_only_if_required() {
    let dirs = vec![("/a".to_string(), None), ("/".to_string(), None)];
    assert_eq!(repo_find(dirs.clone(), true).err(), Some(GitError::NotARepository));
    assert!(repo_find(dirs, false).unwrap().is_none());
    assert!(repo_find(Vec::new(), false).unwrap().is_none());
    let broken = vec![("/a".to_string(), Some(FileStore::new()))];
    assert_eq!(repo_find(broken, false).err(), Some(GitError::NotARepository));
}

#[test]
fn user_is_read_from_the_configuration() {
    let first = "[user]\nname = Ada Lovelace\nemail = ada@example.org\n[core]\nname = no\n";
    let config = gitconfig_read(&[first]);
    assert_eq!(config.user_name.as_deref(), Some("Ada Lovelace"));
    assert_eq!(config.user_email.as_deref(), Some("ada@example.org"));
    assert_eq!(gitconfig_user_get(&config).as_deref(), Some("Ada Lovelace <ada@example.org>"));
}

#[test]
fn later_configuration_overrides_earlier() {
    let first = "[user]\nname = One\nemail = one@example.org\n";
    let second = "[user]\nname = Two\n";
    let config = gitconfig_read(&[first, second]);
    assert_eq!(gitconfig_user_get(&config).as_deref(), Some("Two <one@example.org>"));
    let config = gitconfig_read(&[second, first]);
    assert_eq!(gitconfig_user_get(&config).as_deref(), Some("One <one@example.org>"));
    let twice = "[user]\nname = A\n[other]\nx = y\n[user]\nname = B\nemail = b@c\n";
    assert_eq!(gitconfig_user_get(&gitconfig_read(&[twice])).as_deref(), Some("B <b@c>"));
}

#[test]
fn user_needs_name_and_address() {
    assert_eq!(gitconfig_user_get(&gitconfig_read(&[])), None);
    assert_eq!(gitconfig_user_get(&gitconfig_read(&["[user]\nname = A\n"])), None);
    assert_eq!(gitconfig_user_get(&gitconfig_read(&["[user]\nemail = a@b\n"])), None);
    let config = GitConfig { user_name: Some("N".into()), user_email: Some("e".into()) };
    assert_eq!(gitconfig_user_get(&config).as_deref(), Some("N <e>"));
}

#[test]
fn configuration_paths() {
    assert_eq!(
        gitconfig_paths(Some("/x"), Some("/home/u"), Some("/home/u")),
        ("/x/git/config".to_string(), "/home/u/.gitconfig".to_string())
    );
    assert_eq!(
        gitconfig_paths(None, Some("/home/u"), None),
        ("/home/u/.config/git/config".to_string(), "~/.gitconfig".to_string())
    );
    assert_eq!(gitconfig_paths(None, None, None).0, ".config/git/config");
    assert_eq!(join_paths("a", "b"), "a/b");
}

#[test]
fn a_written_file_takes_the_place_of_the_old_one_or_comes_last() {
    let mut store = store_with(&[("a", b"1"), ("b", b"2")]);
    store.write("a".to_string(), b"3".to_vec());
    store.write("c".to_string(), b"4".to_vec());
    assert_eq!(
        store.files,
        vec![
            ("a".to_string(), b"3".to_vec()),
            ("b".to_string(), b"2".to_vec()),
            ("c".to_string(), b"4".to_vec()),
        ]
    );
    assert!(store.dirs.is_empty());
    assert_eq!(store.names_in(""), Vec::<&str>::new());
    store.write("d/e".to_string(), b"5".to_vec());
    assert_eq!(store.names_in("d"), vec!["e"]);
    assert_eq!(store.paths_in("d"), vec!["d/e"]);
}
