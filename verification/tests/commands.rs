use rust_git::commands::add::{add, worktree_path, AddedFile};
use rust_git::commands::checkout::{mode_permissions, CheckoutAction};
use rust_git::commands::commit::{build_commit, read_head, signature_bytes, HeadState};
use rust_git::commands::ls_tree::{join_entry, mode_to_type, pad_mode};
use rust_git::commands::rm::{index_without, rm};
use rust_git::commands::status::{branch_get_active, head_resolve};
use rust_git::commands::tag::{create_tag, list_tags};
use rust_git::commands::{
    cat_file, check_ignore, checkout, commit, hash_object, init, log, ls_files, ls_tree, rev_parse,
    show_ref, status,
};
use rust_git::error::GitError;
use rust_git::frame::GitObjectType;
use rust_git::index::read_index;
use rust_git::kvlm::kvlm_serialize;
use rust_git::objects::{object_read, AnyObject};
use rust_git::repo::GitRepository;

const HI: &str = "45b983be36b73c0788dc9cbcb76cbb80fc7bb057";
const TREE: &str = "0d8a474fc67971fb3dd7616e26323d3066442555";
const FIRST: &str = "54e70791ccc5cb51d742fed0befcf7242e7c10aa";
const SECOND: &str = "54900e892ac578a1eeec7004a9aa1fd2153e3ba7";
const AUTHOR: &str = "Ada Lovelace <ada@example.org>";

fn fresh() -> GitRepository {
    init::run("/w", &[], None).unwrap().0
}

fn file(path: &str, data: &[u8]) -> AddedFile {
    AddedFile { path: path.to_string(), data: data.to_vec(), ctime: 10, mtime: 20 }
}

fn committed() -> GitRepository {
    let mut repo = fresh();
    add(&mut repo, &[file("a.txt", b"hi\n")]).unwrap();
    commit::run(&mut repo, "x", AUTHOR, 1_700_000_000).unwrap();
    repo
}

fn text(lines: &[Vec<u8>]) -> Vec<String> {
    lines.iter().map(|l| String::from_utf8(l.clone()).unwrap()).collect()
}

#[test]
fn init_reports_and_refuses_a_second_time() {
    let (repo, message) = init::run("/w", &[], None).unwrap();
    assert_eq!(message, "Initialized empty rust-git repository");
    assert_eq!(repo.store.read("HEAD").unwrap(), &b"ref: refs/heads/master\n".to_vec());
    assert_eq!(init::run("/w", &[".git"], Some(repo.store)).err(), Some(GitError::AlreadyExists));
    assert_eq!(init::run("/w", &["a.txt"], None).err(), Some(GitError::AlreadyExists));
}

#[test]
fn hash_object_writes_only_when_asked() {
    let mut repo = fresh();
    let before = repo.store.files.len();
    let sha = hash_object::run(&mut repo, false, &GitObjectType::Blob, Vec::new()).unwrap();
    assert_eq!(sha, "e69de29bb2d1d6434b8b29ae775ad8c2e48c5391");
    assert_eq!(repo.store.files.len(), before);
    let sha = hash_object::run(&mut repo, true, &GitObjectType::Blob, Vec::new()).unwrap();
    assert_eq!(sha, "e69de29bb2d1d6434b8b29ae775ad8c2e48c5391");
    assert!(repo.store.contains("objects/e6/9de29bb2d1d6434b8b29ae775ad8c2e48c5391"));
}

#[test]
fn minimal_commit() {
    let mut repo = fresh();
    add(&mut repo, &[file("a.txt", b"hi\n")]).unwrap();
    assert_eq!(ls_files::run(&repo).unwrap(), vec!["a.txt"]);
    let out = commit::run(&mut repo, "x", AUTHOR, 1_700_000_000).unwrap();
    assert_eq!(out.sha, FIRST);
    assert_eq!(out.line, format!("[{}] x", &FIRST[..7]));
    assert_eq!(repo.store.read("refs/heads/master").unwrap(), &format!("{}\n", FIRST).into_bytes());
    assert_eq!(repo.store.read("HEAD").unwrap(), &b"ref: refs/heads/master\n".to_vec());
    let found = match object_read(&repo, &out.sha).unwrap() {
        (GitObjectType::Commit, AnyObject::Commit(c)) => c,
        _ => panic!("not a commit"),
    };
    assert_eq!(found.kvlm.get(b"tree"), Some(TREE.as_bytes()));
    assert_eq!(found.kvlm.get(b"parent"), None);
    assert_eq!(found.kvlm.message, b"x".to_vec());
    let root = match object_read(&repo, TREE).unwrap() {
        (_, AnyObject::Tree(t)) => t,
        _ => panic!("not a tree"),
    };
    assert_eq!(root.entries.len(), 1);
    assert_eq!(root.entries[0].mode, b"100644".to_vec());
    assert_eq!(root.entries[0].path, b"a.txt".to_vec());
    assert_eq!(hex::encode(root.entries[0].sha), HI);
}

#[test]
fn second_commit_names_the_first_as_parent() {
    let mut repo = committed();
    let out = commit::run(&mut repo, "second", AUTHOR, 1_700_000_000).unwrap();
    assert_eq!(out.sha, SECOND);
    assert_eq!(rev_parse::run(&repo, "HEAD", Some(GitObjectType::Commit)).unwrap(), SECOND);
    assert_eq!(rev_parse::run(&repo, "master", None).unwrap(), SECOND);
}

#[test]
fn commit_with_detached_or_missing_head() {
    let mut repo = committed();
    repo.store.write("HEAD".to_string(), format!("{}\n", FIRST).into_bytes());
    let out = commit::run(&mut repo, "second", AUTHOR, 1_700_000_000).unwrap();
    assert_eq!(out.sha, SECOND);
    assert_eq!(repo.store.read("HEAD").unwrap(), &format!("{}\n", SECOND).into_bytes());
    assert_eq!(repo.store.read("refs/heads/master").unwrap(), &format!("{}\n", FIRST).into_bytes());

    let mut repo = fresh();
    repo.store.files.retain(|f| f.0 != "HEAD");
    add(&mut repo, &[file("a.txt", b"hi\n")]).unwrap();
    let out = commit::run(&mut repo, "x", AUTHOR, 1_700_000_000).unwrap();
    assert_eq!(out.sha, FIRST);
    assert_eq!(repo.store.read("HEAD").unwrap(), &b"ref: refs/heads/master\n".to_vec());
    assert_eq!(repo.store.read("refs/heads/master").unwrap(), &format!("{}\n", FIRST).into_bytes());
}

#[test]
fn commit_record_and_signature() {
    assert_eq!(signature_bytes("A <a@b>", 0), b"A <a@b> 0 +0000".to_vec());
    assert_eq!(signature_bytes("A", -15), b"A -15 +0000".to_vec());
    assert_eq!(
        signature_bytes("A", i64::MIN),
        b"A -9223372036854775808 +0000".to_vec()
    );
    assert_eq!(signature_bytes("A", i64::MAX), b"A 9223372036854775807 +0000".to_vec());
    let c = build_commit("t", &Some("p".to_string()), "A", 5, "msg\n");
    assert_eq!(
        kvlm_serialize(&c.kvlm),
        b"tree t\nparent p\nauthor A 5 +0000\ncommitter A 5 +0000\n\nmsg\n".to_vec()
    );
    let c = build_commit("t", &None, "A", 5, "");
    assert_eq!(kvlm_serialize(&c.kvlm), b"tree t\nauthor A 5 +0000\ncommitter A 5 +0000\n\n".to_vec());
}

#[test]
fn head_states() {
    let mut repo = fresh();
    assert!(matches!(read_head(&repo), Ok(HeadState::Symbolic(p)) if p == "refs/heads/master"));
    assert_eq!(head_resolve(&repo).unwrap(), "ref: refs/heads/master");
    assert_eq!(branch_get_active(&repo).unwrap().as_deref(), Some("master"));
    repo.store.write("HEAD".to_string(), b"ref: refs/tags/v1\n".to_vec());
    assert_eq!(branch_get_active(&repo).unwrap().as_deref(), Some("refs/tags/v1"));
    repo.store.write("HEAD".to_string(), format!("{}\n", FIRST).into_bytes());
    assert!(matches!(read_head(&repo), Ok(HeadState::Detached(p)) if p == FIRST));
    assert_eq!(branch_get_active(&repo).unwrap(), None);
    assert_eq!(head_resolve(&repo).unwrap(), FIRST);
    repo.store.files.retain(|f| f.0 != "HEAD");
    assert!(matches!(read_head(&repo), Ok(HeadState::Missing)));
    assert_eq!(head_resolve(&repo).err(), Some(GitError::IoFailure));
    assert_eq!(branch_get_active(&repo).err(), Some(GitError::IoFailure));
}

#[test]
fn checkout_restores_the_committed_file() {
    let repo = committed();
    let plan = checkout::run(&repo, FIRST, &[".git", "a.txt", "junk"]).unwrap();
    assert_eq!(plan.remove, vec!["a.txt", "junk"]);
    assert_eq!(plan.actions.len(), 2);
    assert!(matches!(&plan.actions[0], CheckoutAction::MakeDir { path } if path.is_empty()));
    match &plan.actions[1] {
        CheckoutAction::WriteFile { path, data, mode } => {
            assert_eq!(path, &b"a.txt".to_vec());
            assert_eq!(data, &b"hi\n".to_vec());
            assert_eq!(*mode, 0o644);
        }
        _ => panic!("not a file"),
    }
    let by_name = checkout::run(&repo, "HEAD", &[]).unwrap();
    assert_eq!(by_name.actions.len(), 2);
}

#[test]
fn checkout_goes_into_directories() {
    let mut repo = fresh();
    add(&mut repo, &[file("a", b"1"), file("d/b", b"2"), file("d/e/c", b"3")]).unwrap();
    let out = commit::run(&mut repo, "m", AUTHOR, 1).unwrap();
    let plan = checkout::run(&repo, &out.sha, &[]).unwrap();
    let seen: Vec<String> = plan
        .actions
        .iter()
        .map(|a| match a {
            CheckoutAction::MakeDir { path } => format!("dir {}", String::from_utf8_lossy(path)),
            CheckoutAction::WriteFile { path, data, .. } => {
                format!("file {} {}", String::from_utf8_lossy(path), String::from_utf8_lossy(data))
            }
        })
        .collect();
    assert_eq!(seen, vec!["dir ", "file a 1", "dir d", "file d/b 2", "dir d/e", "file d/e/c 3"]);
}

#[test]
fn checkout_wants_a_commit() {
    let repo = committed();
    assert_eq!(checkout::run(&repo, TREE, &[]).err(), Some(GitError::NotCommit));
    assert_eq!(checkout::run(&repo, HI, &[]).err(), Some(GitError::NotCommit));
    assert_eq!(checkout::run(&repo, "nothing", &[]).err(), Some(GitError::NotAValidName));
    assert_eq!(checkout::checkout_tree(&repo, HI, b"", 5).err(), Some(GitError::WrongKind));
}

#[test]
fn modes_give_kinds_and_permissions() {
    assert_eq!(pad_mode(b"40000"), b"040000".to_vec());
    assert_eq!(pad_mode(b"100644"), b"100644".to_vec());
    assert_eq!(pad_mode(b""), b"000000".to_vec());
    assert_eq!(pad_mode(b"1006440"), b"1006440".to_vec());
    assert_eq!(mode_to_type(b"40000"), Ok(GitObjectType::Tree));
    assert_eq!(mode_to_type(b"040000"), Ok(GitObjectType::Tree));
    assert_eq!(mode_to_type(b"100644"), Ok(GitObjectType::Blob));
    assert_eq!(mode_to_type(b"100755"), Ok(GitObjectType::Blob));
    assert_eq!(mode_to_type(b"120000"), Ok(GitObjectType::Blob));
    assert_eq!(mode_to_type(b"160000"), Ok(GitObjectType::Commit));
    assert_eq!(mode_to_type(b"140000"), Err(GitError::CorruptObject));
    assert_eq!(mode_to_type(b"644"), Err(GitError::CorruptObject));
    assert_eq!(mode_to_type(b""), Err(GitError::CorruptObject));
    assert_eq!(mode_permissions(b"100644"), Some(0o644));
    assert_eq!(mode_permissions(b"100755"), Some(0o755));
    assert_eq!(mode_permissions(b"40000"), Some(0));
    assert_eq!(mode_permissions(b"7"), Some(7));
    assert_eq!(mode_permissions(b"100648"), None);
    assert_eq!(join_entry(b"", b"a"), b"a".to_vec());
    assert_eq!(join_entry(b"d/e", b"a"), b"d/e/a".to_vec());
}

#[test]
fn ls_tree_lists_entries() {
    let mut repo = fresh();
    add(&mut repo, &[file("a", b"hi\n"), file("d/b", b"hi\n")]).unwrap();
    let out = commit::run(&mut repo, "m", AUTHOR, 1).unwrap();
    let commit_tree = match object_read(&repo, &out.sha).unwrap() {
        (_, AnyObject::Commit(c)) => String::from_utf8(c.kvlm.get(b"tree").unwrap().to_vec()).unwrap(),
        _ => panic!("not a commit"),
    };
    let flat = text(&ls_tree::run(&repo, &commit_tree, false).unwrap());
    assert_eq!(flat.len(), 2);
    assert_eq!(flat[0], format!("100644 blob {}\ta", HI));
    assert!(flat[1].starts_with("040000 tree "));
    assert!(flat[1].ends_with("\td"));
    let deep = text(&ls_tree::run(&repo, &commit_tree, true).unwrap());
    assert_eq!(
        deep,
        vec![format!("100644 blob {}\ta", HI), format!("100644 blob {}\td/b", HI)]
    );
    assert_eq!(ls_tree::run(&repo, &out.sha, false).err(), Some(GitError::WrongKind));
    assert!(ls_tree::ls_tree(&repo, HI, true, b"", 3).unwrap().is_empty());
    assert_eq!(ls_tree::ls_tree(&repo, &commit_tree, true, b"", 0).err(), Some(GitError::CorruptObject));
}

#[test]
fn log_draws_each_commit_once() {
    let mut repo = committed();
    commit::run(&mut repo, "second \"quoted\" \\ line\r\nmore", AUTHOR, 1_700_000_000).unwrap();
    let head = rev_parse::run(&repo, "HEAD", None).unwrap();
    let lines = text(&log::run(&repo, "HEAD").unwrap());
    assert_eq!(
        lines,
        vec![
            "digraph wyaglog{".to_string(),
            "  node[shape=rect]".to_string(),
            format!("  c_{} [label=\"{}: second \\\"quoted\\\" \\\\ line\"]", head, &head[..7]),
            format!("  c_{} -> c_{};", head, FIRST),
            format!("  c_{} [label=\"{}: x\"]", FIRST, &FIRST[..7]),
            "}".to_string(),
        ]
    );
    let mut seen = vec![FIRST.to_string()];
    let lines = log::walk(&repo, &head, &mut seen, 10).unwrap();
    assert_eq!(lines.len(), 2);
    assert_eq!(seen, vec![FIRST.to_string(), head.clone()]);
    assert_eq!(log::run(&repo, TREE).err(), Some(GitError::NotCommit));
    assert_eq!(log::walk(&repo, &head, &mut Vec::new(), 0).err(), Some(GitError::CorruptObject));
}

#[test]
fn cat_file_hands_out_the_payload() {
    let repo = committed();
    assert_eq!(cat_file::run(&repo, &GitObjectType::Blob, HI).unwrap(), b"hi\n".to_vec());
    assert_eq!(cat_file::run(&repo, &GitObjectType::Blob, &HI[..5]).unwrap(), b"hi\n".to_vec());
    let commit = cat_file::run(&repo, &GitObjectType::Commit, "HEAD").unwrap();
    assert_eq!(
        commit,
        format!("tree {}\nauthor {a} 1700000000 +0000\ncommitter {a} 1700000000 +0000\n\nx", TREE, a = AUTHOR)
            .into_bytes()
    );
    assert_eq!(cat_file::run(&repo, &GitObjectType::Tree, HI).err(), Some(GitError::WrongKind));
}

#[test]
fn add_replaces_the_entry_of_the_same_path() {
    let mut repo = fresh();
    add(&mut repo, &[file("a", b"1"), file("b", b"2")]).unwrap();
    add(&mut repo, &[file("a", b"new")]).unwrap();
    let index = read_index(&repo).unwrap();
    let paths: Vec<&str> = index.entries.iter().map(|e| e.path.as_str()).collect();
    assert_eq!(paths, vec!["b", "a"]);
    let a = &index.entries[1];
    assert_eq!(a.size, 3);
    assert_eq!(a.mode, 0o100644);
    assert_eq!(a.ctime, 10);
    assert_eq!(a.mtime, 20);
    assert_eq!((a.ctime_ns, a.mtime_ns, a.dev, a.ino, a.uid, a.gid, a.flags), (0, 0, 0, 0, 0, 0, 0));
    assert_eq!(cat_file::run(&repo, &GitObjectType::Blob, &a.sha).unwrap(), b"new".to_vec());
}

#[test]
fn rm_takes_entries_out() {
    let mut repo = fresh();
    add(&mut repo, &[file("a", b"1"), file("b", b"2"), file("c", b"3")]).unwrap();
    assert_eq!(rm(&mut repo, &["b", "zz"], true, false).err(), Some(GitError::NotFound));
    assert_eq!(ls_files::run(&repo).unwrap(), vec!["a", "b", "c"]);
    assert_eq!(rm(&mut repo, &["b", "zz"], true, true).unwrap(), vec!["b"]);
    assert_eq!(ls_files::run(&repo).unwrap(), vec!["a", "c"]);
    assert!(rm(&mut repo, &["a"], false, false).unwrap().is_empty());
    assert_eq!(ls_files::run(&repo).unwrap(), vec!["c"]);
    assert_eq!(rust_git::commands::rm::run(&mut repo, &["c"]).unwrap(), vec!["c"]);
    assert!(ls_files::run(&repo).unwrap().is_empty());
    let index = read_index(&repo).unwrap();
    let (kept, removed) = index_without(&index, &["x"]);
    assert!(kept.entries.is_empty() && removed.is_empty());
}

#[test]
fn paths_outside_the_working_tree_are_refused() {
    assert_eq!(worktree_path("/w", "/w/a/b").unwrap(), "a/b");
    assert_eq!(worktree_path("/w", "/wx/a").err(), Some(GitError::OutsideWorktree));
    assert_eq!(worktree_path("/w", "/w").err(), Some(GitError::OutsideWorktree));
    assert_eq!(worktree_path("/w", "/other").err(), Some(GitError::OutsideWorktree));
}

#[test]
fn tags_are_made_once() {
    let mut repo = committed();
    assert!(list_tags(&repo).is_empty());
    create_tag(&mut repo, "v1", "HEAD").unwrap();
    assert_eq!(repo.store.read("refs/tags/v1").unwrap(), &format!("{}\n", FIRST).into_bytes());
    assert_eq!(create_tag(&mut repo, "v1", "HEAD").err(), Some(GitError::AlreadyExists));
    assert_eq!(create_tag(&mut repo, "a/b", "HEAD").err(), Some(GitError::NotAValidName));
    assert_eq!(create_tag(&mut repo, "v2", "nothing").err(), Some(GitError::NotAValidName));
    create_tag(&mut repo, "blob", &HI[..8]).unwrap();
    assert_eq!(list_tags(&repo), vec!["v1", "blob"]);
    assert_eq!(rev_parse::run(&repo, "v1", Some(GitObjectType::Commit)).unwrap(), FIRST);
    assert_eq!(
        show_ref::run(&repo).unwrap(),
        vec![
            format!("{} refs/heads/master", FIRST),
            format!("{} refs/tags/v1", FIRST),
            format!("{} refs/tags/blob", HI),
        ]
    );
}

#[test]
fn status_sorts_the_files() {
    let mut repo = fresh();
    repo.store.write("info/exclude".to_string(), b"*.log\n".to_vec());
    add(&mut repo, &[file("a.txt", b"hi\n"), file("sub/.gitignore", b"!*keep.log\n")]).unwrap();
    let files = ["a.txt", "new.txt", "x.log", "sub/keep.log", "sub/.gitignore", "sub/y.log"];
    let report = status::run(&repo, None, &files).unwrap();
    assert_eq!(report.branch.as_deref(), Some("master"));
    assert_eq!(report.head, "ref: refs/heads/master");
    assert_eq!(report.staged, vec!["a.txt", "sub/.gitignore"]);
    assert_eq!(report.untracked, vec!["new.txt", "sub/keep.log"]);
    assert_eq!(report.ignored, vec!["x.log", "sub/y.log"]);
    assert_eq!(status::run(&repo, None, &["/abs"]).err(), Some(GitError::OutsideWorktree));
    assert_eq!(
        check_ignore::run(&repo, None, &["sub/keep.log", "other/x.log"]).unwrap(),
        vec!["other/x.log"]
    );
    assert_eq!(
        check_ignore::run(&repo, Some("new.*"), &["new.txt", "/x"]).err(),
        Some(GitError::OutsideWorktree)
    );
    assert_eq!(check_ignore::run(&repo, Some("new.*"), &["new.txt"]).unwrap(), vec!["new.txt"]);
}
