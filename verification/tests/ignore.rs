use rust_git::commands::add::{add, AddedFile};
use rust_git::error::GitError;
use rust_git::ignore::{
    check_ignore, check_ignore1, check_ignore_absolute, check_ignore_scoped, gitignore_parse,
    gitignore_parse1, gitignore_read, lines_of, GitIgnore,
};
use rust_git::repo::GitRepository;
use rust_git::store::FileStore;

fn rule(pattern: &str, ignored: bool) -> (String, bool) {
    (pattern.to_string(), ignored)
}

fn empty_repo() -> GitRepository {
    GitRepository {
        worktree: String::from("/w"),
        gitdir: String::from("/w/.git"),
        config: None,
        store: FileStore::new(),
    }
}

#[test]
fn lines_state_rules() {
    assert_eq!(gitignore_parse1("*.log"), Some(rule("*.log", true)));
    assert_eq!(gitignore_parse1("  !keep.log \r"), Some(rule("keep.log", false)));
    assert_eq!(gitignore_parse1("\\#notacomment"), Some(rule("#notacomment", true)));
    assert_eq!(gitignore_parse1("\\!bang"), Some(rule("!bang", true)));
    assert_eq!(gitignore_parse1("# comment"), None);
    assert_eq!(gitignore_parse1(""), None);
    assert_eq!(gitignore_parse1("   \t"), None);
    assert_eq!(gitignore_parse1("!"), Some(rule("", false)));
}

#[test]
fn files_state_rules_in_order() {
    let lines = lines_of("# build\n*.o\n\n!main.o\r\ntarget");
    assert_eq!(lines, vec!["# build", "*.o", "", "!main.o\r", "target"]);
    assert_eq!(
        gitignore_parse(&lines),
        vec![rule("*.o", true), rule("main.o", false), rule("target", true)]
    );
    assert_eq!(lines_of(""), vec![""]);
    assert_eq!(lines_of("a\n"), vec!["a", ""]);
    assert!(gitignore_parse(&[]).is_empty());
}

#[test]
fn patterns_match_the_whole_path() {
    let rules = vec![rule("*.log", true)];
    assert_eq!(check_ignore1(&rules, "x.log"), Some(true));
    assert_eq!(check_ignore1(&rules, "dir/x.log"), Some(true));
    assert_eq!(check_ignore1(&rules, "x.log.txt"), None);
    assert_eq!(check_ignore1(&[rule("a?c", true)], "abc"), Some(true));
    assert_eq!(check_ignore1(&[rule("a?c", true)], "ac"), None);
    assert_eq!(check_ignore1(&[rule("a?c", true)], "abbc"), None);
    assert_eq!(check_ignore1(&[rule("a*c*", true)], "abcabc"), Some(true));
    assert_eq!(check_ignore1(&[rule("*a*b", true)], "xxaxxbxxa"), None);
    assert_eq!(check_ignore1(&[rule("", true)], ""), Some(true));
    assert_eq!(check_ignore1(&[rule("", true)], "a"), None);
    assert_eq!(check_ignore1(&[rule("**", true)], ""), Some(true));
    assert_eq!(check_ignore1(&[rule("path", true)], "pattern"), None);
    assert_eq!(check_ignore1(&[], "a"), None);
}

#[test]
fn last_matching_rule_of_a_set_wins() {
    let rules = vec![rule("*.log", true), rule("keep.*", false), rule("other", true)];
    assert_eq!(check_ignore1(&rules, "keep.log"), Some(false));
    assert_eq!(check_ignore1(&rules, "x.log"), Some(true));
    let rules = vec![rule("keep.*", false), rule("*.log", true)];
    assert_eq!(check_ignore1(&rules, "keep.log"), Some(true));
}

#[test]
fn nearer_directory_overrides_farther_and_absolute() {
    let rules = GitIgnore::new(
        vec![vec![rule("*.log", true)]],
        vec![("sub".to_string(), vec![rule("*keep.log", false)])],
    );
    assert_eq!(check_ignore(&rules, "sub/keep.log"), Ok(false));
    assert_eq!(check_ignore(&rules, "other/x.log"), Ok(true));
    assert_eq!(check_ignore(&rules, "sub/x.log"), Ok(true));
    assert_eq!(check_ignore(&rules, "sub/x.txt"), Ok(false));

    let scoped = vec![
        ("".to_string(), vec![rule("*.tmp", true)]),
        ("a".to_string(), vec![rule("*.tmp", false)]),
        ("a/b".to_string(), vec![rule("*x.tmp", true)]),
    ];
    assert_eq!(check_ignore_scoped(&scoped, "a/b/x.tmp"), Some(true));
    assert_eq!(check_ignore_scoped(&scoped, "a/b/y.tmp"), Some(false));
    assert_eq!(check_ignore_scoped(&scoped, "a/y.tmp"), Some(false));
    assert_eq!(check_ignore_scoped(&scoped, "c/y.tmp"), Some(true));
    assert_eq!(check_ignore_scoped(&scoped, "y.tmp"), Some(true));
    assert_eq!(check_ignore_scoped(&scoped, "y.txt"), None);
}

#[test]
fn patterns_of_a_directory_are_matched_against_the_path_from_the_root() {
    let rules = GitIgnore::new(
        vec![vec![rule("*.log", true)]],
        vec![("sub".to_string(), vec![rule("keep.log", false)])],
    );
    assert_eq!(check_ignore(&rules, "other/x.log"), Ok(true));
    assert_eq!(check_ignore_scoped(&rules.scoped, "sub/keep.log"), None);
    assert_eq!(check_ignore(&rules, "sub/keep.log"), Ok(true));
    let rules = GitIgnore::new(
        vec![vec![rule("*.log", true)]],
        vec![("sub".to_string(), vec![rule("sub/keep.log", false)])],
    );
    assert_eq!(check_ignore(&rules, "sub/keep.log"), Ok(false));
}

#[test]
fn the_last_set_listed_for_a_directory_holds() {
    let scoped = vec![
        ("d".to_string(), vec![rule("*", true)]),
        ("d".to_string(), vec![rule("*", false)]),
    ];
    assert_eq!(check_ignore_scoped(&scoped, "d/f"), Some(false));
}

#[test]
fn first_absolute_set_that_matches_decides() {
    let sets = vec![vec![rule("*.a", false)], vec![rule("*", true)]];
    assert!(!check_ignore_absolute(&sets, "x.a"));
    assert!(check_ignore_absolute(&sets, "x.b"));
    assert!(!check_ignore_absolute(&[], "x.b"));
}

#[test]
fn absolute_paths_are_refused() {
    let rules = GitIgnore::new(Vec::new(), Vec::new());
    assert_eq!(check_ignore(&rules, "/etc/passwd"), Err(GitError::OutsideWorktree));
    assert_eq!(check_ignore(&rules, ""), Ok(false));
    assert_eq!(check_ignore(&rules, "a"), Ok(false));
}

#[test]
fn rules_are_read_from_the_repository() {
    let mut repo = empty_repo();
    repo.store.write("info/exclude".to_string(), b"*.log\n".to_vec());
    let files = vec![
        AddedFile { path: "sub/.gitignore".into(), data: b"!*keep.log\n".to_vec(), ctime: 0, mtime: 0 },
        AddedFile { path: ".gitignore".into(), data: b"# top\n*.bak\n".to_vec(), ctime: 0, mtime: 0 },
        AddedFile { path: "sub/x.gitignore".into(), data: b"*\n".to_vec(), ctime: 0, mtime: 0 },
    ];
    add(&mut repo, &files).unwrap();
    let rules = gitignore_read(&repo, Some("*.swp\n")).unwrap();
    assert_eq!(rules.absolute, vec![vec![rule("*.log", true)], vec![rule("*.swp", true)]]);
    assert_eq!(
        rules.scoped,
        vec![
            ("sub".to_string(), vec![rule("*keep.log", false)]),
            ("".to_string(), vec![rule("*.bak", true)]),
        ]
    );
    assert_eq!(check_ignore(&rules, "sub/keep.log"), Ok(false));
    assert_eq!(check_ignore(&rules, "other/x.log"), Ok(true));
    assert_eq!(check_ignore(&rules, "a/b.swp"), Ok(true));
    assert_eq!(check_ignore(&rules, "a/b.bak"), Ok(true));
    let none = gitignore_read(&empty_repo(), None).unwrap();
    assert!(none.absolute.is_empty());
    assert!(none.scoped.is_empty());
}

#[test]
fn unreadable_rules_are_errors() {
    let mut repo = empty_repo();
    repo.store.write("info/exclude".to_string(), vec![0xff]);
    assert_eq!(gitignore_read(&repo, None).err(), Some(GitError::IoFailure));
    let mut repo = empty_repo();
    repo.store.write("index".to_string(), b"garbage".to_vec());
    assert_eq!(gitignore_read(&repo, None).err(), Some(GitError::CorruptIndex));
}
