//! The repository: where it lies, its configuration, and the files of its
//! directory; and the user's configuration, from which the author of a commit
//! is taken.

use vstd::prelude::*;
use vstd::string::StrSliceExecFns;
use vstd::string::StringExecFns;
use vstd::utf8::encode_utf8;
use ini::Ini;
use crate::bytes::append_bytes;
use crate::error::GitError;
use crate::ignore::{lines_of, split_lines};
use crate::store::FileStore;
use crate::text::{bytes_to_text, chars_of, chars_start_with, find_char, find_char_from,
    starts_with, text_of, trim, trimmed};

verus! {

/// What the repository's configuration file says, as far as it is read.
#[derive(Debug, Clone, Copy, PartialEq, Eq, Structural)]
pub struct RepositoryConfig {
    pub repository_format_version: u8,
}

/// A repository.
#[derive(Debug, Clone)]
pub struct GitRepository {
    /// The path of the working tree.
    pub worktree: String,
    /// The path of the repository directory inside the working tree.
    pub gitdir: String,
    /// The configuration, where the repository has one.
    pub config: Option<RepositoryConfig>,
    /// The files of the repository directory.
    pub store: FileStore,
}

/// `base`, a slash, and `path`.
pub open spec fn joined(base: Seq<char>, path: Seq<char>) -> Seq<char> {
    base + "/"@ + path
}

/// Joins two paths with a slash.
pub fn join_paths(base: &str, path: &str) -> (full: String)
    ensures
        full@ == joined(base@, path@),
{
    let mut full = String::from_str(base);
    full.append("/");
    full.append(path);
    full
}

/// Whether all characters are decimal digits.
pub open spec fn all_digits(s: Seq<char>) -> bool {
    forall|i: int| 0 <= i < s.len() ==> '0' <= #[trigger] s[i] <= '9'
}

/// The number that decimal digits spell.
pub open spec fn digits_value(s: Seq<char>) -> nat
    decreases s.len(),
{
    if s.len() == 0 {
        0
    } else {
        digits_value(s.drop_last()) * 10 + (s.last() as nat - 48) as nat
    }
}

/// The number below 256 that a text spells in decimal digits, with or without
/// a `+` in front; `None` for any other text.
pub open spec fn parse_u8(s: Seq<char>) -> Option<u8> {
    let digits = if s.len() > 0 && s[0] == '+' {
        s.skip(1)
    } else {
        s
    };
    if digits.len() == 0 || !all_digits(digits) || digits_value(digits) > 255 {
        None
    } else {
        Some(digits_value(digits) as u8)
    }
}

/// What a line of the configuration says of the format version: nothing
/// where it does not begin, trimmed, with `repositoryformatversion` or holds
/// no `=`; otherwise the number that follows the first `=`, or `None` where
/// no number below 256 follows it.
pub open spec fn line_version(line: Seq<char>) -> Option<Option<u8>> {
    let t = trimmed(line);
    let eq = find_char(t, '=', 0);
    if starts_with(t, "repositoryformatversion"@) && eq < t.len() {
        Some(parse_u8(trimmed(t.skip(eq + 1))))
    } else {
        None
    }
}

/// The format version that the lines of a configuration set: that of the
/// last line that sets one, and `None` where no line does. `Err` where a line
/// that sets it holds no number below 256.
pub open spec fn lines_version(lines: Seq<Seq<char>>) -> Result<Option<u8>, GitError>
    decreases lines.len(),
{
    if lines.len() == 0 {
        Ok(None)
    } else {
        match lines_version(lines.drop_last()) {
            Err(e) => Err(e),
            Ok(before) => match line_version(lines.last()) {
                None => Ok(before),
                Some(Some(v)) => Ok(Some(v)),
                Some(None) => Err(GitError::NotARepository),
            },
        }
    }
}

/// What a configuration says: the format version that it sets, and 0 where
/// it sets none.
pub open spec fn config_spec(text: Seq<char>) -> Result<RepositoryConfig, GitError> {
    match lines_version(split_lines(text)) {
        Err(e) => Err(e),
        Ok(Some(v)) => Ok(RepositoryConfig { repository_format_version: v }),
        Ok(None) => Ok(RepositoryConfig { repository_format_version: 0 }),
    }
}

/// The number of more digits is no smaller.
pub proof fn lemma_digits_value_grows(s: Seq<char>, n: int)
    requires
        0 <= n <= s.len(),
    ensures
        digits_value(s.take(n)) <= digits_value(s),
    decreases s.len() - n,
{
    if n < s.len() {
        lemma_digits_value_grows(s, n + 1);
        assert(s.take(n + 1).drop_last() == s.take(n));
    } else {
        assert(s.take(n) == s);
    }
}

/// Reads a number below 256.
pub fn read_u8(text: &str) -> (r: Option<u8>)
    ensures
        r == parse_u8(text@),
{
    let chars = chars_of(text);
    let start: usize = if chars.len() > 0 && chars[0] == '+' {
        1
    } else {
        0
    };
    let ghost digits = chars@.skip(start as int);
    if chars.len() == start {
        return None;
    }
    assert(chars@.skip(0) == chars@);
    let mut value: u16 = 0;
    let mut i: usize = start;
    assert(digits.take(0) == Seq::<char>::empty());
    while i < chars.len()
        invariant
            start <= i <= chars@.len(),
            chars@ == text@,
            digits.len() > 0,
            digits == if text@.len() > 0 && text@[0] == '+' {
                text@.skip(1)
            } else {
                text@
            },
            digits == chars@.skip(start as int),
            all_digits(digits.take(i - start)),
            value == digits_value(digits.take(i - start)),
            value <= 255,
        decreases chars@.len() - i,
    {
        let c = chars[i];
        proof {
            assert(digits.take(i + 1 - start).drop_last() == digits.take(i - start));
            assert(digits.take(i + 1 - start).last() == c);
        }
        if !('0' <= c && c <= '9') {
            assert(digits[i - start] == c);
            return None;
        }
        let d: u16 = (c as u32 - 48) as u16;
        value = value * 10 + d;
        if value > 255 {
            proof {
                lemma_digits_value_grows(digits, i + 1 - start);
            }
            return None;
        }
        assert(all_digits(digits.take(i + 1 - start))) by {
            assert forall|j: int| 0 <= j < i + 1 - start implies '0' <= #[trigger] digits.take(
                i + 1 - start,
            )[j] <= '9' by {
                if j < i - start {
                    assert(digits.take(i - start)[j] == digits[j]);
                }
            }
        }
        i += 1;
    }
    proof {
        assert(digits.take(i - start) == digits);
    }
    Some(value as u8)
}

/// Reads what a line of the configuration says of the format version.
fn read_line_version(line: &str) -> (r: Option<Option<u8>>)
    ensures
        r == line_version(line@),
{
    let t = trim(line);
    let chars = chars_of(t);
    let key = chars_of("repositoryformatversion");
    if !chars_start_with(chars.as_slice(), key.as_slice()) {
        return None;
    }
    let eq = find_char_from(chars.as_slice(), '=', 0);
    if eq >= chars.len() {
        return None;
    }
    let rest = t.substring_char(eq + 1, chars.len());
    assert(rest@ == t@.skip(eq + 1));
    Some(read_u8(trim(rest)))
}

/// Reads the configuration of a repository. `NotARepository` where a line
/// sets the format version to something that is no number below 256.
pub fn read_config(text: &str) -> (r: Result<RepositoryConfig, GitError>)
    ensures
        r == config_spec(text@),
{
    let lines = lines_of(text);
    let ghost all = Seq::new(lines@.len(), |i: int| lines@[i]@);
    let mut version: Option<u8> = None;
    let mut i: usize = 0;
    while i < lines.len()
        invariant
            i <= lines@.len(),
            all == Seq::new(lines@.len(), |i: int| lines@[i]@),
            all == split_lines(text@),
            lines_version(all.take(i as int)) == Ok::<Option<u8>, GitError>(version),
        decreases lines@.len() - i,
    {
        proof {
            assert(all.take(i + 1).drop_last() == all.take(i as int));
            assert(all.take(i + 1).last() == lines@[i as int]@);
        }
        match read_line_version(lines[i]) {
            None => {},
            Some(Some(v)) => {
                version = Some(v);
            },
            Some(None) => {
                proof {
                    lemma_lines_version_fails(all, i as int);
                }
                return Err(GitError::NotARepository);
            },
        }
        i += 1;
    }
    proof {
        assert(all.take(i as int) == all);
    }
    match version {
        Some(v) => Ok(RepositoryConfig { repository_format_version: v }),
        None => Ok(RepositoryConfig { repository_format_version: 0 }),
    }
}

/// Where one line cannot be read, the configuration cannot.
pub proof fn lemma_lines_version_fails(lines: Seq<Seq<char>>, at: int)
    requires
        0 <= at < lines.len(),
        line_version(lines[at]) == Some(None::<u8>),
    ensures
        lines_version(lines) == Err::<Option<u8>, GitError>(GitError::NotARepository),
    decreases lines.len(),
{
    if at < lines.len() - 1 {
        lemma_lines_version_fails(lines.drop_last(), at);
    } else {
        lemma_lines_version_error(lines.drop_last());
    }
}

/// The only error of reading the format version is `NotARepository`.
pub proof fn lemma_lines_version_error(lines: Seq<Seq<char>>)
    ensures
        lines_version(lines) is Err ==> lines_version(lines) == Err::<Option<u8>, GitError>(
            GitError::NotARepository,
        ),
    decreases lines.len(),
{
    if lines.len() > 0 {
        lemma_lines_version_error(lines.drop_last());
    }
}

/// The configuration that a repository directory holds: `None` where it has
/// no file `config`, `IoFailure` where the file is no text.
pub open spec fn stored_config(store: &FileStore) -> Result<Option<RepositoryConfig>, GitError> {
    match store.content("config"@) {
        None => Ok(None),
        Some(bytes) => match text_of(bytes) {
            None => Err(GitError::IoFailure),
            Some(text) => match config_spec(text) {
                Err(e) => Err(e),
                Ok(c) => Ok(Some(c)),
            },
        },
    }
}

/// Why the repository at a path cannot be opened, or the configuration with
/// which it is opened.
///
/// Without `force`, the repository directory must be there, it must hold a
/// configuration, and the format version must be 0: `NotARepository`
/// otherwise. With `force` none of that is asked.
pub open spec fn open_spec(force: bool, gitdir: Option<FileStore>) -> Result<
    Option<RepositoryConfig>,
    GitError,
> {
    if !force && gitdir is None {
        Err(GitError::NotARepository)
    } else {
        let config = match gitdir {
            None => Ok(None),
            Some(store) => stored_config(&store),
        };
        match config {
            Err(e) => Err(e),
            Ok(None) => if force {
                Ok(None)
            } else {
                Err(GitError::NotARepository)
            },
            Ok(Some(c)) => if !force && c.repository_format_version != 0 {
                Err(GitError::NotARepository)
            } else {
                Ok(Some(c))
            },
        }
    }
}

/// The text of a new repository's `HEAD`.
pub open spec fn initial_head() -> Seq<char> {
    "ref: refs/heads/master\n"@
}

/// The text of a new repository's `description`.
pub open spec fn initial_description() -> Seq<char> {
    "Unnamed repository; edit this file 'description' to name the repository.\n"@
}

/// The text of a new repository's `config`.
pub open spec fn initial_config() -> Seq<char> {
    "[core]\n\trepositoryformatversion = 0\n\tfilemode = false\n\tbare = false\n"@
}

/// Whether the place for a new repository is taken: the path of the working
/// tree holds something, or the repository directory does.
pub open spec fn occupied(worktree: Seq<&str>, gitdir: Option<FileStore>) -> bool {
    ||| worktree.len() > 0
    ||| (gitdir is Some && (gitdir->0.files@.len() > 0 || gitdir->0.dirs@.len() > 0))
}

/// Whether `repo` is a repository as it is first made for the working tree at
/// `path`: with the four directories and the three files, and nothing else.
pub open spec fn fresh_repository(repo: GitRepository, path: Seq<char>) -> bool {
    &&& repo.worktree@ == path
    &&& repo.gitdir@ == joined(path, ".git"@)
    &&& repo.config is None
    &&& repo.store.dirs@.len() == 4
    &&& repo.store.dirs@[0]@ == "branches"@
    &&& repo.store.dirs@[1]@ == "objects"@
    &&& repo.store.dirs@[2]@ == "refs/tags"@
    &&& repo.store.dirs@[3]@ == "refs/heads"@
    &&& repo.store.files@.len() == 3
    &&& repo.store.files@[0].0@ == "description"@
    &&& repo.store.files@[0].1@ == encode_utf8(initial_description())
    &&& repo.store.files@[1].0@ == "HEAD"@
    &&& repo.store.files@[1].1@ == encode_utf8(initial_head())
    &&& repo.store.files@[2].0@ == "config"@
    &&& repo.store.files@[2].1@ == encode_utf8(initial_config())
}

/// Reads the configuration that a repository directory holds.
fn read_stored_config(store: &FileStore) -> (r: Result<Option<RepositoryConfig>, GitError>)
    ensures
        r == stored_config(store),
{
    match store.read("config") {
        None => Ok(None),
        Some(bytes) => match bytes_to_text(bytes.as_slice()) {
            None => Err(GitError::IoFailure),
            Some(text) => match read_config(text) {
                Err(e) => Err(e),
                Ok(c) => Ok(Some(c)),
            },
        },
    }
}

impl GitRepository {
    /// Opens the repository whose working tree lies at `path`. `gitdir` holds
    /// the files of its repository directory, and is `None` where there is no
    /// such directory.
    pub fn new(path: &str, force: bool, gitdir: Option<FileStore>) -> (r: Result<
        GitRepository,
        GitError,
    >)
        ensures
            match open_spec(force, gitdir) {
                Err(e) => r == Err::<GitRepository, GitError>(e),
                Ok(config) => {
                    &&& r is Ok
                    &&& r->Ok_0.worktree@ == path@
                    &&& r->Ok_0.gitdir@ == joined(path@, ".git"@)
                    &&& r->Ok_0.config == config
                    &&& match gitdir {
                        Some(store) => r->Ok_0.store == store,
                        None => r->Ok_0.store.files@.len() == 0 && r->Ok_0.store.dirs@.len() == 0,
                    }
                },
            },
    {
        let store = match gitdir {
            Some(store) => store,
            None => {
                if !force {
                    return Err(GitError::NotARepository);
                }
                let empty = FileStore::new();
                assert(stored_config(&empty) == Ok::<Option<RepositoryConfig>, GitError>(None));
                return Ok(
                    GitRepository {
                        worktree: String::from_str(path),
                        gitdir: join_paths(path, ".git"),
                        config: None,
                        store: empty,
                    },
                );
            },
        };
        let config = match read_stored_config(&store) {
            Err(e) => { return Err(e); },
            Ok(config) => config,
        };
        match config {
            None => {
                if !force {
                    return Err(GitError::NotARepository);
                }
            },
            Some(c) => {
                if !force && c.repository_format_version != 0 {
                    return Err(GitError::NotARepository);
                }
            },
        }
        Ok(
            GitRepository {
                worktree: String::from_str(path),
                gitdir: join_paths(path, ".git"),
                config,
                store,
            },
        )
    }

    /// Makes a new repository for the working tree at `path`. `worktree`
    /// names what lies directly in that path, and is empty where the path
    /// does not exist; `gitdir` holds what the repository directory holds
    /// already, and is `None` where there is none.
    ///
    /// `AlreadyExists` exactly where the path holds anything, or the
    /// repository directory does. Otherwise the repository has the
    /// directories `branches`, `objects`, `refs/tags` and `refs/heads`, and
    /// the files `description`, `HEAD`, which names the branch `master`, and
    /// `config`, which says format version 0, no file modes, and not bare.
    pub fn create(path: &str, worktree: &[&str], gitdir: Option<FileStore>) -> (r: Result<
        GitRepository,
        GitError,
    >)
        ensures
            match r {
                Err(e) => e == GitError::AlreadyExists && occupied(worktree@, gitdir),
                Ok(repo) => !occupied(worktree@, gitdir) && fresh_repository(repo, path@),
            },
    {
        if worktree.len() > 0 {
            return Err(GitError::AlreadyExists);
        }
        match gitdir {
            Some(store) => {
                if store.files.len() > 0 || store.dirs.len() > 0 {
                    return Err(GitError::AlreadyExists);
                }
            },
            None => {},
        }
        let mut store = FileStore::new();
        store.add_dir(String::from_str("branches"));
        store.add_dir(String::from_str("objects"));
        store.add_dir(String::from_str("refs/tags"));
        store.add_dir(String::from_str("refs/heads"));
        store.files.push((String::from_str("description"), text_bytes(
            "Unnamed repository; edit this file 'description' to name the repository.\n",
        )));
        store.files.push((String::from_str("HEAD"), text_bytes("ref: refs/heads/master\n")));
        store.files.push(
            (
                String::from_str("config"),
                text_bytes(
                    "[core]\n\trepositoryformatversion = 0\n\tfilemode = false\n\tbare = false\n",
                ),
            ),
        );
        Ok(
            GitRepository {
                worktree: String::from_str(path),
                gitdir: join_paths(path, ".git"),
                config: None,
                store,
            },
        )
    }

    /// The path of a file of the repository directory, given its path inside it.
    pub fn repo_path(&self, path: &str) -> (full: String)
        ensures
            full@ == joined(self.gitdir@, path@),
    {
        join_paths(self.gitdir.as_str(), path)
    }
}

/// The bytes of a text.
pub fn text_bytes(text: &str) -> (bytes: Vec<u8>)
    ensures
        bytes@ == encode_utf8(text@),
{
    let mut bytes: Vec<u8> = Vec::new();
    append_bytes(&mut bytes, text.as_bytes());
    assert(bytes@ == encode_utf8(text@));
    bytes
}

/// The position of the first directory that has a repository directory, or
/// the number of directories where none has.
pub open spec fn first_repository(dirs: Seq<(String, Option<FileStore>)>, from: int) -> int
    decreases dirs.len() - from,
{
    if from >= dirs.len() {
        dirs.len() as int
    } else if dirs[from].1 is Some {
        from
    } else {
        first_repository(dirs, from + 1)
    }
}

/// Finds the repository in which a directory lies. `dirs` holds the
/// directory and the directories above it, the nearest first, each with the
/// files of its repository directory where it has one.
///
/// The nearest directory that has a repository directory is opened. Where
/// none has one: `NotARepository` if a repository is `required`, and `None`
/// if not.
pub fn repo_find(dirs: Vec<(String, Option<FileStore>)>, required: bool) -> (r: Result<
    Option<GitRepository>,
    GitError,
>)
    ensures
        ({
            let at = first_repository(dirs@, 0);
            if at >= dirs@.len() {
                r == if required {
                    Err::<Option<GitRepository>, GitError>(GitError::NotARepository)
                } else {
                    Ok::<Option<GitRepository>, GitError>(None)
                }
            } else {
                match open_spec(false, dirs@[at].1) {
                    Err(e) => r == Err::<Option<GitRepository>, GitError>(e),
                    Ok(config) => {
                        &&& r is Ok
                        &&& r->Ok_0 is Some
                        &&& r->Ok_0->0.worktree@ == dirs@[at].0@
                        &&& r->Ok_0->0.gitdir@ == joined(dirs@[at].0@, ".git"@)
                        &&& r->Ok_0->0.config == config
                        &&& Some(r->Ok_0->0.store) == dirs@[at].1
                    },
                }
            }
        }),
{
    let ghost all = dirs@;
    let mut at: usize = 0;
    while at < dirs.len() && dirs[at].1.is_none()
        invariant
            at <= dirs@.len(),
            first_repository(dirs@, 0) == first_repository(dirs@, at as int),
        decreases dirs@.len() - at,
    {
        at += 1;
    }
    if at >= dirs.len() {
        return if required {
            Err(GitError::NotARepository)
        } else {
            Ok(None)
        };
    }
    assert(first_repository(all, 0) == at);
    let mut owned = dirs;
    let (path, gitdir) = owned.swap_remove(at);
    assert(path == all[at as int].0 && gitdir == all[at as int].1);
    match GitRepository::new(path.as_str(), false, gitdir) {
        Err(e) => Err(e),
        Ok(repo) => {
            assert(Some(repo.store) == all[at as int].1);
            Ok(Some(repo))
        },
    }
}

/// The values of a key in the sections of a name in a configuration text, in
/// their order; `None` where the text is no configuration. It depends on the
/// three texts alone.
pub uninterp spec fn ini_values(text: Seq<char>, section: Seq<char>, key: Seq<char>) -> Option<
    Seq<Seq<char>>,
>;

/// Calls `Ini::load_from_str`, `Ini::section_all` and `Properties::get_all`
/// of the crate `ini`, which parse a configuration and hand out the values of
/// a key in all sections of a name. The contract names the result.
#[verifier::external_body]
pub(crate) fn ini_get_all(text: &str, section: &str, key: &str) -> (r: Option<Vec<String>>)
    ensures
        match ini_values(text@, section@, key@) {
            None => r is None,
            Some(values) => r is Some && r->0@.len() == values.len() && forall|i: int|
                0 <= i < values.len() ==> (#[trigger] r->0@[i])@ == values[i],
        },
{
    let ini = Ini::load_from_str(text).ok()?;
    Some(
        ini.section_all(Some(section)).flat_map(|p| p.get_all(key)).map(String::from).collect(),
    )
}

/// The identity of the user, as far as the configuration gives it.
#[derive(Debug, Clone)]
pub struct GitConfig {
    pub user_name: Option<String>,
    pub user_email: Option<String>,
}

/// The value that configuration texts give to a key of a section: the last
/// value in the last text that gives one. A text that is no configuration
/// gives nothing.
pub open spec fn config_value(
    texts: Seq<Seq<char>>,
    section: Seq<char>,
    key: Seq<char>,
) -> Option<Seq<char>>
    decreases texts.len(),
{
    if texts.len() == 0 {
        None
    } else {
        match ini_values(texts.last(), section, key) {
            Some(values) if values.len() > 0 => Some(values.last()),
            _ => config_value(texts.drop_last(), section, key),
        }
    }
}

/// The value that configuration texts give to a key of a section.
fn read_config_value(texts: &[&str], section: &str, key: &str) -> (r: Option<String>)
    ensures
        match config_value(Seq::new(texts@.len(), |i: int| texts@[i]@), section@, key@) {
            Some(v) => r is Some && r->0@ == v,
            None => r is None,
        },
{
    let ghost all = Seq::new(texts@.len(), |i: int| texts@[i]@);
    let mut i: usize = texts.len();
    assert(all.take(i as int) == all);
    while i > 0
        invariant
            i <= texts@.len(),
            all == Seq::new(texts@.len(), |i: int| texts@[i]@),
            config_value(all, section@, key@) == config_value(all.take(i as int), section@, key@),
        decreases i,
    {
        proof {
            assert(all.take(i as int).drop_last() == all.take(i - 1));
            assert(all.take(i as int).last() == texts@[i - 1]@);
        }
        match ini_get_all(texts[i - 1], section, key) {
            Some(mut values) => {
                match values.pop() {
                    Some(v) => { return Some(v); },
                    None => {},
                }
            },
            None => {},
        }
        i -= 1;
    }
    None
}

/// Reads the user's configuration from the texts of the configuration files,
/// a later file overriding an earlier one.
pub fn gitconfig_read(texts: &[&str]) -> (config: GitConfig)
    ensures
        match config_value(Seq::new(texts@.len(), |i: int| texts@[i]@), "user"@, "name"@) {
            Some(v) => config.user_name is Some && config.user_name->0@ == v,
            None => config.user_name is None,
        },
        match config_value(Seq::new(texts@.len(), |i: int| texts@[i]@), "user"@, "email"@) {
            Some(v) => config.user_email is Some && config.user_email->0@ == v,
            None => config.user_email is None,
        },
{
    GitConfig {
        user_name: read_config_value(texts, "user", "name"),
        user_email: read_config_value(texts, "user", "email"),
    }
}

/// The user as the author of a commit: the name, a space, and the e-mail
/// address in angle brackets. `None` where either is missing.
pub fn gitconfig_user_get(config: &GitConfig) -> (r: Option<String>)
    ensures
        match (config.user_name, config.user_email) {
            (Some(name), Some(email)) => r is Some && r->0@ == name@ + " <"@ + email@ + ">"@,
            _ => r is None,
        },
{
    match (&config.user_name, &config.user_email) {
        (Some(name), Some(email)) => {
            let mut user = String::from_str(name.as_str());
            user.append(" <");
            user.append(email.as_str());
            user.append(">");
            Some(user)
        },
        _ => None,
    }
}

/// The paths of the user's configuration files, in the order in which they
/// are read: `git/config` in the configuration directory, which is `xdg`
/// where that is set, `.config` in `home` where that is set, and `.config`
/// otherwise; and `.gitconfig` in `homepath`, or in `~` where that is not set.
pub fn gitconfig_paths(xdg: Option<&str>, home: Option<&str>, homepath: Option<&str>) -> (paths: (
    String,
    String,
))
    ensures
        paths.0@ == match (xdg, home) {
            (Some(x), _) => x@ + "/git/config"@,
            (None, Some(h)) => h@ + "/.config"@ + "/git/config"@,
            (None, None) => ".config"@ + "/git/config"@,
        },
        paths.1@ == match homepath {
            Some(h) => h@ + "/.gitconfig"@,
            None => "~/.gitconfig"@,
        },
{
    let mut first = match xdg {
        Some(x) => String::from_str(x),
        None => match home {
            Some(h) => {
                let mut dir = String::from_str(h);
                dir.append("/.config");
                dir
            },
            None => String::from_str(".config"),
        },
    };
    first.append("/git/config");
    let second = match homepath {
        Some(h) => {
            let mut path = String::from_str(h);
            path.append("/.gitconfig");
            path
        },
        None => String::from_str("~/.gitconfig"),
    };
    (first, second)
}

} // verus!
