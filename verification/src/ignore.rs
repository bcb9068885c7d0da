//! Ignore rules: patterns that say which paths of the working tree are left
//! out. Rules come in sets. A set that belongs to a directory decides for the
//! paths below that directory; the sets that belong to the repository or the
//! user decide where no directory's set does.

use vstd::prelude::*;
use vstd::string::StrSliceExecFns;
use vstd::string::StringExecFns;
use wildmatch::WildMatch;
use crate::error::GitError;
use crate::index::{index_file, index_parse, read_index, EntryView};
use crate::objects::{object_read, stored_object, view_payload};
use crate::repo::GitRepository;
use crate::store::{lemma_find_char_skip, FileStore};
use crate::text::{bytes_to_text, chars_of, find_char, find_char_from, lemma_find_char, str_eq, text_of,
    trim, trimmed};

verus! {

/// The rules of ignore files: the sets that hold everywhere, in the order in
/// which they are asked, and the sets of directories.
#[derive(Debug, Clone)]
pub struct GitIgnore {
    /// The sets that hold everywhere. A rule is a pattern and whether a path
    /// that it matches is ignored.
    pub absolute: Vec<Vec<(String, bool)>>,
    /// The sets of directories, each with the path of its directory. Where a
    /// directory is listed more than once, its last set is the one that holds.
    pub scoped: Vec<(String, Vec<(String, bool)>)>,
}

/// A rule as mathematical values.
pub type RuleView = (Seq<char>, bool);

/// The rules of a set as mathematical values.
pub open spec fn rules_view(rules: Seq<(String, bool)>) -> Seq<RuleView> {
    Seq::new(rules.len(), |i: int| (rules[i].0@, rules[i].1))
}

/// The sets that hold everywhere as mathematical values.
pub open spec fn absolute_view(sets: Seq<Vec<(String, bool)>>) -> Seq<Seq<RuleView>> {
    Seq::new(sets.len(), |i: int| rules_view(sets[i]@))
}

/// The sets of directories as mathematical values.
pub open spec fn scoped_view(sets: Seq<(String, Vec<(String, bool)>)>) -> Seq<
    (Seq<char>, Seq<RuleView>),
> {
    Seq::new(sets.len(), |i: int| (sets[i].0@, rules_view(sets[i].1@)))
}

/// Whether the pattern matches the whole of `s`: `?` stands for any one
/// character, `*` for any number of characters, a slash among them, and
/// every other character for itself. There are no character classes: `[`
/// and `]` stand for themselves. Nor is there a `**`, a pattern bound to a
/// directory by a slash in front, or one for directories only by a slash
/// behind.
pub open spec fn wildcard_match(p: Seq<char>, s: Seq<char>) -> bool
    decreases p.len(), s.len(),
{
    if p.len() == 0 {
        s.len() == 0
    } else if p[0] == '*' {
        wildcard_match(p.skip(1), s) || (s.len() > 0 && wildcard_match(p, s.skip(1)))
    } else {
        s.len() > 0 && (p[0] == '?' || p[0] == s[0]) && wildcard_match(p.skip(1), s.skip(1))
    }
}

/// Calls `WildMatch::new` and `WildMatch::matches` of the crate `wildmatch`,
/// which match the whole input against a pattern in which `?` stands for
/// exactly one character and `*` for any number of them.
#[verifier::external_body]
pub(crate) fn wild_match(pattern: &str, path: &str) -> (m: bool)
    ensures
        m == wildcard_match(pattern@, path@),
{
    WildMatch::new(pattern).matches(path)
}

/// The rule that a line of an ignore file states, where it states one.
///
/// The line is trimmed. An empty line and a line that begins with `#` state
/// nothing. `!` in front makes a rule that takes a path back in; `\` in front
/// is dropped, so that the pattern can begin with `!` or `#`.
pub open spec fn parse_rule(line: Seq<char>) -> Option<RuleView> {
    let raw = trimmed(line);
    if raw.len() == 0 || raw[0] == '#' {
        None
    } else if raw[0] == '!' {
        Some((raw.skip(1), false))
    } else if raw[0] == '\\' {
        Some((raw.skip(1), true))
    } else {
        Some((raw, true))
    }
}

/// The rules that lines state, in the order of the lines.
pub open spec fn parse_rules(lines: Seq<Seq<char>>) -> Seq<RuleView>
    decreases lines.len(),
{
    if lines.len() == 0 {
        Seq::empty()
    } else {
        let before = parse_rules(lines.drop_last());
        match parse_rule(lines.last()) {
            Some(rule) => before.push(rule),
            None => before,
        }
    }
}

/// The lines of a text: what stands between its line breaks.
pub open spec fn split_lines(text: Seq<char>) -> Seq<Seq<char>>
    decreases text.len(),
    via split_lines_terminates
{
    let at = find_char(text, '\n', 0);
    if at >= text.len() {
        seq![text]
    } else {
        seq![text.take(at)] + split_lines(text.skip(at + 1))
    }
}

#[via_fn]
proof fn split_lines_terminates(text: Seq<char>) {
    lemma_find_char(text, '\n', 0);
}

/// What a set of rules says of a path: what its last rule that matches the
/// path says, and nothing where none matches.
pub open spec fn last_match(rules: Seq<RuleView>, path: Seq<char>) -> Option<bool>
    decreases rules.len(),
{
    if rules.len() == 0 {
        None
    } else if wildcard_match(rules.last().0, path) {
        Some(rules.last().1)
    } else {
        last_match(rules.drop_last(), path)
    }
}

/// The position behind the last slash before `to`, or 0 where there is none.
pub open spec fn after_last_slash(p: Seq<char>, to: int) -> int
    decreases to,
{
    if to <= 0 {
        0
    } else if p[to - 1] == '/' {
        to
    } else {
        after_last_slash(p, to - 1)
    }
}

/// The directory in which a path lies: what stands before its last slash, and
/// the empty path where it has none.
pub open spec fn parent_dir(p: Seq<char>) -> Seq<char> {
    let at = after_last_slash(p, p.len() as int);
    if at == 0 {
        Seq::empty()
    } else {
        p.take(at - 1)
    }
}

/// The set of the directory `dir`: the last one that is listed for it.
pub open spec fn rules_for(scoped: Seq<(Seq<char>, Seq<RuleView>)>, dir: Seq<char>) -> Option<
    Seq<RuleView>,
>
    decreases scoped.len(),
{
    if scoped.len() == 0 {
        None
    } else if scoped.last().0 == dir {
        Some(scoped.last().1)
    } else {
        rules_for(scoped.drop_last(), dir)
    }
}

/// What the set of the directory `dir` says of a path.
pub open spec fn dir_says(scoped: Seq<(Seq<char>, Seq<RuleView>)>, dir: Seq<char>, path: Seq<char>) -> Option<
    bool,
> {
    match rules_for(scoped, dir) {
        None => None,
        Some(rules) => last_match(rules, path),
    }
}

/// What the sets of directories say of a path, from `dir` upwards: what the
/// set of the nearest directory says that says anything.
pub open spec fn scoped_says(
    scoped: Seq<(Seq<char>, Seq<RuleView>)>,
    dir: Seq<char>,
    path: Seq<char>,
) -> Option<bool>
    decreases dir.len(),
    via scoped_says_terminates
{
    if dir_says(scoped, dir, path) is Some {
        dir_says(scoped, dir, path)
    } else if dir.len() == 0 {
        None
    } else {
        scoped_says(scoped, parent_dir(dir), path)
    }
}

#[via_fn]
proof fn scoped_says_terminates(
    scoped: Seq<(Seq<char>, Seq<RuleView>)>,
    dir: Seq<char>,
    path: Seq<char>,
) {
    lemma_after_last_slash(dir, dir.len() as int);
}

/// The position behind the last slash lies within the path.
pub proof fn lemma_after_last_slash(p: Seq<char>, to: int)
    requires
        0 <= to <= p.len(),
    ensures
        0 <= after_last_slash(p, to) <= to,
        after_last_slash(p, to) > 0 ==> p[after_last_slash(p, to) - 1] == '/',
    decreases to,
{
    if to > 0 && p[to - 1] != '/' {
        lemma_after_last_slash(p, to - 1);
    }
}

/// What the sets that hold everywhere say of a path: what the first set says
/// that says anything.
pub open spec fn absolute_says(sets: Seq<Seq<RuleView>>, path: Seq<char>) -> Option<bool>
    decreases sets.len(),
{
    if sets.len() == 0 {
        None
    } else if last_match(sets[0], path) is Some {
        last_match(sets[0], path)
    } else {
        absolute_says(sets.skip(1), path)
    }
}

/// Whether a path is ignored: as the sets of its directories say, the
/// nearest first; where they say nothing, as the sets that hold everywhere
/// say; and not ignored where those say nothing either.
pub open spec fn is_ignored(
    absolute: Seq<Seq<RuleView>>,
    scoped: Seq<(Seq<char>, Seq<RuleView>)>,
    path: Seq<char>,
) -> bool {
    match scoped_says(scoped, parent_dir(path), path) {
        Some(v) => v,
        None => match absolute_says(absolute, path) {
            Some(v) => v,
            None => false,
        },
    }
}

/// Within a set the last rule that matches decides: a matching rule at the
/// end of a set is what the set says.
pub proof fn lemma_last_rule_wins(rules: Seq<RuleView>, rule: RuleView, path: Seq<char>)
    requires
        wildcard_match(rule.0, path),
    ensures
        last_match(rules.push(rule), path) == Some(rule.1),
{
}

/// A rule that does not match the path changes nothing.
pub proof fn lemma_other_rule_is_skipped(rules: Seq<RuleView>, rule: RuleView, path: Seq<char>)
    requires
        !wildcard_match(rule.0, path),
    ensures
        last_match(rules.push(rule), path) == last_match(rules, path),
{
    assert(rules.push(rule).drop_last() == rules);
}

/// The set of a nearer directory overrides those of the directories above
/// it and the sets that hold everywhere: where the set of `dir` says something
/// of the path, that is what the sets of directories say from `dir` upwards,
/// whatever the other sets hold.
pub proof fn lemma_nearer_directory_wins(
    scoped: Seq<(Seq<char>, Seq<RuleView>)>,
    dir: Seq<char>,
    path: Seq<char>,
)
    requires
        dir_says(scoped, dir, path) is Some,
    ensures
        scoped_says(scoped, dir, path) == dir_says(scoped, dir, path),
{
}

/// Where the set of a directory says nothing of the path, the directories
/// above it are asked.
pub proof fn lemma_farther_directory_is_asked(
    scoped: Seq<(Seq<char>, Seq<RuleView>)>,
    dir: Seq<char>,
    path: Seq<char>,
)
    requires
        dir_says(scoped, dir, path) is None,
        dir.len() > 0,
    ensures
        scoped_says(scoped, dir, path) == scoped_says(scoped, parent_dir(dir), path),
{
}

/// The sets of directories override the sets that hold everywhere: where
/// they say something of the path, that decides, whatever the other sets hold.
pub proof fn lemma_directories_override_absolute(
    absolute: Seq<Seq<RuleView>>,
    scoped: Seq<(Seq<char>, Seq<RuleView>)>,
    path: Seq<char>,
)
    requires
        scoped_says(scoped, parent_dir(path), path) is Some,
    ensures
        is_ignored(absolute, scoped, path) == scoped_says(scoped, parent_dir(path), path)->0,
{
}

impl GitIgnore {
    /// The rules made of the sets that hold everywhere and the sets of
    /// directories.
    pub fn new(
        absolute: Vec<Vec<(String, bool)>>,
        scoped: Vec<(String, Vec<(String, bool)>)>,
    ) -> (rules: GitIgnore)
        ensures
            rules.absolute == absolute,
            rules.scoped == scoped,
    {
        GitIgnore { absolute, scoped }
    }
}

/// Reads the rule that a line states.
pub fn gitignore_parse1(raw: &str) -> (r: Option<(String, bool)>)
    ensures
        match parse_rule(raw@) {
            Some(rule) => r is Some && r.unwrap().0@ == rule.0 && r.unwrap().1 == rule.1,
            None => r is None,
        },
{
    let raw = trim(raw);
    let n = raw.unicode_len();
    if n == 0 {
        return None;
    }
    let first = raw.get_char(0);
    if first == '#' {
        None
    } else if first == '!' {
        let rest = raw.substring_char(1, n);
        assert(raw@.subrange(1, n as int) == raw@.skip(1));
        Some((String::from_str(rest), false))
    } else if first == '\\' {
        let rest = raw.substring_char(1, n);
        assert(raw@.subrange(1, n as int) == raw@.skip(1));
        Some((String::from_str(rest), true))
    } else {
        Some((String::from_str(raw), true))
    }
}

/// Reads the rules that lines state.
pub fn gitignore_parse(lines: &[&str]) -> (rules: Vec<(String, bool)>)
    ensures
        rules_view(rules@) == parse_rules(Seq::new(lines@.len(), |i: int| lines@[i]@)),
{
    let ghost all = Seq::new(lines@.len(), |i: int| lines@[i]@);
    let mut rules: Vec<(String, bool)> = Vec::new();
    let mut i: usize = 0;
    assert(rules_view(rules@) == Seq::<RuleView>::empty());
    while i < lines.len()
        invariant
            i <= lines@.len(),
            all == Seq::new(lines@.len(), |i: int| lines@[i]@),
            rules_view(rules@) == parse_rules(all.take(i as int)),
        decreases lines@.len() - i,
    {
        proof {
            assert(all.take(i + 1).drop_last() == all.take(i as int));
            assert(all.take(i + 1).last() == lines@[i as int]@);
        }
        let ghost before = rules_view(rules@);
        match gitignore_parse1(lines[i]) {
            Some(rule) => {
                let ghost rv = (rule.0@, rule.1);
                rules.push(rule);
                assert(rules_view(rules@) == before.push(rv));
            },
            None => {},
        }
        i += 1;
    }
    proof {
        assert(all.take(i as int) == all);
    }
    rules
}

/// Splits a text at its line breaks.
pub fn lines_of(text: &str) -> (lines: Vec<&str>)
    ensures
        Seq::new(lines@.len(), |i: int| lines@[i]@) == split_lines(text@),
{
    let chars = chars_of(text);
    let mut lines: Vec<&str> = Vec::new();
    let mut start: usize = 0;
    assert(text@.skip(0) == text@);
    loop
        invariant
            start <= chars@.len(),
            chars@ == text@,
            split_lines(text@) == Seq::new(lines@.len(), |i: int| lines@[i]@) + split_lines(
                text@.skip(start as int),
            ),
        decreases chars@.len() - start,
    {
        let ghost done = Seq::new(lines@.len(), |i: int| lines@[i]@);
        let ghost rest = text@.skip(start as int);
        let at = find_char_from(chars.as_slice(), '\n', start);
        proof {
            lemma_find_char_skip(text@, '\n', start as int, start as int);
        }
        let line = text.substring_char(start, at);
        assert(line@ == rest.take(at - start));
        lines.push(line);
        assert(Seq::new(lines@.len(), |i: int| lines@[i]@) == done.push(line@));
        if at >= chars.len() {
            assert(rest.take(at - start) == rest);
            assert(done.push(line@) == done + seq![rest]);
            return lines;
        }
        proof {
            assert(rest.skip(at - start + 1) == text@.skip(at + 1));
            assert(done + (seq![line@] + split_lines(text@.skip(at + 1))) == done.push(line@)
                + split_lines(text@.skip(at + 1)));
        }
        start = at + 1;
    }
}

/// What a set of rules says of a path.
pub fn check_ignore1(rules: &[(String, bool)], path: &str) -> (r: Option<bool>)
    ensures
        r == last_match(rules_view(rules@), path@),
{
    let ghost rv = rules_view(rules@);
    let mut i: usize = rules.len();
    assert(rv.take(i as int) == rv);
    while i > 0
        invariant
            i <= rules@.len(),
            rv == rules_view(rules@),
            last_match(rv, path@) == last_match(rv.take(i as int), path@),
        decreases i,
    {
        proof {
            assert(rv.take(i as int).drop_last() == rv.take(i - 1));
            assert(rv.take(i as int).last() == rv[i - 1]);
        }
        if wild_match(rules[i - 1].0.as_str(), path) {
            return Some(rules[i - 1].1);
        }
        i -= 1;
    }
    None
}

/// The set of the directory `dir`.
fn scoped_rules<'a>(scoped: &'a Vec<(String, Vec<(String, bool)>)>, dir: &str) -> (r: Option<
    &'a Vec<(String, bool)>,
>)
    ensures
        match rules_for(scoped_view(scoped@), dir@) {
            Some(rules) => r is Some && rules_view(r->0@) == rules,
            None => r is None,
        },
{
    let ghost sv = scoped_view(scoped@);
    let mut i: usize = scoped.len();
    assert(sv.take(i as int) == sv);
    while i > 0
        invariant
            i <= scoped@.len(),
            sv == scoped_view(scoped@),
            rules_for(sv, dir@) == rules_for(sv.take(i as int), dir@),
        decreases i,
    {
        proof {
            assert(sv.take(i as int).drop_last() == sv.take(i - 1));
            assert(sv.take(i as int).last() == sv[i - 1]);
        }
        if str_eq(scoped[i - 1].0.as_str(), dir) {
            return Some(&scoped[i - 1].1);
        }
        i -= 1;
    }
    None
}

/// The length of the directory in which the first `len` characters of a path
/// lie.
fn parent_len(chars: &[char], len: usize) -> (at: usize)
    requires
        len <= chars@.len(),
    ensures
        at <= len,
        len > 0 ==> at < len,
        chars@.take(at as int) == parent_dir(chars@.take(len as int)),
{
    let ghost p = chars@.take(len as int);
    let mut to: usize = len;
    while to > 0 && chars[to - 1] != '/'
        invariant
            to <= len <= chars@.len(),
            p == chars@.take(len as int),
            after_last_slash(p, len as int) == after_last_slash(p, to as int),
        decreases to,
    {
        to -= 1;
    }
    if to == 0 {
        assert(chars@.take(0) == Seq::<char>::empty());
        0
    } else {
        assert(chars@.take(to - 1) == p.take(to - 1));
        to - 1
    }
}

/// What the sets of directories say of a path.
pub fn check_ignore_scoped(rules: &Vec<(String, Vec<(String, bool)>)>, path: &str) -> (r: Option<
    bool,
>)
    ensures
        r == scoped_says(scoped_view(rules@), parent_dir(path@), path@),
{
    let chars = chars_of(path);
    let mut len: usize = parent_len(chars.as_slice(), chars.len());
    assert(chars@.take(chars@.len() as int) == chars@);
    loop
        invariant
            len <= chars@.len(),
            chars@ == path@,
            scoped_says(scoped_view(rules@), parent_dir(path@), path@) == scoped_says(
                scoped_view(rules@),
                chars@.take(len as int),
                path@,
            ),
        decreases len,
    {
        let dir = path.substring_char(0, len);
        assert(dir@ == chars@.take(len as int));
        match scoped_rules(rules, dir) {
            Some(set) => {
                match check_ignore1(set.as_slice(), path) {
                    Some(v) => { return Some(v); },
                    None => {},
                }
            },
            None => {},
        }
        if len == 0 {
            return None;
        }
        len = parent_len(chars.as_slice(), len);
    }
}

/// What the sets that hold everywhere say of a path; not ignored where they
/// say nothing.
pub fn check_ignore_absolute(rules: &[Vec<(String, bool)>], path: &str) -> (ignored: bool)
    ensures
        ignored == match absolute_says(absolute_view(rules@), path@) {
            Some(v) => v,
            None => false,
        },
{
    let ghost av = absolute_view(rules@);
    let mut i: usize = 0;
    assert(av.skip(0) == av);
    while i < rules.len()
        invariant
            i <= rules@.len(),
            av == absolute_view(rules@),
            absolute_says(av, path@) == absolute_says(av.skip(i as int), path@),
        decreases rules@.len() - i,
    {
        proof {
            assert(av.skip(i as int)[0] == av[i as int]);
            assert(av.skip(i as int).skip(1) == av.skip(i + 1));
        }
        match check_ignore1(rules[i].as_slice(), path) {
            Some(v) => { return v; },
            None => {},
        }
        i += 1;
    }
    false
}

/// Whether a path of the working tree is ignored. The path is given from the
/// root of the working tree; `OutsideWorktree` where it begins with a slash.
///
/// A pattern is held against the whole path from the root, also where it
/// comes from the ignore file of a directory, and it knows `*` and `?` only:
/// character classes are not read as such.
pub fn check_ignore(rules: &GitIgnore, path: &str) -> (r: Result<bool, GitError>)
    ensures
        r == if path@.len() > 0 && path@[0] == '/' {
            Err::<bool, GitError>(GitError::OutsideWorktree)
        } else {
            Ok::<bool, GitError>(
                is_ignored(absolute_view(rules.absolute@), scoped_view(rules.scoped@), path@),
            )
        },
{
    if !path.is_empty() && path.get_char(0) == '/' {
        return Err(GitError::OutsideWorktree);
    }
    match check_ignore_scoped(&rules.scoped, path) {
        Some(v) => Ok(v),
        None => Ok(check_ignore_absolute(rules.absolute.as_slice(), path)),
    }
}

/// The rules that the bytes of an ignore file state; `IoFailure` where the
/// bytes are no text.
pub open spec fn file_rules(bytes: Seq<u8>) -> Result<Seq<RuleView>, GitError> {
    match text_of(bytes) {
        None => Err(GitError::IoFailure),
        Some(text) => Ok(parse_rules(split_lines(text))),
    }
}

/// Whether a path of the index is that of an ignore file: `.gitignore` in the
/// root or in a directory.
pub open spec fn is_ignore_file(path: Seq<char>) -> bool {
    ||| path == ".gitignore"@
    ||| (path.len() >= 11 && path.skip(path.len() - 11) == "/.gitignore"@)
}

/// The set of rules that an entry of the index gives, with its directory:
/// none where the entry is no ignore file; otherwise the rules that the
/// entry's object states, or the error of reading it.
pub open spec fn entry_rules(store: &FileStore, e: EntryView) -> Option<
    Result<(Seq<char>, Seq<RuleView>), GitError>,
> {
    if !is_ignore_file(e.path) {
        None
    } else {
        Some(
            match stored_object(store, e.sha) {
                Err(err) => Err(err),
                Ok(v) => match file_rules(view_payload(v)) {
                    Err(err) => Err(err),
                    Ok(rules) => Ok((parent_dir(e.path), rules)),
                },
            },
        )
    }
}

/// The sets of directories that the ignore files of an index give, in the
/// order of the index; the first error of reading one where there is one.
pub open spec fn index_rules(store: &FileStore, es: Seq<EntryView>) -> Result<
    Seq<(Seq<char>, Seq<RuleView>)>,
    GitError,
>
    decreases es.len(),
{
    if es.len() == 0 {
        Ok(Seq::empty())
    } else {
        match index_rules(store, es.drop_last()) {
            Err(e) => Err(e),
            Ok(before) => match entry_rules(store, es.last()) {
                None => Ok(before),
                Some(Err(e)) => Err(e),
                Some(Ok(set)) => Ok(before.push(set)),
            },
        }
    }
}

/// The sets that hold everywhere: that of `info/exclude`, where the
/// repository has that file, and that of the user's ignore file, where the
/// user has one.
pub open spec fn absolute_rules(store: &FileStore, global: Option<Seq<char>>) -> Result<
    Seq<Seq<RuleView>>,
    GitError,
> {
    let first = match store.content("info/exclude"@) {
        None => Ok(Seq::<Seq<RuleView>>::empty()),
        Some(bytes) => match file_rules(bytes) {
            Err(e) => Err(e),
            Ok(rules) => Ok(seq![rules]),
        },
    };
    match first {
        Err(e) => Err(e),
        Ok(sets) => match global {
            None => Ok(sets),
            Some(text) => Ok(sets.push(parse_rules(split_lines(text)))),
        },
    }
}

/// The entries of the index of a store; none where it has no index.
pub open spec fn stored_index(store: &FileStore) -> Result<Seq<EntryView>, GitError> {
    match store.content(index_file()) {
        None => Ok(Seq::empty()),
        Some(bytes) => match index_parse(bytes) {
            Some(es) => Ok(es),
            None => Err(GitError::CorruptIndex),
        },
    }
}

/// The ignore rules of a repository: the sets that hold everywhere and the
/// sets of directories, or the first error of reading them.
pub open spec fn rules_spec(store: &FileStore, global: Option<Seq<char>>) -> Result<
    (Seq<Seq<RuleView>>, Seq<(Seq<char>, Seq<RuleView>)>),
    GitError,
> {
    match absolute_rules(store, global) {
        Err(e) => Err(e),
        Ok(absolute) => match stored_index(store) {
            Err(e) => Err(e),
            Ok(es) => match index_rules(store, es) {
                Err(e) => Err(e),
                Ok(scoped) => Ok((absolute, scoped)),
            },
        },
    }
}

/// What is given of the user's ignore file, as a mathematical value.
pub open spec fn given_text(global: Option<&str>) -> Option<Seq<char>> {
    match global {
        Some(text) => Some(text@),
        None => None,
    }
}

/// Reads the rules that the bytes of an ignore file state.
pub fn read_rules(bytes: &[u8]) -> (r: Result<Vec<(String, bool)>, GitError>)
    ensures
        match file_rules(bytes@) {
            Ok(rules) => r is Ok && rules_view(r->Ok_0@) == rules,
            Err(e) => r == Err::<Vec<(String, bool)>, GitError>(e),
        },
{
    match bytes_to_text(bytes) {
        None => Err(GitError::IoFailure),
        Some(text) => {
            let lines = lines_of(text);
            Ok(gitignore_parse(lines.as_slice()))
        },
    }
}

/// Whether a path of the index is that of an ignore file.
fn ignore_file_path(chars: &[char]) -> (yes: bool)
    ensures
        yes == is_ignore_file(chars@),
{
    proof {
        reveal_strlit(".gitignore");
        reveal_strlit("/.gitignore");
    }
    let name: [char; 11] = ['/', '.', 'g', 'i', 't', 'i', 'g', 'n', 'o', 'r', 'e'];
    assert(name@ =~= "/.gitignore"@);
    assert(name@.skip(1) =~= ".gitignore"@);
    let n = chars.len();
    if n == 10 {
        let mut i: usize = 0;
        while i < 10
            invariant
                i <= 10,
                n == 10,
                n == chars@.len(),
                name@.skip(1) == ".gitignore"@,
                name@.len() == 11,
                forall|j: int| 0 <= j < i ==> chars@[j] == name@[j + 1],
            decreases 10 - i,
        {
            if chars[i] != name[i + 1] {
                assert(name@.skip(1)[i as int] == name@[i + 1]);
                assert(chars@[i as int] != ".gitignore"@[i as int]);
                return false;
            }
            i += 1;
        }
        assert(chars@ =~= ".gitignore"@);
        true
    } else if n >= 11 {
        let mut i: usize = 0;
        while i < 11
            invariant
                i <= 11,
                n >= 11,
                n == chars@.len(),
                name@ == "/.gitignore"@,
                name@.len() == 11,
                ".gitignore"@.len() == 10,
                forall|j: int| 0 <= j < i ==> chars@[n - 11 + j] == name@[j],
            decreases 11 - i,
        {
            if chars[n - 11 + i] != name[i] {
                assert(chars@.skip(n - 11)[i as int] != "/.gitignore"@[i as int]);
                return false;
            }
            i += 1;
        }
        assert(chars@.skip(n - 11) =~= "/.gitignore"@);
        true
    } else {
        false
    }
}

/// Reads the ignore rules of a repository: `info/exclude`, the user's ignore
/// file, whose text is `global` where the user has one, and the ignore files
/// that the index lists, each for its directory.
///
/// `IoFailure` where an ignore file is no text, `CorruptIndex` where the
/// index is none, and the error of reading an ignore file's object where that
/// cannot be read.
pub fn gitignore_read(repo: &GitRepository, global: Option<&str>) -> (r: Result<GitIgnore, GitError>)
    ensures
        match rules_spec(&repo.store, given_text(global)) {
            Err(e) => r == Err::<GitIgnore, GitError>(e),
            Ok((absolute, scoped)) => {
                &&& r is Ok
                &&& absolute_view(r->Ok_0.absolute@) == absolute
                &&& scoped_view(r->Ok_0.scoped@) == scoped
            },
        },
{
    let mut absolute: Vec<Vec<(String, bool)>> = Vec::new();
    assert(absolute_view(absolute@) == Seq::<Seq<RuleView>>::empty());
    match repo.store.read("info/exclude") {
        None => {},
        Some(bytes) => {
            match read_rules(bytes.as_slice()) {
                Err(e) => { return Err(e); },
                Ok(rules) => {
                    let ghost rv = rules_view(rules@);
                    absolute.push(rules);
                    assert(absolute_view(absolute@) == seq![rv]);
                },
            }
        },
    }
    match global {
        None => {},
        Some(text) => {
            let ghost before = absolute_view(absolute@);
            let lines = lines_of(text);
            let rules = gitignore_parse(lines.as_slice());
            let ghost rv = rules_view(rules@);
            absolute.push(rules);
            assert(absolute_view(absolute@) == before.push(rv));
        },
    }
    let index = match read_index(repo) {
        Err(e) => { return Err(e); },
        Ok(index) => index,
    };
    let ghost es = index@;
    assert(stored_index(&repo.store) == Ok::<Seq<EntryView>, GitError>(es)) by {
        if repo.store.content(index_file()) is None {
            assert(es == Seq::<EntryView>::empty());
        }
    }
    let ghost given = match global {
        Some(text) => Some(text@),
        None => None,
    };
    assert(absolute_rules(&repo.store, given) == Ok::<Seq<Seq<RuleView>>, GitError>(
        absolute_view(absolute@),
    ));
    let mut scoped: Vec<(String, Vec<(String, bool)>)> = Vec::new();
    let mut i: usize = 0;
    assert(scoped_view(scoped@) == Seq::<(Seq<char>, Seq<RuleView>)>::empty());
    while i < index.entries.len()
        invariant
            i <= index.entries@.len(),
            es == index@,
            given == match global {
                Some(text) => Some(text@),
                None => None,
            },
            absolute_rules(&repo.store, given) == Ok::<Seq<Seq<RuleView>>, GitError>(
                absolute_view(absolute@),
            ),
            stored_index(&repo.store) == Ok::<Seq<EntryView>, GitError>(es),
            index_rules(&repo.store, es.take(i as int)) == Ok::<
                Seq<(Seq<char>, Seq<RuleView>)>,
                GitError,
            >(scoped_view(scoped@)),
        decreases index.entries@.len() - i,
    {
        proof {
            assert(es.take(i + 1).drop_last() == es.take(i as int));
            assert(es.take(i + 1).last() == index.entries@[i as int]@);
        }
        let entry = &index.entries[i];
        let chars = chars_of(entry.path.as_str());
        if ignore_file_path(chars.as_slice()) {
            let at = parent_len(chars.as_slice(), chars.len());
            assert(chars@.take(chars@.len() as int) == chars@);
            let dir = entry.path.as_str().substring_char(0, at);
            assert(dir@ == parent_dir(entry@.path));
            let obj = match object_read(repo, entry.sha.as_str()) {
                Err(e) => {
                    proof {
                        lemma_index_rules_fail(&repo.store, es, i as int);
                    }
                    return Err(e);
                },
                Ok((_, obj)) => obj,
            };
            let payload = obj.serialize();
            let rules = match read_rules(payload.as_slice()) {
                Err(e) => {
                    proof {
                        lemma_index_rules_fail(&repo.store, es, i as int);
                    }
                    return Err(e);
                },
                Ok(rules) => rules,
            };
            let ghost before = scoped_view(scoped@);
            let ghost set = (dir@, rules_view(rules@));
            scoped.push((String::from_str(dir), rules));
            assert(scoped_view(scoped@) == before.push(set));
        }
        i += 1;
    }
    proof {
        assert(es.take(i as int) == es);
    }
    Ok(GitIgnore { absolute, scoped })
}

/// Where the ignore file of one entry cannot be read, and those before it
/// can, that is the error of reading the rules of the index.
pub proof fn lemma_index_rules_fail(store: &FileStore, es: Seq<EntryView>, at: int)
    requires
        0 <= at < es.len(),
        index_rules(store, es.take(at)) is Ok,
        entry_rules(store, es[at]) is Some,
        entry_rules(store, es[at])->0 is Err,
    ensures
        index_rules(store, es) == Err::<Seq<(Seq<char>, Seq<RuleView>)>, GitError>(
            entry_rules(store, es[at])->0->Err_0,
        ),
    decreases es.len(),
{
    if at < es.len() - 1 {
        assert(es.drop_last().take(at) == es.take(at));
        lemma_index_rules_fail(store, es.drop_last(), at);
    } else {
        assert(es.drop_last() == es.take(at));
    }
}

} // verus!
