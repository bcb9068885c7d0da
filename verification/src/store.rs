//! The files of a repository directory, held in memory: each file under its
//! path relative to that directory, with `/` between the components. The
//! caller loads them before a command and writes back what the command
//! changed.

use vstd::prelude::*;
use vstd::string::StrSliceExecFns;
use crate::text::{chars_of, chars_start_with, find_char, find_char_from, starts_with, str_eq};

verus! {

/// The separator of path components.
pub const SLASH: char = '/';

/// A set of files and of directories.
#[derive(Debug, Clone)]
pub struct FileStore {
    /// The files as `(path, content)`. The first entry of a path is the file.
    pub files: Vec<(String, Vec<u8>)>,
    /// The directories that were made on their own account; a file's
    /// directories need not be listed.
    pub dirs: Vec<String>,
}

/// The position of the first entry of `path` at or after `from`, or
/// `files.len()` where there is none.
pub open spec fn file_position(files: Seq<(String, Vec<u8>)>, path: Seq<char>, from: int) -> int
    decreases files.len() - from,
{
    if from >= files.len() {
        files.len() as int
    } else if files[from].0@ == path {
        from
    } else {
        file_position(files, path, from + 1)
    }
}

/// What the file at `path` holds, where there is one.
pub open spec fn file_content(files: Seq<(String, Vec<u8>)>, path: Seq<char>) -> Option<Seq<u8>> {
    let at = file_position(files, path, 0);
    if at < files.len() {
        Some(files[at].1@)
    } else {
        None
    }
}

/// The files of a store as mathematical values: path and content.
pub type FilesView = Seq<(Seq<char>, Seq<u8>)>;

/// The files of a store as mathematical values.
pub open spec fn files_view(files: Seq<(String, Vec<u8>)>) -> FilesView {
    Seq::new(files.len(), |i: int| (files[i].0@, files[i].1@))
}

/// The position of the first entry of `path` at or after `from`, or the
/// number of entries where there is none.
pub open spec fn view_position(v: FilesView, path: Seq<char>, from: int) -> int
    decreases v.len() - from,
{
    if from >= v.len() {
        v.len() as int
    } else if v[from].0 == path {
        from
    } else {
        view_position(v, path, from + 1)
    }
}

/// What the file at `path` holds, where there is one.
pub open spec fn view_content(v: FilesView, path: Seq<char>) -> Option<Seq<u8>> {
    let at = view_position(v, path, 0);
    if at < v.len() {
        Some(v[at].1)
    } else {
        None
    }
}

/// The files after `data` is written to `path`: in the place of the file
/// that is there, or behind all files where there is none.
pub open spec fn view_put(v: FilesView, path: Seq<char>, data: Seq<u8>) -> FilesView {
    let at = view_position(v, path, 0);
    if at < v.len() {
        v.update(at, (path, data))
    } else {
        v.push((path, data))
    }
}

/// The files as values say of positions and contents what the files say.
pub proof fn lemma_files_view(files: Seq<(String, Vec<u8>)>, path: Seq<char>, from: int)
    requires
        0 <= from <= files.len(),
    ensures
        view_position(files_view(files), path, from) == file_position(files, path, from),
        from == 0 ==> view_content(files_view(files), path) == file_content(files, path),
    decreases files.len() - from,
{
    if from < files.len() && files[from].0@ != path {
        lemma_files_view(files, path, from + 1);
    }
    if from == 0 {
        lemma_file_position(files, path, 0);
    }
}

/// The name of a file that lies directly in `dir`: what follows `dir` and a
/// slash in `path`, where that holds no further slash. `None` for a path
/// elsewhere.
pub open spec fn name_in_dir(path: Seq<char>, dir: Seq<char>) -> Option<Seq<char>> {
    let name = path.skip(dir.len() as int + 1);
    if starts_with(path, dir.push(SLASH)) && find_char(name, SLASH, 0) >= name.len() {
        Some(name)
    } else {
        None
    }
}

/// The names of the files that lie directly in `dir`, in the order of the
/// entries.
pub open spec fn names_in_dir(files: Seq<(String, Vec<u8>)>, dir: Seq<char>) -> Seq<Seq<char>>
    decreases files.len(),
{
    if files.len() == 0 {
        Seq::empty()
    } else {
        let before = names_in_dir(files.drop_last(), dir);
        match name_in_dir(files.last().0@, dir) {
            Some(name) => before.push(name),
            None => before,
        }
    }
}

/// The paths of the files that lie in `dir` or below it, in the order of the
/// entries.
pub open spec fn paths_below(files: Seq<(String, Vec<u8>)>, dir: Seq<char>) -> Seq<Seq<char>>
    decreases files.len(),
{
    if files.len() == 0 {
        Seq::empty()
    } else {
        let before = paths_below(files.drop_last(), dir);
        if starts_with(files.last().0@, dir.push(SLASH)) {
            before.push(files.last().0@)
        } else {
            before
        }
    }
}

/// `file_position` returns the first entry of the path.
pub proof fn lemma_file_position(files: Seq<(String, Vec<u8>)>, path: Seq<char>, from: int)
    requires
        0 <= from <= files.len(),
    ensures
        from <= file_position(files, path, from) <= files.len(),
        file_position(files, path, from) < files.len() ==> files[file_position(
            files,
            path,
            from,
        )].0@ == path,
        forall|j: int| from <= j < file_position(files, path, from) ==> files[j].0@ != path,
    decreases files.len() - from,
{
    if from < files.len() && files[from].0@ != path {
        lemma_file_position(files, path, from + 1);
    }
}

/// An entry of the path, with none before it, is where `file_position` stops.
pub proof fn lemma_file_position_is(
    files: Seq<(String, Vec<u8>)>,
    path: Seq<char>,
    from: int,
    at: int,
)
    requires
        0 <= from <= at <= files.len(),
        at < files.len() ==> files[at].0@ == path,
        forall|j: int| from <= j < at ==> files[j].0@ != path,
    ensures
        file_position(files, path, from) == at,
    decreases at - from,
{
    if from < at {
        lemma_file_position_is(files, path, from + 1, at);
    }
}

impl FileStore {
    /// What the file at `path` holds, where there is one.
    pub open spec fn content(&self, path: Seq<char>) -> Option<Seq<u8>> {
        file_content(self.files@, path)
    }

    /// The store has a file wherever `old` has one.
    pub open spec fn keeps(&self, old: &FileStore) -> bool {
        forall|p: Seq<char>| #[trigger] old.content(p) is Some ==> self.content(p) is Some
    }

    /// The files as mathematical values.
    pub open spec fn listing(&self) -> FilesView {
        files_view(self.files@)
    }

    /// The store keeps every file of `old` as it was.
    pub open spec fn extends(&self, old: &FileStore) -> bool {
        forall|p: Seq<char>| #[trigger] old.content(p) is Some ==> self.content(p) == old.content(p)
    }

    /// A store without files or directories.
    pub fn new() -> (s: FileStore)
        ensures
            s.files@.len() == 0,
            s.dirs@.len() == 0,
            forall|p: Seq<char>| s.content(p) is None,
    {
        FileStore { files: Vec::new(), dirs: Vec::new() }
    }

    /// The position of the file at `path`, or the number of entries where
    /// there is none.
    fn position(&self, path: &str) -> (at: usize)
        ensures
            at == file_position(self.files@, path@, 0),
            at <= self.files@.len(),
    {
        let mut i: usize = 0;
        while i < self.files.len()
            invariant
                i <= self.files@.len(),
                file_position(self.files@, path@, 0) == file_position(self.files@, path@, i as int),
            decreases self.files@.len() - i,
        {
            if str_eq(self.files[i].0.as_str(), path) {
                return i;
            }
            i += 1;
        }
        i
    }

    /// The content of the file at `path`.
    pub fn read(&self, path: &str) -> (data: Option<&Vec<u8>>)
        ensures
            match self.content(path@) {
                Some(c) => data is Some && data->0@ == c,
                None => data is None,
            },
    {
        let at = self.position(path);
        if at < self.files.len() {
            Some(&self.files[at].1)
        } else {
            None
        }
    }

    /// Whether there is a file at `path`.
    pub fn contains(&self, path: &str) -> (yes: bool)
        ensures
            yes == self.content(path@) is Some,
    {
        self.position(path) < self.files.len()
    }

    /// Writes a file, in the place of the one that is at `path` if there is one.
    pub fn write(&mut self, path: String, data: Vec<u8>)
        ensures
            final(self).content(path@) == Some(data@),
            forall|p: Seq<char>| p != path@ ==> final(self).content(p) == old(self).content(p),
            final(self).dirs == old(self).dirs,
            final(self).files@ == if file_position(old(self).files@, path@, 0) < old(
                self,
            ).files@.len() {
                old(self).files@.update(file_position(old(self).files@, path@, 0), (path, data))
            } else {
                old(self).files@.push((path, data))
            },
            final(self).listing() == view_put(old(self).listing(), path@, data@),
    {
        let at = self.position(path.as_str());
        let ghost before = self.files@;
        let ghost new_path = path@;
        proof {
            lemma_file_position(before, new_path, 0);
        }
        if at < self.files.len() {
            self.files.set(at, (path, data));
        } else {
            self.files.push((path, data));
        }
        proof {
            let after = self.files@;
            lemma_files_view(before, new_path, 0);
            assert(files_view(after) =~= view_put(files_view(before), new_path, data@));
            lemma_file_position_is(after, new_path, 0, at as int);
            assert forall|p: Seq<char>| p != new_path implies file_content(after, p)
                == file_content(before, p) by {
                lemma_file_position(before, p, 0);
                let k = file_position(before, p, 0);
                if k < before.len() {
                    lemma_file_position_is(after, p, 0, k);
                } else {
                    lemma_file_position_is(after, p, 0, after.len() as int);
                }
            }
        }
    }

    /// Makes a directory.
    pub fn add_dir(&mut self, dir: String)
        ensures
            final(self).files == old(self).files,
            final(self).dirs@ == old(self).dirs@.push(dir),
    {
        self.dirs.push(dir);
    }

    /// The names of the files that lie directly in `dir`.
    pub fn names_in(&self, dir: &str) -> (names: Vec<&str>)
        ensures
            names@.len() == names_in_dir(self.files@, dir@).len(),
            forall|i: int| 0 <= i < names@.len() ==> names@[i]@ == names_in_dir(self.files@, dir@)[i],
    {
        let mut prefix = chars_of(dir);
        prefix.push(SLASH);
        let mut names: Vec<&str> = Vec::new();
        let mut i: usize = 0;
        while i < self.files.len()
            invariant
                i <= self.files@.len(),
                prefix@ == dir@.push(SLASH),
                names@.len() == names_in_dir(self.files@.take(i as int), dir@).len(),
                forall|j: int|
                    0 <= j < names@.len() ==> names@[j]@ == names_in_dir(
                        self.files@.take(i as int),
                        dir@,
                    )[j],
            decreases self.files@.len() - i,
        {
            proof {
                assert(self.files@.take(i + 1).drop_last() == self.files@.take(i as int));
                assert(self.files@.take(i + 1).last() == self.files@[i as int]);
            }
            let path = chars_of(self.files[i].0.as_str());
            if chars_start_with(path.as_slice(), prefix.as_slice()) {
                let start = prefix.len();
                let slash = find_char_from(path.as_slice(), SLASH, start);
                proof {
                    lemma_find_char_skip(path@, SLASH, start as int, start as int);
                }
                if slash >= path.len() {
                    let name = self.files[i].0.as_str().substring_char(start, path.len());
                    assert(name@ == path@.skip(start as int));
                    names.push(name);
                }
            }
            i += 1;
        }
        proof {
            assert(self.files@.take(i as int) == self.files@);
        }
        names
    }

    /// The paths of the files that lie in `dir` or below it.
    pub fn paths_in(&self, dir: &str) -> (paths: Vec<&str>)
        ensures
            paths@.len() == paths_below(self.files@, dir@).len(),
            forall|i: int| 0 <= i < paths@.len() ==> paths@[i]@ == paths_below(self.files@, dir@)[i],
    {
        let mut prefix = chars_of(dir);
        prefix.push(SLASH);
        let mut paths: Vec<&str> = Vec::new();
        let mut i: usize = 0;
        while i < self.files.len()
            invariant
                i <= self.files@.len(),
                prefix@ == dir@.push(SLASH),
                paths@.len() == paths_below(self.files@.take(i as int), dir@).len(),
                forall|j: int|
                    0 <= j < paths@.len() ==> paths@[j]@ == paths_below(
                        self.files@.take(i as int),
                        dir@,
                    )[j],
            decreases self.files@.len() - i,
        {
            proof {
                assert(self.files@.take(i + 1).drop_last() == self.files@.take(i as int));
                assert(self.files@.take(i + 1).last() == self.files@[i as int]);
            }
            let path = chars_of(self.files[i].0.as_str());
            if chars_start_with(path.as_slice(), prefix.as_slice()) {
                paths.push(self.files[i].0.as_str());
            }
            i += 1;
        }
        proof {
            assert(self.files@.take(i as int) == self.files@);
        }
        paths
    }
}

/// A store that keeps the files of a store that keeps the files of a third
/// keeps the files of the third.
pub proof fn lemma_extends_trans(a: &FileStore, b: &FileStore, c: &FileStore)
    requires
        b.extends(a),
        c.extends(b),
    ensures
        c.extends(a),
{
    assert forall|p: Seq<char>| #[trigger] a.content(p) is Some implies c.content(p) == a.content(
        p,
    ) by {
        assert(b.content(p) is Some);
    }
}

/// Searching in a suffix is searching in the whole, moved by the length of
/// what was cut off.
pub proof fn lemma_find_char_skip(s: Seq<char>, c: char, k: int, from: int)
    requires
        0 <= k <= from <= s.len(),
    ensures
        find_char(s, c, from) == find_char(s.skip(k), c, from - k) + k,
    decreases s.len() - from,
{
    if from < s.len() && s[from] != c {
        lemma_find_char_skip(s, c, k, from + 1);
    }
}

} // verus!
