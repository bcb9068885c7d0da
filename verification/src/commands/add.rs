//! `add`: puts files into the index and their content into the object
//! database.

use vstd::prelude::*;
use vstd::string::StrSliceExecFns;
use vstd::string::StringExecFns;
use crate::bytes::copy_range;
use crate::commands::rm::{index_without, kept_entries};
use crate::commands::status::strs_view;
use crate::error::GitError;
use crate::frame::{frame_bytes, GitObjectType};
use crate::ignore::stored_index;
use crate::index::{index_bytes, index_file, index_writable, read_index, write_index, EntryView,
    GitIndex, GitIndexEntry};
use crate::objects::{lemma_object_stored_extends, object_hash, object_name, object_path, put_object};
use crate::repo::GitRepository;
use crate::store::{lemma_extends_trans, view_put, FilesView};
use crate::text::{chars_of, chars_start_with, starts_with};

verus! {

/// A file that is to be added: its path from the root of the working tree,
/// its content, and when its metadata and its content last changed.
#[derive(Debug, Clone)]
pub struct AddedFile {
    pub path: String,
    pub data: Vec<u8>,
    pub ctime: u32,
    pub mtime: u32,
}

/// What an `AddedFile` holds, as mathematical values.
pub struct AddedFileView {
    pub path: Seq<char>,
    pub data: Seq<u8>,
    pub ctime: u32,
    pub mtime: u32,
}

impl View for AddedFile {
    type V = AddedFileView;

    open spec fn view(&self) -> AddedFileView {
        AddedFileView { path: self.path@, data: self.data@, ctime: self.ctime, mtime: self.mtime }
    }
}

/// The files of a slice as mathematical values.
pub open spec fn files_view(files: Seq<AddedFile>) -> Seq<AddedFileView> {
    Seq::new(files.len(), |i: int| files[i]@)
}

/// The mode of a regular file with the permissions `rw-r--r--`.
pub open spec fn regular_file_mode() -> u32 {
    0x81a4
}

/// The entry that the index gets for an added file: the times as given, the
/// mode of a regular file, the size in the low 32 bits of the content's
/// length, the name of the content's blob, and the path.
pub open spec fn added_entry(f: AddedFileView) -> EntryView {
    EntryView {
        ctime: f.ctime,
        ctime_ns: 0,
        mtime: f.mtime,
        mtime_ns: 0,
        dev: 0,
        ino: 0,
        mode: regular_file_mode(),
        uid: 0,
        gid: 0,
        size: (f.data.len() % 0x1_0000_0000) as u32,
        sha: object_name(GitObjectType::Blob, f.data),
        flags: 0,
        path: f.path,
    }
}

/// The entries for added files, in their order.
pub open spec fn added_entries(files: Seq<AddedFileView>) -> Seq<EntryView> {
    Seq::new(files.len(), |i: int| added_entry(files[i]))
}

/// The paths of added files, in their order.
pub open spec fn added_paths(files: Seq<AddedFileView>) -> Seq<Seq<char>> {
    Seq::new(files.len(), |i: int| files[i].path)
}

/// The index after files are added: the entries of other paths, and behind
/// them one entry for each added file.
pub open spec fn index_after_add(es: Seq<EntryView>, files: Seq<AddedFileView>) -> Seq<EntryView> {
    kept_entries(es, added_paths(files)) + added_entries(files)
}

/// The files after the contents of added files are stored as blobs, in their
/// order; `None` where one of them is not stored yet and cannot be
/// compressed.
pub open spec fn put_blobs(v: FilesView, files: Seq<AddedFileView>) -> Option<FilesView>
    decreases files.len(),
{
    if files.len() == 0 {
        Some(v)
    } else {
        match put_blobs(v, files.drop_last()) {
            None => None,
            Some(before) => put_object(before, GitObjectType::Blob, files.last().data),
        }
    }
}

/// Where the first blobs cannot be stored, all of them cannot.
pub proof fn lemma_put_blobs_fails(v: FilesView, files: Seq<AddedFileView>, upto: int)
    requires
        0 <= upto <= files.len(),
        put_blobs(v, files.take(upto)) is None,
    ensures
        put_blobs(v, files) is None,
    decreases files.len(),
{
    if upto < files.len() {
        assert(files.drop_last().take(upto) == files.take(upto));
        lemma_put_blobs_fails(v, files.drop_last(), upto);
    } else {
        assert(files.take(upto) == files);
    }
}

/// What `add` gives and does.
///
/// Where the index cannot be read, that error, and nothing changes. Where a
/// blob is not stored yet and cannot be compressed, `IoFailure`. Where the new
/// index cannot be written, `CorruptIndex`, and the blobs are stored. In all
/// other cases the blobs are stored, in the order of the files, and then the
/// index is written: the entries of other paths, and behind them one entry
/// for each added file. Whatever happens, no file but the index is changed or
/// taken away, and the index only where `add` succeeds.
pub open spec fn add_outcome(
    old: &GitRepository,
    new: &GitRepository,
    r: Result<(), GitError>,
    files: Seq<AddedFileView>,
) -> bool {
    &&& new.worktree == old.worktree
    &&& new.gitdir == old.gitdir
    &&& new.config == old.config
    &&& new.store.dirs == old.store.dirs
    &&& forall|p: Seq<char>|
        p != index_file() && #[trigger] old.store.content(p) is Some ==> new.store.content(p)
            == old.store.content(p)
    &&& match stored_index(&old.store) {
        Err(first) => r == Err::<(), GitError>(first) && new.store == old.store,
        Ok(es) => match put_blobs(old.store.listing(), files) {
            None => {
                &&& r == Err::<(), GitError>(GitError::IoFailure)
                &&& new.store.content(index_file()) == old.store.content(index_file())
            },
            Some(v) => if index_writable(index_after_add(es, files)) {
                &&& r is Ok
                &&& new.store.listing() == view_put(
                    v,
                    index_file(),
                    index_bytes(index_after_add(es, files)),
                )
                &&& new.store.content(index_file()) == Some(
                    index_bytes(index_after_add(es, files)),
                )
                &&& forall|i: int|
                    0 <= i < files.len() ==> new.store.content(
                        object_path(#[trigger] added_entries(files)[i].sha),
                    ) is Some
            } else {
                &&& r == Err::<(), GitError>(GitError::CorruptIndex)
                &&& new.store.listing() == v
                &&& new.store.content(index_file()) == old.store.content(index_file())
            },
        },
    }
}

/// The path of a file from the root of the working tree, given the path of
/// the working tree and the path of the file, both from the root of the file
/// system: what follows the working tree and a slash. `OutsideWorktree` for
/// a path that does not begin so.
pub open spec fn worktree_path_spec(worktree: Seq<char>, path: Seq<char>) -> Result<
    Seq<char>,
    GitError,
> {
    if starts_with(path, worktree.push('/')) {
        Ok(path.skip(worktree.len() as int + 1))
    } else {
        Err(GitError::OutsideWorktree)
    }
}

/// The path of a file from the root of the working tree.
pub fn worktree_path(worktree: &str, path: &str) -> (r: Result<String, GitError>)
    ensures
        match worktree_path_spec(worktree@, path@) {
            Ok(p) => r is Ok && r->Ok_0@ == p,
            Err(e) => r == Err::<String, GitError>(e),
        },
{
    let mut prefix = chars_of(worktree);
    prefix.push('/');
    let chars = chars_of(path);
    if chars_start_with(chars.as_slice(), prefix.as_slice()) {
        let rest = path.substring_char(prefix.len(), chars.len());
        assert(rest@ == path@.skip(worktree@.len() as int + 1));
        Ok(String::from_str(rest))
    } else {
        Err(GitError::OutsideWorktree)
    }
}

/// No object is stored where the index is.
pub proof fn lemma_object_path_is_not_index(name: Seq<char>)
    requires
        name.len() >= 2,
    ensures
        object_path(name) != index_file(),
{
    reveal_strlit("objects/");
    reveal_strlit("/");
    reveal_strlit("index");
    assert(object_path(name).len() == 8 + 2 + 1 + (name.len() - 2));
}

/// The entry for an added file whose blob is named `sha`.
fn entry_for(file: &AddedFile, sha: String) -> (entry: GitIndexEntry)
    requires
        sha@ == object_name(GitObjectType::Blob, file@.data),
    ensures
        entry@ == added_entry(file@),
{
    GitIndexEntry {
        ctime: file.ctime,
        ctime_ns: 0,
        mtime: file.mtime,
        mtime_ns: 0,
        dev: 0,
        ino: 0,
        mode: 0x81a4,
        uid: 0,
        gid: 0,
        size: (file.data.len() as u64 % 0x1_0000_0000) as u32,
        sha,
        flags: 0,
        path: file.path.clone(),
    }
}

/// Adds files to the index: each file's content is stored as a blob, and the
/// index gets an entry for it in the place of any entry of the same path.
///
/// `add_outcome` says when this succeeds, which error comes when, and what
/// the repository holds afterwards. The index is written last: on an error it
/// stays as it is. Files that were stored stay in any case.
#[verifier::rlimit(30)]
#[verifier::loop_isolation(false)]
pub fn add(repo: &mut GitRepository, files: &[AddedFile]) -> (r: Result<(), GitError>)
    ensures
        add_outcome(old(repo), final(repo), r, files_view(files@)),
{
    let index = match read_index(repo) {
        Err(e) => { return Err(e); },
        Ok(index) => index,
    };
    proof {
        if repo.store.content(index_file()) is None {
            assert(index@ == Seq::<EntryView>::empty());
        }
    }
    let ghost es = index@;
    let ghost fv = files_view(files@);
    let mut paths: Vec<&str> = Vec::new();
    let mut k: usize = 0;
    while k < files.len()
        invariant
            k <= files@.len(),
            paths@.len() == k,
            forall|j: int| 0 <= j < k ==> (#[trigger] paths@[j])@ == fv[j].path,
        decreases files@.len() - k,
    {
        paths.push(files[k].path.as_str());
        k += 1;
    }
    assert(strs_view(paths@) =~= added_paths(fv));
    let (kept, _) = index_without(&index, paths.as_slice());
    let mut entries = kept.entries;
    let ghost kept_view = kept_entries(es, added_paths(fv));
    assert(Seq::new(entries@.len(), |j: int| entries@[j]@) == kept_view);
    let mut i: usize = 0;
    assert(added_entries(fv).take(0) == Seq::<EntryView>::empty());
    assert(kept_view + Seq::<EntryView>::empty() == kept_view);
    while i < files.len()
        invariant
            i <= files@.len(),
            repo.worktree == old(repo).worktree,
            repo.gitdir == old(repo).gitdir,
            repo.config == old(repo).config,
            repo.store.dirs == old(repo).store.dirs,
            repo.store.extends(&old(repo).store),
            repo.store.content(index_file()) == old(repo).store.content(index_file()),
            put_blobs(old(repo).store.listing(), fv.take(i as int)) == Some(repo.store.listing()),
            Seq::new(entries@.len(), |j: int| entries@[j]@) == kept_view + added_entries(fv).take(
                i as int,
            ),
            forall|j: int|
                0 <= j < i ==> repo.store.content(
                    object_path(#[trigger] added_entries(fv)[j].sha),
                ) is Some && added_entries(fv)[j].sha.len() == 40,
        decreases files@.len() - i,
    {
        let file = &files[i];
        let ghost before_store = repo.store;
        let ghost before = Seq::new(entries@.len(), |j: int| entries@[j]@);
        let data = copy_range(file.data.as_slice(), 0, file.data.len());
        assert(data@ == file@.data);
        proof {
            assert(fv.take(i + 1).drop_last() == fv.take(i as int));
            assert(fv.take(i + 1).last() == file@);
        }
        let sha = match object_hash(repo, data, &GitObjectType::Blob) {
            Err(e) => {
                proof {
                    lemma_extends_trans(&old(repo).store, &before_store, &repo.store);
                    lemma_put_blobs_fails(old(repo).store.listing(), fv, i + 1);
                }
                return Err(e);
            },
            Ok(sha) => sha,
        };
        proof {
            lemma_object_stored_extends(
                &before_store,
                &repo.store,
                sha@,
                frame_bytes(GitObjectType::Blob, file@.data),
            );
            lemma_extends_trans(&old(repo).store, &before_store, &repo.store);
            lemma_object_path_is_not_index(sha@);
            assert(added_entries(fv)[i as int].sha == sha@);
        }
        let entry = entry_for(file, sha);
        entries.push(entry);
        proof {
            assert(Seq::new(entries@.len(), |j: int| entries@[j]@) == before.push(added_entry(fv[i as int])));
            assert(added_entries(fv).take(i + 1) == added_entries(fv).take(i as int).push(
                added_entry(fv[i as int]),
            ));
            assert(kept_view + added_entries(fv).take(i + 1) == (kept_view + added_entries(fv).take(
                i as int,
            )).push(added_entry(fv[i as int])));
        }
        i += 1;
    }
    proof {
        assert(added_entries(fv).take(i as int) == added_entries(fv));
        assert(fv.take(i as int) == fv);
    }
    let index = GitIndex { entries };
    assert(index@ == index_after_add(es, fv));
    let ghost before_store = repo.store;
    match write_index(repo, &index) {
        Err(e) => Err(e),
        Ok(_) => {
            proof {
                assert forall|j: int| 0 <= j < files@.len() implies repo.store.content(
                    object_path(#[trigger] added_entries(fv)[j].sha),
                ) is Some by {
                    lemma_object_path_is_not_index(added_entries(fv)[j].sha);
                }
            }
            Ok(())
        },
    }
}

/// `add` as the command runs it.
pub fn run(repo: &mut GitRepository, files: &[AddedFile]) -> (r: Result<(), GitError>)
    ensures
        add_outcome(old(repo), final(repo), r, files_view(files@)),
{
    self::add(repo, files)
}

} // verus!
