//! The object database: blobs, commits, trees and tags, named by the hash of
//! their frame and stored compressed under `objects/`, the first two digits of
//! the name being a directory.

use vstd::prelude::*;
use vstd::string::StrSliceExecFns;
use vstd::string::StringExecFns;
use crate::bytes::copy_range;
use crate::compress::{zlib_compress, zlib_decompress, zlib_deflate, zlib_inflate};
use crate::error::GitError;
use crate::frame::{frame_bytes, frame_parse, frame_split, lemma_frame_roundtrip, object_frame,
    GitObjectType};
use crate::hashing::{hex_chars, hex_encode, sha1_digest, sha1_of};
use crate::kvlm::{kvlm_bytes, kvlm_parse, kvlm_parse_spec, kvlm_serialize, kvlm_wf,
    lemma_kvlm_roundtrip, Kvlm, KvlmView};
use crate::repo::GitRepository;
use crate::store::{lemma_files_view, view_content, FileStore, FilesView};
use crate::tree::{lemma_tree_roundtrip, tree_bytes, tree_parse, tree_wf, GitTree, LeafView};

verus! {

/// A blob: the content of a file.
#[derive(Debug, Clone)]
pub struct GitBlob {
    pub data: Vec<u8>,
}

/// A commit: a header record with `tree`, `parent`, `author` and `committer`,
/// and the message.
#[derive(Debug, Clone)]
pub struct GitCommit {
    pub kvlm: Kvlm,
}

/// A tag: a header record and a message.
#[derive(Debug, Clone)]
pub struct GitTag {
    pub kvlm: Kvlm,
}

/// What the four kinds of object have in common: a payload that they are
/// written to and read from.
pub trait GitObject: Sized {
    /// The payload of the object.
    spec fn payload(&self) -> Seq<u8>;

    /// Whether `obj` is what `data` holds.
    spec fn decoded(data: Seq<u8>, obj: Self) -> bool;

    /// Why `data` holds no object of this kind; `None` where it holds one.
    spec fn decode_error(data: Seq<u8>) -> Option<GitError>;

    /// Whether the object is the empty one of its kind.
    spec fn is_initial(&self) -> bool;

    /// Writes the payload.
    fn serialize(&self) -> (r: Result<Vec<u8>, GitError>)
        ensures
            r is Ok,
            r->Ok_0@ == self.payload(),
    ;

    /// Reads an object from its payload.
    fn deserialize(data: &[u8]) -> (r: Result<Self, GitError>)
        ensures
            match r {
                Ok(obj) => Self::decode_error(data@) is None && Self::decoded(data@, obj),
                Err(e) => Self::decode_error(data@) == Some(e),
            },
    ;

    /// The empty object of this kind.
    fn init() -> (r: Result<Self, GitError>)
        ensures
            r is Ok,
            r->Ok_0.is_initial(),
    ;
}

impl GitObject for GitBlob {
    open spec fn payload(&self) -> Seq<u8> {
        self.data@
    }

    open spec fn decoded(data: Seq<u8>, obj: Self) -> bool {
        obj.data@ == data
    }

    open spec fn decode_error(data: Seq<u8>) -> Option<GitError> {
        None
    }

    open spec fn is_initial(&self) -> bool {
        self.data@.len() == 0
    }

    fn serialize(&self) -> (r: Result<Vec<u8>, GitError>) {
        let out = copy_range(self.data.as_slice(), 0, self.data.len());
        assert(self.data@.subrange(0, self.data@.len() as int) == self.data@);
        Ok(out)
    }

    fn deserialize(data: &[u8]) -> (r: Result<Self, GitError>) {
        let copy = copy_range(data, 0, data.len());
        assert(data@.subrange(0, data@.len() as int) == data@);
        Ok(GitBlob { data: copy })
    }

    fn init() -> (r: Result<Self, GitError>) {
        Ok(GitBlob { data: Vec::new() })
    }
}

impl GitObject for GitCommit {
    open spec fn payload(&self) -> Seq<u8> {
        kvlm_bytes(self.kvlm@)
    }

    open spec fn decoded(data: Seq<u8>, obj: Self) -> bool {
        kvlm_parse_spec(data) == Some(obj.kvlm@)
    }

    open spec fn decode_error(data: Seq<u8>) -> Option<GitError> {
        if kvlm_parse_spec(data) is None {
            Some(GitError::CorruptKvlm)
        } else {
            None
        }
    }

    open spec fn is_initial(&self) -> bool {
        self.kvlm@.headers.len() == 0 && self.kvlm@.message.len() == 0
    }

    fn serialize(&self) -> (r: Result<Vec<u8>, GitError>) {
        Ok(kvlm_serialize(&self.kvlm))
    }

    fn deserialize(data: &[u8]) -> (r: Result<Self, GitError>) {
        match kvlm_parse(data) {
            Ok(kvlm) => Ok(GitCommit { kvlm }),
            Err(e) => Err(e),
        }
    }

    fn init() -> (r: Result<Self, GitError>) {
        Ok(GitCommit { kvlm: Kvlm::new() })
    }
}

impl GitObject for GitTag {
    open spec fn payload(&self) -> Seq<u8> {
        kvlm_bytes(self.kvlm@)
    }

    open spec fn decoded(data: Seq<u8>, obj: Self) -> bool {
        kvlm_parse_spec(data) == Some(obj.kvlm@)
    }

    open spec fn decode_error(data: Seq<u8>) -> Option<GitError> {
        if kvlm_parse_spec(data) is None {
            Some(GitError::CorruptKvlm)
        } else {
            None
        }
    }

    open spec fn is_initial(&self) -> bool {
        self.kvlm@.headers.len() == 0 && self.kvlm@.message.len() == 0
    }

    fn serialize(&self) -> (r: Result<Vec<u8>, GitError>) {
        Ok(kvlm_serialize(&self.kvlm))
    }

    fn deserialize(data: &[u8]) -> (r: Result<Self, GitError>) {
        match kvlm_parse(data) {
            Ok(kvlm) => Ok(GitTag { kvlm }),
            Err(e) => Err(e),
        }
    }

    fn init() -> (r: Result<Self, GitError>) {
        Ok(GitTag { kvlm: Kvlm::new() })
    }
}

impl GitObject for GitTree {
    open spec fn payload(&self) -> Seq<u8> {
        tree_bytes(self@)
    }

    open spec fn decoded(data: Seq<u8>, obj: Self) -> bool {
        tree_parse(data) == Some(obj@)
    }

    open spec fn decode_error(data: Seq<u8>) -> Option<GitError> {
        if tree_parse(data) is None {
            Some(GitError::CorruptObject)
        } else {
            None
        }
    }

    open spec fn is_initial(&self) -> bool {
        self@.len() == 0
    }

    fn serialize(&self) -> (r: Result<Vec<u8>, GitError>) {
        Ok(self.to_bytes())
    }

    fn deserialize(data: &[u8]) -> (r: Result<Self, GitError>) {
        GitTree::from_bytes(data)
    }

    fn init() -> (r: Result<Self, GitError>) {
        Ok(GitTree::empty())
    }
}

/// An object of any of the four kinds.
#[derive(Debug, Clone)]
pub enum AnyObject {
    Blob(GitBlob),
    Commit(GitCommit),
    Tree(GitTree),
    Tag(GitTag),
}

/// What an object holds, as mathematical sequences.
pub enum ObjectView {
    Blob(Seq<u8>),
    Commit(KvlmView),
    Tree(Seq<LeafView>),
    Tag(KvlmView),
}

impl View for AnyObject {
    type V = ObjectView;

    open spec fn view(&self) -> ObjectView {
        match self {
            AnyObject::Blob(b) => ObjectView::Blob(b.data@),
            AnyObject::Commit(c) => ObjectView::Commit(c.kvlm@),
            AnyObject::Tree(t) => ObjectView::Tree(t@),
            AnyObject::Tag(t) => ObjectView::Tag(t.kvlm@),
        }
    }
}

/// The kind of an object.
pub open spec fn view_kind(v: ObjectView) -> GitObjectType {
    match v {
        ObjectView::Blob(_) => GitObjectType::Blob,
        ObjectView::Commit(_) => GitObjectType::Commit,
        ObjectView::Tree(_) => GitObjectType::Tree,
        ObjectView::Tag(_) => GitObjectType::Tag,
    }
}

/// The payload of an object.
pub open spec fn view_payload(v: ObjectView) -> Seq<u8> {
    match v {
        ObjectView::Blob(data) => data,
        ObjectView::Commit(k) => kvlm_bytes(k),
        ObjectView::Tree(t) => tree_bytes(t),
        ObjectView::Tag(k) => kvlm_bytes(k),
    }
}

/// The object of the given kind that a payload holds: a blob holds any bytes,
/// a commit or a tag a header record (`CorruptKvlm` otherwise), a tree its
/// entries (`CorruptObject` otherwise).
pub open spec fn payload_parse(kind: GitObjectType, payload: Seq<u8>) -> Result<
    ObjectView,
    GitError,
> {
    match kind {
        GitObjectType::Blob => Ok(ObjectView::Blob(payload)),
        GitObjectType::Commit => match kvlm_parse_spec(payload) {
            Some(k) => Ok(ObjectView::Commit(k)),
            None => Err(GitError::CorruptKvlm),
        },
        GitObjectType::Tree => match tree_parse(payload) {
            Some(t) => Ok(ObjectView::Tree(t)),
            None => Err(GitError::CorruptObject),
        },
        GitObjectType::Tag => match kvlm_parse_spec(payload) {
            Some(k) => Ok(ObjectView::Tag(k)),
            None => Err(GitError::CorruptKvlm),
        },
    }
}

/// The name of the object with this kind and payload: the hash of its frame
/// in 40 hexadecimal digits.
pub open spec fn object_name(kind: GitObjectType, payload: Seq<u8>) -> Seq<char> {
    hex_chars(sha1_digest(frame_bytes(kind, payload)))
}

/// The path under which an object is stored: `objects/`, the first two digits
/// of its name, a slash, and the other digits.
pub open spec fn object_path(name: Seq<char>) -> Seq<char> {
    "objects/"@ + name.take(2) + "/"@ + name.skip(2)
}

/// The object that a compressed frame holds. `IoFailure` where the bytes do
/// not decompress; otherwise what the frame and the payload say.
pub open spec fn decode_stored(stored: Seq<u8>) -> Result<ObjectView, GitError> {
    match zlib_inflate(stored) {
        None => Err(GitError::IoFailure),
        Some(frame) => match frame_parse(frame) {
            Err(e) => Err(e),
            Ok((kind, payload)) => payload_parse(kind, payload),
        },
    }
}

/// The object that is stored under `name`. `NotFound` where no file is there.
pub open spec fn stored_object(store: &FileStore, name: Seq<char>) -> Result<ObjectView, GitError> {
    if name.len() < 2 {
        Err(GitError::NotFound)
    } else {
        match store.content(object_path(name)) {
            None => Err(GitError::NotFound),
            Some(stored) => decode_stored(stored),
        }
    }
}

/// The files after the object with this kind and payload is stored: as they
/// are where a file lies under the object's path already; otherwise with the
/// compressed frame behind them, under that path. `None` where the object is
/// not stored yet and its frame cannot be compressed.
pub open spec fn put_object(v: FilesView, kind: GitObjectType, payload: Seq<u8>) -> Option<
    FilesView,
> {
    let path = object_path(object_name(kind, payload));
    if view_content(v, path) is Some {
        Some(v)
    } else {
        match zlib_deflate(frame_bytes(kind, payload)) {
            None => None,
            Some(stored) => Some(v.push((path, stored))),
        }
    }
}

/// Whether storing the object with this kind and payload fails: it is not
/// stored yet, and its frame cannot be compressed.
pub open spec fn put_fails(store: &FileStore, kind: GitObjectType, payload: Seq<u8>) -> bool {
    &&& store.content(object_path(object_name(kind, payload))) is None
    &&& zlib_deflate(frame_bytes(kind, payload)) is None
}

/// What writing an object under `name` does to the files: nothing where the
/// file is there already; otherwise the file appears, it decompresses to
/// `frame`, and all other files stay.
pub open spec fn object_stored(old: &FileStore, new: &FileStore, name: Seq<char>, frame: Seq<u8>) -> bool {
    let path = object_path(name);
    if old.content(path) is Some {
        new == old
    } else {
        &&& new.content(path) is Some
        &&& new.content(path) == zlib_deflate(frame)
        &&& zlib_inflate(new.content(path)->0) == Some(frame)
        &&& forall|p: Seq<char>| p != path ==> new.content(p) == old.content(p)
        &&& new.dirs == old.dirs
    }
}

/// Writing an object keeps every file that was there.
pub proof fn lemma_object_stored_extends(
    old: &FileStore,
    new: &FileStore,
    name: Seq<char>,
    frame: Seq<u8>,
)
    requires
        object_stored(old, new, name, frame),
    ensures
        new.extends(old),
        new.content(object_path(name)) is Some,
{
}

/// An object that can be read back: a commit or a tag whose keys are not
/// empty and hold neither space nor line break, a tree whose modes hold no
/// space, whose names hold no zero byte and whose hashes have 20 bytes, and
/// any blob.
pub open spec fn object_wf(v: ObjectView) -> bool {
    match v {
        ObjectView::Blob(_) => true,
        ObjectView::Commit(k) => kvlm_wf(k),
        ObjectView::Tree(t) => tree_wf(t),
        ObjectView::Tag(k) => kvlm_wf(k),
    }
}

/// An object of any kind that is written and read back is the same object,
/// and has the same name: its payload parses to it, the compressed frame of
/// its payload decodes to it, and what is read back is written to the same
/// payload.
pub proof fn lemma_object_read_back(v: ObjectView, stored: Seq<u8>)
    requires
        object_wf(v),
        zlib_inflate(stored) == Some(frame_bytes(view_kind(v), view_payload(v))),
    ensures
        payload_parse(view_kind(v), view_payload(v)) == Ok::<ObjectView, GitError>(v),
        decode_stored(stored) == Ok::<ObjectView, GitError>(v),
        object_name(view_kind(decode_stored(stored)->Ok_0), view_payload(decode_stored(stored)->Ok_0))
            == object_name(view_kind(v), view_payload(v)),
{
    lemma_frame_roundtrip(view_kind(v), view_payload(v));
    match v {
        ObjectView::Blob(_) => {},
        ObjectView::Commit(k) => {
            lemma_kvlm_roundtrip(k);
        },
        ObjectView::Tree(t) => {
            lemma_tree_roundtrip(t);
        },
        ObjectView::Tag(k) => {
            lemma_kvlm_roundtrip(k);
        },
    }
}

/// Writing the same object a second time changes nothing: the path is the
/// same, the file is there, and the store stays as the first writing left it.
pub proof fn lemma_second_write_changes_nothing(
    before: &FileStore,
    once: &FileStore,
    twice: &FileStore,
    kind: GitObjectType,
    payload: Seq<u8>,
)
    requires
        object_stored(before, once, object_name(kind, payload), frame_bytes(kind, payload)),
        object_stored(once, twice, object_name(kind, payload), frame_bytes(kind, payload)),
    ensures
        twice == once,
        once.content(object_path(object_name(kind, payload))) is Some,
{
}

/// A stored frame names the object that wrote it: what is read back from the
/// compressed frame of a payload has the same kind and payload, and therefore
/// the same name.
pub proof fn lemma_read_back_name(kind: GitObjectType, payload: Seq<u8>, stored: Seq<u8>)
    requires
        zlib_inflate(stored) == Some(frame_bytes(kind, payload)),
    ensures
        frame_parse(zlib_inflate(stored)->0) == Ok::<(GitObjectType, Seq<u8>), GitError>(
            (kind, payload),
        ),
        object_name(
            frame_parse(zlib_inflate(stored)->0)->Ok_0.0,
            frame_parse(zlib_inflate(stored)->0)->Ok_0.1,
        ) == object_name(kind, payload),
        decode_stored(stored) == payload_parse(kind, payload),
{
    lemma_frame_roundtrip(kind, payload);
}

impl AnyObject {
    /// The kind of the object.
    pub fn kind(&self) -> (k: GitObjectType)
        ensures
            k == view_kind(self@),
    {
        match self {
            AnyObject::Blob(_) => GitObjectType::Blob,
            AnyObject::Commit(_) => GitObjectType::Commit,
            AnyObject::Tree(_) => GitObjectType::Tree,
            AnyObject::Tag(_) => GitObjectType::Tag,
        }
    }

    /// Writes the payload of the object.
    pub fn serialize(&self) -> (out: Vec<u8>)
        ensures
            out@ == view_payload(self@),
    {
        match self {
            AnyObject::Blob(b) => {
                let out = copy_range(b.data.as_slice(), 0, b.data.len());
                assert(b.data@.subrange(0, b.data@.len() as int) == b.data@);
                out
            },
            AnyObject::Commit(c) => kvlm_serialize(&c.kvlm),
            AnyObject::Tree(t) => t.to_bytes(),
            AnyObject::Tag(t) => kvlm_serialize(&t.kvlm),
        }
    }

    /// Reads the object of the given kind from its payload.
    pub fn parse(kind: GitObjectType, payload: &[u8]) -> (r: Result<AnyObject, GitError>)
        ensures
            match payload_parse(kind, payload@) {
                Ok(v) => r is Ok && r->Ok_0@ == v,
                Err(e) => r == Err::<AnyObject, GitError>(e),
            },
    {
        match kind {
            GitObjectType::Blob => match GitBlob::deserialize(payload) {
                Ok(b) => Ok(AnyObject::Blob(b)),
                Err(e) => Err(e),
            },
            GitObjectType::Commit => match GitCommit::deserialize(payload) {
                Ok(c) => Ok(AnyObject::Commit(c)),
                Err(e) => Err(e),
            },
            GitObjectType::Tree => match GitTree::deserialize(payload) {
                Ok(t) => Ok(AnyObject::Tree(t)),
                Err(e) => Err(e),
            },
            GitObjectType::Tag => match GitTag::deserialize(payload) {
                Ok(t) => Ok(AnyObject::Tag(t)),
                Err(e) => Err(e),
            },
        }
    }
}

/// Builds the path under which the object `sha` is stored.
pub fn object_file(sha: &str) -> (path: String)
    requires
        sha@.len() >= 2,
    ensures
        path@ == object_path(sha@),
{
    let n = sha.unicode_len();
    let mut path = String::from_str("objects/");
    path.append(sha.substring_char(0, 2));
    path.append("/");
    path.append(sha.substring_char(2, n));
    proof {
        assert(sha@.subrange(0, 2) == sha@.take(2));
        assert(sha@.subrange(2, n as int) == sha@.skip(2));
    }
    path
}

/// Reads the object that a compressed frame holds.
pub fn object_decode(stored: &[u8]) -> (r: Result<(GitObjectType, AnyObject), GitError>)
    ensures
        match decode_stored(stored@) {
            Ok(v) => r is Ok && r->Ok_0.0 == view_kind(v) && r->Ok_0.1@ == v,
            Err(e) => r == Err::<(GitObjectType, AnyObject), GitError>(e),
        },
{
    let frame = match zlib_decompress(stored) {
        Some(frame) => frame,
        None => { return Err(GitError::IoFailure); },
    };
    let (kind, at) = match frame_split(frame.as_slice()) {
        Ok(header) => header,
        Err(e) => { return Err(e); },
    };
    let payload = vstd::slice::slice_subrange(frame.as_slice(), at, frame.len());
    assert(payload@ == frame@.skip(at as int));
    match AnyObject::parse(kind, payload) {
        Ok(obj) => Ok((kind, obj)),
        Err(e) => Err(e),
    }
}

/// Reads the object `sha` from the repository.
///
/// `NotFound` where no file is stored under that name, `IoFailure` where the
/// file does not decompress, `CorruptObject` or `UnknownKind` where its frame
/// is wrong, and the payload's own error where the payload is.
pub fn object_read(repo: &GitRepository, sha: &str) -> (r: Result<
    (GitObjectType, AnyObject),
    GitError,
>)
    ensures
        match stored_object(&repo.store, sha@) {
            Ok(v) => r is Ok && r->Ok_0.0 == view_kind(v) && r->Ok_0.1@ == v,
            Err(e) => r == Err::<(GitObjectType, AnyObject), GitError>(e),
        },
{
    if sha.unicode_len() < 2 {
        return Err(GitError::NotFound);
    }
    let path = object_file(sha);
    match repo.store.read(path.as_str()) {
        None => Err(GitError::NotFound),
        Some(stored) => object_decode(stored.as_slice()),
    }
}

/// What naming an object, and storing it where `write` is set, gives and does:
/// the name is the hash of the frame; the files are as `put_object` says, or
/// as they were where nothing is to be written; `IoFailure`, with the files
/// as they were, exactly where the object is to be written, is not stored
/// yet, and its frame cannot be compressed.
pub open spec fn write_outcome(
    old: &GitRepository,
    new: &GitRepository,
    r: Result<String, GitError>,
    kind: GitObjectType,
    payload: Seq<u8>,
    write: bool,
) -> bool {
    &&& new.worktree == old.worktree
    &&& new.gitdir == old.gitdir
    &&& new.config == old.config
    &&& new.store.dirs == old.store.dirs
    &&& r is Err <==> write && put_fails(&old.store, kind, payload)
    &&& match r {
        Ok(sha) => {
            &&& sha@.len() == 40
            &&& sha@ == object_name(kind, payload)
            &&& if write {
                &&& object_stored(&old.store, &new.store, sha@, frame_bytes(kind, payload))
                &&& put_object(old.store.listing(), kind, payload) == Some(new.store.listing())
            } else {
                new.store == old.store
            }
        },
        Err(e) => {
            &&& e == GitError::IoFailure
            &&& put_object(old.store.listing(), kind, payload) is None
            &&& new.store == old.store
        },
    }
}

/// Names an object and, where `write` is set, stores it.
///
/// The name is the hash of the object's frame. The file is written only where
/// none is stored under that name yet. `IoFailure` where the compressor
/// fails; nothing is written then.
pub fn object_write<T: GitObject>(
    repo: &mut GitRepository,
    obj: &T,
    kind: &GitObjectType,
    write: bool,
) -> (r: Result<String, GitError>)
    ensures
        write_outcome(old(repo), final(repo), r, *kind, obj.payload(), write),
{
    match obj.serialize() {
        Ok(data) => store_payload(repo, data.as_slice(), kind, write),
        Err(e) => {
            assert(false);
            Err(e)
        },
    }
}

/// Names the object with the given payload and, where `write` is set, stores
/// it.
pub fn store_payload(
    repo: &mut GitRepository,
    payload: &[u8],
    kind: &GitObjectType,
    write: bool,
) -> (r: Result<String, GitError>)
    ensures
        write_outcome(old(repo), final(repo), r, *kind, payload@, write),
{
    let frame = object_frame(kind, payload);
    let digest = sha1_of(frame.as_slice());
    let sha = hex_encode(digest.as_slice());
    proof {
        lemma_files_view(repo.store.files@, object_path(sha@), 0);
    }
    if write {
        let path = object_file(sha.as_str());
        if !repo.store.contains(path.as_str()) {
            match zlib_compress(frame.as_slice()) {
                None => { return Err(GitError::IoFailure); },
                Some(stored) => {
                    proof {
                        crate::store::lemma_file_position(repo.store.files@, path@, 0);
                    }
                    repo.store.write(path, stored);
                },
            }
        }
    }
    Ok(sha)
}

/// Checks that `data` is the payload of an object of the given kind, and
/// stores the object.
///
/// The object's own error where `data` is no such payload. Otherwise as
/// `object_write` with `write` set, for the payload that the object is
/// written to.
pub fn object_hash(repo: &mut GitRepository, data: Vec<u8>, kind: &GitObjectType) -> (r: Result<
    String,
    GitError,
>)
    ensures
        match payload_parse(*kind, data@) {
            Err(e) => r == Err::<String, GitError>(e) && *final(repo) == *old(repo),
            Ok(v) => write_outcome(old(repo), final(repo), r, *kind, view_payload(v), true),
        },
{
    match AnyObject::parse(*kind, data.as_slice()) {
        Err(e) => Err(e),
        Ok(obj) => {
            let payload = obj.serialize();
            store_payload(repo, payload.as_slice(), kind, true)
        },
    }
}

} // verus!
