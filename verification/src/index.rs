//! The staging index: the list of files that the next commit will hold, and
//! its binary form. The form is a header of `DIRC`, the version 2 and the
//! number of entries, then the entries: ten numbers of four bytes, the hash in
//! 20 bytes, the flags in two, the path, a zero byte, and zero bytes up to
//! the next multiple of eight. All numbers are big-endian.

use vstd::prelude::*;
use vstd::slice::slice_subrange;
use vstd::utf8::{encode_utf8, encode_utf8_decode_utf8, encode_utf8_valid_utf8};
use crate::bytes::{append_bytes, find_byte, find_byte_from, lemma_find_byte, lemma_find_byte_is,
    lemma_find_byte_skip};
use crate::endian::{be16, be16_bytes, be32, be32_bytes, lemma_be16_roundtrip, lemma_be32_roundtrip,
    read_be16, read_be32, write_be16, write_be32};
use crate::error::GitError;
use crate::hashing::{hex_bytes, hex_chars, hex_decode, hex_encode, is_hex, is_object_name,
    lemma_hex_chars_bytes};
use crate::repo::GitRepository;
use crate::text::{bytes_to_text, text_of};

verus! {

/// One entry of the index.
#[derive(Debug, Clone)]
pub struct GitIndexEntry {
    /// When the file's metadata last changed: seconds and nanoseconds.
    pub ctime: u32,
    pub ctime_ns: u32,
    /// When the file's content last changed: seconds and nanoseconds.
    pub mtime: u32,
    pub mtime_ns: u32,
    pub dev: u32,
    pub ino: u32,
    /// The kind of the file in the top four bits, its permissions in the low nine.
    pub mode: u32,
    pub uid: u32,
    pub gid: u32,
    pub size: u32,
    /// The name of the file's blob: 40 lowercase hexadecimal digits.
    pub sha: String,
    pub flags: u16,
    /// The path of the file inside the working tree, with `/` between the
    /// components.
    pub path: String,
}

/// What an entry holds, as mathematical values.
pub struct EntryView {
    pub ctime: u32,
    pub ctime_ns: u32,
    pub mtime: u32,
    pub mtime_ns: u32,
    pub dev: u32,
    pub ino: u32,
    pub mode: u32,
    pub uid: u32,
    pub gid: u32,
    pub size: u32,
    pub sha: Seq<char>,
    pub flags: u16,
    pub path: Seq<char>,
}

impl View for GitIndexEntry {
    type V = EntryView;

    open spec fn view(&self) -> EntryView {
        EntryView {
            ctime: self.ctime,
            ctime_ns: self.ctime_ns,
            mtime: self.mtime,
            mtime_ns: self.mtime_ns,
            dev: self.dev,
            ino: self.ino,
            mode: self.mode,
            uid: self.uid,
            gid: self.gid,
            size: self.size,
            sha: self.sha@,
            flags: self.flags,
            path: self.path@,
        }
    }
}

/// The index: its entries in their stored order.
#[derive(Debug, Clone)]
pub struct GitIndex {
    pub entries: Vec<GitIndexEntry>,
}

impl View for GitIndex {
    type V = Seq<EntryView>;

    open spec fn view(&self) -> Seq<EntryView> {
        Seq::new(self.entries@.len(), |i: int| self.entries@[i]@)
    }
}

/// The bytes `DIRC` that open the file.
pub open spec fn index_magic() -> Seq<u8> {
    seq![0x44u8, 0x49, 0x52, 0x43]
}

/// The number of zero bytes after the zero byte that ends a path of `n`
/// bytes: as many as bring the entry to a multiple of eight.
pub open spec fn padding(n: int) -> int {
    (8 - (62 + n + 1) % 8) % 8
}

/// `n` zero bytes.
pub open spec fn zeros(n: int) -> Seq<u8> {
    Seq::new(n as nat, |i: int| 0u8)
}

/// The path of an entry as it is written.
pub open spec fn path_bytes(e: EntryView) -> Seq<u8> {
    encode_utf8(e.path)
}

/// An entry that can be written: its hash is 40 hexadecimal digits, and its
/// path holds no zero byte.
pub open spec fn entry_writable(e: EntryView) -> bool {
    &&& e.sha.len() == 40
    &&& is_hex(e.sha)
    &&& forall|i: int| 0 <= i < path_bytes(e).len() ==> path_bytes(e)[i] != 0
}

/// An entry that is read back as it is: one that can be written, with the
/// digits of its hash in lower case.
pub open spec fn entry_wf(e: EntryView) -> bool {
    entry_writable(e) && is_object_name(e.sha)
}

/// An index that can be written: each entry can, and their number fits in
/// four bytes.
pub open spec fn index_writable(es: Seq<EntryView>) -> bool {
    &&& es.len() <= u32::MAX
    &&& forall|i: int| 0 <= i < es.len() ==> entry_writable(#[trigger] es[i])
}

/// An index that is read back as it is.
pub open spec fn index_wf(es: Seq<EntryView>) -> bool {
    &&& es.len() <= u32::MAX
    &&& forall|i: int| 0 <= i < es.len() ==> entry_wf(#[trigger] es[i])
}

/// The ten numbers of an entry as they are written.
pub open spec fn stat_bytes(e: EntryView) -> Seq<u8> {
    be32_bytes(e.ctime) + be32_bytes(e.ctime_ns) + be32_bytes(e.mtime) + be32_bytes(e.mtime_ns)
        + be32_bytes(e.dev) + be32_bytes(e.ino) + be32_bytes(e.mode) + be32_bytes(e.uid)
        + be32_bytes(e.gid) + be32_bytes(e.size)
}

/// An entry as it is written.
#[verifier::opaque]
pub open spec fn entry_bytes(e: EntryView) -> Seq<u8> {
    stat_bytes(e) + hex_bytes(e.sha) + be16_bytes(e.flags) + path_bytes(e) + seq![0u8] + zeros(
        padding(path_bytes(e).len() as int),
    )
}

/// The entries as they are written, one after the other.
pub open spec fn entries_bytes(es: Seq<EntryView>) -> Seq<u8>
    decreases es.len(),
{
    if es.len() == 0 {
        Seq::empty()
    } else {
        entries_bytes(es.drop_last()) + entry_bytes(es.last())
    }
}

/// The index as it is written.
pub open spec fn index_bytes(es: Seq<EntryView>) -> Seq<u8> {
    index_magic() + be32_bytes(2) + be32_bytes(es.len() as u32) + entries_bytes(es)
}

/// The entry that `s` begins with, and the number of bytes that it takes with
/// its padding. `None` where `s` is shorter than the fixed part, where no zero
/// byte ends the path, or where the path is no UTF-8.
#[verifier::opaque]
pub open spec fn entry_parse(s: Seq<u8>) -> Option<(EntryView, int)> {
    let nul = find_byte(s, 0, 62);
    if s.len() < 62 || nul >= s.len() {
        None
    } else {
        match text_of(s.subrange(62, nul)) {
            None => None,
            Some(path) => Some(
                (
                    EntryView {
                        ctime: be32(s.subrange(0, 4)),
                        ctime_ns: be32(s.subrange(4, 8)),
                        mtime: be32(s.subrange(8, 12)),
                        mtime_ns: be32(s.subrange(12, 16)),
                        dev: be32(s.subrange(16, 20)),
                        ino: be32(s.subrange(20, 24)),
                        mode: be32(s.subrange(24, 28)),
                        uid: be32(s.subrange(28, 32)),
                        gid: be32(s.subrange(32, 36)),
                        size: be32(s.subrange(36, 40)),
                        sha: hex_chars(s.subrange(40, 60)),
                        flags: be16(s.subrange(60, 62)),
                        path,
                    },
                    nul + 1 + padding(nul - 62),
                ),
            ),
        }
    }
}

/// What is left of `s` after `used` bytes; nothing where `s` is shorter.
pub open spec fn after(s: Seq<u8>, used: int) -> Seq<u8> {
    if 0 <= used <= s.len() {
        s.skip(used)
    } else {
        Seq::empty()
    }
}

/// The `n` entries that `s` begins with. What follows them is not looked at.
pub open spec fn entries_parse(s: Seq<u8>, n: nat) -> Option<Seq<EntryView>>
    decreases n,
{
    if n == 0 {
        Some(Seq::empty())
    } else {
        match entry_parse(s) {
            None => None,
            Some((e, used)) => match entries_parse(after(s, used), (n - 1) as nat) {
                None => None,
                Some(rest) => Some(seq![e] + rest),
            },
        }
    }
}

/// The entries of an index file. `None` where the file does not begin with
/// `DIRC` and the version 2, or where it does not hold as many entries as it
/// says.
pub open spec fn index_parse(bytes: Seq<u8>) -> Option<Seq<EntryView>> {
    if bytes.len() < 12 || bytes.take(4) != index_magic() || be32(bytes.subrange(4, 8)) != 2 {
        None
    } else {
        entries_parse(bytes.skip(12), be32(bytes.subrange(8, 12)) as nat)
    }
}

/// The padding fills an entry up to a multiple of eight, and can be computed
/// from the remainder of the path's length alone.
pub proof fn lemma_padding(n: int)
    requires
        n >= 0,
    ensures
        0 <= padding(n) < 8,
        (63 + n + padding(n)) % 8 == 0,
        padding(n) == (8 - (n % 8 + 7) % 8) % 8,
{
    let r = n % 8;
    let q = n / 8;
    assert(n == 8 * q + r && 0 <= r < 8);
    if r == 0 {
        assert((63 + n) % 8 == 7);
    } else if r == 1 {
        assert((63 + n) % 8 == 0);
    } else if r == 2 {
        assert((63 + n) % 8 == 1);
    } else if r == 3 {
        assert((63 + n) % 8 == 2);
    } else if r == 4 {
        assert((63 + n) % 8 == 3);
    } else if r == 5 {
        assert((63 + n) % 8 == 4);
    } else if r == 6 {
        assert((63 + n) % 8 == 5);
    } else {
        assert((63 + n) % 8 == 6);
    }
}

/// Every entry that can be written takes a multiple of eight bytes.
pub proof fn lemma_entry_aligned(e: EntryView)
    requires
        entry_writable(e),
    ensures
        entry_bytes(e).len() == 62 + path_bytes(e).len() + 1 + padding(path_bytes(e).len() as int),
        entry_bytes(e).len() % 8 == 0,
        0 <= padding(path_bytes(e).len() as int) < 8,
{
    lemma_padding(path_bytes(e).len() as int);
    lemma_entry_len(e);
}

/// The length of a written entry.
pub proof fn lemma_entry_len(e: EntryView)
    requires
        entry_writable(e),
    ensures
        entry_bytes(e).len() == 63 + path_bytes(e).len() + padding(path_bytes(e).len() as int),
{
    reveal(entry_bytes);
    lemma_hex_len(e.sha);
    lemma_padding(path_bytes(e).len() as int);
    assert(stat_bytes(e).len() == 40);
    assert(be16_bytes(e.flags).len() == 2);
    assert(zeros(padding(path_bytes(e).len() as int)).len() == padding(path_bytes(e).len() as int));
}

/// The bytes that 40 hexadecimal digits spell are 20.
pub proof fn lemma_hex_len(s: Seq<char>)
    requires
        s.len() == 40,
    ensures
        hex_bytes(s).len() == 20,
{
}

/// In a written index every entry begins four bytes after a multiple of
/// eight, the header taking twelve bytes, and every entry takes a multiple of
/// eight bytes.
pub proof fn lemma_index_aligned(es: Seq<EntryView>, i: int)
    requires
        index_writable(es),
        0 <= i <= es.len(),
    ensures
        entries_bytes(es.take(i)).len() % 8 == 0,
        (12 + entries_bytes(es.take(i)).len()) % 8 == 4,
        index_bytes(es).len() == 12 + entries_bytes(es).len(),
        i < es.len() ==> entry_bytes(es[i]).len() % 8 == 0,
    decreases i,
{
    if i > 0 {
        lemma_index_aligned(es, i - 1);
        assert(es.take(i).drop_last() == es.take(i - 1));
        assert(es.take(i).last() == es[i - 1]);
        lemma_entry_aligned(es[i - 1]);
    }
    if i < es.len() {
        lemma_entry_aligned(es[i]);
    }
}

/// The ten numbers of an entry stand four bytes each in their written form.
pub proof fn lemma_stat_fields(e: EntryView)
    ensures
        stat_bytes(e).len() == 40,
        stat_bytes(e).subrange(0, 4) == be32_bytes(e.ctime),
        stat_bytes(e).subrange(4, 8) == be32_bytes(e.ctime_ns),
        stat_bytes(e).subrange(8, 12) == be32_bytes(e.mtime),
        stat_bytes(e).subrange(12, 16) == be32_bytes(e.mtime_ns),
        stat_bytes(e).subrange(16, 20) == be32_bytes(e.dev),
        stat_bytes(e).subrange(20, 24) == be32_bytes(e.ino),
        stat_bytes(e).subrange(24, 28) == be32_bytes(e.mode),
        stat_bytes(e).subrange(28, 32) == be32_bytes(e.uid),
        stat_bytes(e).subrange(32, 36) == be32_bytes(e.gid),
        stat_bytes(e).subrange(36, 40) == be32_bytes(e.size),
{
    let s = stat_bytes(e);
    assert(s.subrange(0, 4) =~= be32_bytes(e.ctime));
    assert(s.subrange(4, 8) =~= be32_bytes(e.ctime_ns));
    assert(s.subrange(8, 12) =~= be32_bytes(e.mtime));
    assert(s.subrange(12, 16) =~= be32_bytes(e.mtime_ns));
    assert(s.subrange(16, 20) =~= be32_bytes(e.dev));
    assert(s.subrange(20, 24) =~= be32_bytes(e.ino));
    assert(s.subrange(24, 28) =~= be32_bytes(e.mode));
    assert(s.subrange(28, 32) =~= be32_bytes(e.uid));
    assert(s.subrange(32, 36) =~= be32_bytes(e.gid));
    assert(s.subrange(36, 40) =~= be32_bytes(e.size));
}

/// A part of a part is a part of the whole.
pub proof fn lemma_subrange_subrange(s: Seq<u8>, a: int, b: int, c: int, d: int)
    requires
        0 <= a <= b <= s.len(),
        0 <= c <= d <= b - a,
    ensures
        s.subrange(a, b).subrange(c, d) == s.subrange(a + c, a + d),
{
    assert(s.subrange(a, b).subrange(c, d) =~= s.subrange(a + c, a + d));
}

/// The parts of a written entry: the numbers in 40 bytes, the hash in 20, the
/// flags in two, the path, and a zero byte.
#[verifier::rlimit(30)]
pub proof fn lemma_entry_layout(e: EntryView, rest: Seq<u8>)
    requires
        entry_wf(e),
    ensures
        (entry_bytes(e) + rest).len() >= 63 + path_bytes(e).len(),
        (entry_bytes(e) + rest).subrange(0, 40) == stat_bytes(e),
        (entry_bytes(e) + rest).subrange(40, 60) == hex_bytes(e.sha),
        (entry_bytes(e) + rest).subrange(60, 62) == be16_bytes(e.flags),
        (entry_bytes(e) + rest).subrange(62, 62 + path_bytes(e).len() as int) == path_bytes(e),
        (entry_bytes(e) + rest)[62 + path_bytes(e).len() as int] == 0,
        (entry_bytes(e) + rest).skip(entry_bytes(e).len() as int) == rest,
        entry_bytes(e).len() == 63 + path_bytes(e).len() + padding(path_bytes(e).len() as int),
{
    reveal(entry_bytes);
    lemma_hex_len(e.sha);
    lemma_entry_len(e);
    let s = entry_bytes(e) + rest;
    lemma_stat_fields(e);
    assert(s.subrange(0, 40) =~= stat_bytes(e));
    assert(s.subrange(40, 60) =~= hex_bytes(e.sha));
    assert(s.subrange(60, 62) =~= be16_bytes(e.flags));
    assert(s.subrange(62, 62 + path_bytes(e).len() as int) =~= path_bytes(e));
    assert(s.skip(entry_bytes(e).len() as int) =~= rest);
}

/// An entry that is well-formed is read back from its written form, whatever
/// follows it, and takes exactly the bytes of that form.
#[verifier::rlimit(30)]
pub proof fn lemma_entry_roundtrip(e: EntryView, rest: Seq<u8>)
    requires
        entry_wf(e),
    ensures
        entry_parse(entry_bytes(e) + rest) == Some((e, entry_bytes(e).len() as int)),
        after(entry_bytes(e) + rest, entry_bytes(e).len() as int) == rest,
{
    broadcast use encode_utf8_decode_utf8, encode_utf8_valid_utf8;

    reveal(entry_parse);
    let s = entry_bytes(e) + rest;
    let path = path_bytes(e);
    let n = path.len() as int;
    lemma_entry_layout(e, rest);
    lemma_stat_fields(e);
    lemma_hex_chars_bytes(e.sha);
    lemma_be32_roundtrip(e.ctime);
    lemma_be32_roundtrip(e.ctime_ns);
    lemma_be32_roundtrip(e.mtime);
    lemma_be32_roundtrip(e.mtime_ns);
    lemma_be32_roundtrip(e.dev);
    lemma_be32_roundtrip(e.ino);
    lemma_be32_roundtrip(e.mode);
    lemma_be32_roundtrip(e.uid);
    lemma_be32_roundtrip(e.gid);
    lemma_be32_roundtrip(e.size);
    lemma_be16_roundtrip(e.flags);
    lemma_subrange_subrange(s, 0, 40, 0, 4);
    lemma_subrange_subrange(s, 0, 40, 4, 8);
    lemma_subrange_subrange(s, 0, 40, 8, 12);
    lemma_subrange_subrange(s, 0, 40, 12, 16);
    lemma_subrange_subrange(s, 0, 40, 16, 20);
    lemma_subrange_subrange(s, 0, 40, 20, 24);
    lemma_subrange_subrange(s, 0, 40, 24, 28);
    lemma_subrange_subrange(s, 0, 40, 28, 32);
    lemma_subrange_subrange(s, 0, 40, 32, 36);
    lemma_subrange_subrange(s, 0, 40, 36, 40);
    assert forall|j: int| 62 <= j < 62 + n implies s[j] != 0 by {
        assert(s.subrange(62, 62 + n)[j - 62] == s[j]);
    }
    lemma_find_byte_is(s, 0, 62, 62 + n);
}

/// The entries of a well-formed index are read back from their written form.
pub proof fn lemma_entries_roundtrip(es: Seq<EntryView>, rest: Seq<u8>)
    requires
        forall|i: int| 0 <= i < es.len() ==> entry_wf(#[trigger] es[i]),
    ensures
        entries_parse(entries_bytes(es) + rest, es.len()) == Some(es),
    decreases es.len(),
{
    if es.len() == 0 {
        assert(es == Seq::<EntryView>::empty());
    } else {
        let first = es[0];
        let tail = es.skip(1);
        lemma_entries_bytes_head(es);
        let s = entries_bytes(es) + rest;
        assert(s == entry_bytes(first) + (entries_bytes(tail) + rest));
        lemma_entry_roundtrip(first, entries_bytes(tail) + rest);
        assert forall|i: int| 0 <= i < tail.len() implies entry_wf(#[trigger] tail[i]) by {
            assert(tail[i] == es[i + 1]);
        }
        lemma_entries_roundtrip(tail, rest);
        assert(seq![first] + tail == es);
    }
}

/// The written entries begin with the first entry.
pub proof fn lemma_entries_bytes_head(es: Seq<EntryView>)
    requires
        es.len() > 0,
    ensures
        entries_bytes(es) == entry_bytes(es[0]) + entries_bytes(es.skip(1)),
    decreases es.len(),
{
    if es.len() == 1 {
        assert(es.drop_last() == Seq::<EntryView>::empty());
        assert(es.skip(1) == Seq::<EntryView>::empty());
        assert(entries_bytes(es.drop_last()) == Seq::<u8>::empty());
        assert(entries_bytes(es.skip(1)) == Seq::<u8>::empty());
    } else {
        lemma_entries_bytes_head(es.drop_last());
        assert(es.drop_last()[0] == es[0]);
        assert(es.drop_last().skip(1) == es.skip(1).drop_last());
        assert(es.skip(1).last() == es.last());
    }
}

/// Writing a well-formed index and reading the result gives the index back,
/// field by field.
pub proof fn lemma_index_roundtrip(es: Seq<EntryView>)
    requires
        index_wf(es),
    ensures
        index_parse(index_bytes(es)) == Some(es),
{
    let bytes = index_bytes(es);
    let n = es.len() as u32;
    lemma_be32_roundtrip(2);
    lemma_be32_roundtrip(n);
    assert(bytes.take(4) == index_magic());
    assert(bytes.subrange(4, 8) == be32_bytes(2));
    assert(bytes.subrange(8, 12) == be32_bytes(n));
    assert(bytes.skip(12) == entries_bytes(es) + Seq::<u8>::empty());
    lemma_entries_roundtrip(es, Seq::empty());
}

/// `tail` with `before` put in front, where there is a `tail`.
pub open spec fn with_parsed(before: Seq<EntryView>, tail: Option<Seq<EntryView>>) -> Option<
    Seq<EntryView>,
> {
    match tail {
        None => None,
        Some(t) => Some(before + t),
    }
}

/// Appends `n` zero bytes.
fn push_zeros(out: &mut Vec<u8>, n: usize)
    ensures
        final(out)@ == old(out)@ + zeros(n as int),
{
    let mut i: usize = 0;
    while i < n
        invariant
            i <= n,
            out@ == old(out)@ + zeros(i as int),
        decreases n - i,
    {
        out.push(0);
        assert(zeros(i + 1) == zeros(i as int).push(0u8));
        i += 1;
    }
}

/// The ten numbers of an entry as they are written.
fn stat_of(e: &GitIndexEntry) -> (out: Vec<u8>)
    ensures
        out@ == stat_bytes(e@),
{
    let mut out: Vec<u8> = Vec::new();
    append_bytes(&mut out, write_be32(e.ctime).as_slice());
    assert(out@ == be32_bytes(e.ctime));
    append_bytes(&mut out, write_be32(e.ctime_ns).as_slice());
    append_bytes(&mut out, write_be32(e.mtime).as_slice());
    append_bytes(&mut out, write_be32(e.mtime_ns).as_slice());
    append_bytes(&mut out, write_be32(e.dev).as_slice());
    append_bytes(&mut out, write_be32(e.ino).as_slice());
    append_bytes(&mut out, write_be32(e.mode).as_slice());
    append_bytes(&mut out, write_be32(e.uid).as_slice());
    append_bytes(&mut out, write_be32(e.gid).as_slice());
    append_bytes(&mut out, write_be32(e.size).as_slice());
    out
}

/// The hash of an entry in bytes, where the entry can be written.
fn writable_hash(e: &GitIndexEntry) -> (r: Option<Vec<u8>>)
    ensures
        r is Some <==> entry_writable(e@),
        r is Some ==> r->0@ == hex_bytes(e@.sha),
{
    let sha = match hex_decode(e.sha.as_str()) {
        Ok(sha) => sha,
        Err(_) => { return None; },
    };
    if sha.len() != 20 {
        return None;
    }
    let path = e.path.as_str().as_bytes();
    let nul = find_byte_from(path, 0, 0);
    proof {
        lemma_find_byte(path@, 0, 0);
    }
    if nul < path.len() {
        assert(path_bytes(e@)[nul as int] == 0);
        return None;
    }
    Some(sha)
}

/// The path of an entry as it is written, with the zero byte that ends it
/// and the padding.
fn padded_path(e: &GitIndexEntry) -> (out: Vec<u8>)
    ensures
        out@ == path_bytes(e@) + seq![0u8] + zeros(padding(path_bytes(e@).len() as int)),
{
    let path = e.path.as_str().as_bytes();
    let mut out: Vec<u8> = Vec::new();
    append_bytes(&mut out, path);
    assert(out@ == path@);
    out.push(0);
    let pad: usize = (8 - (path.len() % 8 + 7) % 8) % 8;
    proof {
        lemma_padding(path@.len() as int);
    }
    push_zeros(&mut out, pad);
    out
}

/// Appends an entry in its written form, where it can be written.
fn push_entry(out: &mut Vec<u8>, e: &GitIndexEntry) -> (ok: bool)
    ensures
        ok == entry_writable(e@),
        ok ==> final(out)@ == old(out)@ + entry_bytes(e@),
        !ok ==> final(out)@ == old(out)@,
{
    let sha = match writable_hash(e) {
        Some(sha) => sha,
        None => { return false; },
    };
    let stat = stat_of(e);
    let flags = write_be16(e.flags);
    let tail = padded_path(e);
    proof {
        lemma_entry_parts(e@);
    }
    append_bytes(out, stat.as_slice());
    append_bytes(out, sha.as_slice());
    append_bytes(out, flags.as_slice());
    append_bytes(out, tail.as_slice());
    true
}

/// An entry is written as its numbers, its hash, its flags, and its path
/// with what ends it.
proof fn lemma_entry_parts(e: EntryView)
    ensures
        entry_bytes(e) == stat_bytes(e) + hex_bytes(e.sha) + be16_bytes(e.flags) + (path_bytes(e)
            + seq![0u8] + zeros(padding(path_bytes(e).len() as int))),
{
    reveal(entry_bytes);
    assert(entry_bytes(e) =~= stat_bytes(e) + hex_bytes(e.sha) + be16_bytes(e.flags) + (path_bytes(
        e,
    ) + seq![0u8] + zeros(padding(path_bytes(e).len() as int))));
}

/// Writes an index in its binary form.
///
/// Fails with `CorruptIndex` where an entry's hash is not 40 hexadecimal
/// digits, where a path holds a zero byte, or where there are more entries
/// than four bytes can count.
pub fn index_to_bytes(index: &GitIndex) -> (r: Result<Vec<u8>, GitError>)
    ensures
        match r {
            Ok(out) => index_writable(index@) && out@ == index_bytes(index@),
            Err(e) => e == GitError::CorruptIndex && !index_writable(index@),
        },
{
    if index.entries.len() > 0xffff_ffff {
        return Err(GitError::CorruptIndex);
    }
    let n: u32 = index.entries.len() as u32;
    let mut out: Vec<u8> = vec![0x44u8, 0x49, 0x52, 0x43];
    append_bytes(&mut out, write_be32(2).as_slice());
    append_bytes(&mut out, write_be32(n).as_slice());
    let ghost header = out@;
    let mut i: usize = 0;
    while i < index.entries.len()
        invariant
            i <= index.entries@.len(),
            header == index_magic() + be32_bytes(2) + be32_bytes(n),
            out@ == header + entries_bytes(index@.take(i as int)),
            forall|j: int| 0 <= j < i ==> entry_writable(#[trigger] index@[j]),
        decreases index.entries@.len() - i,
    {
        let ghost before = out@;
        let ok = push_entry(&mut out, &index.entries[i]);
        if !ok {
            assert(!entry_writable(index@[i as int]));
            return Err(GitError::CorruptIndex);
        }
        proof {
            assert(index@.take(i + 1).drop_last() == index@.take(i as int));
            assert(index@.take(i + 1).last() == index@[i as int]);
        }
        i += 1;
    }
    proof {
        assert(index@.take(i as int) == index@);
    }
    Ok(out)
}

/// A part of a suffix is a part of the whole.
pub proof fn lemma_skip_subrange(s: Seq<u8>, k: int, a: int, b: int)
    requires
        0 <= k,
        0 <= a <= b,
        k + b <= s.len(),
    ensures
        s.skip(k).subrange(a, b) == s.subrange(k + a, k + b),
{
    assert(s.skip(k).subrange(a, b) =~= s.subrange(k + a, k + b));
}

/// The number that stands `at` bytes into the entry that begins at `pos`.
fn number_at(data: &[u8], pos: usize, at: usize) -> (n: u32)
    requires
        at <= 36,
        pos + 62 <= data@.len(),
    ensures
        n == be32(data@.skip(pos as int).subrange(at as int, at + 4)),
{
    let len: usize = data.len();
    proof {
        lemma_skip_subrange(data@, pos as int, at as int, at + 4);
    }
    read_be32(slice_subrange(data, pos + at, pos + at + 4))
}

/// The hash of the entry that begins at `pos`, in hexadecimal digits.
fn hash_text_at(data: &[u8], pos: usize) -> (sha: String)
    requires
        pos + 62 <= data@.len(),
    ensures
        sha@ == hex_chars(data@.skip(pos as int).subrange(40, 60)),
{
    let len: usize = data.len();
    proof {
        lemma_skip_subrange(data@, pos as int, 40, 60);
    }
    hex_encode(slice_subrange(data, pos + 40, pos + 60))
}

/// The flags of the entry that begins at `pos`.
fn flags_at(data: &[u8], pos: usize) -> (flags: u16)
    requires
        pos + 62 <= data@.len(),
    ensures
        flags == be16(data@.skip(pos as int).subrange(60, 62)),
{
    let len: usize = data.len();
    proof {
        lemma_skip_subrange(data@, pos as int, 60, 62);
    }
    read_be16(slice_subrange(data, pos + 60, pos + 62))
}

/// Reads the entry that begins at `pos`, and the position behind it and its
/// padding, or the end of the data where the padding is cut short.
#[verifier::rlimit(30)]
fn parse_entry(data: &[u8], pos: usize) -> (r: Option<(GitIndexEntry, usize)>)
    requires
        pos <= data@.len(),
    ensures
        match entry_parse(data@.skip(pos as int)) {
            None => r is None,
            Some((e, used)) => r is Some && r.unwrap().0@ == e && pos <= r.unwrap().1
                <= data@.len() && data@.skip(r.unwrap().1 as int) == after(
                data@.skip(pos as int),
                used,
            ),
        },
{
    let ghost s = data@.skip(pos as int);
    proof {
        reveal(entry_parse);
    }
    let len = data.len();
    if len - pos < 62 {
        return None;
    }
    let nul = find_byte_from(data, 0, pos + 62);
    proof {
        lemma_find_byte_skip(data@, 0, pos as int, pos + 62);
    }
    if nul >= len {
        return None;
    }
    let path = match bytes_to_text(slice_subrange(data, pos + 62, nul)) {
        None => {
            proof {
                lemma_skip_subrange(data@, pos as int, 62, nul - pos);
            }
            return None;
        },
        Some(path) => path,
    };
    let entry = GitIndexEntry {
        ctime: number_at(data, pos, 0),
        ctime_ns: number_at(data, pos, 4),
        mtime: number_at(data, pos, 8),
        mtime_ns: number_at(data, pos, 12),
        dev: number_at(data, pos, 16),
        ino: number_at(data, pos, 20),
        mode: number_at(data, pos, 24),
        uid: number_at(data, pos, 28),
        gid: number_at(data, pos, 32),
        size: number_at(data, pos, 36),
        sha: hash_text_at(data, pos),
        flags: flags_at(data, pos),
        path: path.to_owned(),
    };
    proof {
        lemma_skip_subrange(data@, pos as int, 62, nul - pos);
    }
    let path_len: usize = nul - pos - 62;
    let pad: usize = (8 - (path_len % 8 + 7) % 8) % 8;
    proof {
        lemma_padding(path_len as int);
    }
    let next: usize = if len - nul - 1 >= pad {
        nul + 1 + pad
    } else {
        len
    };
    proof {
        let used = nul - pos + 1 + pad;
        if used <= s.len() {
            assert(data@.skip(next as int) == s.skip(used));
        } else {
            assert(data@.skip(next as int) == Seq::<u8>::empty());
        }
    }
    Some((entry, next))
}

/// Reads an index from its binary form.
///
/// Fails with `CorruptIndex` where the data does not begin with `DIRC` and
/// the version 2, or where it does not hold as many entries as it says.
pub fn index_from_bytes(data: &[u8]) -> (r: Result<GitIndex, GitError>)
    ensures
        match index_parse(data@) {
            Some(es) => r is Ok && r->Ok_0@ == es,
            None => r == Err::<GitIndex, GitError>(GitError::CorruptIndex),
        },
{
    if data.len() < 12 {
        return Err(GitError::CorruptIndex);
    }
    if data[0] != 0x44 || data[1] != 0x49 || data[2] != 0x52 || data[3] != 0x43 {
        assert(data@.take(4)[0] == data@[0]);
        assert(data@.take(4)[1] == data@[1]);
        assert(data@.take(4)[2] == data@[2]);
        assert(data@.take(4)[3] == data@[3]);
        return Err(GitError::CorruptIndex);
    }
    assert(data@.take(4) == index_magic());
    let version = read_be32(slice_subrange(data, 4, 8));
    if version != 2 {
        return Err(GitError::CorruptIndex);
    }
    let n = read_be32(slice_subrange(data, 8, 12));
    let mut entries: Vec<GitIndexEntry> = Vec::new();
    let mut pos: usize = 12;
    let mut i: u32 = 0;
    while i < n
        invariant
            i <= n,
            12 <= pos <= data@.len(),
            index_parse(data@) == with_parsed(
                Seq::new(entries@.len(), |k: int| entries@[k]@),
                entries_parse(data@.skip(pos as int), (n - i) as nat),
            ),
        decreases n - i,
    {
        let ghost before = Seq::new(entries@.len(), |k: int| entries@[k]@);
        match parse_entry(data, pos) {
            None => { return Err(GitError::CorruptIndex); },
            Some((entry, next)) => {
                let ghost e = entry@;
                entries.push(entry);
                proof {
                    let now = Seq::new(entries@.len(), |k: int| entries@[k]@);
                    assert(now == before + seq![e]);
                    match entries_parse(data@.skip(next as int), (n - i - 1) as nat) {
                        None => {},
                        Some(t) => {
                            assert(before + (seq![e] + t) == (before + seq![e]) + t);
                        },
                    }
                }
                pos = next;
            },
        }
        i += 1;
    }
    let index = GitIndex { entries };
    proof {
        assert(index@ + Seq::<EntryView>::empty() == index@);
    }
    Ok(index)
}

impl GitIndexEntry {
    /// A copy of the entry.
    pub fn duplicate(&self) -> (copy: GitIndexEntry)
        ensures
            copy@ == self@,
    {
        GitIndexEntry {
            ctime: self.ctime,
            ctime_ns: self.ctime_ns,
            mtime: self.mtime,
            mtime_ns: self.mtime_ns,
            dev: self.dev,
            ino: self.ino,
            mode: self.mode,
            uid: self.uid,
            gid: self.gid,
            size: self.size,
            sha: self.sha.clone(),
            flags: self.flags,
            path: self.path.clone(),
        }
    }
}

/// The path of the index inside the repository directory.
pub open spec fn index_file() -> Seq<char> {
    "index"@
}

/// Reads the index of a repository. A repository without an index file has
/// the empty index; `CorruptIndex` where the file is no index.
pub fn read_index(repo: &GitRepository) -> (r: Result<GitIndex, GitError>)
    ensures
        match repo.store.content(index_file()) {
            None => r is Ok && r->Ok_0@.len() == 0,
            Some(bytes) => match index_parse(bytes) {
                Some(es) => r is Ok && r->Ok_0@ == es,
                None => r == Err::<GitIndex, GitError>(GitError::CorruptIndex),
            },
        },
{
    match repo.store.read("index") {
        None => Ok(GitIndex { entries: Vec::new() }),
        Some(bytes) => index_from_bytes(bytes.as_slice()),
    }
}

/// Writes the index of a repository: the whole file anew. `CorruptIndex`
/// where the index cannot be written; the repository stays as it is then.
pub fn write_index(repo: &mut GitRepository, index: &GitIndex) -> (r: Result<(), GitError>)
    ensures
        final(repo).worktree == old(repo).worktree,
        final(repo).gitdir == old(repo).gitdir,
        final(repo).config == old(repo).config,
        final(repo).store.dirs == old(repo).store.dirs,
        match r {
            Ok(_) => {
                &&& index_writable(index@)
                &&& final(repo).store.listing() == crate::store::view_put(
                    old(repo).store.listing(),
                    index_file(),
                    index_bytes(index@),
                )
                &&& final(repo).store.content(index_file()) == Some(index_bytes(index@))
                &&& forall|p: Seq<char>|
                    p != index_file() ==> final(repo).store.content(p) == old(repo).store.content(p)
            },
            Err(e) => {
                &&& e == GitError::CorruptIndex
                &&& !index_writable(index@)
                &&& final(repo).store == old(repo).store
            },
        },
{
    match index_to_bytes(index) {
        Err(e) => Err(e),
        Ok(bytes) => {
            repo.store.write("index".to_owned(), bytes);
            Ok(())
        },
    }
}

} // verus!
