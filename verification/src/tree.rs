//! Tree objects: a list of named children, each with a mode and the hash of
//! the object it stands for. An entry is written as the mode, a space, the
//! name, a zero byte, and the 20 bytes of the hash.

use vstd::prelude::*;
use crate::bytes::{append_bytes, copy_range, find_byte, find_byte_from, lemma_find_byte,
    lemma_find_byte_is, lemma_find_byte_skip};
use crate::error::GitError;

verus! {

/// The space that ends the mode of an entry.
pub const MODE_END: u8 = 0x20;

/// The zero byte that ends the name of an entry.
pub const NAME_END: u8 = 0;

/// One entry of a tree.
#[derive(Debug, Clone)]
pub struct GitTreeLeaf {
    /// The mode in octal digits, such as `100644` or `40000`.
    pub mode: Vec<u8>,
    /// The name of the child.
    pub path: Vec<u8>,
    /// The hash of the child.
    pub sha: [u8; 20],
}

/// What an entry holds, as mathematical sequences.
pub struct LeafView {
    pub mode: Seq<u8>,
    pub path: Seq<u8>,
    pub sha: Seq<u8>,
}

impl View for GitTreeLeaf {
    type V = LeafView;

    open spec fn view(&self) -> LeafView {
        LeafView { mode: self.mode@, path: self.path@, sha: self.sha@ }
    }
}

/// A tree object: its entries in the order in which they are written.
#[derive(Debug, Clone)]
pub struct GitTree {
    pub entries: Vec<GitTreeLeaf>,
}

impl View for GitTree {
    type V = Seq<LeafView>;

    open spec fn view(&self) -> Seq<LeafView> {
        Seq::new(self.entries@.len(), |i: int| self.entries@[i]@)
    }
}

/// An entry that can be read back: no space in the mode, no zero byte in the
/// name, and a hash of 20 bytes.
pub open spec fn leaf_wf(l: LeafView) -> bool {
    &&& forall|i: int| 0 <= i < l.mode.len() ==> l.mode[i] != MODE_END
    &&& forall|i: int| 0 <= i < l.path.len() ==> l.path[i] != NAME_END
    &&& l.sha.len() == 20
}

/// A tree whose entries can all be read back.
pub open spec fn tree_wf(t: Seq<LeafView>) -> bool {
    forall|i: int| 0 <= i < t.len() ==> leaf_wf(#[trigger] t[i])
}

/// One entry as it is written.
pub open spec fn leaf_bytes(l: LeafView) -> Seq<u8> {
    l.mode + seq![MODE_END] + l.path + seq![NAME_END] + l.sha
}

/// The entries as they are written, one after the other.
pub open spec fn tree_bytes(t: Seq<LeafView>) -> Seq<u8>
    decreases t.len(),
{
    if t.len() == 0 {
        Seq::empty()
    } else {
        leaf_bytes(t[0]) + tree_bytes(t.skip(1))
    }
}

/// `tail` with `entries` put in front, where there is a `tail`.
pub open spec fn with_entries(entries: Seq<LeafView>, tail: Option<Seq<LeafView>>) -> Option<
    Seq<LeafView>,
> {
    match tail {
        None => None,
        Some(t) => Some(entries + t),
    }
}

/// The entries that a payload holds; `None` where it is cut short.
///
/// Up to the first space is the mode, from there up to the next zero byte the
/// name, the next 20 bytes are the hash, and the rest holds the other entries.
pub open spec fn tree_parse(s: Seq<u8>) -> Option<Seq<LeafView>>
    decreases s.len(),
    via tree_parse_terminates
{
    let sp = find_byte(s, MODE_END, 0);
    let nul = find_byte(s, NAME_END, sp + 1);
    if s.len() == 0 {
        Some(Seq::empty())
    } else if sp >= s.len() || nul >= s.len() || nul + 21 > s.len() {
        None
    } else {
        let leaf = LeafView {
            mode: s.take(sp),
            path: s.subrange(sp + 1, nul),
            sha: s.subrange(nul + 1, nul + 21),
        };
        with_entries(seq![leaf], tree_parse(s.skip(nul + 21)))
    }
}

#[via_fn]
proof fn tree_parse_terminates(s: Seq<u8>) {
    lemma_find_byte(s, MODE_END, 0);
    let sp = find_byte(s, MODE_END, 0);
    if sp < s.len() {
        lemma_find_byte(s, NAME_END, sp + 1);
    }
}

/// Writing the entries one more is writing one entry more.
pub proof fn lemma_tree_bytes_push(t: Seq<LeafView>, l: LeafView)
    ensures
        tree_bytes(t.push(l)) == tree_bytes(t) + leaf_bytes(l),
    decreases t.len(),
{
    if t.len() == 0 {
        assert(t.push(l).skip(1) == Seq::<LeafView>::empty());
        assert(tree_bytes(t.push(l).skip(1)) == Seq::<u8>::empty());
        assert(t.push(l)[0] == l);
    } else {
        assert(t.push(l).skip(1) == t.skip(1).push(l));
        lemma_tree_bytes_push(t.skip(1), l);
    }
}

/// Serializing a tree of well-formed entries and parsing the result gives the
/// tree back.
pub proof fn lemma_tree_roundtrip(t: Seq<LeafView>)
    requires
        tree_wf(t),
    ensures
        tree_parse(tree_bytes(t)) == Some(t),
    decreases t.len(),
{
    let s = tree_bytes(t);
    if t.len() == 0 {
        assert(t == Seq::<LeafView>::empty());
    } else {
        let l = t[0];
        let rest = tree_bytes(t.skip(1));
        assert(leaf_wf(l));
        assert(tree_wf(t.skip(1))) by {
            assert forall|i: int| 0 <= i < t.skip(1).len() implies leaf_wf(
                #[trigger] t.skip(1)[i],
            ) by {
                assert(t.skip(1)[i] == t[i + 1]);
            }
        }
        lemma_tree_roundtrip(t.skip(1));
        assert(s == l.mode + seq![MODE_END] + l.path + seq![NAME_END] + l.sha + rest);
        let sp = l.mode.len() as int;
        let nul = sp + 1 + l.path.len();
        assert(forall|j: int| 0 <= j < sp ==> s[j] == l.mode[j]);
        assert(s[sp] == MODE_END);
        assert(forall|j: int| sp < j < nul ==> s[j] == l.path[j - sp - 1]);
        assert(s[nul] == NAME_END);
        lemma_find_byte_is(s, MODE_END, 0, sp);
        lemma_find_byte_is(s, NAME_END, sp + 1, nul);
        assert(s.take(sp) == l.mode);
        assert(s.subrange(sp + 1, nul) == l.path);
        assert(s.subrange(nul + 1, nul + 21) == l.sha);
        assert(s.skip(nul + 21) == rest);
        assert(seq![l] + t.skip(1) == t);
    }
}

/// The 20 bytes of `data` from `at` on.
pub(crate) fn hash_at(data: &[u8], at: usize) -> (sha: [u8; 20])
    requires
        at + 20 <= data@.len(),
    ensures
        sha@ == data@.subrange(at as int, at + 20),
{
    let mut sha: [u8; 20] = [0u8; 20];
    let mut i: usize = 0;
    let len: usize = data.len();
    while i < 20
        invariant
            i <= 20,
            at + 20 <= data@.len() == len,
            forall|j: int| 0 <= j < i ==> sha@[j] == data@[at + j],
        decreases 20 - i,
    {
        sha[i] = data[at + i];
        i += 1;
    }
    assert(sha@ =~= data@.subrange(at as int, at + 20));
    sha
}

impl GitTree {
    /// The tree without entries.
    pub fn empty() -> (t: GitTree)
        ensures
            t@.len() == 0,
    {
        GitTree { entries: Vec::new() }
    }

    /// Writes the entries in their order.
    pub fn to_bytes(&self) -> (out: Vec<u8>)
        ensures
            out@ == tree_bytes(self@),
    {
        let mut out: Vec<u8> = Vec::new();
        let mut i: usize = 0;
        while i < self.entries.len()
            invariant
                i <= self.entries@.len(),
                out@ == tree_bytes(self@.take(i as int)),
            decreases self.entries@.len() - i,
        {
            let ghost before = out@;
            let entry = &self.entries[i];
            append_bytes(&mut out, entry.mode.as_slice());
            out.push(MODE_END);
            append_bytes(&mut out, entry.path.as_slice());
            out.push(NAME_END);
            append_bytes(&mut out, entry.sha.as_slice());
            proof {
                assert(out@ == before + leaf_bytes(entry@));
                lemma_tree_bytes_push(self@.take(i as int), entry@);
                assert(self@.take(i + 1) == self@.take(i as int).push(entry@));
            }
            i += 1;
        }
        proof {
            assert(self@.take(i as int) == self@);
        }
        out
    }

    /// Reads the entries of a payload. Fails with `CorruptObject` where the
    /// payload ends inside an entry.
    pub fn from_bytes(data: &[u8]) -> (r: Result<GitTree, GitError>)
        ensures
            match tree_parse(data@) {
                Some(t) => r is Ok && r->Ok_0@ == t,
                None => r == Err::<GitTree, GitError>(GitError::CorruptObject),
            },
    {
        let mut entries: Vec<GitTreeLeaf> = Vec::new();
        let mut pos: usize = 0;
        assert(data@.skip(0) == data@);
        while pos < data.len()
            invariant
                pos <= data@.len(),
                tree_parse(data@) == with_entries(
                    Seq::new(entries@.len(), |i: int| entries@[i]@),
                    tree_parse(data@.skip(pos as int)),
                ),
            decreases data@.len() - pos,
        {
            let ghost s = data@.skip(pos as int);
            let ghost before = Seq::new(entries@.len(), |i: int| entries@[i]@);
            let sp = find_byte_from(data, MODE_END, pos);
            proof {
                lemma_find_byte_skip(data@, MODE_END, pos as int, pos as int);
            }
            if sp >= data.len() {
                return Err(GitError::CorruptObject);
            }
            let nul = find_byte_from(data, NAME_END, sp + 1);
            proof {
                lemma_find_byte_skip(data@, NAME_END, pos as int, sp + 1);
            }
            if nul >= data.len() || data.len() - nul < 21 {
                return Err(GitError::CorruptObject);
            }
            let leaf = GitTreeLeaf {
                mode: copy_range(data, pos, sp),
                path: copy_range(data, sp + 1, nul),
                sha: hash_at(data, nul + 1),
            };
            proof {
                assert(s.take(sp - pos) == data@.subrange(pos as int, sp as int));
                assert(s.subrange(sp + 1 - pos, nul - pos) == data@.subrange(sp + 1, nul as int));
                assert(s.subrange(nul + 1 - pos, nul + 21 - pos) == data@.subrange(
                    nul + 1,
                    nul + 21,
                ));
                assert(s.skip(nul + 21 - pos) == data@.skip(nul + 21));
            }
            entries.push(leaf);
            proof {
                let after = Seq::new(entries@.len(), |i: int| entries@[i]@);
                assert(after == before + seq![leaf@]);
                match tree_parse(data@.skip(nul + 21)) {
                    None => {},
                    Some(t) => {
                        assert(before + (seq![leaf@] + t) == (before + seq![leaf@]) + t);
                    },
                }
            }
            pos = nul + 21;
        }
        let tree = GitTree { entries };
        proof {
            assert(tree@ + Seq::<LeafView>::empty() == tree@);
        }
        Ok(tree)
    }
}

} // verus!
