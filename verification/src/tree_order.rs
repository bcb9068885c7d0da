//! The order of the entries of a tree: by name, bytewise, a directory's name
//! being taken with a slash behind it.

use vstd::prelude::*;
use vstd::seq_lib::to_multiset_build;
use crate::bytes::bytes_eq;
use crate::tree::{GitTreeLeaf, LeafView};

verus! {

/// The slash between the components of a path.
pub const SLASH_BYTE: u8 = 0x2f;

/// The mode of a directory: `40000`.
pub open spec fn dir_mode() -> Seq<u8> {
    seq![0x34u8, 0x30, 0x30, 0x30, 0x30]
}

/// The mode of a regular file: `100644`.
pub open spec fn file_mode() -> Seq<u8> {
    seq![0x31u8, 0x30, 0x30, 0x36, 0x34, 0x34]
}

/// What an entry is ordered by: its name, with a slash behind it where the
/// entry is a directory.
pub open spec fn sort_key(l: LeafView) -> Seq<u8> {
    if l.mode == dir_mode() {
        l.path.push(SLASH_BYTE)
    } else {
        l.path
    }
}

/// Whether `a` comes before `b` or is `b`, byte by byte; a prefix comes first.
pub open spec fn bytes_le(a: Seq<u8>, b: Seq<u8>) -> bool
    decreases a.len(),
{
    if a.len() == 0 {
        true
    } else if b.len() == 0 {
        false
    } else if a[0] != b[0] {
        a[0] < b[0]
    } else {
        bytes_le(a.skip(1), b.skip(1))
    }
}

/// Whether the entry `a` may stand before the entry `b`.
pub open spec fn leaf_le(a: LeafView, b: LeafView) -> bool {
    bytes_le(sort_key(a), sort_key(b))
}

/// Whether each entry may stand before the next.
pub open spec fn leaves_sorted(s: Seq<LeafView>) -> bool {
    forall|i: int| 0 <= i < s.len() - 1 ==> leaf_le(#[trigger] s[i], s[i + 1])
}

/// `s` with `x` behind the last entry that may stand before it.
pub open spec fn insert_sorted(s: Seq<LeafView>, x: LeafView) -> Seq<LeafView>
    decreases s.len(),
{
    if s.len() == 0 {
        seq![x]
    } else if leaf_le(s.last(), x) {
        s.push(x)
    } else {
        insert_sorted(s.drop_last(), x).push(s.last())
    }
}

/// The entries in order; entries with the same key keep their order.
pub open spec fn sort_leaves(s: Seq<LeafView>) -> Seq<LeafView>
    decreases s.len(),
{
    if s.len() == 0 {
        Seq::empty()
    } else {
        insert_sorted(sort_leaves(s.drop_last()), s.last())
    }
}

/// The entries of a vector as mathematical values.
pub open spec fn leaves_view(v: Seq<GitTreeLeaf>) -> Seq<LeafView> {
    Seq::new(v.len(), |i: int| v[i]@)
}

/// Of two byte strings one comes before the other, or they are the same.
pub proof fn lemma_bytes_le_total(a: Seq<u8>, b: Seq<u8>)
    ensures
        bytes_le(a, b) || bytes_le(b, a),
    decreases a.len(),
{
    if a.len() > 0 && b.len() > 0 && a[0] == b[0] {
        lemma_bytes_le_total(a.skip(1), b.skip(1));
    }
}

/// Inserting into ordered entries keeps them ordered, and adds the entry and
/// nothing else.
pub proof fn lemma_insert_sorted(s: Seq<LeafView>, x: LeafView)
    requires
        leaves_sorted(s),
    ensures
        leaves_sorted(insert_sorted(s, x)),
        insert_sorted(s, x).len() == s.len() + 1,
        insert_sorted(s, x).to_multiset() == s.to_multiset().insert(x),
        insert_sorted(s, x).last() == x || (s.len() > 0 && insert_sorted(s, x).last() == s.last()),
    decreases s.len(),
{
    broadcast use to_multiset_build;

    let r = insert_sorted(s, x);
    if s.len() == 0 {
        assert(seq![x] == Seq::<LeafView>::empty().push(x));
        assert(s == Seq::<LeafView>::empty());
    } else if leaf_le(s.last(), x) {
        assert forall|i: int| 0 <= i < r.len() - 1 implies leaf_le(#[trigger] r[i], r[i + 1]) by {
            if i < s.len() - 1 {
                assert(r[i] == s[i] && r[i + 1] == s[i + 1]);
            }
        }
    } else {
        let dl = s.drop_last();
        let inner = insert_sorted(dl, x);
        assert(leaves_sorted(dl)) by {
            assert forall|i: int| 0 <= i < dl.len() - 1 implies leaf_le(
                #[trigger] dl[i],
                dl[i + 1],
            ) by {
                assert(dl[i] == s[i] && dl[i + 1] == s[i + 1]);
            }
        }
        lemma_insert_sorted(dl, x);
        lemma_bytes_le_total(sort_key(s.last()), sort_key(x));
        assert(leaf_le(inner.last(), s.last())) by {
            if inner.last() != x {
                assert(dl.last() == s[s.len() - 2]);
            }
        }
        assert forall|i: int| 0 <= i < r.len() - 1 implies leaf_le(#[trigger] r[i], r[i + 1]) by {
            if i < inner.len() - 1 {
                assert(r[i] == inner[i] && r[i + 1] == inner[i + 1]);
            } else {
                assert(r[i] == inner.last());
            }
        }
        assert(s == dl.push(s.last()));
        assert(r.to_multiset() =~= s.to_multiset().insert(x));
    }
}

/// The sorted entries are in order, and are the entries that went in, each as
/// often as it went in.
pub proof fn lemma_sort_leaves(s: Seq<LeafView>)
    ensures
        leaves_sorted(sort_leaves(s)),
        sort_leaves(s).len() == s.len(),
        sort_leaves(s).to_multiset() == s.to_multiset(),
    decreases s.len(),
{
    broadcast use to_multiset_build;

    if s.len() > 0 {
        let dl = s.drop_last();
        lemma_sort_leaves(dl);
        lemma_insert_sorted(sort_leaves(dl), s.last());
        assert(s == dl.push(s.last()));
        assert(dl.push(s.last()).to_multiset() =~= dl.to_multiset().insert(s.last()));
    } else {
        assert(s == Seq::<LeafView>::empty());
    }
}

/// Where the entries from `at` on may not stand before `x`, and the entry
/// before `at` may, `x` is inserted at `at`.
pub proof fn lemma_insert_at(s: Seq<LeafView>, x: LeafView, at: int)
    requires
        0 <= at <= s.len(),
        at > 0 ==> leaf_le(s[at - 1], x),
        forall|j: int| at <= j < s.len() ==> !leaf_le(#[trigger] s[j], x),
    ensures
        insert_sorted(s, x) == s.insert(at, x),
    decreases s.len() - at,
{
    if at == s.len() {
        assert(s.insert(at, x) == s.push(x));
        if s.len() == 0 {
            assert(s.push(x) == seq![x]);
        }
    } else {
        let dl = s.drop_last();
        assert(!leaf_le(s[s.len() - 1], x));
        assert forall|j: int| at <= j < dl.len() implies !leaf_le(#[trigger] dl[j], x) by {
            assert(dl[j] == s[j]);
        }
        if at > 0 {
            assert(dl[at - 1] == s[at - 1]);
        }
        lemma_insert_at(dl, x, at);
        assert(dl.insert(at, x).push(s.last()) == s.insert(at, x));
    }
}

/// Whether `a` comes before `b` or is `b`.
pub fn key_le(a: &[u8], b: &[u8]) -> (le: bool)
    ensures
        le == bytes_le(a@, b@),
{
    let mut i: usize = 0;
    assert(a@.skip(0) == a@ && b@.skip(0) == b@);
    while i < a.len() && i < b.len() && a[i] == b[i]
        invariant
            i <= a@.len(),
            i <= b@.len(),
            bytes_le(a@, b@) == bytes_le(a@.skip(i as int), b@.skip(i as int)),
        decreases a@.len() - i,
    {
        assert(a@.skip(i as int).skip(1) == a@.skip(i + 1));
        assert(b@.skip(i as int).skip(1) == b@.skip(i + 1));
        i += 1;
    }
    if i >= a.len() {
        true
    } else if i >= b.len() {
        false
    } else {
        a[i] < b[i]
    }
}

/// Whether `mode` is the mode of a directory.
pub fn is_dir_mode(mode: &[u8]) -> (dir: bool)
    ensures
        dir == (mode@ == dir_mode()),
{
    let dir: [u8; 5] = [0x34, 0x30, 0x30, 0x30, 0x30];
    assert(dir@ =~= dir_mode());
    bytes_eq(mode, dir.as_slice())
}

/// What an entry is ordered by.
pub fn key_of(leaf: &GitTreeLeaf) -> (key: Vec<u8>)
    ensures
        key@ == sort_key(leaf@),
{
    let mut key: Vec<u8> = Vec::new();
    crate::bytes::append_bytes(&mut key, leaf.path.as_slice());
    assert(key@ == leaf@.path);
    if is_dir_mode(leaf.mode.as_slice()) {
        key.push(SLASH_BYTE);
    }
    key
}

/// Puts an entry into ordered entries, behind the last one that may stand
/// before it.
pub fn insert_leaf(sorted: &mut Vec<GitTreeLeaf>, leaf: GitTreeLeaf)
    ensures
        leaves_view(final(sorted)@) == insert_sorted(leaves_view(old(sorted)@), leaf@),
{
    let key = key_of(&leaf);
    let ghost s = leaves_view(sorted@);
    let mut at: usize = sorted.len();
    while at > 0 && !key_le(key_of(&sorted[at - 1]).as_slice(), key.as_slice())
        invariant
            at <= sorted@.len(),
            s == leaves_view(sorted@),
            key@ == sort_key(leaf@),
            forall|j: int| at <= j < s.len() ==> !leaf_le(#[trigger] s[j], leaf@),
        decreases at,
    {
        at -= 1;
    }
    proof {
        lemma_insert_at(s, leaf@, at as int);
    }
    sorted.insert(at, leaf);
    assert(leaves_view(sorted@) == s.insert(at as int, leaf@));
}

} // verus!
