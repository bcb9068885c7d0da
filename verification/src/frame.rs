//! The frame of a stored object: the kind, a space, the payload's length in
//! decimal digits, a zero byte, and the payload. An object is named by the
//! hash of its frame and stored as the compressed frame.

use vstd::prelude::*;
use vstd::slice::slice_subrange;
use crate::bytes::{append_bytes, bytes_eq, find_byte, find_byte_from, lemma_find_byte_is};
use crate::error::GitError;

verus! {

/// The zero byte that ends the header of a frame.
pub const NUL: u8 = 0;

/// The space between the kind and the length.
pub const FRAME_SPACE: u8 = 0x20;

/// The four kinds of object.
#[derive(Copy, Clone, PartialEq, Eq, Structural, Debug)]
pub enum GitObjectType {
    Blob,
    Commit,
    Tree,
    Tag,
}

/// The kind as it is written in a frame: `blob`, `commit`, `tree` or `tag`.
pub open spec fn kind_name(kind: GitObjectType) -> Seq<u8> {
    match kind {
        GitObjectType::Blob => seq![0x62u8, 0x6c, 0x6f, 0x62],
        GitObjectType::Commit => seq![0x63u8, 0x6f, 0x6d, 0x6d, 0x69, 0x74],
        GitObjectType::Tree => seq![0x74u8, 0x72, 0x65, 0x65],
        GitObjectType::Tag => seq![0x74u8, 0x61, 0x67],
    }
}

/// The kind that a token names, where it names one.
pub open spec fn kind_of_name(token: Seq<u8>) -> Option<GitObjectType> {
    if token == kind_name(GitObjectType::Blob) {
        Some(GitObjectType::Blob)
    } else if token == kind_name(GitObjectType::Commit) {
        Some(GitObjectType::Commit)
    } else if token == kind_name(GitObjectType::Tree) {
        Some(GitObjectType::Tree)
    } else if token == kind_name(GitObjectType::Tag) {
        Some(GitObjectType::Tag)
    } else {
        None
    }
}

/// A number in decimal digits, without leading zeros.
pub open spec fn decimal(n: nat) -> Seq<u8>
    decreases n,
{
    if n < 10 {
        seq![(48 + n) as u8]
    } else {
        decimal(n / 10).push((48 + n % 10) as u8)
    }
}

/// The frame of a payload of the given kind.
pub open spec fn frame_bytes(kind: GitObjectType, payload: Seq<u8>) -> Seq<u8> {
    kind_name(kind) + seq![FRAME_SPACE] + decimal(payload.len()) + seq![NUL] + payload
}

/// The kind and the payload of a frame.
///
/// `CorruptObject` where the zero byte is missing, where no space stands
/// before it, or where the digits between the two are not the payload's
/// length; `UnknownKind` where the token before the space is none of the four.
pub open spec fn frame_parse(frame: Seq<u8>) -> Result<(GitObjectType, Seq<u8>), GitError> {
    let nul = find_byte(frame, NUL, 0);
    let sp = find_byte(frame, FRAME_SPACE, 0);
    let payload = frame.skip(nul + 1);
    if nul >= frame.len() || sp >= nul {
        Err(GitError::CorruptObject)
    } else {
        match kind_of_name(frame.take(sp)) {
            None => Err(GitError::UnknownKind),
            Some(kind) => if frame.subrange(sp + 1, nul) == decimal(payload.len()) {
                Ok((kind, payload))
            } else {
                Err(GitError::CorruptObject)
            },
        }
    }
}

/// Decimal digits are digits: there is at least one, and none is a space or a
/// zero byte.
pub proof fn lemma_decimal_digits(n: nat)
    ensures
        decimal(n).len() > 0,
        forall|i: int| 0 <= i < decimal(n).len() ==> 48 <= #[trigger] decimal(n)[i] <= 57,
    decreases n,
{
    if n >= 10 {
        lemma_decimal_digits(n / 10);
    }
}

/// The name of a kind names that kind, and holds neither space nor zero byte.
pub proof fn lemma_kind_names(kind: GitObjectType)
    ensures
        kind_of_name(kind_name(kind)) == Some(kind),
        forall|i: int|
            0 <= i < kind_name(kind).len() ==> #[trigger] kind_name(kind)[i] != FRAME_SPACE
                && kind_name(kind)[i] != NUL,
{
    let blob = kind_name(GitObjectType::Blob);
    let commit = kind_name(GitObjectType::Commit);
    let tree = kind_name(GitObjectType::Tree);
    let tag = kind_name(GitObjectType::Tag);
    assert(blob.len() == 4 && commit.len() == 6 && tree.len() == 4 && tag.len() == 3);
    assert(blob[0] != tree[0]);
}

/// The frame of a payload parses back to the kind and the payload.
pub proof fn lemma_frame_roundtrip(kind: GitObjectType, payload: Seq<u8>)
    ensures
        frame_parse(frame_bytes(kind, payload)) == Ok::<(GitObjectType, Seq<u8>), GitError>(
            (kind, payload),
        ),
{
    let name = kind_name(kind);
    let digits = decimal(payload.len());
    let frame = frame_bytes(kind, payload);
    lemma_kind_names(kind);
    lemma_decimal_digits(payload.len());
    let sp = name.len() as int;
    let nul = sp + 1 + digits.len();
    assert(frame.len() == nul + 1 + payload.len());
    assert(forall|j: int| 0 <= j < sp ==> frame[j] == name[j]);
    assert(frame[sp] == FRAME_SPACE);
    assert(forall|j: int| sp < j < nul ==> frame[j] == digits[j - sp - 1]);
    assert(frame[nul] == NUL);
    lemma_find_byte_is(frame, FRAME_SPACE, 0, sp);
    lemma_find_byte_is(frame, NUL, 0, nul);
    assert(frame.take(sp) == name);
    assert(frame.subrange(sp + 1, nul) == digits);
    assert(frame.skip(nul + 1) == payload);
}

impl GitObjectType {
    /// The kind as it is written in a frame.
    pub fn name(&self) -> (n: Vec<u8>)
        ensures
            n@ == kind_name(*self),
    {
        match self {
            GitObjectType::Blob => vec![0x62u8, 0x6c, 0x6f, 0x62],
            GitObjectType::Commit => vec![0x63u8, 0x6f, 0x6d, 0x6d, 0x69, 0x74],
            GitObjectType::Tree => vec![0x74u8, 0x72, 0x65, 0x65],
            GitObjectType::Tag => vec![0x74u8, 0x61, 0x67],
        }
    }

    /// The kind that `token` names.
    pub fn from_name(token: &[u8]) -> (r: Option<GitObjectType>)
        ensures
            r == kind_of_name(token@),
    {
        if bytes_eq(token, GitObjectType::Blob.name().as_slice()) {
            Some(GitObjectType::Blob)
        } else if bytes_eq(token, GitObjectType::Commit.name().as_slice()) {
            Some(GitObjectType::Commit)
        } else if bytes_eq(token, GitObjectType::Tree.name().as_slice()) {
            Some(GitObjectType::Tree)
        } else if bytes_eq(token, GitObjectType::Tag.name().as_slice()) {
            Some(GitObjectType::Tag)
        } else {
            None
        }
    }
}

/// Appends `n` in decimal digits.
pub fn push_decimal(out: &mut Vec<u8>, n: usize)
    ensures
        final(out)@ == old(out)@ + decimal(n as nat),
    decreases n,
{
    if n >= 10 {
        push_decimal(out, n / 10);
    }
    let digit: u8 = 48 + (n % 10) as u8;
    out.push(digit);
}

/// Builds the frame of a payload.
pub fn object_frame(kind: &GitObjectType, payload: &[u8]) -> (frame: Vec<u8>)
    ensures
        frame@ == frame_bytes(*kind, payload@),
{
    let mut frame = kind.name();
    frame.push(FRAME_SPACE);
    push_decimal(&mut frame, payload.len());
    frame.push(NUL);
    append_bytes(&mut frame, payload);
    frame
}

/// Reads the header of a frame: the kind, and the position at which the
/// payload begins.
pub fn frame_split(frame: &[u8]) -> (r: Result<(GitObjectType, usize), GitError>)
    ensures
        match frame_parse(frame@) {
            Ok((kind, payload)) => r is Ok && r->Ok_0.0 == kind && r->Ok_0.1 <= frame@.len()
                && payload == frame@.skip(r->Ok_0.1 as int),
            Err(e) => r == Err::<(GitObjectType, usize), GitError>(e),
        },
{
    let nul = find_byte_from(frame, NUL, 0);
    let sp = find_byte_from(frame, FRAME_SPACE, 0);
    if nul >= frame.len() || sp >= nul {
        return Err(GitError::CorruptObject);
    }
    match GitObjectType::from_name(slice_subrange(frame, 0, sp)) {
        None => Err(GitError::UnknownKind),
        Some(kind) => {
            let mut digits: Vec<u8> = Vec::new();
            push_decimal(&mut digits, frame.len() - nul - 1);
            if bytes_eq(slice_subrange(frame, sp + 1, nul), digits.as_slice()) {
                Ok((kind, nul + 1))
            } else {
                Err(GitError::CorruptObject)
            }
        },
    }
}

} // verus!
