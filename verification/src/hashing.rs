//! Object names: the SHA-1 of an object's frame, and its spelling in
//! hexadecimal digits.

use vstd::prelude::*;
use sha1::{Digest, Sha1};

verus! {

#[verifier::external_type_specification]
#[verifier::external_body]
pub struct ExFromHexError(hex::FromHexError);

/// The SHA-1 digest of `data`: 20 bytes that depend on `data` alone.
pub uninterp spec fn sha1_digest(data: Seq<u8>) -> Seq<u8>;

/// Calls `Sha1::update` and `Sha1::finalize` of the crate `sha1` on `data`.
/// The contract names the digest and claims that it is the digest of these
/// bytes; nothing is claimed of its value.
#[verifier::external_body]
pub(crate) fn sha1_of(data: &[u8]) -> (digest: [u8; 20])
    ensures
        digest@ == sha1_digest(data@),
{
    let mut hasher = Sha1::new();
    hasher.update(data);
    hasher.finalize().into()
}

/// The lowercase hexadecimal digit of a number below 16.
pub open spec fn hex_digit(n: int) -> char {
    if n < 10 {
        (n + 48) as u8 as char
    } else {
        (n + 87) as u8 as char
    }
}

/// The number that a hexadecimal digit stands for, in either case.
pub open spec fn hex_value(c: char) -> Option<int> {
    if '0' <= c <= '9' {
        Some(c as int - 48)
    } else if 'a' <= c <= 'f' {
        Some(c as int - 87)
    } else if 'A' <= c <= 'F' {
        Some(c as int - 55)
    } else {
        None
    }
}

/// The bytes spelled out: two lowercase digits for each, the high one first.
pub open spec fn hex_chars(bytes: Seq<u8>) -> Seq<char> {
    Seq::new(
        2 * bytes.len(),
        |i: int|
            if i % 2 == 0 {
                hex_digit(bytes[i / 2] as int / 16)
            } else {
                hex_digit(bytes[i / 2] as int % 16)
            },
    )
}

/// An even number of hexadecimal digits, in either case.
pub open spec fn is_hex(s: Seq<char>) -> bool {
    &&& s.len() % 2 == 0
    &&& forall|i: int| 0 <= i < s.len() ==> hex_value(#[trigger] s[i]) is Some
}

/// Lowercase hexadecimal digits only.
pub open spec fn is_lower_hex(s: Seq<char>) -> bool {
    forall|i: int| 0 <= i < s.len() ==> ('0' <= #[trigger] s[i] <= '9' || 'a' <= s[i] <= 'f')
}

/// The bytes that a string of hexadecimal digits spells.
pub open spec fn hex_bytes(s: Seq<char>) -> Seq<u8> {
    Seq::new(
        s.len() / 2,
        |i: int| (hex_value(s[2 * i]).unwrap() * 16 + hex_value(s[2 * i + 1]).unwrap()) as u8,
    )
}

/// The name of an object: 40 lowercase hexadecimal digits.
pub open spec fn is_object_name(s: Seq<char>) -> bool {
    s.len() == 40 && is_lower_hex(s)
}

/// Calls `hex::encode`, which writes each byte as two lowercase hexadecimal
/// digits, the high half first.
#[verifier::external_body]
pub(crate) fn hex_encode(bytes: &[u8]) -> (text: String)
    ensures
        text@ == hex_chars(bytes@),
{
    hex::encode(bytes)
}

/// Calls `hex::decode`, which reads two hexadecimal digits of either case into
/// each byte and fails on an odd length or on any other character.
#[verifier::external_body]
pub(crate) fn hex_decode(text: &str) -> (r: Result<Vec<u8>, hex::FromHexError>)
    ensures
        r is Ok <==> is_hex(text@),
        r is Ok ==> r->Ok_0@ == hex_bytes(text@),
{
    hex::decode(text)
}

/// Spelling bytes out and reading them back gives the bytes.
pub proof fn lemma_hex_bytes_chars(bytes: Seq<u8>)
    ensures
        is_hex(hex_chars(bytes)),
        is_lower_hex(hex_chars(bytes)),
        hex_chars(bytes).len() == 2 * bytes.len(),
        hex_bytes(hex_chars(bytes)) == bytes,
{
    let s = hex_chars(bytes);
    assert forall|i: int| 0 <= i < s.len() implies (hex_value(#[trigger] s[i]) is Some && ('0'
        <= s[i] <= '9' || 'a' <= s[i] <= 'f')) by {
        let n = if i % 2 == 0 {
            bytes[i / 2] as int / 16
        } else {
            bytes[i / 2] as int % 16
        };
        assert(0 <= n < 16);
        assert(s[i] == hex_digit(n));
    }
    assert forall|i: int| 0 <= i < bytes.len() implies hex_bytes(s)[i] == bytes[i] by {
        let hi = bytes[i] as int / 16;
        let lo = bytes[i] as int % 16;
        assert(s[2 * i] == hex_digit(hi));
        assert(s[2 * i + 1] == hex_digit(lo));
        assert(hex_value(hex_digit(hi)) == Some(hi));
        assert(hex_value(hex_digit(lo)) == Some(lo));
    }
    assert(hex_bytes(s) =~= bytes);
}

/// Reading lowercase digits and spelling the bytes out gives the digits.
pub proof fn lemma_hex_chars_bytes(s: Seq<char>)
    requires
        s.len() % 2 == 0,
        is_lower_hex(s),
    ensures
        is_hex(s),
        hex_bytes(s).len() * 2 == s.len(),
        hex_chars(hex_bytes(s)) == s,
{
    let b = hex_bytes(s);
    assert forall|i: int| 0 <= i < s.len() implies hex_chars(b)[i] == s[i] by {
        let k = i / 2;
        let hi = hex_value(s[2 * k]).unwrap();
        let lo = hex_value(s[2 * k + 1]).unwrap();
        assert(0 <= hi < 16 && 0 <= lo < 16);
        assert(b[k] as int == hi * 16 + lo);
        assert(hex_digit(hi) == s[2 * k]);
        assert(hex_digit(lo) == s[2 * k + 1]);
    }
    assert(hex_chars(b) =~= s);
}

} // verus!
