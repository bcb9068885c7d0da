//! The header-record codec of commits and tags: an ordered list of
//! `key SP value LF` headers, a blank line, and a free-form message. A line
//! break inside a value is written as a line break followed by a space.

use vstd::prelude::*;
use crate::bytes::{append_bytes, bytes_eq, copy_range, find_byte, find_byte_from, lemma_find_byte,
    lemma_find_byte_is, lemma_find_byte_skip};
use crate::error::GitError;

verus! {

/// The space that parts a key from its value and that opens a continuation line.
pub const SPACE: u8 = 0x20;

/// The line break that ends a header.
pub const NEWLINE: u8 = 0x0a;

/// An ordered list of headers, in which a key may occur more than once, and a
/// message.
#[derive(Debug, Clone)]
pub struct Kvlm {
    /// The headers as `(key, value)`, in the order in which they were parsed or added.
    pub headers: Vec<(Vec<u8>, Vec<u8>)>,
    /// The message: everything after the blank line.
    pub message: Vec<u8>,
}

/// What a `Kvlm` holds, as mathematical sequences.
pub struct KvlmView {
    pub headers: Seq<(Seq<u8>, Seq<u8>)>,
    pub message: Seq<u8>,
}

/// The headers of a record as pairs of byte sequences.
pub open spec fn headers_view(h: Seq<(Vec<u8>, Vec<u8>)>) -> Seq<(Seq<u8>, Seq<u8>)> {
    Seq::new(h.len(), |i: int| (h[i].0@, h[i].1@))
}

impl View for Kvlm {
    type V = KvlmView;

    open spec fn view(&self) -> KvlmView {
        KvlmView { headers: headers_view(self.headers@), message: self.message@ }
    }
}

/// The values of the headers whose key is `key`, in order.
pub open spec fn values_of(headers: Seq<(Seq<u8>, Seq<u8>)>, key: Seq<u8>) -> Seq<Seq<u8>>
    decreases headers.len(),
{
    if headers.len() == 0 {
        Seq::empty()
    } else {
        let before = values_of(headers.drop_last(), key);
        if headers.last().0 == key {
            before.push(headers.last().1)
        } else {
            before
        }
    }
}

/// The position of the first header whose key is `key` at or after `from`, or
/// `headers.len()` where there is none.
pub open spec fn first_header(headers: Seq<(Seq<u8>, Seq<u8>)>, key: Seq<u8>, from: int) -> int
    decreases headers.len() - from,
{
    if from >= headers.len() {
        headers.len() as int
    } else if headers[from].0 == key {
        from
    } else {
        first_header(headers, key, from + 1)
    }
}

/// The value as it is written: every line break is followed by a space.
pub open spec fn fold_value(v: Seq<u8>) -> Seq<u8>
    decreases v.len(),
{
    if v.len() == 0 {
        Seq::empty()
    } else if v[0] == NEWLINE {
        seq![NEWLINE, SPACE] + fold_value(v.skip(1))
    } else {
        seq![v[0]] + fold_value(v.skip(1))
    }
}

/// The value as it is read: the space after a line break is dropped.
pub open spec fn unfold_value(s: Seq<u8>) -> Seq<u8>
    decreases s.len(),
{
    if s.len() == 0 {
        Seq::empty()
    } else if s[0] == NEWLINE && s.len() > 1 && s[1] == SPACE {
        seq![NEWLINE] + unfold_value(s.skip(2))
    } else {
        seq![s[0]] + unfold_value(s.skip(1))
    }
}

/// The position of the line break that ends the value which is being read at
/// `from`: the first line break that no space follows. `s.len()` where there
/// is none.
pub open spec fn value_end(s: Seq<u8>, from: int) -> int
    decreases s.len() - from,
{
    if from >= s.len() {
        s.len() as int
    } else if s[from] == NEWLINE && !(from + 1 < s.len() && s[from + 1] == SPACE) {
        from
    } else {
        value_end(s, from + 1)
    }
}

/// One header as it is written.
pub open spec fn header_bytes(h: (Seq<u8>, Seq<u8>)) -> Seq<u8> {
    h.0 + seq![SPACE] + fold_value(h.1) + seq![NEWLINE]
}

/// The headers as they are written, one after the other.
pub open spec fn headers_bytes(hs: Seq<(Seq<u8>, Seq<u8>)>) -> Seq<u8>
    decreases hs.len(),
{
    if hs.len() == 0 {
        Seq::empty()
    } else {
        header_bytes(hs[0]) + headers_bytes(hs.skip(1))
    }
}

/// A record as it is written: the headers, a blank line, the message.
pub open spec fn kvlm_bytes(k: KvlmView) -> Seq<u8> {
    headers_bytes(k.headers) + seq![NEWLINE] + k.message
}

/// `tail` with `headers` put in front, where there is a `tail`.
pub open spec fn with_headers(headers: Seq<(Seq<u8>, Seq<u8>)>, tail: Option<KvlmView>) -> Option<
    KvlmView,
> {
    match tail {
        None => None,
        Some(t) => Some(KvlmView { headers: headers + t.headers, message: t.message }),
    }
}

/// What a non-empty remainder `s` of the input parses to; `None` where it
/// breaks the grammar.
///
/// A line break that comes before any space must stand first: it is the blank
/// line, and the message follows. Otherwise the bytes up to the first space are
/// a key, the value runs to the first line break that no space follows, and the
/// rest is parsed in the same way. Input that ends right after a header has an
/// empty message.
pub open spec fn parse_record(s: Seq<u8>) -> Option<KvlmView>
    decreases s.len(),
    via parse_record_terminates
{
    let nl = find_byte(s, NEWLINE, 0);
    let sp = find_byte(s, SPACE, 0);
    let end = value_end(s, sp + 1);
    if nl >= s.len() {
        None
    } else if sp > nl {
        if nl != 0 {
            None
        } else {
            Some(KvlmView { headers: Seq::empty(), message: s.skip(1) })
        }
    } else if end >= s.len() {
        None
    } else {
        let header = (s.take(sp), unfold_value(s.subrange(sp + 1, end)));
        let rest = s.skip(end + 1);
        if rest.len() == 0 {
            Some(KvlmView { headers: seq![header], message: Seq::empty() })
        } else {
            with_headers(seq![header], parse_record(rest))
        }
    }
}

#[via_fn]
proof fn parse_record_terminates(s: Seq<u8>) {
    lemma_find_byte(s, SPACE, 0);
    let sp = find_byte(s, SPACE, 0);
    if sp < s.len() {
        lemma_value_end(s, sp + 1);
    }
}

/// What `raw` parses to; `None` where it breaks the grammar. Empty input is
/// the empty record.
pub open spec fn kvlm_parse_spec(raw: Seq<u8>) -> Option<KvlmView> {
    if raw.len() == 0 {
        Some(KvlmView { headers: Seq::empty(), message: Seq::empty() })
    } else {
        parse_record(raw)
    }
}

/// A key that can be read back: not empty, and without space or line break.
pub open spec fn key_wf(key: Seq<u8>) -> bool {
    &&& key.len() > 0
    &&& forall|i: int| 0 <= i < key.len() ==> key[i] != SPACE && key[i] != NEWLINE
}

/// A record whose keys can all be read back. Values and message are free.
pub open spec fn kvlm_wf(k: KvlmView) -> bool {
    forall|i: int| 0 <= i < k.headers.len() ==> key_wf(#[trigger] k.headers[i].0)
}

/// The end of a value lies at or after the place from which it is sought.
pub proof fn lemma_value_end(s: Seq<u8>, from: int)
    requires
        0 <= from <= s.len(),
    ensures
        from <= value_end(s, from) <= s.len(),
    decreases s.len() - from,
{
    if from < s.len() && !(s[from] == NEWLINE && !(from + 1 < s.len() && s[from + 1] == SPACE)) {
        lemma_value_end(s, from + 1);
    }
}

/// Looking for the end of a value in a suffix is looking for it in the whole.
pub proof fn lemma_value_end_skip(s: Seq<u8>, k: int, from: int)
    requires
        0 <= k <= from <= s.len(),
    ensures
        value_end(s, from) == value_end(s.skip(k), from - k) + k,
    decreases s.len() - from,
{
    if from < s.len() && !(s[from] == NEWLINE && !(from + 1 < s.len() && s[from + 1] == SPACE)) {
        lemma_value_end_skip(s, k, from + 1);
    }
}

/// Folding goes through concatenation.
pub proof fn lemma_fold_concat(a: Seq<u8>, b: Seq<u8>)
    ensures
        fold_value(a + b) == fold_value(a) + fold_value(b),
    decreases a.len(),
{
    if a.len() == 0 {
        assert(a + b == b);
    } else {
        assert((a + b).skip(1) == a.skip(1) + b);
        lemma_fold_concat(a.skip(1), b);
    }
}

/// Reading a written value gives the value back.
pub proof fn lemma_unfold_fold(v: Seq<u8>)
    ensures
        unfold_value(fold_value(v)) == v,
    decreases v.len(),
{
    if v.len() > 0 {
        lemma_unfold_fold(v.skip(1));
        let f = fold_value(v);
        let rest = fold_value(v.skip(1));
        if v[0] == NEWLINE {
            assert(f.skip(2) == rest);
        } else {
            assert(f.skip(1) == rest);
        }
        assert(seq![v[0]] + v.skip(1) == v);
    }
}

/// A written value, followed by a line break and by something that does not
/// begin with a space, ends at that line break.
pub proof fn lemma_value_end_fold(v: Seq<u8>, rest: Seq<u8>)
    requires
        rest.len() > 0 ==> rest[0] != SPACE,
    ensures
        value_end(fold_value(v) + seq![NEWLINE] + rest, 0) == fold_value(v).len(),
    decreases v.len(),
{
    let s = fold_value(v) + seq![NEWLINE] + rest;
    if v.len() == 0 {
        assert(s[0] == NEWLINE);
    } else {
        let t = fold_value(v.skip(1)) + seq![NEWLINE] + rest;
        lemma_value_end_fold(v.skip(1), rest);
        if v[0] == NEWLINE {
            assert(s.skip(2) == t);
            assert(s[0] == NEWLINE && s[1] == SPACE);
            assert(value_end(s, 0) == value_end(s, 1));
            assert(value_end(s, 1) == value_end(s, 2));
            lemma_value_end_skip(s, 2, 2);
        } else {
            assert(s.skip(1) == t);
            assert(s[0] == v[0]);
            assert(value_end(s, 0) == value_end(s, 1));
            lemma_value_end_skip(s, 1, 1);
        }
    }
}

/// The written form of a record with well-formed keys parses back to the record.
pub proof fn lemma_parse_record_bytes(k: KvlmView)
    requires
        kvlm_wf(k),
    ensures
        parse_record(kvlm_bytes(k)) == Some(k),
    decreases k.headers.len(),
{
    let s = kvlm_bytes(k);
    if k.headers.len() == 0 {
        assert(s == seq![NEWLINE] + k.message);
        assert(s[0] == NEWLINE);
        lemma_find_byte(s, SPACE, 0);
        assert(s.skip(1) == k.message);
        assert(k.headers == Seq::<(Seq<u8>, Seq<u8>)>::empty());
    } else {
        let h = k.headers[0];
        let key = h.0;
        let folded = fold_value(h.1);
        let tail = KvlmView { headers: k.headers.skip(1), message: k.message };
        let rest = kvlm_bytes(tail);
        assert(key_wf(key));
        assert(kvlm_wf(tail)) by {
            assert forall|i: int| 0 <= i < tail.headers.len() implies key_wf(
                #[trigger] tail.headers[i].0,
            ) by {
                assert(tail.headers[i] == k.headers[i + 1]);
            }
        }
        lemma_parse_record_bytes(tail);
        assert(s == key + seq![SPACE] + folded + seq![NEWLINE] + rest);
        let sp = key.len() as int;
        let end = sp + 1 + folded.len();
        assert(s[sp] == SPACE);
        assert(s[end] == NEWLINE);
        assert(forall|j: int| 0 <= j < sp ==> s[j] == key[j]);
        lemma_find_byte_is(s, SPACE, 0, sp);
        lemma_find_byte(s, NEWLINE, 0);
        assert(find_byte(s, NEWLINE, 0) > sp);
        assert(find_byte(s, NEWLINE, 0) <= end);
        // the first byte of what follows the header is no space
        assert(rest.len() > 0 && rest[0] != SPACE) by {
            if tail.headers.len() == 0 {
                assert(rest == seq![NEWLINE] + k.message);
            } else {
                let next = tail.headers[0].0;
                assert(key_wf(next));
                assert(rest[0] == next[0]);
            }
        }
        lemma_value_end_fold(h.1, rest);
        assert(s.skip(sp + 1) == folded + seq![NEWLINE] + rest);
        lemma_value_end_skip(s, sp + 1, sp + 1);
        assert(value_end(s, sp + 1) == end);
        assert(s.take(sp) == key);
        assert(s.subrange(sp + 1, end) == folded);
        lemma_unfold_fold(h.1);
        assert(s.skip(end + 1) == rest);
        assert(seq![h] + tail.headers == k.headers);
    }
}

/// Serializing a record with well-formed keys and parsing the result gives the
/// record back, whatever bytes its values and its message hold.
pub proof fn lemma_kvlm_roundtrip(k: KvlmView)
    requires
        kvlm_wf(k),
    ensures
        kvlm_parse_spec(kvlm_bytes(k)) == Some(k),
{
    lemma_parse_record_bytes(k);
}

/// Writing the headers one more is writing one header more.
pub proof fn lemma_headers_bytes_push(hs: Seq<(Seq<u8>, Seq<u8>)>, h: (Seq<u8>, Seq<u8>))
    ensures
        headers_bytes(hs.push(h)) == headers_bytes(hs) + header_bytes(h),
    decreases hs.len(),
{
    if hs.len() == 0 {
        assert(hs.push(h).skip(1) == Seq::<(Seq<u8>, Seq<u8>)>::empty());
        assert(headers_bytes(hs.push(h).skip(1)) == Seq::<u8>::empty());
        assert(hs.push(h)[0] == h);
    } else {
        assert(hs.push(h).skip(1) == hs.skip(1).push(h));
        lemma_headers_bytes_push(hs.skip(1), h);
    }
}

impl Kvlm {
    /// The empty record.
    pub fn new() -> (k: Kvlm)
        ensures
            k@.headers.len() == 0,
            k@.message.len() == 0,
    {
        Kvlm { headers: Vec::new(), message: Vec::new() }
    }

    /// The values of all headers whose key is `key`, in the order of the headers.
    pub fn values(&self, key: &[u8]) -> (vals: Vec<&[u8]>)
        ensures
            vals@.len() == values_of(self@.headers, key@).len(),
            forall|i: int| 0 <= i < vals@.len() ==> vals@[i]@ == values_of(self@.headers, key@)[i],
    {
        let mut vals: Vec<&[u8]> = Vec::new();
        let mut i: usize = 0;
        while i < self.headers.len()
            invariant
                i <= self.headers@.len(),
                vals@.len() == values_of(self@.headers.take(i as int), key@).len(),
                forall|j: int|
                    0 <= j < vals@.len() ==> vals@[j]@ == values_of(
                        self@.headers.take(i as int),
                        key@,
                    )[j],
            decreases self.headers@.len() - i,
        {
            proof {
                assert(self@.headers.take(i + 1).drop_last() == self@.headers.take(i as int));
                assert(self@.headers.take(i + 1).last() == self@.headers[i as int]);
            }
            if bytes_eq(self.headers[i].0.as_slice(), key) {
                vals.push(self.headers[i].1.as_slice());
            }
            i += 1;
        }
        proof {
            assert(self@.headers.take(i as int) == self@.headers);
        }
        vals
    }

    /// The value of the first header whose key is `key`.
    pub fn get(&self, key: &[u8]) -> (val: Option<&[u8]>)
        ensures
            first_header(self@.headers, key@, 0) >= self@.headers.len() ==> val is None,
            first_header(self@.headers, key@, 0) < self@.headers.len() ==> val is Some
                && val->0@ == self@.headers[first_header(self@.headers, key@, 0)].1,
    {
        let mut i: usize = 0;
        while i < self.headers.len()
            invariant
                i <= self.headers@.len(),
                first_header(self@.headers, key@, 0) == first_header(self@.headers, key@, i as int),
            decreases self.headers@.len() - i,
        {
            if bytes_eq(self.headers[i].0.as_slice(), key) {
                return Some(self.headers[i].1.as_slice());
            }
            i += 1;
        }
        None
    }
}

/// Finds the line break that ends the value which is being read at `from`.
fn value_end_from(raw: &[u8], from: usize) -> (end: usize)
    requires
        from <= raw@.len(),
    ensures
        end == value_end(raw@, from as int),
        from <= end <= raw@.len(),
{
    let mut i: usize = from;
    while i < raw.len() && !(raw[i] == NEWLINE && !(i + 1 < raw.len() && raw[i + 1] == SPACE))
        invariant
            from <= i <= raw@.len(),
            value_end(raw@, from as int) == value_end(raw@, i as int),
        decreases raw@.len() - i,
    {
        i += 1;
    }
    i
}

/// Reads the value that is written in `raw` from `from` up to `to`.
fn unfold_range(raw: &[u8], from: usize, to: usize) -> (val: Vec<u8>)
    requires
        from <= to <= raw@.len(),
    ensures
        val@ == unfold_value(raw@.subrange(from as int, to as int)),
{
    let ghost s = raw@.subrange(from as int, to as int);
    let mut val: Vec<u8> = Vec::new();
    let mut i: usize = from;
    assert(s.skip(0) == s);
    while i < to
        invariant
            from <= i <= to <= raw@.len(),
            s == raw@.subrange(from as int, to as int),
            unfold_value(s) == val@ + unfold_value(s.skip(i - from)),
        decreases to - i,
    {
        let ghost cur = s.skip(i - from);
        assert(cur[0] == raw@[i as int]);
        if raw[i] == NEWLINE && i + 1 < to && raw[i + 1] == SPACE {
            assert(cur[1] == raw@[i + 1]);
            assert(cur.skip(2) == s.skip(i + 2 - from));
            val.push(NEWLINE);
            i += 2;
        } else {
            assert(cur.skip(1) == s.skip(i + 1 - from));
            val.push(raw[i]);
            i += 1;
        }
    }
    val
}

/// Parses a header record.
///
/// Fails with `CorruptKvlm` where a header line has no space, where a value
/// has no line break to end it, or where the blank line before the message is
/// missing.
pub fn kvlm_parse(raw: &[u8]) -> (r: Result<Kvlm, GitError>)
    ensures
        match kvlm_parse_spec(raw@) {
            Some(k) => r is Ok && r->Ok_0@ == k,
            None => r == Err::<Kvlm, GitError>(GitError::CorruptKvlm),
        },
{
    let mut kvlm = Kvlm::new();
    if raw.len() == 0 {
        assert(kvlm@.headers == Seq::<(Seq<u8>, Seq<u8>)>::empty());
        assert(kvlm@.message == Seq::<u8>::empty());
        return Ok(kvlm);
    }
    let mut pos: usize = 0;
    assert(raw@.skip(0) == raw@);
    assert(kvlm@.headers + Seq::<(Seq<u8>, Seq<u8>)>::empty() == kvlm@.headers);
    loop
        invariant
            pos < raw@.len(),
            kvlm.message@.len() == 0,
            kvlm_parse_spec(raw@) == with_headers(
                kvlm@.headers,
                parse_record(raw@.skip(pos as int)),
            ),
        decreases raw@.len() - pos,
    {
        let ghost s = raw@.skip(pos as int);
        let ghost before = kvlm@.headers;
        let spc = find_byte_from(raw, SPACE, pos);
        let nl = find_byte_from(raw, NEWLINE, pos);
        proof {
            lemma_find_byte_skip(raw@, SPACE, pos as int, pos as int);
            lemma_find_byte_skip(raw@, NEWLINE, pos as int, pos as int);
        }
        if nl >= raw.len() {
            return Err(GitError::CorruptKvlm);
        }
        if spc > nl {
            if nl != pos {
                return Err(GitError::CorruptKvlm);
            }
            kvlm.message = copy_range(raw, nl + 1, raw.len());
            proof {
                assert(s.skip(1) == raw@.subrange(nl + 1, raw@.len() as int));
                assert(before + Seq::<(Seq<u8>, Seq<u8>)>::empty() == before);
            }
            return Ok(kvlm);
        }
        let end = value_end_from(raw, spc + 1);
        proof {
            lemma_value_end_skip(raw@, pos as int, spc + 1);
        }
        if end >= raw.len() {
            return Err(GitError::CorruptKvlm);
        }
        let key = copy_range(raw, pos, spc);
        let val = unfold_range(raw, spc + 1, end);
        proof {
            assert(s.take(spc - pos) == raw@.subrange(pos as int, spc as int));
            assert(s.subrange(spc + 1 - pos, end - pos) == raw@.subrange(spc + 1, end as int));
            assert(s.skip(end + 1 - pos) == raw@.skip(end + 1));
        }
        kvlm.headers.push((key, val));
        proof {
            let header = (key@, val@);
            assert(kvlm@.headers == before.push(header));
            assert(before.push(header) == before + seq![header]);
            let rest = raw@.skip(end + 1);
            if rest.len() == 0 {
                assert(kvlm@.message == Seq::<u8>::empty());
            } else {
                match parse_record(rest) {
                    None => {},
                    Some(t) => {
                        assert(before + (seq![header] + t.headers) == (before + seq![header])
                            + t.headers);
                    },
                }
            }
        }
        pos = end + 1;
        if pos >= raw.len() {
            return Ok(kvlm);
        }
    }
}

/// Writes a record: each header as `key SP value LF` with a space after every
/// line break inside the value, a blank line, and the message.
pub fn kvlm_serialize(kvlm: &Kvlm) -> (out: Vec<u8>)
    ensures
        out@ == kvlm_bytes(kvlm@),
{
    let mut out: Vec<u8> = Vec::new();
    let mut h: usize = 0;
    while h < kvlm.headers.len()
        invariant
            h <= kvlm.headers@.len(),
            out@ == headers_bytes(kvlm@.headers.take(h as int)),
        decreases kvlm.headers@.len() - h,
    {
        let ghost start = out@;
        let key = &kvlm.headers[h].0;
        let v = &kvlm.headers[h].1;
        append_bytes(&mut out, key.as_slice());
        out.push(SPACE);
        let mut i: usize = 0;
        while i < v.len()
            invariant
                i <= v@.len(),
                out@ == start + key@ + seq![SPACE] + fold_value(v@.take(i as int)),
            decreases v@.len() - i,
        {
            proof {
                lemma_fold_concat(v@.take(i as int), seq![v@[i as int]]);
                assert(v@.take(i + 1) == v@.take(i as int) + seq![v@[i as int]]);
                assert(seq![v@[i as int]].skip(1) == Seq::<u8>::empty());
                assert(fold_value(seq![v@[i as int]].skip(1)) == Seq::<u8>::empty());
                assert(fold_value(seq![v@[i as int]]) == if v@[i as int] == NEWLINE {
                    seq![NEWLINE, SPACE]
                } else {
                    seq![v@[i as int]]
                });
            }
            if v[i] == NEWLINE {
                out.push(NEWLINE);
                out.push(SPACE);
            } else {
                out.push(v[i]);
            }
            i += 1;
        }
        out.push(NEWLINE);
        proof {
            assert(v@.take(v@.len() as int) == v@);
            let hv = kvlm@.headers[h as int];
            assert(hv == (key@, v@));
            assert(out@ == start + header_bytes(hv));
            lemma_headers_bytes_push(kvlm@.headers.take(h as int), hv);
            assert(kvlm@.headers.take(h + 1) == kvlm@.headers.take(h as int).push(hv));
        }
        h += 1;
    }
    proof {
        assert(kvlm@.headers.take(h as int) == kvlm@.headers);
    }
    out.push(NEWLINE);
    append_bytes(&mut out, kvlm.message.as_slice());
    out
}

} // verus!
