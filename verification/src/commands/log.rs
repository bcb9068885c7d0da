//! `log`: the history of a commit as a graph in the language of Graphviz.

use vstd::prelude::*;
use vstd::string::StrSliceExecFns;
use vstd::string::StringExecFns;
use vstd::utf8::{encode_utf8, valid_utf8};
use crate::bytes::{append_bytes, find_byte, find_byte_from};
use crate::commands::ls_files::strings_view;
use crate::commands::ls_tree::lines_view;
use crate::error::GitError;
use crate::kvlm::values_of;
use crate::objects::{object_read, stored_object, AnyObject, ObjectView};
use crate::refs::{object_resolve, object_resolve_spec};
use crate::repo::{text_bytes, GitRepository};
use crate::store::FileStore;
use crate::text::{bytes_to_text, str_eq, text_of};

verus! {

/// The first line of a message: what stands before the first line break,
/// without the carriage return that may stand before that line break.
pub open spec fn first_line(message: Seq<u8>) -> Seq<u8> {
    let at = find_byte(message, 0x0a, 0);
    if 0 < at < message.len() && message[at - 1] == 0x0d {
        message.take(at - 1)
    } else {
        message.take(at)
    }
}

/// A text as it stands between quotation marks: with a backslash in front
/// of every backslash and every quotation mark.
pub open spec fn escaped(s: Seq<u8>) -> Seq<u8>
    decreases s.len(),
{
    if s.len() == 0 {
        Seq::empty()
    } else if s.last() == 0x5c || s.last() == 0x22 {
        escaped(s.drop_last()).push(0x5c).push(s.last())
    } else {
        escaped(s.drop_last()).push(s.last())
    }
}

/// The label of a commit: the first line of its message, escaped; empty
/// where the message is no text.
pub open spec fn label(message: Seq<u8>) -> Seq<u8> {
    if valid_utf8(message) {
        escaped(first_line(message))
    } else {
        Seq::empty()
    }
}

/// The line for a commit: the node `c_` and its name, labelled with the
/// first seven digits of the name and the label.
pub open spec fn node_line(sha: Seq<char>, message: Seq<u8>) -> Seq<u8> {
    encode_utf8("  c_"@) + encode_utf8(sha) + encode_utf8(" [label=\""@) + encode_utf8(
        if sha.len() < 7 {
            sha
        } else {
            sha.take(7)
        },
    ) + encode_utf8(": "@) + label(message) + encode_utf8("\"]"@)
}

/// The line for a parent of a commit: an edge from the commit to the parent.
pub open spec fn edge_line(sha: Seq<char>, parent: Seq<char>) -> Seq<u8> {
    encode_utf8("  c_"@) + encode_utf8(sha) + encode_utf8(" -> c_"@) + encode_utf8(parent)
        + encode_utf8(";"@)
}

/// The key of the headers that name the parents of a commit.
pub open spec fn parent_key() -> Seq<u8> {
    encode_utf8("parent"@)
}

/// `rest` with `before` put in front of its lines, where there is a `rest`.
pub open spec fn with_walked(
    before: Seq<Seq<u8>>,
    rest: Result<(Seq<Seq<u8>>, Seq<Seq<char>>), GitError>,
) -> Result<(Seq<Seq<u8>>, Seq<Seq<char>>), GitError> {
    match rest {
        Err(e) => Err(e),
        Ok((lines, seen)) => Ok((before + lines, seen)),
    }
}

/// The lines for the commit `sha` and the commits before it that are not
/// among `seen`, and the commits that are seen afterwards.
///
/// A commit that is seen has no lines. Any other has its own line, and for
/// each of its parents, in their order, an edge and the lines of the parent.
/// The error of reading an object; `NotCommit` where an object is no commit;
/// `CorruptObject` where a parent's name is no text, or where the history
/// goes deeper than `depth`.
pub open spec fn walk_spec(store: &FileStore, sha: Seq<char>, seen: Seq<Seq<char>>, depth: nat) -> Result<
    (Seq<Seq<u8>>, Seq<Seq<char>>),
    GitError,
>
    decreases depth, 1nat, 0nat,
{
    if seen.contains(sha) {
        Ok((Seq::empty(), seen))
    } else {
        match stored_object(store, sha) {
            Err(e) => Err(e),
            Ok(ObjectView::Commit(k)) => with_walked(
                seq![node_line(sha, k.message)],
                walk_parents(
                    store,
                    sha,
                    values_of(k.headers, parent_key()),
                    seen.push(sha),
                    depth,
                ),
            ),
            Ok(_) => Err(GitError::NotCommit),
        }
    }
}

/// The lines for the parents of the commit `sha`.
pub open spec fn walk_parents(
    store: &FileStore,
    sha: Seq<char>,
    parents: Seq<Seq<u8>>,
    seen: Seq<Seq<char>>,
    depth: nat,
) -> Result<(Seq<Seq<u8>>, Seq<Seq<char>>), GitError>
    decreases depth, 0nat, parents.len(),
{
    if parents.len() == 0 {
        Ok((Seq::empty(), seen))
    } else {
        match text_of(parents[0]) {
            None => Err(GitError::CorruptObject),
            Some(parent) => if depth == 0 {
                Err(GitError::CorruptObject)
            } else {
                match walk_spec(store, parent, seen, (depth - 1) as nat) {
                    Err(e) => Err(e),
                    Ok((lines, seen_after)) => with_walked(
                        seq![edge_line(sha, parent)] + lines,
                        walk_parents(store, sha, parents.skip(1), seen_after, depth),
                    ),
                }
            },
        }
    }
}

/// Walking a history keeps the list of seen commits free of repetitions: no
/// commit is walked twice.
pub proof fn lemma_walk_sees_once(store: &FileStore, sha: Seq<char>, seen: Seq<Seq<char>>, depth: nat)
    requires
        seen.no_duplicates(),
        walk_spec(store, sha, seen, depth) is Ok,
    ensures
        walk_spec(store, sha, seen, depth)->Ok_0.1.no_duplicates(),
    decreases depth, 1nat, 0nat,
{
    if !seen.contains(sha) {
        match stored_object(store, sha) {
            Ok(ObjectView::Commit(k)) => {
                assert(seen.push(sha).no_duplicates());
                lemma_parents_seen_once(
                    store,
                    sha,
                    values_of(k.headers, parent_key()),
                    seen.push(sha),
                    depth,
                );
            },
            _ => {},
        }
    }
}

/// Walking the parents of a commit keeps the list of seen commits free of
/// repetitions.
pub proof fn lemma_parents_seen_once(
    store: &FileStore,
    sha: Seq<char>,
    parents: Seq<Seq<u8>>,
    seen: Seq<Seq<char>>,
    depth: nat,
)
    requires
        seen.no_duplicates(),
        walk_parents(store, sha, parents, seen, depth) is Ok,
    ensures
        walk_parents(store, sha, parents, seen, depth)->Ok_0.1.no_duplicates(),
    decreases depth, 0nat, parents.len(),
{
    if parents.len() > 0 {
        let parent = text_of(parents[0])->0;
        lemma_walk_sees_once(store, parent, seen, (depth - 1) as nat);
        let after = walk_spec(store, parent, seen, (depth - 1) as nat)->Ok_0.1;
        lemma_parents_seen_once(store, sha, parents.skip(1), after, depth);
    }
}

/// Writes a text as it stands between quotation marks.
fn push_escaped(out: &mut Vec<u8>, s: &[u8])
    ensures
        final(out)@ == old(out)@ + escaped(s@),
{
    let mut i: usize = 0;
    assert(s@.take(0) == Seq::<u8>::empty());
    while i < s.len()
        invariant
            i <= s@.len(),
            out@ == old(out)@ + escaped(s@.take(i as int)),
        decreases s@.len() - i,
    {
        proof {
            assert(s@.take(i + 1).drop_last() == s@.take(i as int));
            assert(s@.take(i + 1).last() == s@[i as int]);
        }
        if s[i] == 0x5c || s[i] == 0x22 {
            out.push(0x5c);
        }
        out.push(s[i]);
        i += 1;
    }
    assert(s@.take(i as int) == s@);
}

/// Writes the label of a commit.
fn push_label(out: &mut Vec<u8>, message: &[u8])
    ensures
        final(out)@ == old(out)@ + label(message@),
{
    if bytes_to_text(message).is_none() {
        return ;
    }
    let at = find_byte_from(message, 0x0a, 0);
    let end = if 0 < at && at < message.len() && message[at - 1] == 0x0d {
        at - 1
    } else {
        at
    };
    let line = vstd::slice::slice_subrange(message, 0, end);
    assert(line@ == first_line(message@));
    push_escaped(out, line);
}

/// The line for a commit.
fn node_line_bytes(sha: &str, message: &[u8]) -> (line: Vec<u8>)
    ensures
        line@ == node_line(sha@, message@),
{
    let n = sha.unicode_len();
    let short = if n < 7 {
        sha
    } else {
        let s = sha.substring_char(0, 7);
        assert(s@ == sha@.take(7));
        s
    };
    let mut line = text_bytes("  c_");
    append_bytes(&mut line, sha.as_bytes());
    append_bytes(&mut line, " [label=\"".as_bytes());
    append_bytes(&mut line, short.as_bytes());
    append_bytes(&mut line, ": ".as_bytes());
    push_label(&mut line, message);
    append_bytes(&mut line, "\"]".as_bytes());
    line
}

/// The line for a parent of a commit.
fn edge_line_bytes(sha: &str, parent: &str) -> (line: Vec<u8>)
    ensures
        line@ == edge_line(sha@, parent@),
{
    let mut line = text_bytes("  c_");
    append_bytes(&mut line, sha.as_bytes());
    append_bytes(&mut line, " -> c_".as_bytes());
    append_bytes(&mut line, parent.as_bytes());
    append_bytes(&mut line, ";".as_bytes());
    line
}

/// Whether `sha` is among `seen`.
fn was_seen(seen: &Vec<String>, sha: &str) -> (found: bool)
    ensures
        found == strings_view(seen@).contains(sha@),
{
    let mut i: usize = 0;
    while i < seen.len()
        invariant
            i <= seen@.len(),
            forall|j: int| 0 <= j < i ==> strings_view(seen@)[j] != sha@,
        decreases seen@.len() - i,
    {
        if str_eq(seen[i].as_str(), sha) {
            assert(strings_view(seen@)[i as int] == sha@);
            return true;
        }
        i += 1;
    }
    false
}

/// Walks the history of the commit `sha`, leaving out the commits that are
/// among `seen` and adding to `seen` those that it walks.
#[verifier::rlimit(30)]
#[verifier::loop_isolation(false)]
pub fn walk(repo: &GitRepository, sha: &str, seen: &mut Vec<String>, depth: usize) -> (r: Result<
    Vec<Vec<u8>>,
    GitError,
>)
    ensures
        match walk_spec(&repo.store, sha@, strings_view(old(seen)@), depth as nat) {
            Ok((lines, seen_after)) => {
                &&& r is Ok
                &&& lines_view(r->Ok_0@) == lines
                &&& strings_view(final(seen)@) == seen_after
            },
            Err(e) => r == Err::<Vec<Vec<u8>>, GitError>(e),
        },
    decreases depth,
{
    let mut out: Vec<Vec<u8>> = Vec::new();
    assert(lines_view(out@) == Seq::<Seq<u8>>::empty());
    if was_seen(seen, sha) {
        return Ok(out);
    }
    let found = match object_read(repo, sha) {
        Err(e) => { return Err(e); },
        Ok((_, AnyObject::Commit(found))) => found,
        Ok(_) => { return Err(GitError::NotCommit); },
    };
    let ghost seen_before = strings_view(seen@);
    seen.push(String::from_str(sha));
    assert(strings_view(seen@) == seen_before.push(sha@));
    let ghost seen_start = strings_view(seen@);
    let first = node_line_bytes(sha, found.kvlm.message.as_slice());
    let ghost head = seq![first@];
    out.push(first);
    let key = text_bytes("parent");
    let parents = found.kvlm.values(key.as_slice());
    let ghost all = values_of(found.kvlm@.headers, parent_key());
    assert(parents@.len() == all.len());
    let ghost total = walk_parents(&repo.store, sha@, all, seen_start, depth as nat);
    let mut i: usize = 0;
    assert(all.skip(0) == all);
    assert(lines_view(out@) == head + Seq::<Seq<u8>>::empty());
    let ghost mut done: Seq<Seq<u8>> = Seq::empty();
    proof {
        match total {
            Ok((l, s)) => {
                assert(done + l == l);
            },
            Err(_) => {},
        }
    }
    while i < parents.len()
        invariant
            i <= parents@.len(),
            parents@.len() == all.len(),
            forall|j: int| 0 <= j < parents@.len() ==> parents@[j]@ == all[j],
            lines_view(out@) == head + done,
            total == with_walked(
                done,
                walk_parents(&repo.store, sha@, all.skip(i as int), strings_view(seen@), depth as nat),
            ),
        decreases parents@.len() - i,
    {
        proof {
            assert(all.skip(i as int)[0] == all[i as int]);
            assert(all.skip(i as int).skip(1) == all.skip(i + 1));
        }
        let parent = match bytes_to_text(parents[i]) {
            None => { return Err(GitError::CorruptObject); },
            Some(parent) => parent,
        };
        if depth == 0 {
            return Err(GitError::CorruptObject);
        }
        let edge = edge_line_bytes(sha, parent);
        let ghost edge_view = edge@;
        let ghost old_lines = lines_view(out@);
        let mut lines = match walk(repo, parent, seen, depth - 1) {
            Err(e) => { return Err(e); },
            Ok(lines) => lines,
        };
        let ghost added = lines_view(lines@);
        out.push(edge);
        out.append(&mut lines);
        proof {
            assert(lines_view(out@) == old_lines.push(edge_view) + added);
            let step = seq![edge_view] + added;
            assert(old_lines.push(edge_view) + added == head + (done + step));
            match walk_parents(
                &repo.store,
                sha@,
                all.skip(i + 1),
                strings_view(seen@),
                depth as nat,
            ) {
                Ok((l, s)) => {
                    assert(done + (step + l) == (done + step) + l);
                },
                Err(_) => {},
            }
            done = done + step;
        }
        i += 1;
    }
    proof {
        assert(done + Seq::<Seq<u8>>::empty() == done);
    }
    Ok(out)
}

/// The first line of the graph.
pub open spec fn graph_open() -> Seq<u8> {
    encode_utf8("digraph wyaglog{"@)
}

/// The second line of the graph.
pub open spec fn graph_nodes() -> Seq<u8> {
    encode_utf8("  node[shape=rect]"@)
}

/// The last line of the graph.
pub open spec fn graph_close() -> Seq<u8> {
    encode_utf8("}"@)
}

/// The graph of the history of the commit that `name` stands for: the two
/// opening lines, the lines of the history, in which each commit has one
/// line, and the closing line. The history is followed as many commits deep
/// as the store has files.
pub open spec fn run_spec(store: &FileStore, name: Seq<char>) -> Result<Seq<Seq<u8>>, GitError> {
    match object_resolve_spec(store, name) {
        Err(e) => Err(e),
        Ok(sha) => match walk_spec(store, sha, Seq::empty(), store.files@.len()) {
            Err(e) => Err(e),
            Ok((lines, _)) => Ok(seq![graph_open(), graph_nodes()] + lines + seq![graph_close()]),
        },
    }
}

/// Draws the history of the commit that `commit` stands for.
pub fn run(repo: &GitRepository, commit: &str) -> (r: Result<Vec<Vec<u8>>, GitError>)
    ensures
        match run_spec(&repo.store, commit@) {
            Ok(lines) => r is Ok && lines_view(r->Ok_0@) == lines,
            Err(e) => r == Err::<Vec<Vec<u8>>, GitError>(e),
        },
{
    let sha = match object_resolve(repo, commit) {
        Err(e) => { return Err(e); },
        Ok(sha) => sha,
    };
    let mut seen: Vec<String> = Vec::new();
    assert(strings_view(seen@) == Seq::<Seq<char>>::empty());
    let mut lines = match walk(repo, sha.as_str(), &mut seen, repo.store.files.len()) {
        Err(e) => { return Err(e); },
        Ok(lines) => lines,
    };
    let ghost walked = lines_view(lines@);
    let mut out: Vec<Vec<u8>> = Vec::new();
    out.push(text_bytes("digraph wyaglog{"));
    out.push(text_bytes("  node[shape=rect]"));
    out.append(&mut lines);
    out.push(text_bytes("}"));
    assert(lines_view(out@) == seq![graph_open(), graph_nodes()] + walked + seq![graph_close()]);
    Ok(out)
}

} // verus!
