use rust_git::error::GitError;
use rust_git::kvlm::{kvlm_parse, kvlm_serialize, Kvlm};

fn header(key: &str, value: &str) -> (Vec<u8>, Vec<u8>) {
    (key.as_bytes().to_vec(), value.as_bytes().to_vec())
}

#[test]
fn empty_input_is_the_empty_record() {
    let k = kvlm_parse(b"").unwrap();
    assert!(k.headers.is_empty());
    assert!(k.message.is_empty());
}

#[test]
fn new_record_is_empty() {
    let k = Kvlm::new();
    assert!(k.headers.is_empty());
    assert!(k.message.is_empty());
}

#[test]
fn parses_headers_and_message() {
    let raw = b"tree 29ff16c9c14e2652b22f8b78bb08a5a07930c147\nparent 206941306e8a8af65b66eaaaea388a7ae24d49a0\nauthor A <a@b.c> 1527025023 +0200\n\nCreate first draft\n";
    let k = kvlm_parse(raw).unwrap();
    assert_eq!(k.headers.len(), 3);
    assert_eq!(k.headers[0], header("tree", "29ff16c9c14e2652b22f8b78bb08a5a07930c147"));
    assert_eq!(k.headers[1], header("parent", "206941306e8a8af65b66eaaaea388a7ae24d49a0"));
    assert_eq!(k.headers[2], header("author", "A <a@b.c> 1527025023 +0200"));
    assert_eq!(k.message, b"Create first draft\n".to_vec());
}

#[test]
fn continuation_lines_are_joined_with_a_line_break() {
    let raw = b"gpgsig -----BEGIN\n line two\n line three\nauthor x\n\nbody";
    let k = kvlm_parse(raw).unwrap();
    assert_eq!(k.headers.len(), 2);
    assert_eq!(k.headers[0], header("gpgsig", "-----BEGIN\nline two\nline three"));
    assert_eq!(k.headers[1], header("author", "x"));
    assert_eq!(k.message, b"body".to_vec());
}

#[test]
fn serialization_puts_a_space_after_every_inner_line_break() {
    let k = Kvlm {
        headers: vec![header("gpgsig", "a\nb\n"), header("empty", "")],
        message: b"m\n".to_vec(),
    };
    assert_eq!(kvlm_serialize(&k), b"gpgsig a\n b\n \nempty \n\nm\n".to_vec());
}

#[test]
fn empty_record_is_written_as_a_blank_line() {
    assert_eq!(kvlm_serialize(&Kvlm::new()), b"\n".to_vec());
    let k = kvlm_parse(b"\n").unwrap();
    assert!(k.headers.is_empty());
    assert!(k.message.is_empty());
}

#[test]
fn round_trip_with_arbitrary_bytes_in_values() {
    let k = Kvlm {
        headers: vec![
            (b"tree".to_vec(), b"abc".to_vec()),
            (b"parent".to_vec(), b"one".to_vec()),
            (b"parent".to_vec(), b"two".to_vec()),
            (b"sig".to_vec(), vec![0, 10, 32, 10, 10, 255, 32, 10]),
            (b"last".to_vec(), b"\n".to_vec()),
        ],
        message: vec![10, 32, 10, 0, 200],
    };
    let back = kvlm_parse(&kvlm_serialize(&k)).unwrap();
    assert_eq!(back.headers, k.headers);
    assert_eq!(back.message, k.message);
}

#[test]
fn duplicate_keys_keep_their_order() {
    let k = kvlm_parse(b"parent one\nparent two\ntree t\n\n").unwrap();
    let values = k.values(b"parent");
    assert_eq!(values.len(), 2);
    assert_eq!(values[0], b"one");
    assert_eq!(values[1], b"two");
    assert_eq!(k.get(b"parent"), Some(&b"one"[..]));
    assert_eq!(k.get(b"tree"), Some(&b"t"[..]));
    assert_eq!(k.get(b"author"), None);
    assert!(k.values(b"author").is_empty());
}

#[test]
fn header_line_without_space_is_corrupt() {
    assert_eq!(kvlm_parse(b"tree abc\nnospace\n\nbody").err(), Some(GitError::CorruptKvlm));
}

#[test]
fn missing_line_break_is_corrupt() {
    assert_eq!(kvlm_parse(b"tree abc").err(), Some(GitError::CorruptKvlm));
    assert_eq!(kvlm_parse(b"justtext").err(), Some(GitError::CorruptKvlm));
}

#[test]
fn body_without_blank_line_is_corrupt() {
    assert_eq!(kvlm_parse(b"tree abc\nbody\n").err(), Some(GitError::CorruptKvlm));
}

#[test]
fn headers_without_message_have_an_empty_message() {
    let k = kvlm_parse(b"tree abc\n").unwrap();
    assert_eq!(k.headers, vec![header("tree", "abc")]);
    assert!(k.message.is_empty());
}

#[test]
fn message_may_hold_spaces_and_line_breaks() {
    let k = kvlm_parse(b"\nhello world\n\nsecond paragraph").unwrap();
    assert!(k.headers.is_empty());
    assert_eq!(k.message, b"hello world\n\nsecond paragraph".to_vec());
}
