//! Every kind of failure, and where it comes from.

use etf2json::parser::{parse, start_parsing};
use etf2json::{BufReadStreamer, DefaultComposer, ErrorCode, ParseError, ReadStream};

fn render(bytes: &[u8]) -> Result<String, ErrorCode> {
    start_parsing(bytes).map_err(|e| e.error_code)
}

#[test]
fn an_empty_source_is_a_failed_read() {
    assert_eq!(render(&[]), Err(ErrorCode::ReadError));
}

#[test]
fn a_marker_without_a_term_is_a_failed_read() {
    assert_eq!(render(&[131]), Err(ErrorCode::ReadError));
}

#[test]
fn a_term_cut_short_is_a_failed_read() {
    let cut: [&[u8]; 24] = [
        &[131, 97],
        &[131, 98, 0, 0, 0],
        &[131, 99, b'1', b'.', b'5'],
        &[131, 70, 0, 0, 0, 0, 0, 0, 0],
        &[131, 100, 0],
        &[131, 100, 0, 2, b'a'],
        &[131, 115, 2, b'a'],
        &[131, 118, 0, 2, b'a'],
        &[131, 119, 2, b'a'],
        &[131, 107, 0, 2, b'a'],
        &[131, 108, 0, 0, 0],
        &[131, 108, 0, 0, 0, 1],
        &[131, 108, 0, 0, 0, 1, 97, 1],
        &[131, 104, 2, 97, 1],
        &[131, 105, 0, 0, 0, 1],
        &[131, 116, 0, 0, 0, 1, 97, 1],
        &[131, 109, 0, 0, 0, 2, 1],
        &[131, 77, 0, 0, 0, 1, 3],
        &[131, 110, 2, 0, 1],
        &[131, 110, 2],
        &[131, 111, 0, 0, 0, 1, 0],
        &[131, 82],
        &[131, 101, 100, 0, 1, b'n', 0, 0, 0, 7],
        &[131, 103, 100, 0, 1, b'n', 0, 0, 0, 1, 0, 0, 0, 2],
    ];
    for bytes in cut {
        assert_eq!(render(bytes), Err(ErrorCode::ReadError), "{:?}", bytes);
    }
}

#[test]
fn a_tag_outside_the_table_is_not_implemented() {
    for tag in [0u8, 69, 71, 81, 83, 96, 120, 131, 250, 255] {
        assert_eq!(render(&[131, tag, 0, 0, 0, 0]), Err(ErrorCode::NotImplemented), "{}", tag);
    }
}

#[test]
fn a_list_must_end_in_nil() {
    assert_eq!(render(&[131, 108, 0, 0, 0, 0, 97]), Err(ErrorCode::InvalidListTerm));
    assert_eq!(render(&[131, 108, 0, 0, 0, 1, 97, 1, 105]), Err(ErrorCode::InvalidListTerm));
    assert_eq!(
        render(&[131, 104, 1, 108, 0, 0, 0, 1, 97, 1, 0]),
        Err(ErrorCode::InvalidListTerm)
    );
}

#[test]
fn a_node_must_be_an_atom() {
    assert_eq!(render(&[131, 101, 97, 1, 0, 0, 0, 7, 2]), Err(ErrorCode::NotErlangBinary));
    assert_eq!(render(&[131, 102, 106, 0, 0, 0, 7, 2]), Err(ErrorCode::NotErlangBinary));
    assert_eq!(
        render(&[131, 103, 104, 0, 0, 0, 0, 1, 0, 0, 0, 2, 3]),
        Err(ErrorCode::NotErlangBinary)
    );
    assert_eq!(render(&[131, 114, 0, 0, 98, 0, 0, 0, 1, 3]), Err(ErrorCode::NotErlangBinary));
    // A tag that nothing knows is refused by the filter before it is looked up.
    assert_eq!(render(&[131, 101, 250]), Err(ErrorCode::NotErlangBinary));
}

#[test]
fn an_exported_function_holds_its_fields_to_their_kinds() {
    assert_eq!(
        render(&[131, 113, 97, 1, 115, 1, b'f', 97, 2]),
        Err(ErrorCode::NotErlangBinary)
    );
    assert_eq!(
        render(&[131, 113, 115, 1, b'm', 97, 1, 97, 2]),
        Err(ErrorCode::NotErlangBinary)
    );
    assert_eq!(
        render(&[131, 113, 115, 1, b'm', 115, 1, b'f', 98, 0, 0, 0, 2]),
        Err(ErrorCode::NotErlangBinary)
    );
}

#[test]
fn an_atom_declared_utf8_must_be_utf8() {
    assert_eq!(render(&[131, 118, 0, 1, 0x80]), Err(ErrorCode::NotUtf8Atom));
    assert_eq!(render(&[131, 119, 1, 0xFF]), Err(ErrorCode::NotUtf8Atom));
    // Also where it names a node.
    assert_eq!(
        render(&[131, 101, 119, 1, 0xFF, 0, 0, 0, 7, 2]),
        Err(ErrorCode::NotUtf8Atom)
    );
}

#[test]
fn the_first_failure_is_the_one_reported() {
    // The unknown tag comes before the missing terminator.
    assert_eq!(render(&[131, 108, 0, 0, 0, 2, 97, 1, 250]), Err(ErrorCode::NotImplemented));
    // The invalid atom comes before the end of the bytes.
    assert_eq!(render(&[131, 104, 2, 119, 1, 0xFF]), Err(ErrorCode::NotUtf8Atom));
    // The inner list's terminator comes before the outer list's.
    assert_eq!(
        render(&[131, 108, 0, 0, 0, 1, 108, 0, 0, 0, 0, 9, 106]),
        Err(ErrorCode::InvalidListTerm)
    );
}

#[test]
fn failures_are_shown_by_the_name_of_their_kind() {
    assert_eq!(ParseError::new(ErrorCode::ReadError).to_string(), "ReadError");
    assert_eq!(ParseError::not_implemented().to_string(), "NotImplemented");
    assert_eq!(ParseError::invalid_list_item().to_string(), "InvalidListTerm");
    assert_eq!(ParseError::not_erlang_binary().to_string(), "NotErlangBinary");
    assert_eq!(ParseError::new(ErrorCode::NotUtf8Atom).to_string(), "NotUtf8Atom");
    assert_eq!(ParseError::read_error().to_string(), "ReadError");
    assert_eq!(ErrorCode::NotUtf8Atom.name(), "NotUtf8Atom");
}

#[test]
fn error_constructors_set_their_kind() {
    assert_eq!(ParseError::not_erlang_binary().error_code, ErrorCode::NotErlangBinary);
    assert_eq!(ParseError::not_implemented().error_code, ErrorCode::NotImplemented);
    assert_eq!(ParseError::invalid_list_item().error_code, ErrorCode::InvalidListTerm);
    assert_eq!(ParseError::read_error().error_code, ErrorCode::ReadError);
    assert_eq!(
        ParseError::common_error(ErrorCode::InvalidListTerm).error_code,
        ErrorCode::InvalidListTerm
    );
    let e = ParseError::new(ErrorCode::NotImplemented);
    assert_eq!(e.error_code, ErrorCode::NotImplemented);
    assert!(e.io_error.is_none() && e.utf8_error.is_none());
}

#[test]
fn a_failure_carries_its_cause() {
    let invalid = [b'a', 0xFFu8];
    let cause = std::str::from_utf8(&invalid).unwrap_err();
    let e = ParseError::from(cause);
    assert_eq!(e.error_code, ErrorCode::NotUtf8Atom);
    assert!(e.io_error.is_none());
    assert_eq!(e.utf8_error.unwrap().valid_up_to(), 1);

    let fault = std::io::Error::from(std::io::ErrorKind::UnexpectedEof);
    let e = ParseError::from(fault);
    assert_eq!(e.error_code, ErrorCode::ReadError);
    assert!(e.utf8_error.is_none());
    assert_eq!(e.io_error.unwrap().kind(), std::io::ErrorKind::UnexpectedEof);
}

#[test]
fn the_decoder_reports_what_is_wrong_with_an_atom() {
    let e = start_parsing(&[131, 119, 3, b'o', b'k', 0xFF]).unwrap_err();
    assert_eq!(e.error_code, ErrorCode::NotUtf8Atom);
    assert!(e.io_error.is_none());
    assert_eq!(e.utf8_error.unwrap().valid_up_to(), 2);
    let e = start_parsing(&[131, 119, 3, b'o', b'k']).unwrap_err();
    assert_eq!(e.error_code, ErrorCode::ReadError);
    assert!(e.utf8_error.is_none());
    let e = start_parsing(&[131, 250]).unwrap_err();
    assert_eq!(e.error_code, ErrorCode::NotImplemented);
    assert!(e.io_error.is_none() && e.utf8_error.is_none());
}

/// Decodes `bytes`, expects this failure, and gives the byte that the source
/// hands out next.
fn next_after(bytes: &[u8], expected: ErrorCode) -> u8 {
    let mut stream = BufReadStreamer::new(bytes);
    let mut sink = DefaultComposer::new();
    assert_eq!(parse(&mut stream, &mut sink).unwrap_err().error_code, expected);
    stream.read_u8().unwrap()
}

#[test]
fn a_failure_leaves_the_source_behind_what_it_read() {
    // The byte that is not nil is gone.
    assert_eq!(
        next_after(&[131, 108, 0, 0, 0, 1, 97, 1, 200, 42], ErrorCode::InvalidListTerm),
        42
    );
    // So is the tag that nothing knows.
    assert_eq!(next_after(&[131, 250, 42], ErrorCode::NotImplemented), 42);
    // So is the tag that the filter turned away, and no more than that.
    assert_eq!(next_after(&[131, 101, 97, 42], ErrorCode::NotErlangBinary), 42);
    // So is the whole of the atom that is not UTF-8.
    assert_eq!(next_after(&[131, 119, 2, 0xFF, b'a', 42], ErrorCode::NotUtf8Atom), 42);
    // So is the wrong marker.
    assert_eq!(next_after(&[1, 42], ErrorCode::NotErlangBinary), 42);
    // Inside a tuple, too.
    assert_eq!(next_after(&[131, 104, 2, 97, 1, 250, 42], ErrorCode::NotImplemented), 42);
}
