//! Whole documents, from the version marker to the end of the term.

use etf2json::parser::{parse, parse_any, start_parsing};
use etf2json::{BufReadStreamer, DefaultComposer, ErrorCode, ReadStream};

fn render(bytes: &[u8]) -> Result<String, ErrorCode> {
    start_parsing(bytes).map_err(|e| e.error_code)
}

#[test]
fn small_integer_renders_as_int_element() {
    assert_eq!(render(&[131, 97, 5]), Ok("{\"int\":5}".to_string()));
}

#[test]
fn list_of_two_small_integers() {
    assert_eq!(
        render(&[131, 108, 0, 0, 0, 2, 97, 1, 97, 2, 106]),
        Ok("{\"list\":[{\"int\":1},{\"int\":2}]}".to_string())
    );
}

#[test]
fn list_with_wrong_terminator_fails() {
    assert_eq!(
        render(&[131, 108, 0, 0, 0, 1, 97, 1, 200]),
        Err(ErrorCode::InvalidListTerm)
    );
}

#[test]
fn utf8_atom_with_invalid_bytes_fails() {
    assert_eq!(render(&[131, 118, 0, 2, 0xFF, 0xFF]), Err(ErrorCode::NotUtf8Atom));
}

#[test]
fn unassigned_tag_fails() {
    assert_eq!(render(&[131, 250]), Err(ErrorCode::NotImplemented));
}

#[test]
fn wrong_version_marker_fails() {
    assert_eq!(render(&[130, 97, 5]), Err(ErrorCode::NotErlangBinary));
    assert_eq!(render(&[130]), Err(ErrorCode::NotErlangBinary));
    assert_eq!(render(&[0, 250, 250]), Err(ErrorCode::NotErlangBinary));
}

#[test]
fn wrong_version_marker_consumes_one_byte() {
    let bytes = [130u8, 97, 5];
    let mut stream = BufReadStreamer::new(&bytes);
    let mut sink = DefaultComposer::new();
    let r = parse(&mut stream, &mut sink);
    assert_eq!(r.unwrap_err().error_code, ErrorCode::NotErlangBinary);
    assert_eq!(sink.get_result(), "");
    // What is left is the document without its first byte.
    let mut again = DefaultComposer::new();
    assert!(parse_any(&mut stream, &mut again).is_ok());
    assert_eq!(again.get_result(), "{\"int\":5}");
    assert_eq!(stream.read_u8().unwrap_err().error_code, ErrorCode::ReadError);
}

#[test]
fn decoding_twice_gives_the_same() {
    let documents: [&[u8]; 4] = [
        &[131, 108, 0, 0, 0, 2, 97, 1, 97, 2, 106],
        &[131, 108, 0, 0, 0, 1, 97, 1, 200],
        &[131, 109, 0, 0, 0, 3, 1, 2, 3],
        &[131, 70, 64, 9, 33, 251, 84, 68, 45, 24],
    ];
    for bytes in documents {
        assert_eq!(render(bytes), render(bytes));
    }
}

#[test]
fn a_failure_comes_without_a_rendering() {
    // The list is rendered up to its last item before the terminator is
    // found wrong; none of that is handed out.
    let r = start_parsing(&[131, 108, 0, 0, 0, 1, 97, 1, 200]);
    assert!(matches!(r, Err(e) if e.error_code == ErrorCode::InvalidListTerm));
    let r = start_parsing(&[131, 97, 5]);
    assert!(matches!(r, Ok(ref text) if text == "{\"int\":5}"));
}

#[test]
fn what_follows_the_term_is_not_read() {
    let bytes = [131u8, 97, 5, 250, 1, 2];
    assert_eq!(render(&bytes), Ok("{\"int\":5}".to_string()));
    let mut stream = BufReadStreamer::new(&bytes);
    let mut sink = DefaultComposer::new();
    assert!(parse(&mut stream, &mut sink).is_ok());
    assert_eq!(stream.read_u8().unwrap(), 250);
    assert_eq!(stream.read_u16().unwrap(), 258);
}
