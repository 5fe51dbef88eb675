//! The byte source and the three sinks, by themselves and under the decoder.

use etf2json::parser::{
    create_list, parse, parse_any, parse_atom_only, parse_filtered, parse_skip, parse_term,
};
use etf2json::raw_string_composer::RawStringComposer;
use etf2json::render::decimal;
use etf2json::skip_composer::SkipComposer;
use etf2json::{BufReadStreamer, DefaultComposer, ElemCompose, ErrorCode, ReadStream};

#[test]
fn the_source_reads_big_endian() {
    let bytes = [7u8, 1, 2, 0, 0, 1, 0, 255, 255, 255, 254, 128, 0, 0, 0, 9];
    let mut s = BufReadStreamer::new(&bytes);
    assert_eq!(s.read_u8().unwrap(), 7);
    assert_eq!(s.read_u16().unwrap(), 258);
    assert_eq!(s.read_u32().unwrap(), 256);
    assert_eq!(s.read_i32().unwrap(), -2);
    assert_eq!(s.read_i32().unwrap(), i32::MIN);
    assert_eq!(s.read_u8().unwrap(), 9);
    assert_eq!(s.read_u8().unwrap_err().error_code, ErrorCode::ReadError);
}

#[test]
fn the_source_reads_its_largest_values() {
    let bytes = [255u8, 255, 255, 255, 255, 255, 127, 255, 255, 255];
    let mut s = BufReadStreamer::new(&bytes);
    assert_eq!(s.read_u16().unwrap(), u16::MAX);
    assert_eq!(s.read_u32().unwrap(), u32::MAX);
    assert_eq!(s.read_i32().unwrap(), i32::MAX);
}

#[test]
fn the_source_fills_a_buffer_exactly() {
    let bytes = [1u8, 2, 3, 4, 5];
    let mut s = BufReadStreamer::new(&bytes);
    let mut two = [0u8; 2];
    s.read_exact(&mut two).unwrap();
    assert_eq!(two, [1, 2]);
    let mut none = [0u8; 0];
    s.read_exact(&mut none).unwrap();
    let mut four = [0u8; 4];
    assert_eq!(s.read_exact(&mut four).unwrap_err().error_code, ErrorCode::ReadError);
    let mut three = [0u8; 3];
    s.read_exact(&mut three).unwrap();
    assert_eq!(three, [3, 4, 5]);
}

#[test]
fn a_short_source_fails_every_read() {
    let bytes = [1u8];
    assert_eq!(
        BufReadStreamer::new(&bytes).read_u16().unwrap_err().error_code,
        ErrorCode::ReadError
    );
    assert_eq!(
        BufReadStreamer::new(&bytes).read_u32().unwrap_err().error_code,
        ErrorCode::ReadError
    );
    assert_eq!(
        BufReadStreamer::new(&bytes).read_i32().unwrap_err().error_code,
        ErrorCode::ReadError
    );
    assert_eq!(
        BufReadStreamer::new(&[]).read_u8().unwrap_err().error_code,
        ErrorCode::ReadError
    );
}

fn drive<C: ElemCompose>(c: &mut C) {
    c.open("pair");
    c.push_char('[');
    c.push_str("1,2");
    c.push_char(']');
    c.close();
}

#[test]
fn the_rendering_sink_frames_its_elements() {
    let mut c = DefaultComposer::new();
    assert_eq!(c.get_result(), "");
    drive(&mut c);
    assert_eq!(c.get_result(), "{\"pair\":[1,2]}");
    drive(&mut c);
    assert_eq!(c.get_result(), "{\"pair\":[1,2]}{\"pair\":[1,2]}");
}

#[test]
fn a_string_is_a_rendering_sink() {
    let mut c = String::from("x");
    drive(&mut c);
    assert_eq!(c, "x{\"pair\":[1,2]}");
}

#[test]
fn the_raw_sink_keeps_content_only() {
    let mut c = RawStringComposer::new();
    assert_eq!(c.as_str(), "");
    drive(&mut c);
    assert_eq!(c.as_str(), "[1,2]");
}

#[test]
fn the_discarding_sink_takes_everything() {
    let mut c = SkipComposer;
    drive(&mut c);
    let bytes = [131u8, 104, 1, 97, 1, 5];
    let mut s = BufReadStreamer::new(&bytes);
    assert!(parse(&mut s, &mut c).is_ok());
    assert_eq!(s.read_u8().unwrap(), 5);
}

#[test]
fn the_decoder_appends_to_what_the_sink_holds() {
    let bytes = [131u8, 97, 5];
    let mut c = String::from("answer: ");
    let mut s = BufReadStreamer::new(&bytes);
    assert!(parse(&mut s, &mut c).is_ok());
    assert_eq!(c, "answer: {\"int\":5}");
}

#[test]
fn the_decoder_renders_raw_into_the_raw_sink() {
    let bytes = [131u8, 108, 0, 0, 0, 2, 97, 1, 100, 0, 1, b'a', 106];
    let mut c = RawStringComposer::new();
    let mut s = BufReadStreamer::new(&bytes);
    assert!(parse(&mut s, &mut c).is_ok());
    assert_eq!(c.as_str(), "[1,\"a\"]");
}

#[test]
fn skipping_moves_the_source_past_whole_terms() {
    let bytes = [97u8, 1, 104, 2, 97, 2, 106, 100, 0, 1, b'a', 42];
    let mut s = BufReadStreamer::new(&bytes);
    assert!(parse_skip(&mut s, 3).is_ok());
    assert_eq!(s.read_u8().unwrap(), 42);
    let mut s = BufReadStreamer::new(&bytes);
    assert!(parse_skip(&mut s, 0).is_ok());
    assert_eq!(s.read_u8().unwrap(), 97);
    let mut s = BufReadStreamer::new(&bytes);
    assert_eq!(parse_skip(&mut s, 4).unwrap_err().error_code, ErrorCode::NotImplemented);
    let short = [97u8, 1];
    let mut s = BufReadStreamer::new(&short);
    assert_eq!(parse_skip(&mut s, 2).unwrap_err().error_code, ErrorCode::ReadError);
}

#[test]
fn an_atom_only_read_gives_the_bare_atom() {
    let bytes = [115u8, 2, b'o', b'k', 9];
    let mut s = BufReadStreamer::new(&bytes);
    let mut text = String::from(">");
    assert!(parse_atom_only(&mut s, &mut text).is_ok());
    assert_eq!(text, ">\"ok\"");
    assert_eq!(s.read_u8().unwrap(), 9);
    for tag in [97u8, 98, 103, 104, 106, 108, 250] {
        let bytes = [tag, 0, 0, 0, 0, 0, 0, 0, 0, 0, 0, 0, 0, 0, 0];
        let mut s = BufReadStreamer::new(&bytes);
        let mut text = String::new();
        assert_eq!(
            parse_atom_only(&mut s, &mut text).unwrap_err().error_code,
            ErrorCode::NotErlangBinary
        );
    }
}

#[test]
fn a_filtered_read_admits_the_tags_of_its_filter() {
    let bytes = [98u8, 0, 0, 1, 0];
    let mut s = BufReadStreamer::new(&bytes);
    let mut text = String::new();
    assert!(parse_filtered(&[98, 97], &mut s, &mut text).is_ok());
    assert_eq!(text, "256");
    let mut s = BufReadStreamer::new(&bytes);
    let mut text = String::new();
    assert_eq!(
        parse_filtered(&[97], &mut s, &mut text).unwrap_err().error_code,
        ErrorCode::NotErlangBinary
    );
    let mut s = BufReadStreamer::new(&bytes);
    assert_eq!(
        parse_filtered(&[], &mut s, &mut text).unwrap_err().error_code,
        ErrorCode::NotErlangBinary
    );
    let mut s = BufReadStreamer::new(&[]);
    assert_eq!(
        parse_filtered(&[97], &mut s, &mut text).unwrap_err().error_code,
        ErrorCode::ReadError
    );
}

#[test]
fn a_term_is_decoded_by_its_tag() {
    let bytes = [5u8, 6];
    let mut s = BufReadStreamer::new(&bytes);
    let mut c = DefaultComposer::new();
    assert!(parse_term(97, &mut s, &mut c).is_ok());
    assert!(parse_term(106, &mut s, &mut c).is_ok());
    assert!(parse_term(82, &mut s, &mut c).is_ok());
    assert_eq!(c.get_result(), "{\"int\":5}{\"acr\":6}");
    assert_eq!(parse_term(1, &mut s, &mut c).unwrap_err().error_code, ErrorCode::NotImplemented);
}

#[test]
fn a_row_of_terms_is_bracketed_and_separated() {
    let bytes = [97u8, 1, 97, 2, 97, 3];
    let mut s = BufReadStreamer::new(&bytes);
    let mut c = DefaultComposer::new();
    assert!(create_list(3, &mut s, &mut c).is_ok());
    assert_eq!(c.get_result(), "[{\"int\":1},{\"int\":2},{\"int\":3}]");
    let mut s = BufReadStreamer::new(&bytes);
    let mut c = DefaultComposer::new();
    assert!(create_list(0, &mut s, &mut c).is_ok());
    assert_eq!(c.get_result(), "[]");
    let mut c = DefaultComposer::new();
    assert!(parse_any(&mut s, &mut c).is_ok());
    assert_eq!(c.get_result(), "{\"int\":1}");
}

#[test]
fn integers_are_written_in_base_ten() {
    assert_eq!(decimal(0), "0");
    assert_eq!(decimal(7), "7");
    assert_eq!(decimal(10), "10");
    assert_eq!(decimal(-1), "-1");
    assert_eq!(decimal(1234567890), "1234567890");
    assert_eq!(decimal(-9007199254740993), "-9007199254740993");
    assert_eq!(decimal(i64::MAX), "9223372036854775807");
    assert_eq!(decimal(i64::MIN), "-9223372036854775808");
}
