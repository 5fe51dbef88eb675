//! One document, at least, for every kind of term.

use etf2json::parser::start_parsing;
use etf2json::ErrorCode;

fn render(bytes: &[u8]) -> Result<String, ErrorCode> {
    start_parsing(bytes).map_err(|e| e.error_code)
}

fn rendered(bytes: &[u8]) -> String {
    render(bytes).unwrap()
}

/// The atom `n`, as a legacy atom with a two-byte length.
const NODE: [u8; 4] = [100, 0, 1, b'n'];

/// A process id on node `n` with id 1, serial 2 and creation 3.
const PID: [u8; 14] = [103, 100, 0, 1, b'n', 0, 0, 0, 1, 0, 0, 0, 2, 3];

fn document(parts: &[&[u8]]) -> Vec<u8> {
    let mut bytes = vec![131u8];
    for part in parts {
        bytes.extend_from_slice(part);
    }
    bytes
}

#[test]
fn small_integer_bounds() {
    assert_eq!(rendered(&[131, 97, 0]), "{\"int\":0}");
    assert_eq!(rendered(&[131, 97, 255]), "{\"int\":255}");
}

#[test]
fn integer_is_signed_and_big_endian() {
    assert_eq!(rendered(&[131, 98, 0, 0, 1, 0]), "{\"int\":256}");
    assert_eq!(rendered(&[131, 98, 255, 255, 255, 254]), "{\"int\":-2}");
    assert_eq!(rendered(&[131, 98, 128, 0, 0, 0]), "{\"int\":-2147483648}");
    assert_eq!(rendered(&[131, 98, 127, 255, 255, 255]), "{\"int\":2147483647}");
    assert_eq!(rendered(&[131, 98, 0, 0, 0, 0]), "{\"int\":0}");
}

#[test]
fn legacy_float_is_copied_as_it_is() {
    let text = b"1.50000000000000000000e+00\0\0\0\0\0";
    assert_eq!(text.len(), 31);
    let bytes = document(&[&[99], text]);
    assert_eq!(
        rendered(&bytes),
        "{\"float\":1.50000000000000000000e+00\0\0\0\0\0}"
    );
}

#[test]
fn new_float_is_shown_as_a_double() {
    assert_eq!(rendered(&[131, 70, 0x3F, 0xF8, 0, 0, 0, 0, 0, 0]), "{\"float\":1.5}");
    assert_eq!(rendered(&[131, 70, 0xC0, 0x04, 0, 0, 0, 0, 0, 0]), "{\"float\":-2.5}");
    assert_eq!(rendered(&[131, 70, 0, 0, 0, 0, 0, 0, 0, 0]), "{\"float\":0}");
    assert_eq!(
        rendered(&[131, 70, 64, 9, 33, 251, 84, 68, 45, 24]),
        "{\"float\":3.141592653589793}"
    );
}

#[test]
fn legacy_atoms_take_every_byte_as_a_character() {
    assert_eq!(rendered(&[131, 100, 0, 2, b'o', b'k']), "{\"atom\":\"ok\"}");
    assert_eq!(rendered(&[131, 115, 2, b'o', b'k']), "{\"atom\":\"ok\"}");
    assert_eq!(rendered(&[131, 100, 0, 0]), "{\"atom\":\"\"}");
    assert_eq!(rendered(&[131, 115, 0]), "{\"atom\":\"\"}");
    // 0xE9 is not UTF-8 by itself; as a character code it is e-acute.
    assert_eq!(rendered(&[131, 100, 0, 1, 0xE9]), "{\"atom\":\"\u{e9}\"}");
    assert_eq!(rendered(&[131, 115, 2, 0xFF, 0x80]), "{\"atom\":\"\u{ff}\u{80}\"}");
}

#[test]
fn utf8_atoms_are_decoded() {
    assert_eq!(rendered(&[131, 118, 0, 2, b'o', b'k']), "{\"atom\":\"ok\"}");
    assert_eq!(rendered(&[131, 119, 2, b'o', b'k']), "{\"atom\":\"ok\"}");
    assert_eq!(rendered(&[131, 118, 0, 2, 0xC3, 0xA9]), "{\"atom\":\"\u{e9}\"}");
    assert_eq!(rendered(&[131, 119, 3, 0xE2, 0x82, 0xAC]), "{\"atom\":\"\u{20ac}\"}");
    assert_eq!(rendered(&[131, 119, 4, 0xF0, 0x9F, 0x98, 0x80]), "{\"atom\":\"\u{1f600}\"}");
    assert_eq!(rendered(&[131, 119, 0]), "{\"atom\":\"\"}");
}

#[test]
fn utf8_atoms_are_validated() {
    assert_eq!(render(&[131, 119, 1, 0xE9]), Err(ErrorCode::NotUtf8Atom));
    // An encoding longer than needed.
    assert_eq!(render(&[131, 119, 2, 0xC0, 0x80]), Err(ErrorCode::NotUtf8Atom));
    // A surrogate.
    assert_eq!(render(&[131, 119, 3, 0xED, 0xA0, 0x80]), Err(ErrorCode::NotUtf8Atom));
    // A character cut short by the declared length.
    assert_eq!(render(&[131, 118, 0, 1, 0xC3, 0xA9]), Err(ErrorCode::NotUtf8Atom));
}

#[test]
fn atom_cache_reference() {
    assert_eq!(rendered(&[131, 82, 9]), "{\"acr\":9}");
}

#[test]
fn string_is_a_row_of_characters() {
    assert_eq!(rendered(&[131, 107, 0, 3, 97, 98, 99]), "{\"str\":[a,b,c]}");
    assert_eq!(rendered(&[131, 107, 0, 1, 97]), "{\"str\":[a]}");
    assert_eq!(rendered(&[131, 107, 0, 0]), "{\"str\":[]}");
}

#[test]
fn nil_by_itself_renders_nothing() {
    assert_eq!(rendered(&[131, 106]), "");
}

#[test]
fn lists() {
    assert_eq!(rendered(&[131, 108, 0, 0, 0, 0, 106]), "{\"list\":[]}");
    assert_eq!(rendered(&[131, 108, 0, 0, 0, 1, 97, 1, 106]), "{\"list\":[{\"int\":1}]}");
    assert_eq!(
        rendered(&[131, 108, 0, 0, 0, 2, 108, 0, 0, 0, 1, 97, 1, 106, 100, 0, 1, b'a', 106]),
        "{\"list\":[{\"list\":[{\"int\":1}]},{\"atom\":\"a\"}]}"
    );
    // A nil among the items renders nothing between its commas.
    assert_eq!(
        rendered(&[131, 108, 0, 0, 0, 3, 97, 1, 106, 97, 2, 106]),
        "{\"list\":[{\"int\":1},,{\"int\":2}]}"
    );
}

#[test]
fn tuples() {
    assert_eq!(rendered(&[131, 104, 0]), "{\"tuple\":[]}");
    assert_eq!(
        rendered(&[131, 104, 2, 97, 1, 97, 2]),
        "{\"tuple\":[{\"int\":1},{\"int\":2}]}"
    );
    assert_eq!(rendered(&[131, 105, 0, 0, 0, 1, 97, 7]), "{\"tuple\":[{\"int\":7}]}");
    assert_eq!(
        rendered(&[131, 105, 0, 0, 0, 2, 104, 1, 97, 1, 97, 2]),
        "{\"tuple\":[{\"tuple\":[{\"int\":1}]},{\"int\":2}]}"
    );
}

#[test]
fn maps() {
    assert_eq!(rendered(&[131, 116, 0, 0, 0, 0]), "{\"map\":[]}");
    assert_eq!(
        rendered(&[131, 116, 0, 0, 0, 1, 97, 1, 97, 2]),
        "{\"map\":[{\"key\":{\"int\":1},\"val\":{\"int\":2}}]}"
    );
    assert_eq!(
        rendered(&[131, 116, 0, 0, 0, 2, 97, 1, 97, 2, 115, 1, b'k', 104, 0]),
        "{\"map\":[{\"key\":{\"int\":1},\"val\":{\"int\":2}},{\"key\":{\"atom\":\"k\"},\"val\":{\"tuple\":[]}}]}"
    );
}

#[test]
fn binaries_are_shown_in_base64() {
    assert_eq!(rendered(&[131, 109, 0, 0, 0, 0]), "{\"binary\":\"\"}");
    assert_eq!(rendered(&[131, 109, 0, 0, 0, 1, b'f']), "{\"binary\":\"Zg==\"}");
    assert_eq!(rendered(&[131, 109, 0, 0, 0, 2, b'f', b'o']), "{\"binary\":\"Zm8=\"}");
    assert_eq!(rendered(&[131, 109, 0, 0, 0, 3, b'f', b'o', b'o']), "{\"binary\":\"Zm9v\"}");
    assert_eq!(rendered(&[131, 109, 0, 0, 0, 3, 0xFB, 0xFF, 0xFE]), "{\"binary\":\"+//+\"}");
}

#[test]
fn bit_binaries_carry_their_bit_count() {
    assert_eq!(
        rendered(&[131, 77, 0, 0, 0, 1, 3, 0xA0]),
        "{\"bitstr\":{\"bits\":3,\"data\":\"oA==\"}}"
    );
    assert_eq!(rendered(&[131, 77, 0, 0, 0, 0, 0]), "{\"bitstr\":{\"bits\":0,\"data\":\"\"}}");
}

#[test]
fn big_integers_are_exact() {
    assert_eq!(rendered(&[131, 110, 2, 0, 0, 1]), "{\"bigint\":256}");
    assert_eq!(rendered(&[131, 110, 1, 1, 5]), "{\"bigint\":-5}");
    assert_eq!(rendered(&[131, 110, 1, 7, 5]), "{\"bigint\":-5}");
    assert_eq!(rendered(&[131, 110, 0, 0]), "{\"bigint\":0}");
    assert_eq!(rendered(&[131, 110, 0, 1]), "{\"bigint\":0}");
    assert_eq!(rendered(&[131, 110, 2, 1, 0, 0]), "{\"bigint\":0}");
    // 2^64, which no machine word holds.
    assert_eq!(
        rendered(&[131, 111, 0, 0, 0, 9, 0, 0, 0, 0, 0, 0, 0, 0, 0, 1]),
        "{\"bigint\":18446744073709551616}"
    );
    // -(2^96 - 1)
    assert_eq!(
        rendered(&[
            131, 110, 12, 1, 255, 255, 255, 255, 255, 255, 255, 255, 255, 255, 255, 255
        ]),
        "{\"bigint\":-79228162514264337593543950335}"
    );
    // Leading zero bytes of the magnitude do not show.
    assert_eq!(rendered(&[131, 110, 3, 0, 10, 0, 0]), "{\"bigint\":10}");
}

#[test]
fn references_and_ports() {
    let bytes = document(&[&[101], &NODE, &[0, 0, 0, 7, 2]]);
    assert_eq!(rendered(&bytes), "{\"ref\":{\"node\":\"n\",\"id\":7,\"creation\":2}}");
    let bytes = document(&[&[102], &NODE, &[255, 255, 255, 255, 255]]);
    assert_eq!(
        rendered(&bytes),
        "{\"port\":{\"node\":\"n\",\"id\":4294967295,\"creation\":255}}"
    );
    // The node may be any of the five kinds of atom.
    let bytes = document(&[&[101, 82, 4], &[0, 0, 0, 7, 2]]);
    assert_eq!(rendered(&bytes), "{\"ref\":{\"node\":4,\"id\":7,\"creation\":2}}");
    let bytes = document(&[&[101, 119, 2, 0xC3, 0xA9], &[0, 0, 0, 7, 2]]);
    assert_eq!(rendered(&bytes), "{\"ref\":{\"node\":\"\u{e9}\",\"id\":7,\"creation\":2}}");
}

#[test]
fn process_ids() {
    let bytes = document(&[&PID]);
    assert_eq!(
        rendered(&bytes),
        "{\"pid\":{\"node\":\"n\",\"id\":1,\"serial\":2,\"creation\":3}}"
    );
}

#[test]
fn new_references_pass_over_their_id_words() {
    let bytes = document(&[&[114, 0, 2], &NODE, &[3], &[9, 9, 9, 9, 8, 8, 8, 8], &[97, 1]]);
    assert_eq!(rendered(&bytes), "{\"newref\":{\"node\":\"n\",\"creation\":3}}");
    let bytes = document(&[&[114, 0, 0], &NODE, &[3]]);
    assert_eq!(rendered(&bytes), "{\"newref\":{\"node\":\"n\",\"creation\":3}}");
    // One id word is missing.
    let bytes = document(&[&[114, 0, 2], &NODE, &[3], &[9, 9, 9, 9]]);
    assert_eq!(render(&bytes), Err(ErrorCode::ReadError));
}

#[test]
fn exported_functions() {
    let bytes = document(&[&[113], &[100, 0, 1, b'm'], &[115, 1, b'f'], &[97, 2]]);
    assert_eq!(rendered(&bytes), "{\"expfun\":{\"m\":\"m\",\"f\":\"f\",\"a\":2}}");
}

#[test]
fn function_closures_drop_their_free_variables() {
    let bytes = document(&[
        &[117, 0, 0, 0, 2],
        &PID,
        &[100, 0, 1, b'm'],
        &[97, 1],
        &[98, 0, 0, 1, 0],
        &[97, 9],
        &[104, 1, 97, 8],
    ]);
    assert_eq!(
        rendered(&bytes),
        "{\"fun\":{\"pid\":{\"pid\":{\"node\":\"n\",\"id\":1,\"serial\":2,\"creation\":3}},\"m\":\"m\",\"index\":{\"int\":1},\"uniq\":{\"int\":256}}}"
    );
    // With no free variables.
    let bytes = document(&[&[117, 0, 0, 0, 0], &PID, &[100, 0, 1, b'm'], &[97, 1], &[97, 2]]);
    assert_eq!(
        rendered(&bytes),
        "{\"fun\":{\"pid\":{\"pid\":{\"node\":\"n\",\"id\":1,\"serial\":2,\"creation\":3}},\"m\":\"m\",\"index\":{\"int\":1},\"uniq\":{\"int\":2}}}"
    );
    // A free variable that is declared and not there.
    let bytes = document(&[&[117, 0, 0, 0, 1], &PID, &[100, 0, 1, b'm'], &[97, 1], &[97, 2]]);
    assert_eq!(render(&bytes), Err(ErrorCode::ReadError));
}

fn new_fun(old_index: &[u8], old_uniq: &[u8], pid: &[u8], free: &[u8], num_free: u8) -> Vec<u8> {
    let uniq: [u8; 16] = [0, 1, 2, 3, 4, 5, 6, 7, 8, 9, 10, 11, 12, 13, 14, 255];
    document(&[
        &[112, 0, 0, 0, 99, 2],
        &uniq,
        &[0, 0, 0, 5],
        &[0, 0, 0, num_free],
        &[100, 0, 1, b'm'],
        old_index,
        old_uniq,
        pid,
        free,
    ])
}

#[test]
fn new_function_closures() {
    let bytes = new_fun(&[97, 3], &[98, 0, 0, 0, 4], &PID, &[97, 1, 104, 0], 2);
    assert_eq!(
        rendered(&bytes),
        "{\"newfun\":{\"m\":\"m\",\"a\":2,\"uniq\":\"000102030405060708090a0b0c0d0eff\",\"index\":5,\"old_uniq\":4,\"old_index\":3,\"pid\":{\"node\":\"n\",\"id\":1,\"serial\":2,\"creation\":3}}}"
    );
    let bytes = new_fun(&[98, 255, 255, 255, 255], &[97, 0], &PID, &[], 0);
    assert_eq!(
        rendered(&bytes),
        "{\"newfun\":{\"m\":\"m\",\"a\":2,\"uniq\":\"000102030405060708090a0b0c0d0eff\",\"index\":5,\"old_uniq\":0,\"old_index\":-1,\"pid\":{\"node\":\"n\",\"id\":1,\"serial\":2,\"creation\":3}}}"
    );
}

#[test]
fn new_function_closures_hold_their_fields_to_their_kinds() {
    // The old index must be an integer.
    let bytes = new_fun(&[100, 0, 1, b'x'], &[97, 4], &PID, &[], 0);
    assert_eq!(render(&bytes), Err(ErrorCode::NotErlangBinary));
    // So must the old uniq.
    let bytes = new_fun(&[97, 3], &[110, 1, 0, 4], &PID, &[], 0);
    assert_eq!(render(&bytes), Err(ErrorCode::NotErlangBinary));
    // The process id must be one.
    let bytes = new_fun(&[97, 3], &[97, 4], &[97, 1], &[], 0);
    assert_eq!(render(&bytes), Err(ErrorCode::NotErlangBinary));
    // A free variable must decode, though it is dropped.
    let bytes = new_fun(&[97, 3], &[97, 4], &PID, &[250], 1);
    assert_eq!(render(&bytes), Err(ErrorCode::NotImplemented));
    let bytes = new_fun(&[97, 3], &[97, 4], &PID, &[], 1);
    assert_eq!(render(&bytes), Err(ErrorCode::ReadError));
}
