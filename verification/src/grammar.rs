//! What a byte sequence decodes to: for each kind of term, the instructions
//! that its decoding gives to the sink and the bytes that it leaves, or the
//! failure that it ends in. Everything here is mathematics; the decoder that
//! runs is held to it.

use crate::elem_compose::SinkOp;
use crate::parse_result::ErrorCode;
use crate::raw_string_composer::raw_text;
use crate::read_stream::{be_i32, be_u16, be_u32};
use crate::render::{
    base64_fits, base64_text, big_value, decimal_text, float_text, hex_text, latin1,
};
use crate::string_composer::framed_text;
use crate::tags::{
    is_atom_tag, is_integer_tag, ATOM_CACHE_REF, ATOM_EXT, ATOM_UTF8_EXT, BINARY_EXT,
    BIT_BINARY_EXT, EXPORT_EXT, FLOAT_EXT, FUN_EXT, INTEGER_EXT, LARGE_BIG_EXT, LARGE_TUPLE_EXT,
    LIST_EXT, MAP_EXT, NEW_FLOAT_EXT, NEW_FUN_EXT, NEW_REFERENCE_EXT, NIL_EXT, PID_EXT, PORT_EXT,
    REFERENCE_EXT, SMALL_ATOM_EXT, SMALL_ATOM_UTF8_EXT, SMALL_BIG_EXT, SMALL_INTEGER_EXT,
    SMALL_TUPLE_EXT, STRING_EXT, VERSION_MARKER,
};
use vstd::prelude::*;
use vstd::utf8::{decode_utf8, valid_utf8};

verus! {

/// The outcome of decoding one term, or one document.
pub enum Decoded {
    /// The sink is given `ops`, in order; `rest` is what follows the term.
    Done { ops: Seq<SinkOp>, rest: Seq<u8> },
    /// Decoding stops with this failure. `left` is what the source then has
    /// left; a failed read leaves that open.
    Failed { code: ErrorCode, left: Option<Seq<u8>> },
}

/// The outcome of decoding several terms in a row.
pub enum DecodedRow {
    /// `items` holds the instructions of each term; `rest` is what follows the
    /// last of them.
    Done { items: Seq<Seq<SinkOp>>, rest: Seq<u8> },
    /// Decoding stops with this failure. `left` is what the source then has
    /// left; a failed read leaves that open.
    Failed { code: ErrorCode, left: Option<Seq<u8>> },
}

/// The bytes ran out: a read failed, and where the source stands is open.
pub open spec fn short() -> Decoded {
    Decoded::Failed { code: ErrorCode::ReadError, left: None }
}

/// Decoding stops with this failure, and with these bytes left in the source.
pub open spec fn failed(code: ErrorCode, left: Seq<u8>) -> Decoded {
    Decoded::Failed { code, left: Some(left) }
}

/// The instruction that hands over one character.
pub open spec fn ch(c: char) -> SinkOp {
    SinkOp::Push(seq![c])
}

/// The instructions that begin an element of this name.
pub open spec fn opened(name: Seq<char>) -> Seq<SinkOp> {
    Seq::<SinkOp>::empty().push(SinkOp::Open(name))
}

/// An element whose whole content is one piece of text.
pub open spec fn element(name: Seq<char>, content: Seq<char>) -> Seq<SinkOp> {
    opened(name).push(SinkOp::Push(content)).push(SinkOp::Close)
}

/// One character per byte, each handed over by itself.
pub open spec fn pushed_chars(bytes: Seq<u8>) -> Seq<SinkOp>
    decreases bytes.len(),
{
    if bytes.len() == 0 {
        Seq::empty()
    } else {
        pushed_chars(bytes.drop_last()).push(ch(latin1(bytes.last())))
    }
}

/// One character per byte, with a comma after each of them but the last of
/// `n`.
pub open spec fn separated_chars(bytes: Seq<u8>, n: int) -> Seq<SinkOp>
    decreases bytes.len(),
{
    if bytes.len() == 0 {
        Seq::empty()
    } else {
        let so_far = separated_chars(bytes.drop_last(), n).push(ch(latin1(bytes.last())));
        if bytes.len() < n {
            so_far.push(ch(','))
        } else {
            so_far
        }
    }
}

/// The instructions of each item, with a comma after each of them but the
/// last of `n`.
pub open spec fn joined(items: Seq<Seq<SinkOp>>, n: int) -> Seq<SinkOp>
    decreases items.len(),
{
    if items.len() == 0 {
        Seq::empty()
    } else {
        let so_far = joined(items.drop_last(), n) + items.last();
        if items.len() < n {
            so_far.push(ch(','))
        } else {
            so_far
        }
    }
}

/// The items in brackets, separated by commas.
pub open spec fn listed(items: Seq<Seq<SinkOp>>) -> Seq<SinkOp> {
    (Seq::<SinkOp>::empty().push(ch('[')) + joined(items, items.len() as int)).push(ch(']'))
}

/// One pair of a map: `{"key":` the key `,"val":` the value `}`.
pub open spec fn pair(key: Seq<SinkOp>, val: Seq<SinkOp>) -> Seq<SinkOp> {
    ((Seq::<SinkOp>::empty().push(SinkOp::Push("{\"key\":"@)) + key).push(
        SinkOp::Push(",\"val\":"@),
    ) + val).push(SinkOp::Push("}"@))
}

/// The items two by two as pairs, with a comma after each pair but the last
/// of `n`.
pub open spec fn paired(items: Seq<Seq<SinkOp>>, n: int) -> Seq<SinkOp>
    decreases items.len(),
{
    if items.len() < 2 {
        Seq::empty()
    } else {
        let so_far = paired(items.take(items.len() - 2), n) + pair(
            items[items.len() - 2],
            items[items.len() - 1],
        );
        if items.len() < 2 * n {
            so_far.push(ch(','))
        } else {
            so_far
        }
    }
}

// ---------------------------------------------------------------------------
// Terms that hold no other term.

/// Tag 97: one byte, an unsigned integer.
pub open spec fn small_integer_term(b: Seq<u8>) -> Decoded {
    if b.len() < 1 {
        short()
    } else {
        Decoded::Done { ops: element("int"@, decimal_text(b[0] as int)), rest: b.skip(1) }
    }
}

/// Tag 98: four bytes, a signed integer.
pub open spec fn integer_term(b: Seq<u8>) -> Decoded {
    if b.len() < 4 {
        short()
    } else {
        Decoded::Done { ops: element("int"@, decimal_text(be_i32(b))), rest: b.skip(4) }
    }
}

/// Tag 82: one byte, an index into the atom cache.
pub open spec fn atom_cache_term(b: Seq<u8>) -> Decoded {
    if b.len() < 1 {
        short()
    } else {
        Decoded::Done { ops: element("acr"@, decimal_text(b[0] as int)), rest: b.skip(1) }
    }
}

/// Tag 99: thirty-one bytes of decimal text, passed on as they are.
pub open spec fn float_term(b: Seq<u8>) -> Decoded {
    if b.len() < 31 {
        short()
    } else {
        Decoded::Done {
            ops: (opened("float"@) + pushed_chars(b.take(31))).push(SinkOp::Close),
            rest: b.skip(31),
        }
    }
}

/// Tag 70: eight bytes, an IEEE-754 double.
pub open spec fn new_float_term(b: Seq<u8>) -> Decoded {
    if b.len() < 8 {
        short()
    } else {
        Decoded::Done { ops: element("float"@, float_text(b.take(8))), rest: b.skip(8) }
    }
}

/// A legacy atom of `n` bytes: every byte is one character, whatever it is.
pub open spec fn legacy_atom(n: int, b: Seq<u8>) -> Decoded {
    if b.len() < n {
        short()
    } else {
        Decoded::Done {
            ops: (opened("atom"@).push(ch('"')) + pushed_chars(b.take(n))).push(ch('"')).push(
                SinkOp::Close,
            ),
            rest: b.skip(n),
        }
    }
}

/// Tag 100: a two-byte length, then a legacy atom.
pub open spec fn atom_term(b: Seq<u8>) -> Decoded {
    if b.len() < 2 {
        short()
    } else {
        legacy_atom(be_u16(b), b.skip(2))
    }
}

/// Tag 115: a one-byte length, then a legacy atom.
pub open spec fn small_atom_term(b: Seq<u8>) -> Decoded {
    if b.len() < 1 {
        short()
    } else {
        legacy_atom(b[0] as int, b.skip(1))
    }
}

/// A UTF-8 atom of `n` bytes, which must be valid UTF-8.
pub open spec fn utf8_atom(n: int, b: Seq<u8>) -> Decoded {
    if b.len() < n {
        short()
    } else if !valid_utf8(b.take(n)) {
        failed(ErrorCode::NotUtf8Atom, b.skip(n))
    } else {
        Decoded::Done {
            ops: opened("atom"@)
                .push(ch('"'))
                .push(SinkOp::Push(decode_utf8(b.take(n))))
                .push(ch('"'))
                .push(SinkOp::Close),
            rest: b.skip(n),
        }
    }
}

/// Tag 118: a two-byte length, then a UTF-8 atom.
pub open spec fn atom_utf8_term(b: Seq<u8>) -> Decoded {
    if b.len() < 2 {
        short()
    } else {
        utf8_atom(be_u16(b), b.skip(2))
    }
}

/// Tag 119: a one-byte length, then a UTF-8 atom.
pub open spec fn small_atom_utf8_term(b: Seq<u8>) -> Decoded {
    if b.len() < 1 {
        short()
    } else {
        utf8_atom(b[0] as int, b.skip(1))
    }
}

/// Tag 107: a two-byte length, then that many character codes.
pub open spec fn string_term(b: Seq<u8>) -> Decoded {
    if b.len() < 2 {
        short()
    } else {
        let n = be_u16(b);
        let payload = b.skip(2);
        if payload.len() < n {
            short()
        } else {
            Decoded::Done {
                ops: (opened("str"@).push(ch('[')) + separated_chars(payload.take(n), n)).push(
                    ch(']'),
                ).push(SinkOp::Close),
                rest: payload.skip(n),
            }
        }
    }
}

/// Tag 109: a four-byte length, then that many bytes, shown in base64. A blob
/// whose base64 text is longer than the machine can address cannot be read.
pub open spec fn binary_term(b: Seq<u8>) -> Decoded {
    if b.len() < 4 {
        short()
    } else {
        let n = be_u32(b);
        let payload = b.skip(4);
        if !base64_fits(n) || payload.len() < n {
            short()
        } else {
            Decoded::Done {
                ops: opened("binary"@)
                    .push(ch('"'))
                    .push(SinkOp::Push(base64_text(payload.take(n))))
                    .push(ch('"'))
                    .push(SinkOp::Close),
                rest: payload.skip(n),
            }
        }
    }
}

/// Tag 77: a four-byte length, the number of bits used in the last byte, then
/// that many bytes, shown in base64 beside the bit count.
pub open spec fn bit_binary_term(b: Seq<u8>) -> Decoded {
    if b.len() < 5 {
        short()
    } else {
        let n = be_u32(b);
        let payload = b.skip(5);
        if !base64_fits(n) || payload.len() < n {
            short()
        } else {
            Decoded::Done {
                ops: opened("bitstr"@)
                    .push(SinkOp::Push("{\"bits\":"@))
                    .push(SinkOp::Push(decimal_text(b[4] as int)))
                    .push(SinkOp::Push(",\"data\":\""@))
                    .push(SinkOp::Push(base64_text(payload.take(n))))
                    .push(SinkOp::Push("\"}"@))
                    .push(SinkOp::Close),
                rest: payload.skip(n),
            }
        }
    }
}

/// An integer of any size: a sign byte, zero for non-negative, then `n` bytes
/// of magnitude, least significant first.
pub open spec fn big(n: int, b: Seq<u8>) -> Decoded {
    if b.len() < 1 + n {
        short()
    } else {
        Decoded::Done {
            ops: element("bigint"@, decimal_text(big_value(b[0] != 0, b.subrange(1, 1 + n)))),
            rest: b.skip(1 + n),
        }
    }
}

/// Tag 110: a one-byte digit count, then an integer of any size.
pub open spec fn small_big_term(b: Seq<u8>) -> Decoded {
    if b.len() < 1 {
        short()
    } else {
        big(b[0] as int, b.skip(1))
    }
}

/// Tag 111: a four-byte digit count, then an integer of any size.
pub open spec fn large_big_term(b: Seq<u8>) -> Decoded {
    if b.len() < 4 {
        short()
    } else {
        big(be_u32(b), b.skip(4))
    }
}

// ---------------------------------------------------------------------------
// Terms that hold terms of a fixed kind.

/// The atom with this tag.
pub open spec fn atom_by_tag(tag: u8, b: Seq<u8>) -> Decoded
    recommends
        is_atom_tag(tag),
{
    if tag == SMALL_ATOM_UTF8_EXT {
        small_atom_utf8_term(b)
    } else if tag == ATOM_UTF8_EXT {
        atom_utf8_term(b)
    } else if tag == ATOM_CACHE_REF {
        atom_cache_term(b)
    } else if tag == ATOM_EXT {
        atom_term(b)
    } else {
        small_atom_term(b)
    }
}

/// A term that must be an atom.
#[verifier::opaque]
pub open spec fn atom_only(b: Seq<u8>) -> Decoded {
    if b.len() < 1 {
        short()
    } else if !is_atom_tag(b[0]) {
        failed(ErrorCode::NotErlangBinary, b.skip(1))
    } else {
        atom_by_tag(b[0], b.skip(1))
    }
}

/// A term that must be a one-byte integer.
#[verifier::opaque]
pub open spec fn small_integer_only(b: Seq<u8>) -> Decoded {
    if b.len() < 1 {
        short()
    } else if b[0] != SMALL_INTEGER_EXT {
        failed(ErrorCode::NotErlangBinary, b.skip(1))
    } else {
        small_integer_term(b.skip(1))
    }
}

/// A term that must be an integer of one or of four bytes.
#[verifier::opaque]
pub open spec fn integer_only(b: Seq<u8>) -> Decoded {
    if b.len() < 1 {
        short()
    } else if !is_integer_tag(b[0]) {
        failed(ErrorCode::NotErlangBinary, b.skip(1))
    } else if b[0] == INTEGER_EXT {
        integer_term(b.skip(1))
    } else {
        small_integer_term(b.skip(1))
    }
}

/// Tags 101 and 102: a node, which must be an atom, a four-byte id and a
/// one-byte creation.
pub open spec fn node_term(kind: Seq<char>, b: Seq<u8>) -> Decoded {
    match atom_only(b) {
        Decoded::Failed { code, left } => Decoded::Failed { code, left },
        Decoded::Done { ops: node, rest } => if rest.len() < 5 {
            short()
        } else {
            Decoded::Done {
                ops: opened(kind)
                    .push(SinkOp::Push("{\"node\":"@))
                    .push(SinkOp::Push(raw_text(node)))
                    .push(SinkOp::Push(",\"id\":"@))
                    .push(SinkOp::Push(decimal_text(be_u32(rest))))
                    .push(SinkOp::Push(",\"creation\":"@))
                    .push(SinkOp::Push(decimal_text(rest[4] as int)))
                    .push(ch('}'))
                    .push(SinkOp::Close),
                rest: rest.skip(5),
            }
        },
    }
}

/// Tag 101: a reference.
pub open spec fn reference_term(b: Seq<u8>) -> Decoded {
    node_term("ref"@, b)
}

/// Tag 102: a port.
pub open spec fn port_term(b: Seq<u8>) -> Decoded {
    node_term("port"@, b)
}

/// Tag 103: a node, which must be an atom, a four-byte id, a four-byte serial
/// and a one-byte creation.
pub open spec fn pid_term(b: Seq<u8>) -> Decoded {
    match atom_only(b) {
        Decoded::Failed { code, left } => Decoded::Failed { code, left },
        Decoded::Done { ops: node, rest } => if rest.len() < 9 {
            short()
        } else {
            Decoded::Done {
                ops: opened("pid"@)
                    .push(SinkOp::Push("{\"node\":"@))
                    .push(SinkOp::Push(raw_text(node)))
                    .push(SinkOp::Push(",\"id\":"@))
                    .push(SinkOp::Push(decimal_text(be_u32(rest))))
                    .push(SinkOp::Push(",\"serial\":"@))
                    .push(SinkOp::Push(decimal_text(be_u32(rest.skip(4)))))
                    .push(SinkOp::Push(",\"creation\":"@))
                    .push(SinkOp::Push(decimal_text(rest[8] as int)))
                    .push(ch('}'))
                    .push(SinkOp::Close),
                rest: rest.skip(9),
            }
        },
    }
}

/// A term that must be a process id.
#[verifier::opaque]
pub open spec fn pid_only(b: Seq<u8>) -> Decoded {
    if b.len() < 1 {
        short()
    } else if b[0] != PID_EXT {
        failed(ErrorCode::NotErlangBinary, b.skip(1))
    } else {
        pid_term(b.skip(1))
    }
}

/// The text of a new-style reference.
pub open spec fn new_reference_text(node: Seq<char>, creation: Seq<char>) -> Seq<char> {
    "{\"node\":"@ + node + ",\"creation\":"@ + creation + "}"@
}

/// Tag 114: a two-byte count of id words, a node, which must be an atom, a
/// one-byte creation, and the id words, four bytes each, which are passed over.
pub open spec fn new_reference_term(b: Seq<u8>) -> Decoded {
    if b.len() < 2 {
        short()
    } else {
        let words = be_u16(b);
        match atom_only(b.skip(2)) {
            Decoded::Failed { code, left } => Decoded::Failed { code, left },
            Decoded::Done { ops: node, rest } => if rest.len() < 1 + 4 * words {
                short()
            } else {
                Decoded::Done {
                    ops: element(
                        "newref"@,
                        new_reference_text(raw_text(node), decimal_text(rest[0] as int)),
                    ),
                    rest: rest.skip(1 + 4 * words),
                }
            },
        }
    }
}

/// Tag 113: a module and a function, which must be atoms, and an arity, which
/// must be a one-byte integer.
pub open spec fn export_term(b: Seq<u8>) -> Decoded {
    let module = atom_only(b);
    if module is Failed {
        module
    } else {
        let function = atom_only(module->rest);
        if function is Failed {
            function
        } else {
            let arity = small_integer_only(function->rest);
            if arity is Failed {
                arity
            } else {
                Decoded::Done {
                    ops: opened("expfun"@)
                        .push(SinkOp::Push("{\"m\":"@))
                        .push(SinkOp::Push(raw_text(module->ops)))
                        .push(SinkOp::Push(",\"f\":"@))
                        .push(SinkOp::Push(raw_text(function->ops)))
                        .push(SinkOp::Push(",\"a\":"@))
                        .push(SinkOp::Push(raw_text(arity->ops)))
                        .push(ch('}'))
                        .push(SinkOp::Close),
                    rest: arity->rest,
                }
            }
        }
    }
}

/// The text of a new-style function closure.
pub open spec fn new_fun_text(
    module: Seq<char>,
    arity: Seq<char>,
    uniq: Seq<char>,
    index: Seq<char>,
    old_uniq: Seq<char>,
    old_index: Seq<char>,
    pid: Seq<char>,
) -> Seq<char> {
    "{\"m\":"@ + module + ",\"a\":"@ + arity + ",\"uniq\":\""@ + uniq + "\",\"index\":"@ + index
        + ",\"old_uniq\":"@ + old_uniq + ",\"old_index\":"@ + old_index + ",\"pid\":"@ + pid + "}"@
}

/// How many free variables the header of a new-style function closure declares.
pub open spec fn new_fun_free(b: Seq<u8>) -> int
    recommends
        b.len() >= 29,
{
    be_u32(b.skip(25))
}

/// The terms of fixed kind in a new-style function closure: a module, which
/// must be an atom, the old index and the old uniq, which must be integers,
/// and a process id. The arity, the uniq and the index come from the fixed
/// fields before them.
pub open spec fn new_fun_named(
    arity: Seq<char>,
    uniq: Seq<char>,
    index: Seq<char>,
    b: Seq<u8>,
) -> Decoded {
    let module = atom_only(b);
    if module is Failed {
        module
    } else {
        let old_index = integer_only(module->rest);
        if old_index is Failed {
            old_index
        } else {
            let old_uniq = integer_only(old_index->rest);
            if old_uniq is Failed {
                old_uniq
            } else {
                let pid = pid_only(old_uniq->rest);
                if pid is Failed {
                    pid
                } else {
                    Decoded::Done {
                        ops: element(
                            "newfun"@,
                            new_fun_text(
                                raw_text(module->ops),
                                arity,
                                uniq,
                                index,
                                raw_text(old_uniq->ops),
                                raw_text(old_index->ops),
                                raw_text(pid->ops),
                            ),
                        ),
                        rest: pid->rest,
                    }
                }
            }
        }
    }
}

/// Tag 112, up to the free variables: a four-byte size, a one-byte arity,
/// sixteen bytes of uniq, shown in hexadecimal, a four-byte index, a four-byte
/// count of free variables, and the terms of fixed kind.
pub open spec fn new_fun_head(b: Seq<u8>) -> Decoded {
    if b.len() < 29 {
        short()
    } else {
        new_fun_named(
            decimal_text(b[4] as int),
            hex_text(b.subrange(5, 21)),
            decimal_text(be_u32(b.skip(21))),
            b.skip(29),
        )
    }
}

// ---------------------------------------------------------------------------
// Terms that hold any term.

/// An element whose content is the items in brackets, separated by commas.
pub open spec fn bracketed(name: Seq<char>, items: Seq<Seq<SinkOp>>) -> Seq<SinkOp> {
    (opened(name) + listed(items)).push(SinkOp::Close)
}

/// The text of a function closure.
pub open spec fn fun_text(
    pid: Seq<char>,
    module: Seq<char>,
    index: Seq<char>,
    uniq: Seq<char>,
) -> Seq<char> {
    "{\"pid\":"@ + pid + ",\"m\":"@ + module + ",\"index\":"@ + index + ",\"uniq\":"@ + uniq + "}"@
}

/// One term of any kind: its tag, then what the tag calls for.
pub open spec fn any(b: Seq<u8>) -> Decoded
    decreases b.len(), 0nat,
{
    if b.len() < 1 {
        short()
    } else {
        term(b[0], b.skip(1))
    }
}

/// `n` terms of any kind, one after the other. (A term always leaves fewer
/// bytes than it found, see `lemma_any_consumes`; the test for it is there for
/// the definition to be well-founded.)
pub open spec fn terms(b: Seq<u8>, n: nat) -> DecodedRow
    decreases b.len(), 1nat,
{
    if n == 0 {
        DecodedRow::Done { items: Seq::empty(), rest: b }
    } else {
        match any(b) {
            Decoded::Failed { code, left } => DecodedRow::Failed { code, left },
            Decoded::Done { ops, rest: after_first } => if after_first.len() < b.len() {
                match terms(after_first, (n - 1) as nat) {
                    DecodedRow::Failed { code, left } => DecodedRow::Failed { code, left },
                    DecodedRow::Done { items, rest } => DecodedRow::Done {
                        items: Seq::<Seq<SinkOp>>::empty().push(ops) + items,
                        rest,
                    },
                }
            } else {
                DecodedRow::Failed { code: ErrorCode::ReadError, left: None }
            },
        }
    }
}

/// A tuple of `n` terms.
pub open spec fn tuple(n: nat, b: Seq<u8>) -> Decoded
    decreases b.len(), 2nat,
{
    match terms(b, n) {
        DecodedRow::Failed { code, left } => Decoded::Failed { code, left },
        DecodedRow::Done { items, rest } => Decoded::Done { ops: bracketed("tuple"@, items), rest },
    }
}

/// Tag 104: a one-byte arity, then a tuple.
pub open spec fn small_tuple_term(b: Seq<u8>) -> Decoded
    decreases b.len(), 0nat,
{
    if b.len() < 1 {
        short()
    } else {
        tuple(b[0] as nat, b.skip(1))
    }
}

/// Tag 105: a four-byte arity, then a tuple.
pub open spec fn large_tuple_term(b: Seq<u8>) -> Decoded
    decreases b.len(), 0nat,
{
    if b.len() < 4 {
        short()
    } else {
        tuple(be_u32(b) as nat, b.skip(4))
    }
}

/// Tag 108: a four-byte arity, that many terms, and the nil tag, which must
/// follow them.
pub open spec fn list_term(b: Seq<u8>) -> Decoded
    decreases b.len(), 0nat,
{
    if b.len() < 4 {
        short()
    } else {
        match terms(b.skip(4), be_u32(b) as nat) {
            DecodedRow::Failed { code, left } => Decoded::Failed { code, left },
            DecodedRow::Done { items, rest } => if rest.len() < 1 {
                short()
            } else if rest[0] != NIL_EXT {
                failed(ErrorCode::InvalidListTerm, rest.skip(1))
            } else {
                Decoded::Done { ops: bracketed("list"@, items), rest: rest.skip(1) }
            },
        }
    }
}

/// What decoding one pair of a map comes to: a key, then a value.
pub open spec fn pair_term(b: Seq<u8>) -> Decoded {
    match any(b) {
        Decoded::Failed { code, left } => Decoded::Failed { code, left },
        Decoded::Done { ops: key, rest: middle } => match any(middle) {
            Decoded::Failed { code, left } => Decoded::Failed { code, left },
            Decoded::Done { ops: val, rest } => Decoded::Done { ops: pair(key, val), rest },
        },
    }
}

/// Tag 116: a four-byte arity, then that many pairs of a key and a value.
pub open spec fn map_term(b: Seq<u8>) -> Decoded
    decreases b.len(), 0nat,
{
    if b.len() < 4 {
        short()
    } else {
        let n = be_u32(b);
        match terms(b.skip(4), (2 * n) as nat) {
            DecodedRow::Failed { code, left } => Decoded::Failed { code, left },
            DecodedRow::Done { items, rest } => Decoded::Done {
                ops: (opened("map"@).push(ch('[')) + paired(items, n)).push(ch(']')).push(
                    SinkOp::Close,
                ),
                rest,
            },
        }
    }
}

/// Tag 117: a four-byte count of free variables, a process id of any kind, a
/// module, which must be an atom, an index and a uniq of any kind, and the free
/// variables, which are decoded and dropped.
pub open spec fn fun_term(b: Seq<u8>) -> Decoded
    decreases b.len(), 0nat,
{
    if b.len() < 4 {
        short()
    } else {
        match any(b.skip(4)) {
            Decoded::Failed { code, left } => Decoded::Failed { code, left },
            Decoded::Done { ops: pid, rest: after_pid } => match atom_only(after_pid) {
                Decoded::Failed { code, left } => Decoded::Failed { code, left },
                Decoded::Done { ops: module, rest: after_module } => if after_module.len()
                    < b.len() {
                    match terms(after_module, (be_u32(b) + 2) as nat) {
                        DecodedRow::Failed { code, left } => Decoded::Failed { code, left },
                        DecodedRow::Done { items, rest } => Decoded::Done {
                            ops: element(
                                "fun"@,
                                fun_text(
                                    framed_text(pid),
                                    raw_text(module),
                                    framed_text(items[0]),
                                    framed_text(items[1]),
                                ),
                            ),
                            rest,
                        },
                    }
                } else {
                    short()
                },
            },
        }
    }
}

/// Tag 112: the head of a new-style function closure, then its free variables,
/// which are decoded and dropped.
pub open spec fn new_fun_term(b: Seq<u8>) -> Decoded
    decreases b.len(), 0nat,
{
    match new_fun_head(b) {
        Decoded::Failed { code, left } => Decoded::Failed { code, left },
        Decoded::Done { ops, rest: after_head } => if after_head.len() < b.len() {
            match terms(after_head, new_fun_free(b) as nat) {
                DecodedRow::Failed { code, left } => Decoded::Failed { code, left },
                DecodedRow::Done { items, rest } => Decoded::Done { ops, rest },
            }
        } else {
            short()
        },
    }
}

/// The term with this tag; `b` is what follows the tag. A nil by itself
/// renders nothing. A tag outside the table is not supported.
pub open spec fn term(tag: u8, b: Seq<u8>) -> Decoded
    decreases b.len(), 3nat,
{
    if tag == LIST_EXT {
        list_term(b)
    } else if tag == STRING_EXT {
        string_term(b)
    } else if tag == INTEGER_EXT {
        integer_term(b)
    } else if tag == SMALL_INTEGER_EXT {
        small_integer_term(b)
    } else if tag == ATOM_EXT {
        atom_term(b)
    } else if tag == SMALL_ATOM_EXT {
        small_atom_term(b)
    } else if tag == SMALL_TUPLE_EXT {
        small_tuple_term(b)
    } else if tag == LARGE_TUPLE_EXT {
        large_tuple_term(b)
    } else if tag == BINARY_EXT {
        binary_term(b)
    } else if tag == FLOAT_EXT {
        float_term(b)
    } else if tag == SMALL_ATOM_UTF8_EXT {
        small_atom_utf8_term(b)
    } else if tag == ATOM_UTF8_EXT {
        atom_utf8_term(b)
    } else if tag == REFERENCE_EXT {
        reference_term(b)
    } else if tag == PORT_EXT {
        port_term(b)
    } else if tag == ATOM_CACHE_REF {
        atom_cache_term(b)
    } else if tag == PID_EXT {
        pid_term(b)
    } else if tag == MAP_EXT {
        map_term(b)
    } else if tag == FUN_EXT {
        fun_term(b)
    } else if tag == SMALL_BIG_EXT {
        small_big_term(b)
    } else if tag == LARGE_BIG_EXT {
        large_big_term(b)
    } else if tag == NEW_REFERENCE_EXT {
        new_reference_term(b)
    } else if tag == EXPORT_EXT {
        export_term(b)
    } else if tag == BIT_BINARY_EXT {
        bit_binary_term(b)
    } else if tag == NEW_FLOAT_EXT {
        new_float_term(b)
    } else if tag == NEW_FUN_EXT {
        new_fun_term(b)
    } else if tag == NIL_EXT {
        Decoded::Done { ops: Seq::empty(), rest: b }
    } else {
        failed(ErrorCode::NotImplemented, b)
    }
}

/// A term whose tag must be one of `filter`.
pub open spec fn filtered(filter: Seq<u8>, b: Seq<u8>) -> Decoded {
    if b.len() < 1 {
        short()
    } else if !filter.contains(b[0]) {
        failed(ErrorCode::NotErlangBinary, b.skip(1))
    } else {
        term(b[0], b.skip(1))
    }
}

/// A whole document: the version marker, then one term. What follows the term
/// is not looked at.
pub open spec fn document(b: Seq<u8>) -> Decoded {
    if b.len() < 1 {
        short()
    } else if b[0] != VERSION_MARKER {
        failed(ErrorCode::NotErlangBinary, b.skip(1))
    } else {
        any(b.skip(1))
    }
}

} // verus!
