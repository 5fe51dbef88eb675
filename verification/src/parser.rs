//! The decoder: it reads one term from a byte source and tells a sink how to
//! render it.

use crate::buf_read_streamer::BufReadStreamer;
use crate::consumption::{
    lemma_any_consumes, lemma_atom_only_consumes, lemma_integer_only_consumes,
    lemma_new_fun_head_consumes, lemma_terms_within,
};
use crate::default_composer::{lemma_framed_alike, DefaultComposer};
use crate::elem_compose::{group_run, lemma_run_appends, run, ElemCompose, SinkOp};
use crate::grammar::{
    any, atom_cache_term, atom_only, atom_term, atom_utf8_term, binary_term, bit_binary_term, ch,
    document, element, export_term, filtered, float_term, fun_term, fun_text, integer_only,
    integer_term, joined, large_big_term, large_tuple_term, legacy_atom, list_term, listed,
    map_term, new_float_term, new_fun_free, new_fun_head, new_fun_term, new_fun_text,
    new_reference_term, new_reference_text, node_term, pair_term, paired, pid_only, pid_term,
    port_term, pushed_chars, reference_term, separated_chars, small_atom_term, small_atom_utf8_term,
    small_big_term, small_integer_only, small_integer_term, small_tuple_term, string_term, term,
    terms, utf8_atom, Decoded, DecodedRow,
};
use crate::parse_result::{bare, fails_with, ErrorCode, ParseError, ParseResult};
use crate::raw_string_composer::RawStringComposer;
use crate::read_stream::{be_u16, be_u32, read_failed, took, ReadStream};
use crate::render::{
    base64_encode, base64_fits, big_decimal, decimal, float_decimal, hex_encode, hex_text,
};
use crate::skip_composer::SkipComposer;
use crate::steps::{
    after_items, lemma_after_nothing, lemma_filter_integer, lemma_filter_pid,
    lemma_filter_small_integer, lemma_paired_step, lemma_row_end, lemma_row_pair, lemma_row_step,
};
use crate::string_composer::framed_text;
use crate::tags::{
    is_atom_tag, ATOM_CACHE_REF, ATOM_EXT, ATOM_UTF8_EXT, BINARY_EXT, BIT_BINARY_EXT, EXPORT_EXT,
    FLOAT_EXT, FUN_EXT, INTEGER_EXT, LARGE_BIG_EXT, LARGE_TUPLE_EXT, LIST_EXT, MAP_EXT,
    NEW_FLOAT_EXT, NEW_FUN_EXT, NEW_REFERENCE_EXT, NIL_EXT, PID_EXT, PORT_EXT, REFERENCE_EXT,
    SMALL_ATOM_EXT, SMALL_ATOM_UTF8_EXT, SMALL_BIG_EXT, SMALL_INTEGER_EXT, SMALL_TUPLE_EXT,
    STRING_EXT, VERSION_MARKER,
};
use vstd::prelude::*;
use vstd::string::StringExecFns;

verus! {

broadcast use group_run;

/// A call that failed with this code and left the source where `stopped`
/// says, if it says where.
pub open spec fn failure<T>(
    r: Result<T, ParseError>,
    code: ErrorCode,
    stopped: Option<Seq<u8>>,
    left: Seq<u8>,
) -> bool {
    &&& r matches Err(e) && fails_with(e, code)
    &&& stopped matches Some(there) ==> left == there
}

/// What it means for a run of the decoder to agree with `expected`: where a
/// term is decoded, the call succeeds, the source is left at `rest` and the
/// sink has been given `ops`; where decoding fails, the call fails with that
/// code, and the source is left where the failure says, if it says where.
/// `left` is what the source has left after the call.
pub open spec fn decodes<C: ElemCompose>(
    expected: Decoded,
    r: ParseResult,
    left: Seq<u8>,
    before: Seq<char>,
    after: Seq<char>,
) -> bool {
    match expected {
        Decoded::Done { ops, rest } => r is Ok && left == rest && after == run::<C>(before, ops),
        Decoded::Failed { code, left: stopped } => failure(r, code, stopped, left),
    }
}

/// Decodes one document: the version marker, then one term, which is rendered
/// into the sink. What follows the term in the source is not read. Where the
/// first byte is not the version marker, the call fails over that byte alone
/// and leaves the sink as it was.
pub fn parse<S: ReadStream, C: ElemCompose>(s: &mut S, c: &mut C) -> (r: ParseResult)
    ensures
        decodes::<C>(
            document(old(s).remaining()),
            r,
            final(s).remaining(),
            old(c).text(),
            final(c).text(),
        ),
        old(s).remaining().len() >= 1 && old(s).remaining()[0] != VERSION_MARKER ==> {
            &&& r matches Err(e) && e == bare(ErrorCode::NotErlangBinary)
            &&& final(s).remaining() == old(s).remaining().skip(1)
            &&& final(c).text() == old(c).text()
        },
{
    if s.read_u8()? == VERSION_MARKER {
        parse_any(s, c)
    } else {
        Err(ParseError::not_erlang_binary())
    }
}

/// What a document comes to: its rendering by the rendering sink, or the kind
/// of its failure.
pub open spec fn rendering(b: Seq<u8>) -> Result<Seq<char>, ErrorCode> {
    match document(b) {
        Decoded::Done { ops, rest } => Ok(framed_text(ops)),
        Decoded::Failed { code, left } => Err(code),
    }
}

/// Decodes the document held in `bytes` and gives its rendering, or the
/// failure; never both, and never a part of a rendering.
pub fn start_parsing(bytes: &[u8]) -> (r: Result<String, ParseError>)
    ensures
        match r {
            Ok(text) => rendering(bytes@) == Ok::<Seq<char>, ErrorCode>(text@),
            Err(e) => rendering(bytes@) == Err::<Seq<char>, ErrorCode>(e.error_code),
        },
{
    let mut stream = BufReadStreamer::new(bytes);
    let mut composer = DefaultComposer::new();
    match parse(&mut stream, &mut composer) {
        Ok(()) => {
            proof {
                if let Decoded::Done { ops, rest } = document(bytes@) {
                    lemma_framed_alike(ops);
                }
            }
            Ok(composer.get_result())
        },
        Err(e) => Err(e),
    }
}

/// Decodes one term of any kind.
pub fn parse_any<S: ReadStream, C: ElemCompose>(s: &mut S, c: &mut C) -> (r: ParseResult)
    ensures
        decodes::<C>(
            any(old(s).remaining()),
            r,
            final(s).remaining(),
            old(c).text(),
            final(c).text(),
        ),
    decreases old(s).remaining().len(), 2nat,
{
    let ttype: u8 = s.read_u8()?;
    parse_term(ttype, s, c)
}

/// Decodes `n_skip` terms and keeps nothing of them.
pub fn parse_skip<S: ReadStream>(s: &mut S, n_skip: u32) -> (r: ParseResult)
    ensures
        match terms(old(s).remaining(), n_skip as nat) {
            DecodedRow::Done { items, rest } => r is Ok && final(s).remaining() == rest,
            DecodedRow::Failed { code, left } => failure(r, code, left, final(s).remaining()),
        },
    decreases old(s).remaining().len(), 3nat,
{
    let mut skip_comp = SkipComposer;
    let ghost b = s.remaining();
    let ghost mut done: Seq<Seq<SinkOp>> = Seq::empty();
    let mut i: u32 = 0;
    proof {
        lemma_after_nothing(terms(b, n_skip as nat));
    }
    while i < n_skip
        invariant
            b == old(s).remaining(),
            i <= n_skip,
            s.remaining().len() <= b.len(),
            terms(b, n_skip as nat) == after_items(
                done,
                terms(s.remaining(), (n_skip - i) as nat),
            ),
        decreases n_skip - i,
    {
        let ghost here = s.remaining();
        proof {
            lemma_any_consumes(here);
            lemma_row_step(done, here, (n_skip - i) as nat);
        }
        parse_any(s, &mut skip_comp)?;
        proof {
            done = done.push(any(here)->ops);
        }
        i = i + 1;
    }
    proof {
        lemma_row_end(done, s.remaining());
    }
    Ok(())
}

/// Decodes a term that must be an atom, and appends its bare content to `res`.
pub fn parse_atom_only<S: ReadStream>(s: &mut S, res: &mut String) -> (r: ParseResult)
    ensures
        decodes::<RawStringComposer>(
            atom_only(old(s).remaining()),
            r,
            final(s).remaining(),
            old(res)@,
            final(res)@,
        ),
    decreases old(s).remaining().len(), 3nat,
{
    let filter_atoms: [u8; 5] = [
        SMALL_ATOM_UTF8_EXT,
        ATOM_UTF8_EXT,
        ATOM_CACHE_REF,
        ATOM_EXT,
        SMALL_ATOM_EXT,
    ];
    proof {
        reveal(atom_only);
        let b = s.remaining();
        if b.len() >= 1 {
            let f = filter_atoms@;
            assert(f[0] == SMALL_ATOM_UTF8_EXT && f[1] == ATOM_UTF8_EXT && f[2] == ATOM_CACHE_REF
                && f[3] == ATOM_EXT && f[4] == SMALL_ATOM_EXT);
            assert(f.contains(b[0]) == is_atom_tag(b[0]));
        }
    }
    parse_filtered(filter_atoms.as_slice(), s, res)
}

/// Decodes a term that must be a one-byte integer, and appends its bare
/// content to `res`.
fn parse_small_integer_only<S: ReadStream>(s: &mut S, res: &mut String) -> (r: ParseResult)
    ensures
        decodes::<RawStringComposer>(
            small_integer_only(old(s).remaining()),
            r,
            final(s).remaining(),
            old(res)@,
            final(res)@,
        ),
    decreases old(s).remaining().len(), 3nat,
{
    let small_integers: [u8; 1] = [SMALL_INTEGER_EXT];
    proof {
        lemma_filter_small_integer(small_integers@, s.remaining());
    }
    parse_filtered(small_integers.as_slice(), s, res)
}

/// Decodes a term that must be an integer of one or of four bytes, and appends
/// its bare content to `res`.
fn parse_integer_only<S: ReadStream>(s: &mut S, res: &mut String) -> (r: ParseResult)
    ensures
        decodes::<RawStringComposer>(
            integer_only(old(s).remaining()),
            r,
            final(s).remaining(),
            old(res)@,
            final(res)@,
        ),
    decreases old(s).remaining().len(), 3nat,
{
    let integers: [u8; 2] = [INTEGER_EXT, SMALL_INTEGER_EXT];
    proof {
        lemma_filter_integer(integers@, s.remaining());
    }
    parse_filtered(integers.as_slice(), s, res)
}

/// Decodes a term that must be a process id, and appends its bare content to
/// `res`.
fn parse_pid_only<S: ReadStream>(s: &mut S, res: &mut String) -> (r: ParseResult)
    ensures
        decodes::<RawStringComposer>(
            pid_only(old(s).remaining()),
            r,
            final(s).remaining(),
            old(res)@,
            final(res)@,
        ),
    decreases old(s).remaining().len(), 3nat,
{
    let pids: [u8; 1] = [PID_EXT];
    proof {
        lemma_filter_pid(pids@, s.remaining());
    }
    parse_filtered(pids.as_slice(), s, res)
}

/// Decodes a term whose tag must be one of `filter`, and appends its bare
/// content to `res`.
pub fn parse_filtered<S: ReadStream>(filter: &[u8], s: &mut S, res: &mut String) -> (r:
    ParseResult)
    ensures
        decodes::<RawStringComposer>(
            filtered(filter@, old(s).remaining()),
            r,
            final(s).remaining(),
            old(res)@,
            final(res)@,
        ),
    decreases old(s).remaining().len(), 2nat,
{
    let term_type: u8 = s.read_u8()?;
    if contains(filter, term_type) {
        let ghost here = s.remaining();
        let mut str_comp = RawStringComposer::new();
        let r = parse_term(term_type, s, &mut str_comp);
        res.append(str_comp.as_str());
        proof {
            if let Decoded::Done { ops, rest } = term(term_type, here) {
                lemma_run_appends::<RawStringComposer>(old(res)@, ops);
            }
        }
        r
    } else {
        Err(ParseError::not_erlang_binary())
    }
}

/// Whether `tag` is one of `filter`.
fn contains(filter: &[u8], tag: u8) -> (r: bool)
    ensures
        r == filter@.contains(tag),
{
    let mut i: usize = 0;
    while i < filter.len()
        invariant
            i <= filter@.len(),
            forall|j: int| 0 <= j < i ==> filter@[j] != tag,
        decreases filter@.len() - i,
    {
        if filter[i] == tag {
            return true;
        }
        i = i + 1;
    }
    false
}

/// Decodes the term with the given tag, which has been read already.
pub fn parse_term<S: ReadStream, C: ElemCompose>(ttype: u8, s: &mut S, c: &mut C) -> (r:
    ParseResult)
    ensures
        decodes::<C>(
            term(ttype, old(s).remaining()),
            r,
            final(s).remaining(),
            old(c).text(),
            final(c).text(),
        ),
    decreases old(s).remaining().len(), 7nat,
{
    match ttype {
        LIST_EXT => list_ext(s, c),
        STRING_EXT => string_ext(s, c),
        INTEGER_EXT => integer_ext(s, c),
        SMALL_INTEGER_EXT => small_integer_ext(s, c),
        ATOM_EXT => atom_ext(s, c),
        SMALL_ATOM_EXT => small_atom_ext(s, c),
        SMALL_TUPLE_EXT => small_tuple_ext(s, c),
        LARGE_TUPLE_EXT => large_tuple_ext(s, c),
        BINARY_EXT => binary_ext(s, c),
        FLOAT_EXT => float_ext(s, c),
        SMALL_ATOM_UTF8_EXT => small_atom_utf8_ext(s, c),
        ATOM_UTF8_EXT => atom_utf8_ext(s, c),
        REFERENCE_EXT => reference_ext(s, c),
        PORT_EXT => port_ext(s, c),
        ATOM_CACHE_REF => atom_cache_ref(s, c),
        PID_EXT => pid_ext(s, c),
        MAP_EXT => map_ext(s, c),
        FUN_EXT => fun_ext(s, c),
        SMALL_BIG_EXT => small_big_ext(s, c),
        LARGE_BIG_EXT => large_big_ext(s, c),
        NEW_REFERENCE_EXT => new_reference_ext(s, c),
        EXPORT_EXT => export_ext(s, c),
        BIT_BINARY_EXT => bit_binary_ext(s, c),
        NEW_FLOAT_EXT => new_float_ext(s, c),
        NEW_FUN_EXT => new_fun_ext(s, c),
        NIL_EXT => Ok(()),
        _ => Err(ParseError::not_implemented()),
    }
}

/// Decodes `n` terms into the sink, in brackets and separated by commas.
pub fn create_list<S: ReadStream, C: ElemCompose>(n: u32, s: &mut S, c: &mut C) -> (r:
    ParseResult)
    ensures
        match terms(old(s).remaining(), n as nat) {
            DecodedRow::Done { items, rest } => r is Ok && final(s).remaining() == rest
                && final(c).text() == run::<C>(old(c).text(), listed(items)),
            DecodedRow::Failed { code, left } => failure(r, code, left, final(s).remaining()),
        },
    decreases old(s).remaining().len(), 3nat,
{
    let ghost b = s.remaining();
    c.push_char('[');
    let ghost t1 = c.text();
    let ghost mut done: Seq<Seq<SinkOp>> = Seq::empty();
    let mut i: u32 = 0;
    proof {
        lemma_after_nothing(terms(b, n as nat));
    }
    while i < n
        invariant
            b == old(s).remaining(),
            t1 == run::<C>(old(c).text(), Seq::<SinkOp>::empty().push(ch('['))),
            i <= n,
            done.len() == i,
            s.remaining().len() <= b.len(),
            terms(b, n as nat) == after_items(done, terms(s.remaining(), (n - i) as nat)),
            c.text() == run::<C>(t1, joined(done, n as int)),
        decreases n - i,
    {
        let ghost here = s.remaining();
        proof {
            lemma_any_consumes(here);
            lemma_row_step(done, here, (n - i) as nat);
        }
        parse_any(s, c)?;
        proof {
            assert(done.push(any(here)->ops).drop_last() =~= done);
            done = done.push(any(here)->ops);
        }
        if i + 1 < n {
            c.push_char(',');
        }
        i = i + 1;
    }
    proof {
        lemma_row_end(done, s.remaining());
    }
    c.push_char(']');
    Ok(())
}

/// Decodes a list, whose tag has been read: the arity, the items, and the nil
/// that must follow them.
pub fn list_ext<S: ReadStream, C: ElemCompose>(s: &mut S, c: &mut C) -> (r: ParseResult)
    ensures
        decodes::<C>(
            list_term(old(s).remaining()),
            r,
            final(s).remaining(),
            old(c).text(),
            final(c).text(),
        ),
    decreases old(s).remaining().len(), 4nat,
{
    c.open("list");
    let l: u32 = s.read_u32()?;
    proof {
        lemma_terms_within(s.remaining(), l as nat);
    }
    create_list(l, s, c)?;
    if s.read_u8()? == NIL_EXT {
        c.close();
        Ok(())
    } else {
        Err(ParseError::invalid_list_item())
    }
}

/// Decodes a four-byte signed integer, whose tag has been read.
pub fn integer_ext<S: ReadStream, C: ElemCompose>(s: &mut S, c: &mut C) -> (r: ParseResult)
    ensures
        decodes::<C>(
            integer_term(old(s).remaining()),
            r,
            final(s).remaining(),
            old(c).text(),
            final(c).text(),
        ),
{
    c.open("int");
    let v: i32 = s.read_i32()?;
    c.push_str(decimal(v as i64).as_str());
    c.close();
    Ok(())
}

/// Decodes a one-byte unsigned integer, whose tag has been read.
pub fn small_integer_ext<S: ReadStream, C: ElemCompose>(s: &mut S, c: &mut C) -> (r: ParseResult)
    ensures
        decodes::<C>(
            small_integer_term(old(s).remaining()),
            r,
            final(s).remaining(),
            old(c).text(),
            final(c).text(),
        ),
{
    c.open("int");
    let v: u8 = s.read_u8()?;
    c.push_str(decimal(v as i64).as_str());
    c.close();
    Ok(())
}

/// Decodes a string, whose tag has been read: a row of character codes.
pub fn string_ext<S: ReadStream, C: ElemCompose>(s: &mut S, c: &mut C) -> (r: ParseResult)
    ensures
        decodes::<C>(
            string_term(old(s).remaining()),
            r,
            final(s).remaining(),
            old(c).text(),
            final(c).text(),
        ),
{
    c.open("str");
    let l: u16 = s.read_u16()?;
    c.push_char('[');
    let ghost b = s.remaining();
    let ghost t1 = c.text();
    let mut i: u16 = 0;
    while i < l
        invariant
            old(s).remaining().len() >= 2,
            b == old(s).remaining().skip(2),
            l == be_u16(old(s).remaining()),
            i <= l,
            i <= b.len(),
            s.remaining() == b.skip(i as int),
            c.text() == run::<C>(t1, separated_chars(b.take(i as int), l as int)),
        decreases l - i,
    {
        let x: u8 = s.read_u8()?;
        proof {
            assert(b.skip(i as int).skip(1) =~= b.skip(i + 1));
            assert(b.take(i + 1).drop_last() =~= b.take(i as int));
        }
        c.push_char(x as char);
        if i + 1 < l {
            c.push_char(',');
        }
        i = i + 1;
    }
    c.push_char(']');
    c.close();
    Ok(())
}

/// Decodes a legacy atom with a two-byte length, whose tag has been read.
pub fn atom_ext<S: ReadStream, C: ElemCompose>(s: &mut S, c: &mut C) -> (r: ParseResult)
    ensures
        decodes::<C>(
            atom_term(old(s).remaining()),
            r,
            final(s).remaining(),
            old(c).text(),
            final(c).text(),
        ),
{
    let n: u16 = s.read_u16()?;
    deprecated_atom(n, s, c)
}

/// Decodes a legacy atom with a one-byte length, whose tag has been read.
pub fn small_atom_ext<S: ReadStream, C: ElemCompose>(s: &mut S, c: &mut C) -> (r: ParseResult)
    ensures
        decodes::<C>(
            small_atom_term(old(s).remaining()),
            r,
            final(s).remaining(),
            old(c).text(),
            final(c).text(),
        ),
{
    let n: u8 = s.read_u8()?;
    deprecated_atom(n as u16, s, c)
}

/// Decodes the `n` bytes of a legacy atom: every byte is one character.
pub fn deprecated_atom<S: ReadStream, C: ElemCompose>(n: u16, s: &mut S, c: &mut C) -> (r:
    ParseResult)
    ensures
        decodes::<C>(
            legacy_atom(n as int, old(s).remaining()),
            r,
            final(s).remaining(),
            old(c).text(),
            final(c).text(),
        ),
{
    c.open("atom");
    c.push_char('"');
    push_bytes(n as usize, s, c)?;
    c.push_char('"');
    c.close();
    Ok(())
}

/// Reads `n` bytes and hands each to the sink as the character with that code.
fn push_bytes<S: ReadStream, C: ElemCompose>(n: usize, s: &mut S, c: &mut C) -> (r: ParseResult)
    ensures
        took(old(s).remaining(), n as nat, r is Ok, final(s).remaining()),
        r is Ok ==> final(c).text() == run::<C>(
            old(c).text(),
            pushed_chars(old(s).remaining().take(n as int)),
        ),
        read_failed(r),
{
    let ghost b = s.remaining();
    let ghost t0 = c.text();
    let mut i: usize = 0;
    while i < n
        invariant
            b == old(s).remaining(),
            i <= n,
            i <= b.len(),
            s.remaining() == b.skip(i as int),
            c.text() == run::<C>(t0, pushed_chars(b.take(i as int))),
        decreases n - i,
    {
        let x: u8 = s.read_u8()?;
        proof {
            assert(b.skip(i as int).skip(1) =~= b.skip(i + 1));
            assert(b.take(i + 1).drop_last() =~= b.take(i as int));
        }
        c.push_char(x as char);
        i = i + 1;
    }
    Ok(())
}

/// Decodes a tuple with a one-byte arity, whose tag has been read.
pub fn small_tuple_ext<S: ReadStream, C: ElemCompose>(s: &mut S, c: &mut C) -> (r: ParseResult)
    ensures
        decodes::<C>(
            small_tuple_term(old(s).remaining()),
            r,
            final(s).remaining(),
            old(c).text(),
            final(c).text(),
        ),
    decreases old(s).remaining().len(), 4nat,
{
    let n: u8 = s.read_u8()?;
    tuple(n as u32, s, c)
}

/// Decodes a tuple with a four-byte arity, whose tag has been read.
pub fn large_tuple_ext<S: ReadStream, C: ElemCompose>(s: &mut S, c: &mut C) -> (r: ParseResult)
    ensures
        decodes::<C>(
            large_tuple_term(old(s).remaining()),
            r,
            final(s).remaining(),
            old(c).text(),
            final(c).text(),
        ),
    decreases old(s).remaining().len(), 4nat,
{
    let n: u32 = s.read_u32()?;
    tuple(n, s, c)
}

/// Decodes the `n` terms of a tuple.
pub fn tuple<S: ReadStream, C: ElemCompose>(n: u32, s: &mut S, c: &mut C) -> (r: ParseResult)
    ensures
        decodes::<C>(
            crate::grammar::tuple(n as nat, old(s).remaining()),
            r,
            final(s).remaining(),
            old(c).text(),
            final(c).text(),
        ),
    decreases old(s).remaining().len(), 4nat,
{
    c.open("tuple");
    create_list(n, s, c)?;
    c.close();
    Ok(())
}

/// Decodes a legacy float, whose tag has been read: thirty-one bytes of decimal
/// text, passed on as they are.
pub fn float_ext<S: ReadStream, C: ElemCompose>(s: &mut S, c: &mut C) -> (r: ParseResult)
    ensures
        decodes::<C>(
            float_term(old(s).remaining()),
            r,
            final(s).remaining(),
            old(c).text(),
            final(c).text(),
        ),
{
    c.open("float");
    push_bytes(31, s, c)?;
    c.close();
    Ok(())
}

/// Decodes a binary, whose tag has been read, and shows its bytes in base64.
pub fn binary_ext<S: ReadStream, C: ElemCompose>(s: &mut S, c: &mut C) -> (r: ParseResult)
    ensures
        decodes::<C>(
            binary_term(old(s).remaining()),
            r,
            final(s).remaining(),
            old(c).text(),
            final(c).text(),
        ),
{
    c.open("binary");
    let len: u32 = s.read_u32()?;
    if !base64_has_room(len) {
        return Err(ParseError::read_error());
    }
    let v: Vec<u8> = read_bytes(s, len as usize)?;
    c.push_char('"');
    c.push_str(base64_encode(v.as_slice()).as_str());
    c.push_char('"');
    c.close();
    Ok(())
}

/// Whether the base64 text of `len` bytes has a length that a `usize` holds.
fn base64_has_room(len: u32) -> (r: bool)
    ensures
        r == base64_fits(len as int),
{
    (len as usize) / 3 <= (usize::MAX - 4) / 4
}

/// Reads `n` bytes, one at a time.
fn read_bytes<S: ReadStream>(s: &mut S, n: usize) -> (r: Result<Vec<u8>, ParseError>)
    ensures
        took(old(s).remaining(), n as nat, r is Ok, final(s).remaining()),
        r matches Ok(v) ==> v@ == old(s).remaining().take(n as int),
        read_failed(r),
{
    let ghost b = s.remaining();
    let mut v: Vec<u8> = Vec::new();
    let mut i: usize = 0;
    while i < n
        invariant
            b == old(s).remaining(),
            i <= n,
            i <= b.len(),
            s.remaining() == b.skip(i as int),
            v@ == b.take(i as int),
        decreases n - i,
    {
        let x: u8 = s.read_u8()?;
        proof {
            assert(b.skip(i as int).skip(1) =~= b.skip(i + 1));
            assert(b.take(i + 1) =~= b.take(i as int).push(b[i as int]));
        }
        v.push(x);
        i = i + 1;
    }
    Ok(v)
}

/// Decodes a UTF-8 atom with a one-byte length, whose tag has been read.
pub fn small_atom_utf8_ext<S: ReadStream, C: ElemCompose>(s: &mut S, c: &mut C) -> (r:
    ParseResult)
    ensures
        decodes::<C>(
            small_atom_utf8_term(old(s).remaining()),
            r,
            final(s).remaining(),
            old(c).text(),
            final(c).text(),
        ),
{
    let n: u8 = s.read_u8()?;
    atom_utf8(n as u16, s, c)
}

/// Decodes a UTF-8 atom with a two-byte length, whose tag has been read.
pub fn atom_utf8_ext<S: ReadStream, C: ElemCompose>(s: &mut S, c: &mut C) -> (r: ParseResult)
    ensures
        decodes::<C>(
            atom_utf8_term(old(s).remaining()),
            r,
            final(s).remaining(),
            old(c).text(),
            final(c).text(),
        ),
{
    let n: u16 = s.read_u16()?;
    atom_utf8(n, s, c)
}

/// Decodes the `len` bytes of a UTF-8 atom, which must be valid UTF-8.
pub fn atom_utf8<S: ReadStream, C: ElemCompose>(len: u16, s: &mut S, c: &mut C) -> (r:
    ParseResult)
    ensures
        decodes::<C>(
            utf8_atom(len as int, old(s).remaining()),
            r,
            final(s).remaining(),
            old(c).text(),
            final(c).text(),
        ),
{
    c.open("atom");
    let v: Vec<u8> = read_bytes(s, len as usize)?;
    c.push_char('"');
    match core::str::from_utf8(v.as_slice()) {
        Ok(name) => {
            c.push_str(name);
        },
        Err(e) => {
            return Err(ParseError::from(e));
        },
    }
    c.push_char('"');
    c.close();
    Ok(())
}

/// Decodes a reference, whose tag has been read.
pub fn reference_ext<S: ReadStream, C: ElemCompose>(s: &mut S, c: &mut C) -> (r: ParseResult)
    ensures
        decodes::<C>(
            reference_term(old(s).remaining()),
            r,
            final(s).remaining(),
            old(c).text(),
            final(c).text(),
        ),
    decreases old(s).remaining().len(), 5nat,
{
    node_ext("ref", s, c)
}

/// Decodes a port, whose tag has been read.
pub fn port_ext<S: ReadStream, C: ElemCompose>(s: &mut S, c: &mut C) -> (r: ParseResult)
    ensures
        decodes::<C>(
            port_term(old(s).remaining()),
            r,
            final(s).remaining(),
            old(c).text(),
            final(c).text(),
        ),
    decreases old(s).remaining().len(), 5nat,
{
    node_ext("port", s, c)
}

/// Decodes what a reference and a port share: a node, an id and a creation.
fn node_ext<S: ReadStream, C: ElemCompose>(kind: &str, s: &mut S, c: &mut C) -> (r: ParseResult)
    ensures
        decodes::<C>(
            node_term(kind@, old(s).remaining()),
            r,
            final(s).remaining(),
            old(c).text(),
            final(c).text(),
        ),
    decreases old(s).remaining().len(), 4nat,
{
    c.open(kind);
    let mut node: String = String::new();
    parse_atom_only(s, &mut node)?;
    let ghost rest = s.remaining();
    c.push_str("{\"node\":");
    c.push_str(node.as_str());
    c.push_str(",\"id\":");
    let id: u32 = s.read_u32()?;
    c.push_str(decimal(id as i64).as_str());
    c.push_str(",\"creation\":");
    let creation: u8 = s.read_u8()?;
    proof {
        assert(rest.skip(4).skip(1) =~= rest.skip(5));
    }
    c.push_str(decimal(creation as i64).as_str());
    c.push_char('}');
    c.close();
    Ok(())
}

/// Decodes a process id, whose tag has been read: a node, an id, a serial and a
/// creation.
pub fn pid_ext<S: ReadStream, C: ElemCompose>(s: &mut S, c: &mut C) -> (r: ParseResult)
    ensures
        decodes::<C>(
            pid_term(old(s).remaining()),
            r,
            final(s).remaining(),
            old(c).text(),
            final(c).text(),
        ),
    decreases old(s).remaining().len(), 4nat,
{
    c.open("pid");
    let mut node: String = String::new();
    parse_atom_only(s, &mut node)?;
    let ghost rest = s.remaining();
    c.push_str("{\"node\":");
    c.push_str(node.as_str());
    c.push_str(",\"id\":");
    let id: u32 = s.read_u32()?;
    c.push_str(decimal(id as i64).as_str());
    c.push_str(",\"serial\":");
    let serial: u32 = s.read_u32()?;
    c.push_str(decimal(serial as i64).as_str());
    c.push_str(",\"creation\":");
    let creation: u8 = s.read_u8()?;
    proof {
        assert(rest.skip(4).skip(4) =~= rest.skip(8));
        assert(rest.skip(8).skip(1) =~= rest.skip(9));
    }
    c.push_str(decimal(creation as i64).as_str());
    c.push_char('}');
    c.close();
    Ok(())
}

/// Decodes a reference into the atom cache, whose tag has been read.
pub fn atom_cache_ref<S: ReadStream, C: ElemCompose>(s: &mut S, c: &mut C) -> (r: ParseResult)
    ensures
        decodes::<C>(
            atom_cache_term(old(s).remaining()),
            r,
            final(s).remaining(),
            old(c).text(),
            final(c).text(),
        ),
{
    c.open("acr");
    let v: u8 = s.read_u8()?;
    c.push_str(decimal(v as i64).as_str());
    c.close();
    Ok(())
}

/// Decodes a map, whose tag has been read: the arity, then that many pairs.
pub fn map_ext<S: ReadStream, C: ElemCompose>(s: &mut S, c: &mut C) -> (r: ParseResult)
    ensures
        decodes::<C>(
            map_term(old(s).remaining()),
            r,
            final(s).remaining(),
            old(c).text(),
            final(c).text(),
        ),
    decreases old(s).remaining().len(), 4nat,
{
    c.open("map");
    let n: u32 = s.read_u32()?;
    c.push_char('[');
    let ghost b = s.remaining();
    let ghost t1 = c.text();
    let ghost mut done: Seq<Seq<SinkOp>> = Seq::empty();
    let mut i: u32 = 0;
    proof {
        lemma_after_nothing(terms(b, (2 * n) as nat));
    }
    while i < n
        invariant
            old(s).remaining().len() >= 4,
            b == old(s).remaining().skip(4),
            n == be_u32(old(s).remaining()),
            i <= n,
            done.len() == 2 * i,
            s.remaining().len() <= b.len(),
            terms(b, (2 * n) as nat) == after_items(
                done,
                terms(s.remaining(), (2 * (n - i)) as nat),
            ),
            c.text() == run::<C>(t1, paired(done, n as int)),
        decreases n - i,
    {
        let ghost here = s.remaining();
        proof {
            lemma_row_pair(done, here, (2 * (n - i) - 2) as nat);
            lemma_any_consumes(here);
            if let Decoded::Done { ops: key, rest: middle } = any(here) {
                lemma_any_consumes(middle);
                if let Decoded::Done { ops: val, rest } = any(middle) {
                    lemma_paired_step(done, key, val, n as int);
                }
            }
        }
        map_pair(s, c)?;
        proof {
            done = done.push(any(here)->ops).push(any(any(here)->rest)->ops);
        }
        if i + 1 < n {
            c.push_char(',');
        }
        i = i + 1;
    }
    proof {
        lemma_row_end(done, s.remaining());
    }
    c.push_char(']');
    c.close();
    Ok(())
}

/// Decodes one pair of a map.
fn map_pair<S: ReadStream, C: ElemCompose>(s: &mut S, c: &mut C) -> (r: ParseResult)
    ensures
        decodes::<C>(
            pair_term(old(s).remaining()),
            r,
            final(s).remaining(),
            old(c).text(),
            final(c).text(),
        ),
    decreases old(s).remaining().len(), 3nat,
{
    proof {
        lemma_any_consumes(s.remaining());
    }
    c.push_str("{\"key\":");
    parse_any(s, c)?;
    c.push_str(",\"val\":");
    parse_any(s, c)?;
    c.push_str("}");
    Ok(())
}

/// Decodes a function closure, whose tag has been read. Its free variables are
/// decoded and dropped.
pub fn fun_ext<S: ReadStream, C: ElemCompose>(s: &mut S, c: &mut C) -> (r: ParseResult)
    ensures
        decodes::<C>(
            fun_term(old(s).remaining()),
            r,
            final(s).remaining(),
            old(c).text(),
            final(c).text(),
        ),
    decreases old(s).remaining().len(), 4nat,
{
    let num_free: u32 = s.read_u32()?;
    let ghost after_count = s.remaining();
    let mut pid: String = String::new();
    parse_any(s, &mut pid)?;
    let ghost after_pid = s.remaining();
    proof {
        lemma_any_consumes(after_count);
        lemma_atom_only_consumes(after_pid);
    }
    let mut module: String = String::new();
    parse_atom_only(s, &mut module)?;
    let ghost after_module = s.remaining();
    proof {
        lemma_any_consumes(after_module);
        lemma_row_step(Seq::empty(), after_module, (num_free + 2) as nat);
        lemma_after_nothing(terms(after_module, (num_free + 2) as nat));
    }
    let mut index: String = String::new();
    parse_any(s, &mut index)?;
    let ghost after_index = s.remaining();
    let ghost first = Seq::<Seq<SinkOp>>::empty().push(any(after_module)->ops);
    proof {
        lemma_any_consumes(after_index);
        lemma_row_step(first, after_index, (num_free + 1) as nat);
    }
    let mut uniq: String = String::new();
    parse_any(s, &mut uniq)?;
    parse_skip(s, num_free)?;
    c.open("fun");
    c.push_str(fun_string(pid.as_str(), module.as_str(), index.as_str(), uniq.as_str()).as_str());
    c.close();
    Ok(())
}

/// Puts the text of a function closure together.
fn fun_string(pid: &str, module: &str, index: &str, uniq: &str) -> (text: String)
    ensures
        text@ == fun_text(pid@, module@, index@, uniq@),
{
    let mut text: String = "{\"pid\":".to_owned();
    text.append(pid);
    text.append(",\"m\":");
    text.append(module);
    text.append(",\"index\":");
    text.append(index);
    text.append(",\"uniq\":");
    text.append(uniq);
    text.append("}");
    text
}

/// Decodes an integer of any size with a one-byte digit count, whose tag has
/// been read.
pub fn small_big_ext<S: ReadStream, C: ElemCompose>(s: &mut S, c: &mut C) -> (r: ParseResult)
    ensures
        decodes::<C>(
            small_big_term(old(s).remaining()),
            r,
            final(s).remaining(),
            old(c).text(),
            final(c).text(),
        ),
{
    let n: u8 = s.read_u8()?;
    big(n as usize, s, c)
}

/// Decodes an integer of any size with a four-byte digit count, whose tag has
/// been read.
pub fn large_big_ext<S: ReadStream, C: ElemCompose>(s: &mut S, c: &mut C) -> (r: ParseResult)
    ensures
        decodes::<C>(
            large_big_term(old(s).remaining()),
            r,
            final(s).remaining(),
            old(c).text(),
            final(c).text(),
        ),
{
    let n: u32 = s.read_u32()?;
    big(n as usize, s, c)
}

/// Decodes the sign and the `n` magnitude bytes of an integer of any size, and
/// writes it out exactly.
pub fn big<S: ReadStream, C: ElemCompose>(n: usize, s: &mut S, c: &mut C) -> (r: ParseResult)
    ensures
        decodes::<C>(
            crate::grammar::big(n as int, old(s).remaining()),
            r,
            final(s).remaining(),
            old(c).text(),
            final(c).text(),
        ),
{
    let ghost b = s.remaining();
    c.open("bigint");
    let sign: u8 = s.read_u8()?;
    let digits: Vec<u8> = read_bytes(s, n)?;
    proof {
        assert(b.skip(1).take(n as int) =~= b.subrange(1, 1 + n));
        assert(b.skip(1).skip(n as int) =~= b.skip(1 + n));
    }
    c.push_str(big_decimal(sign > 0, digits.as_slice()).as_str());
    c.close();
    Ok(())
}

/// Decodes a new-style reference, whose tag has been read. Its id words are
/// read and dropped.
pub fn new_reference_ext<S: ReadStream, C: ElemCompose>(s: &mut S, c: &mut C) -> (r: ParseResult)
    ensures
        decodes::<C>(
            new_reference_term(old(s).remaining()),
            r,
            final(s).remaining(),
            old(c).text(),
            final(c).text(),
        ),
    decreases old(s).remaining().len(), 4nat,
{
    let len: u16 = s.read_u16()?;
    let mut node: String = String::new();
    parse_atom_only(s, &mut node)?;
    let ghost rest = s.remaining();
    let creation: u8 = s.read_u8()?;
    let mut i: u16 = 0;
    while i < len
        invariant
            old(s).remaining().len() >= 2,
            len == be_u16(old(s).remaining()),
            atom_only(old(s).remaining().skip(2)) matches Decoded::Done { rest: r, .. } && r
                == rest,
            i <= len,
            1 + 4 * i <= rest.len(),
            s.remaining() == rest.skip(1 + 4 * i),
        decreases len - i,
    {
        s.read_u32()?;
        proof {
            assert(rest.skip(1 + 4 * i).skip(4) =~= rest.skip(1 + 4 * (i + 1)));
        }
        i = i + 1;
    }
    c.open("newref");
    c.push_str(new_reference_string(node.as_str(), decimal(creation as i64).as_str()).as_str());
    c.close();
    Ok(())
}

/// Puts the text of a new-style reference together.
fn new_reference_string(node: &str, creation: &str) -> (text: String)
    ensures
        text@ == new_reference_text(node@, creation@),
{
    let mut text: String = "{\"node\":".to_owned();
    text.append(node);
    text.append(",\"creation\":");
    text.append(creation);
    text.append("}");
    text
}

/// Decodes a bit-binary, whose tag has been read, and shows its bytes in base64
/// beside the count of bits used in the last of them.
pub fn bit_binary_ext<S: ReadStream, C: ElemCompose>(s: &mut S, c: &mut C) -> (r: ParseResult)
    ensures
        decodes::<C>(
            bit_binary_term(old(s).remaining()),
            r,
            final(s).remaining(),
            old(c).text(),
            final(c).text(),
        ),
{
    let ghost b = s.remaining();
    c.open("bitstr");
    let len: u32 = s.read_u32()?;
    let bits: u8 = s.read_u8()?;
    proof {
        assert(b.skip(4).skip(1) =~= b.skip(5));
    }
    if !base64_has_room(len) {
        return Err(ParseError::read_error());
    }
    let v: Vec<u8> = read_bytes(s, len as usize)?;
    c.push_str("{\"bits\":");
    c.push_str(decimal(bits as i64).as_str());
    c.push_str(",\"data\":\"");
    c.push_str(base64_encode(v.as_slice()).as_str());
    c.push_str("\"}");
    c.close();
    Ok(())
}

/// Decodes an exported function, whose tag has been read: a module, a function
/// and an arity.
pub fn export_ext<S: ReadStream, C: ElemCompose>(s: &mut S, c: &mut C) -> (r: ParseResult)
    ensures
        decodes::<C>(
            export_term(old(s).remaining()),
            r,
            final(s).remaining(),
            old(c).text(),
            final(c).text(),
        ),
    decreases old(s).remaining().len(), 4nat,
{
    let ghost b = s.remaining();
    c.open("expfun");
    let mut module: String = String::new();
    parse_atom_only(s, &mut module)?;
    proof {
        lemma_atom_only_consumes(b);
    }
    let ghost after_module = s.remaining();
    let mut func: String = String::new();
    parse_atom_only(s, &mut func)?;
    proof {
        lemma_atom_only_consumes(after_module);
    }
    let mut arity: String = String::new();
    parse_small_integer_only(s, &mut arity)?;
    c.push_str("{\"m\":");
    c.push_str(module.as_str());
    c.push_str(",\"f\":");
    c.push_str(func.as_str());
    c.push_str(",\"a\":");
    c.push_str(arity.as_str());
    c.push_char('}');
    c.close();
    Ok(())
}

/// Decodes a double, whose tag has been read, from its eight bytes.
pub fn new_float_ext<S: ReadStream, C: ElemCompose>(s: &mut S, c: &mut C) -> (r: ParseResult)
    ensures
        decodes::<C>(
            new_float_term(old(s).remaining()),
            r,
            final(s).remaining(),
            old(c).text(),
            final(c).text(),
        ),
{
    c.open("float");
    let mut ieee_float: [u8; 8] = [0;8];
    s.read_exact(&mut ieee_float)?;
    c.push_str(float_decimal(&ieee_float).as_str());
    c.close();
    Ok(())
}

/// Decodes a new-style function closure, whose tag has been read. Its free
/// variables are decoded and dropped.
pub fn new_fun_ext<S: ReadStream, C: ElemCompose>(s: &mut S, c: &mut C) -> (r: ParseResult)
    ensures
        decodes::<C>(
            new_fun_term(old(s).remaining()),
            r,
            final(s).remaining(),
            old(c).text(),
            final(c).text(),
        ),
    decreases old(s).remaining().len(), 6nat,
{
    proof {
        lemma_new_fun_head_consumes(s.remaining());
    }
    c.open("newfun");
    let (text, num_free) = new_fun_front(s)?;
    parse_skip(s, num_free)?;
    c.push_str(text.as_str());
    c.close();
    Ok(())
}

/// Decodes a new-style function closure up to its free variables and gives
/// its text and the count of free variables.
fn new_fun_front<S: ReadStream>(s: &mut S) -> (r: Result<(String, u32), ParseError>)
    ensures
        match new_fun_head(old(s).remaining()) {
            Decoded::Done { ops, rest } => r matches Ok(front) && final(s).remaining() == rest
                && ops == element("newfun"@, front.0@) && front.1 == new_fun_free(
                old(s).remaining(),
            ),
            Decoded::Failed { code, left } => failure(r, code, left, final(s).remaining()),
        },
    decreases old(s).remaining().len(), 5nat,
{
    let (arity, uniq_hex, index, num_free) = new_fun_fields(s)?;
    let text: String = new_fun_named(
        decimal(arity as i64).as_str(),
        uniq_hex.as_str(),
        decimal(index as i64).as_str(),
        s,
    )?;
    Ok((text, num_free))
}

/// Decodes the terms of fixed kind in a new-style function closure and gives
/// the closure's text.
fn new_fun_named<S: ReadStream>(arity: &str, uniq: &str, index: &str, s: &mut S) -> (r: Result<
    String,
    ParseError,
>)
    ensures
        match crate::grammar::new_fun_named(arity@, uniq@, index@, old(s).remaining()) {
            Decoded::Done { ops, rest } => r matches Ok(text) && final(s).remaining() == rest
                && ops == element("newfun"@, text@),
            Decoded::Failed { code, left } => failure(r, code, left, final(s).remaining()),
        },
    decreases old(s).remaining().len(), 4nat,
{
    let ghost b = s.remaining();
    let mut module: String = String::new();
    parse_atom_only(s, &mut module)?;
    let ghost after_module = s.remaining();
    proof {
        lemma_atom_only_consumes(b);
        lemma_integer_only_consumes(after_module);
    }
    let mut old_index: String = String::new();
    parse_integer_only(s, &mut old_index)?;
    let ghost after_index = s.remaining();
    proof {
        lemma_integer_only_consumes(after_index);
    }
    let mut old_uniq: String = String::new();
    parse_integer_only(s, &mut old_uniq)?;
    let mut pid: String = String::new();
    parse_pid_only(s, &mut pid)?;
    Ok(
        new_fun_string(
            module.as_str(),
            arity,
            uniq,
            index,
            old_uniq.as_str(),
            old_index.as_str(),
            pid.as_str(),
        ),
    )
}

/// Reads the fixed fields at the front of a new-style function closure: the
/// arity, the uniq in hexadecimal, the index and the count of free variables.
fn new_fun_fields<S: ReadStream>(s: &mut S) -> (r: Result<(u8, String, u32, u32), ParseError>)
    ensures
        took(old(s).remaining(), 29, r is Ok, final(s).remaining()),
        r matches Ok(fields) ==> {
            &&& fields.0 == old(s).remaining()[4]
            &&& fields.1@ == hex_text(old(s).remaining().subrange(5, 21))
            &&& fields.2 == be_u32(old(s).remaining().skip(21))
            &&& fields.3 == be_u32(old(s).remaining().skip(25))
        },
        read_failed(r),
{
    let ghost b = s.remaining();
    let _size: u32 = s.read_u32()?;
    let arity: u8 = s.read_u8()?;
    let mut uniq: [u8; 16] = [0;16];
    s.read_exact(&mut uniq)?;
    let uniq_hex: String = hex_encode(&uniq);
    let index: u32 = s.read_u32()?;
    let num_free: u32 = s.read_u32()?;
    proof {
        assert(b.skip(4).skip(1) =~= b.skip(5));
        assert(b.skip(5).take(16) =~= b.subrange(5, 21));
        assert(b.skip(5).skip(16) =~= b.skip(21));
        assert(b.skip(21).skip(4) =~= b.skip(25));
        assert(b.skip(25).skip(4) =~= b.skip(29));
    }
    Ok((arity, uniq_hex, index, num_free))
}

/// Puts the text of a new-style function closure together.
fn new_fun_string(
    module: &str,
    arity: &str,
    uniq: &str,
    index: &str,
    old_uniq: &str,
    old_index: &str,
    pid: &str,
) -> (text: String)
    ensures
        text@ == new_fun_text(module@, arity@, uniq@, index@, old_uniq@, old_index@, pid@),
{
    let mut text: String = "{\"m\":".to_owned();
    text.append(module);
    text.append(",\"a\":");
    text.append(arity);
    text.append(",\"uniq\":\"");
    text.append(uniq);
    text.append("\",\"index\":");
    text.append(index);
    text.append(",\"old_uniq\":");
    text.append(old_uniq);
    text.append(",\"old_index\":");
    text.append(old_index);
    text.append(",\"pid\":");
    text.append(pid);
    text.append("}");
    text
}

} // verus!
