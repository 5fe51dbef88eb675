//! Decoding only ever moves forward: what a term leaves is shorter than what
//! it found.

use crate::grammar::{
    any, atom_by_tag, atom_cache_term, atom_only, atom_term, atom_utf8_term, binary_term,
    bit_binary_term, export_term, float_term, integer_only, integer_term, large_big_term,
    new_float_term, new_fun_free, new_fun_head, new_fun_named, new_reference_term, node_term,
    pid_only, pid_term, small_atom_term, small_atom_utf8_term, small_big_term, small_integer_only,
    small_integer_term, string_term, term, terms, Decoded, DecodedRow,
};
use crate::read_stream::be_u32;
use crate::render::{decimal_text, hex_text};
use crate::tags::{
    is_atom_tag, ATOM_CACHE_REF, ATOM_EXT, ATOM_UTF8_EXT, BINARY_EXT, BIT_BINARY_EXT, EXPORT_EXT,
    FLOAT_EXT, FUN_EXT, INTEGER_EXT, LARGE_BIG_EXT, LARGE_TUPLE_EXT, LIST_EXT, MAP_EXT,
    NEW_FLOAT_EXT, NEW_FUN_EXT, NEW_REFERENCE_EXT, NIL_EXT, PID_EXT, PORT_EXT, REFERENCE_EXT,
    SMALL_ATOM_EXT, SMALL_ATOM_UTF8_EXT, SMALL_BIG_EXT, SMALL_INTEGER_EXT, SMALL_TUPLE_EXT,
    STRING_EXT,
};
use vstd::prelude::*;

verus! {

/// A decoded term leaves at most the bytes that it found.
pub open spec fn within(d: Decoded, b: Seq<u8>) -> bool {
    d matches Decoded::Done { rest, .. } ==> rest.len() <= b.len()
}

/// A decoded term leaves fewer bytes than it found.
pub open spec fn consumes(d: Decoded, b: Seq<u8>) -> bool {
    d matches Decoded::Done { rest, .. } ==> rest.len() < b.len()
}

proof fn lemma_atom_by_tag_within(tag: u8, b: Seq<u8>)
    requires
        is_atom_tag(tag),
    ensures
        within(atom_by_tag(tag, b), b),
{
}

/// A term that must be an atom leaves fewer bytes than it found.
pub proof fn lemma_atom_only_consumes(b: Seq<u8>)
    ensures
        consumes(atom_only(b), b),
{
    reveal(atom_only);
    if b.len() >= 1 && is_atom_tag(b[0]) {
        lemma_atom_by_tag_within(b[0], b.skip(1));
    }
}

proof fn lemma_small_integer_only_consumes(b: Seq<u8>)
    ensures
        consumes(small_integer_only(b), b),
{
    reveal(small_integer_only);
}

/// A term that must be an integer leaves fewer bytes than it found.
pub proof fn lemma_integer_only_consumes(b: Seq<u8>)
    ensures
        consumes(integer_only(b), b),
{
    reveal(integer_only);
}

proof fn lemma_node_term_consumes(kind: Seq<char>, b: Seq<u8>)
    ensures
        consumes(node_term(kind, b), b),
{
    lemma_atom_only_consumes(b);
}

proof fn lemma_pid_term_consumes(b: Seq<u8>)
    ensures
        consumes(pid_term(b), b),
{
    lemma_atom_only_consumes(b);
}

proof fn lemma_pid_only_consumes(b: Seq<u8>)
    ensures
        consumes(pid_only(b), b),
{
    reveal(pid_only);
    if b.len() >= 1 {
        lemma_pid_term_consumes(b.skip(1));
    }
}

proof fn lemma_new_reference_term_consumes(b: Seq<u8>)
    ensures
        consumes(new_reference_term(b), b),
{
    if b.len() >= 2 {
        lemma_atom_only_consumes(b.skip(2));
    }
}

proof fn lemma_export_term_consumes(b: Seq<u8>)
    ensures
        consumes(export_term(b), b),
{
    lemma_atom_only_consumes(b);
    if let Decoded::Done { rest: after_module, .. } = atom_only(b) {
        lemma_atom_only_consumes(after_module);
        if let Decoded::Done { rest: after_function, .. } = atom_only(after_module) {
            lemma_small_integer_only_consumes(after_function);
        }
    }
}

proof fn lemma_new_fun_named_consumes(
    arity: Seq<char>,
    uniq: Seq<char>,
    index: Seq<char>,
    b: Seq<u8>,
)
    ensures
        consumes(new_fun_named(arity, uniq, index, b), b),
{
    lemma_atom_only_consumes(b);
    if let Decoded::Done { rest: after_module, .. } = atom_only(b) {
        lemma_integer_only_consumes(after_module);
        if let Decoded::Done { rest: after_index, .. } = integer_only(after_module) {
            lemma_integer_only_consumes(after_index);
            if let Decoded::Done { rest: after_uniq, .. } = integer_only(after_index) {
                lemma_pid_only_consumes(after_uniq);
            }
        }
    }
}

/// The head of a new-style function closure leaves fewer bytes than it found.
pub proof fn lemma_new_fun_head_consumes(b: Seq<u8>)
    ensures
        consumes(new_fun_head(b), b),
{
    if b.len() >= 29 {
        lemma_new_fun_named_consumes(
            decimal_text(b[4] as int),
            hex_text(b.subrange(5, 21)),
            decimal_text(be_u32(b.skip(21))),
            b.skip(29),
        );
    }
}

/// A term of any kind leaves fewer bytes than it found, its tag included.
pub proof fn lemma_any_consumes(b: Seq<u8>)
    ensures
        consumes(any(b), b),
    decreases b.len(), 0nat,
{
    if b.len() >= 1 {
        lemma_term_within(b[0], b.skip(1));
    }
}

/// A row of terms leaves at most what it found, and holds as many items as
/// were asked for.
pub proof fn lemma_terms_within(b: Seq<u8>, n: nat)
    ensures
        terms(b, n) matches DecodedRow::Done { items, rest } ==> rest.len() <= b.len()
            && items.len() == n,
    decreases b.len(), 1nat,
{
    if n > 0 {
        lemma_any_consumes(b);
        if let Decoded::Done { rest: after_first, .. } = any(b) {
            lemma_terms_within(after_first, (n - 1) as nat);
        }
    }
}

/// What follows a tag leaves at most the bytes that it found; only a nil
/// leaves them all.
pub proof fn lemma_term_within(tag: u8, b: Seq<u8>)
    ensures
        within(term(tag, b), b),
        tag != NIL_EXT ==> consumes(term(tag, b), b),
    decreases b.len(), 3nat,
{
    if tag == LIST_EXT {
        if b.len() >= 4 {
            lemma_terms_within(b.skip(4), be_u32(b) as nat);
        }
    } else if tag == SMALL_TUPLE_EXT {
        if b.len() >= 1 {
            lemma_terms_within(b.skip(1), b[0] as nat);
        }
    } else if tag == LARGE_TUPLE_EXT {
        if b.len() >= 4 {
            lemma_terms_within(b.skip(4), be_u32(b) as nat);
        }
    } else if tag == MAP_EXT {
        if b.len() >= 4 {
            lemma_terms_within(b.skip(4), (2 * be_u32(b)) as nat);
        }
    } else if tag == FUN_EXT {
        if b.len() >= 4 {
            lemma_any_consumes(b.skip(4));
            if let Decoded::Done { rest: after_pid, .. } = any(b.skip(4)) {
                lemma_atom_only_consumes(after_pid);
                if let Decoded::Done { rest: after_module, .. } = atom_only(after_pid) {
                    lemma_terms_within(after_module, (be_u32(b) + 2) as nat);
                }
            }
        }
    } else if tag == NEW_FUN_EXT {
        lemma_new_fun_head_consumes(b);
        if let Decoded::Done { rest: after_head, .. } = new_fun_head(b) {
            lemma_terms_within(after_head, new_fun_free(b) as nat);
        }
    } else if tag == REFERENCE_EXT {
        lemma_node_term_consumes("ref"@, b);
    } else if tag == PORT_EXT {
        lemma_node_term_consumes("port"@, b);
    } else if tag == PID_EXT {
        lemma_pid_term_consumes(b);
    } else if tag == NEW_REFERENCE_EXT {
        lemma_new_reference_term_consumes(b);
    } else if tag == EXPORT_EXT {
        lemma_export_term_consumes(b);
    } else {
        lemma_plain_term_consumes(tag, b);
    }
}

/// The terms that hold no other term leave fewer bytes than they found.
proof fn lemma_plain_term_consumes(tag: u8, b: Seq<u8>)
    ensures
        tag == STRING_EXT ==> consumes(string_term(b), b),
        tag == INTEGER_EXT ==> consumes(integer_term(b), b),
        tag == SMALL_INTEGER_EXT ==> consumes(small_integer_term(b), b),
        tag == ATOM_EXT ==> consumes(atom_term(b), b),
        tag == SMALL_ATOM_EXT ==> consumes(small_atom_term(b), b),
        tag == BINARY_EXT ==> consumes(binary_term(b), b),
        tag == FLOAT_EXT ==> consumes(float_term(b), b),
        tag == SMALL_ATOM_UTF8_EXT ==> consumes(small_atom_utf8_term(b), b),
        tag == ATOM_UTF8_EXT ==> consumes(atom_utf8_term(b), b),
        tag == ATOM_CACHE_REF ==> consumes(atom_cache_term(b), b),
        tag == SMALL_BIG_EXT ==> consumes(small_big_term(b), b),
        tag == LARGE_BIG_EXT ==> consumes(large_big_term(b), b),
        tag == BIT_BINARY_EXT ==> consumes(bit_binary_term(b), b),
        tag == NEW_FLOAT_EXT ==> consumes(new_float_term(b), b),
{
}

} // verus!
