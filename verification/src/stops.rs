//! Where the source stands after a failure: the grammar says so for every
//! failure but a failed read, and for a failed read it never does.

use crate::consumption::lemma_any_consumes;
use crate::grammar::{
    any, atom_cache_term, atom_only, atom_term, atom_utf8_term, binary_term, bit_binary_term,
    document, export_term, float_term, integer_only, integer_term, large_big_term,
    new_float_term, new_fun_head, new_fun_named, new_reference_term, node_term, pid_only,
    pid_term, small_atom_term, small_atom_utf8_term, small_big_term, small_integer_only,
    small_integer_term, string_term, term, terms, Decoded, DecodedRow,
};
use crate::parse_result::ErrorCode;
use crate::read_stream::be_u32;
use crate::tags::{
    ATOM_CACHE_REF, ATOM_EXT, ATOM_UTF8_EXT, BINARY_EXT, BIT_BINARY_EXT, EXPORT_EXT, FLOAT_EXT,
    FUN_EXT, INTEGER_EXT, LARGE_BIG_EXT, LARGE_TUPLE_EXT, LIST_EXT, MAP_EXT, NEW_FLOAT_EXT,
    NEW_FUN_EXT, NEW_REFERENCE_EXT, PID_EXT, PORT_EXT, REFERENCE_EXT, SMALL_ATOM_EXT,
    SMALL_ATOM_UTF8_EXT, SMALL_BIG_EXT, SMALL_INTEGER_EXT, SMALL_TUPLE_EXT, STRING_EXT,
};
use vstd::prelude::*;

verus! {

/// A failure leaves open where the source stands exactly when it is a failed
/// read.
pub open spec fn placed(d: Decoded) -> bool {
    d matches Decoded::Failed { code, left } ==> (left is None <==> code == ErrorCode::ReadError)
}

/// The same of a row of terms.
pub open spec fn placed_row(d: DecodedRow) -> bool {
    d matches DecodedRow::Failed { code, left } ==> (left is None <==> code
        == ErrorCode::ReadError)
}

proof fn lemma_plain_term_placed(tag: u8, b: Seq<u8>)
    ensures
        tag == STRING_EXT ==> placed(string_term(b)),
        tag == INTEGER_EXT ==> placed(integer_term(b)),
        tag == SMALL_INTEGER_EXT ==> placed(small_integer_term(b)),
        tag == ATOM_EXT ==> placed(atom_term(b)),
        tag == SMALL_ATOM_EXT ==> placed(small_atom_term(b)),
        tag == BINARY_EXT ==> placed(binary_term(b)),
        tag == FLOAT_EXT ==> placed(float_term(b)),
        tag == SMALL_ATOM_UTF8_EXT ==> placed(small_atom_utf8_term(b)),
        tag == ATOM_UTF8_EXT ==> placed(atom_utf8_term(b)),
        tag == ATOM_CACHE_REF ==> placed(atom_cache_term(b)),
        tag == SMALL_BIG_EXT ==> placed(small_big_term(b)),
        tag == LARGE_BIG_EXT ==> placed(large_big_term(b)),
        tag == BIT_BINARY_EXT ==> placed(bit_binary_term(b)),
        tag == NEW_FLOAT_EXT ==> placed(new_float_term(b)),
{
}

proof fn lemma_atom_only_placed(b: Seq<u8>)
    ensures
        placed(atom_only(b)),
{
    reveal(atom_only);
    if b.len() >= 1 {
        lemma_plain_term_placed(b[0], b.skip(1));
    }
}

proof fn lemma_integer_only_placed(b: Seq<u8>)
    ensures
        placed(small_integer_only(b)),
        placed(integer_only(b)),
{
    reveal(small_integer_only);
    reveal(integer_only);
}

proof fn lemma_pid_term_placed(b: Seq<u8>)
    ensures
        placed(pid_term(b)),
        placed(node_term("ref"@, b)),
        placed(node_term("port"@, b)),
{
    lemma_atom_only_placed(b);
}

proof fn lemma_pid_only_placed(b: Seq<u8>)
    ensures
        placed(pid_only(b)),
{
    reveal(pid_only);
    if b.len() >= 1 {
        lemma_pid_term_placed(b.skip(1));
    }
}

proof fn lemma_new_reference_term_placed(b: Seq<u8>)
    ensures
        placed(new_reference_term(b)),
{
    if b.len() >= 2 {
        lemma_atom_only_placed(b.skip(2));
    }
}

proof fn lemma_export_term_placed(b: Seq<u8>)
    ensures
        placed(export_term(b)),
{
    lemma_atom_only_placed(b);
    if atom_only(b) is Done {
        lemma_atom_only_placed(atom_only(b)->rest);
        if atom_only(atom_only(b)->rest) is Done {
            lemma_integer_only_placed(atom_only(atom_only(b)->rest)->rest);
        }
    }
}

proof fn lemma_new_fun_named_placed(
    arity: Seq<char>,
    uniq: Seq<char>,
    index: Seq<char>,
    b: Seq<u8>,
)
    ensures
        placed(new_fun_named(arity, uniq, index, b)),
{
    let module = atom_only(b);
    lemma_atom_only_placed(b);
    if module is Done {
        let old_index = integer_only(module->rest);
        lemma_integer_only_placed(module->rest);
        if old_index is Done {
            let old_uniq = integer_only(old_index->rest);
            lemma_integer_only_placed(old_index->rest);
            if old_uniq is Done {
                lemma_pid_only_placed(old_uniq->rest);
            }
        }
    }
}

/// A term of any kind says where it failed, unless a read failed.
pub proof fn lemma_any_placed(b: Seq<u8>)
    ensures
        placed(any(b)),
    decreases b.len(), 0nat,
{
    if b.len() >= 1 {
        lemma_term_placed(b[0], b.skip(1));
    }
}

/// A row of terms says where it failed, unless a read failed.
pub proof fn lemma_terms_placed(b: Seq<u8>, n: nat)
    ensures
        placed_row(terms(b, n)),
    decreases b.len(), 1nat,
{
    if n > 0 {
        lemma_any_placed(b);
        lemma_any_consumes(b);
        if let Decoded::Done { ops, rest: after_first } = any(b) {
            lemma_terms_placed(after_first, (n - 1) as nat);
        }
    }
}

/// The term with a given tag says where it failed, unless a read failed.
pub proof fn lemma_term_placed(tag: u8, b: Seq<u8>)
    ensures
        placed(term(tag, b)),
    decreases b.len(), 3nat,
{
    if tag == LIST_EXT || tag == LARGE_TUPLE_EXT {
        if b.len() >= 4 {
            lemma_terms_placed(b.skip(4), be_u32(b) as nat);
        }
    } else if tag == SMALL_TUPLE_EXT {
        if b.len() >= 1 {
            lemma_terms_placed(b.skip(1), b[0] as nat);
        }
    } else if tag == MAP_EXT {
        if b.len() >= 4 {
            lemma_terms_placed(b.skip(4), (2 * be_u32(b)) as nat);
        }
    } else if tag == FUN_EXT {
        if b.len() >= 4 {
            lemma_any_placed(b.skip(4));
            lemma_any_consumes(b.skip(4));
            if let Decoded::Done { rest: after_pid, .. } = any(b.skip(4)) {
                lemma_atom_only_placed(after_pid);
                crate::consumption::lemma_atom_only_consumes(after_pid);
                if let Decoded::Done { rest: after_module, .. } = atom_only(after_pid) {
                    lemma_terms_placed(after_module, (be_u32(b) + 2) as nat);
                }
            }
        }
    } else if tag == NEW_FUN_EXT {
        if b.len() >= 29 {
            lemma_new_fun_named_placed(
                crate::render::decimal_text(b[4] as int),
                crate::render::hex_text(b.subrange(5, 21)),
                crate::render::decimal_text(be_u32(b.skip(21))),
                b.skip(29),
            );
        }
        crate::consumption::lemma_new_fun_head_consumes(b);
        if let Decoded::Done { rest: after_head, .. } = new_fun_head(b) {
            lemma_terms_placed(after_head, crate::grammar::new_fun_free(b) as nat);
        }
    } else if tag == REFERENCE_EXT || tag == PORT_EXT || tag == PID_EXT {
        lemma_pid_term_placed(b);
    } else if tag == NEW_REFERENCE_EXT {
        lemma_new_reference_term_placed(b);
    } else if tag == EXPORT_EXT {
        lemma_export_term_placed(b);
    } else {
        lemma_plain_term_placed(tag, b);
    }
}

/// A document says where it failed, unless a read failed: only then is it
/// open how far the source was read.
pub proof fn law_document_placed(b: Seq<u8>)
    ensures
        placed(document(b)),
{
    if b.len() >= 1 {
        lemma_any_placed(b.skip(1));
    }
}

} // verus!
