//! The decoder matches every `open` with a `close`: the instructions of a
//! decoded term leave the sink at the depth at which they found it, and never
//! close an element that they did not open.

use crate::consumption::lemma_any_consumes;
use crate::elem_compose::SinkOp;
use crate::grammar::{
    any, atom_cache_term, atom_term, atom_utf8_term, binary_term, bit_binary_term, document,
    export_term, float_term, integer_term, joined, large_big_term, new_float_term, new_fun_head,
    new_reference_term, node_term, paired, pid_term, pushed_chars, separated_chars, small_atom_term,
    small_atom_utf8_term, small_big_term, small_integer_term, string_term, term, terms, Decoded,
    DecodedRow,
};
use crate::read_stream::be_u32;
use crate::tags::{
    ATOM_CACHE_REF, ATOM_EXT, ATOM_UTF8_EXT, BINARY_EXT, BIT_BINARY_EXT, EXPORT_EXT, FLOAT_EXT,
    FUN_EXT, INTEGER_EXT, LARGE_BIG_EXT, LARGE_TUPLE_EXT, LIST_EXT, MAP_EXT, NEW_FLOAT_EXT,
    NEW_FUN_EXT, NEW_REFERENCE_EXT, PID_EXT, PORT_EXT, REFERENCE_EXT, SMALL_ATOM_EXT,
    SMALL_ATOM_UTF8_EXT, SMALL_BIG_EXT, SMALL_INTEGER_EXT, SMALL_TUPLE_EXT, STRING_EXT,
};
use vstd::prelude::*;

verus! {

/// The depth of open elements after `ops`, begun at depth `depth`; nothing
/// where `ops` close an element that is not open.
pub open spec fn depth_after(depth: nat, ops: Seq<SinkOp>) -> Option<nat>
    decreases ops.len(),
{
    if ops.len() == 0 {
        Some(depth)
    } else {
        match depth_after(depth, ops.drop_last()) {
            None => None,
            Some(d) => match ops.last() {
                SinkOp::Open(_) => Some(d + 1),
                SinkOp::Push(_) => Some(d),
                SinkOp::Close => if d == 0 {
                    None
                } else {
                    Some((d - 1) as nat)
                },
            },
        }
    }
}

/// Every element that `ops` open they close, and they close no other.
pub open spec fn balanced(ops: Seq<SinkOp>) -> bool {
    forall|depth: nat| #[trigger] depth_after(depth, ops) == Some(depth)
}

/// A decoded term's instructions are balanced.
pub open spec fn nests(d: Decoded) -> bool {
    d matches Decoded::Done { ops, .. } ==> balanced(ops)
}

/// No instruction leaves the depth as it was.
pub broadcast proof fn lemma_depth_empty(depth: nat)
    ensures
        #[trigger] depth_after(depth, Seq::<SinkOp>::empty()) == Some(depth),
{
}

/// One more instruction moves the depth by one step, or not at all.
pub broadcast proof fn lemma_depth_push(depth: nat, ops: Seq<SinkOp>, op: SinkOp)
    ensures
        #[trigger] depth_after(depth, ops.push(op)) == match depth_after(depth, ops) {
            None => None,
            Some(d) => match op {
                SinkOp::Open(_) => Some(d + 1),
                SinkOp::Push(_) => Some(d),
                SinkOp::Close => if d == 0 {
                    None
                } else {
                    Some((d - 1) as nat)
                },
            },
        },
{
    assert(ops.push(op).drop_last() =~= ops);
}

/// The depth after two lists of instructions is the depth after the second,
/// begun where the first ended.
pub broadcast proof fn lemma_depth_concat(depth: nat, first: Seq<SinkOp>, second: Seq<SinkOp>)
    ensures
        #[trigger] depth_after(depth, first + second) == match depth_after(depth, first) {
            None => None,
            Some(d) => depth_after(d, second),
        },
    decreases second.len(),
{
    if second.len() == 0 {
        assert(first + second =~= first);
    } else {
        lemma_depth_concat(depth, first, second.drop_last());
        assert((first + second).drop_last() =~= first + second.drop_last());
    }
}

pub broadcast group group_depth {
    lemma_depth_empty,
    lemma_depth_push,
    lemma_depth_concat,
}

proof fn lemma_pushed_chars_balanced(bytes: Seq<u8>)
    ensures
        balanced(pushed_chars(bytes)),
    decreases bytes.len(),
{
    broadcast use group_depth;

    if bytes.len() > 0 {
        lemma_pushed_chars_balanced(bytes.drop_last());
    }
}

proof fn lemma_separated_chars_balanced(bytes: Seq<u8>, n: int)
    ensures
        balanced(separated_chars(bytes, n)),
    decreases bytes.len(),
{
    broadcast use group_depth;

    if bytes.len() > 0 {
        lemma_separated_chars_balanced(bytes.drop_last(), n);
    }
}

/// Balanced items, joined by commas, are balanced.
proof fn lemma_joined_balanced(items: Seq<Seq<SinkOp>>, n: int)
    requires
        forall|i: int| 0 <= i < items.len() ==> balanced(#[trigger] items[i]),
    ensures
        balanced(joined(items, n)),
    decreases items.len(),
{
    broadcast use group_depth;

    if items.len() > 0 {
        lemma_joined_balanced(items.drop_last(), n);
        assert(balanced(items.last()));
    }
}

/// Balanced items, set in pairs, are balanced.
proof fn lemma_paired_balanced(items: Seq<Seq<SinkOp>>, n: int)
    requires
        forall|i: int| 0 <= i < items.len() ==> balanced(#[trigger] items[i]),
    ensures
        balanced(paired(items, n)),
    decreases items.len(),
{
    broadcast use group_depth;

    if items.len() >= 2 {
        lemma_paired_balanced(items.take(items.len() - 2), n);
        assert(balanced(items[items.len() - 2]));
        assert(balanced(items[items.len() - 1]));
    }
}

/// The terms that hold no other term are balanced.
proof fn lemma_plain_term_nests(tag: u8, b: Seq<u8>)
    ensures
        tag == STRING_EXT ==> nests(string_term(b)),
        tag == INTEGER_EXT ==> nests(integer_term(b)),
        tag == SMALL_INTEGER_EXT ==> nests(small_integer_term(b)),
        tag == ATOM_EXT ==> nests(atom_term(b)),
        tag == SMALL_ATOM_EXT ==> nests(small_atom_term(b)),
        tag == BINARY_EXT ==> nests(binary_term(b)),
        tag == FLOAT_EXT ==> nests(float_term(b)),
        tag == SMALL_ATOM_UTF8_EXT ==> nests(small_atom_utf8_term(b)),
        tag == ATOM_UTF8_EXT ==> nests(atom_utf8_term(b)),
        tag == ATOM_CACHE_REF ==> nests(atom_cache_term(b)),
        tag == SMALL_BIG_EXT ==> nests(small_big_term(b)),
        tag == LARGE_BIG_EXT ==> nests(large_big_term(b)),
        tag == BIT_BINARY_EXT ==> nests(bit_binary_term(b)),
        tag == NEW_FLOAT_EXT ==> nests(new_float_term(b)),
{
    broadcast use group_depth;

    if tag == STRING_EXT && b.len() >= 2 {
        lemma_separated_chars_balanced(
            b.skip(2).take(crate::read_stream::be_u16(b)),
            crate::read_stream::be_u16(b),
        );
    }
    if tag == ATOM_EXT && b.len() >= 2 {
        lemma_pushed_chars_balanced(b.skip(2).take(crate::read_stream::be_u16(b)));
    }
    if tag == SMALL_ATOM_EXT && b.len() >= 1 {
        lemma_pushed_chars_balanced(b.skip(1).take(b[0] as int));
    }
    if tag == FLOAT_EXT {
        lemma_pushed_chars_balanced(b.take(31));
    }
}

proof fn lemma_node_term_nests(kind: Seq<char>, b: Seq<u8>)
    ensures
        nests(node_term(kind, b)),
{
    broadcast use group_depth;

}

proof fn lemma_pid_term_nests(b: Seq<u8>)
    ensures
        nests(pid_term(b)),
{
    broadcast use group_depth;

}

proof fn lemma_new_reference_term_nests(b: Seq<u8>)
    ensures
        nests(new_reference_term(b)),
{
    broadcast use group_depth;

}

proof fn lemma_export_term_nests(b: Seq<u8>)
    ensures
        nests(export_term(b)),
{
    broadcast use group_depth;

}

proof fn lemma_new_fun_head_nests(b: Seq<u8>)
    ensures
        nests(new_fun_head(b)),
{
    broadcast use group_depth;

}

/// Every term's instructions are balanced.
pub proof fn lemma_any_nests(b: Seq<u8>)
    ensures
        nests(any(b)),
    decreases b.len(), 0nat,
{
    if b.len() >= 1 {
        lemma_term_nests(b[0], b.skip(1));
    }
}

/// The instructions of every term of a row are balanced.
pub proof fn lemma_terms_nest(b: Seq<u8>, n: nat)
    ensures
        terms(b, n) matches DecodedRow::Done { items, .. } ==> forall|i: int|
            0 <= i < items.len() ==> balanced(#[trigger] items[i]),
    decreases b.len(), 1nat,
{
    if n > 0 {
        lemma_any_nests(b);
        lemma_any_consumes(b);
        if let Decoded::Done { ops, rest: after_first } = any(b) {
            lemma_terms_nest(after_first, (n - 1) as nat);
        }
    }
}

/// The instructions of the term with this tag are balanced.
pub proof fn lemma_term_nests(tag: u8, b: Seq<u8>)
    ensures
        nests(term(tag, b)),
    decreases b.len(), 3nat,
{
    broadcast use group_depth;

    if tag == LIST_EXT {
        if b.len() >= 4 {
            lemma_terms_nest(b.skip(4), be_u32(b) as nat);
            if let DecodedRow::Done { items, .. } = terms(b.skip(4), be_u32(b) as nat) {
                lemma_joined_balanced(items, items.len() as int);
            }
        }
    } else if tag == SMALL_TUPLE_EXT {
        if b.len() >= 1 {
            lemma_terms_nest(b.skip(1), b[0] as nat);
            if let DecodedRow::Done { items, .. } = terms(b.skip(1), b[0] as nat) {
                lemma_joined_balanced(items, items.len() as int);
            }
        }
    } else if tag == LARGE_TUPLE_EXT {
        if b.len() >= 4 {
            lemma_terms_nest(b.skip(4), be_u32(b) as nat);
            if let DecodedRow::Done { items, .. } = terms(b.skip(4), be_u32(b) as nat) {
                lemma_joined_balanced(items, items.len() as int);
            }
        }
    } else if tag == MAP_EXT {
        if b.len() >= 4 {
            lemma_terms_nest(b.skip(4), (2 * be_u32(b)) as nat);
            if let DecodedRow::Done { items, .. } = terms(b.skip(4), (2 * be_u32(b)) as nat) {
                lemma_paired_balanced(items, be_u32(b));
            }
        }
    } else if tag == FUN_EXT {
    } else if tag == NEW_FUN_EXT {
        lemma_new_fun_head_nests(b);
    } else if tag == REFERENCE_EXT {
        lemma_node_term_nests("ref"@, b);
    } else if tag == PORT_EXT {
        lemma_node_term_nests("port"@, b);
    } else if tag == PID_EXT {
        lemma_pid_term_nests(b);
    } else if tag == NEW_REFERENCE_EXT {
        lemma_new_reference_term_nests(b);
    } else if tag == EXPORT_EXT {
        lemma_export_term_nests(b);
    } else {
        lemma_plain_term_nests(tag, b);
    }
}

/// What a document gives the sink is balanced.
pub proof fn law_document_nests(b: Seq<u8>)
    ensures
        nests(document(b)),
{
    if b.len() >= 1 {
        lemma_any_nests(b.skip(1));
    }
}

} // verus!
