//! The steps by which the decoder's loops follow the grammar: a row of terms
//! taken one term at a time, and a filter seen as the kinds that it admits.

use crate::consumption::lemma_any_consumes;
use crate::elem_compose::SinkOp;
use crate::grammar::{
    any, ch, filtered, integer_only, pair, paired, pid_only, small_integer_only, terms, Decoded,
    DecodedRow,
};
use crate::tags::{is_integer_tag, INTEGER_EXT, PID_EXT, SMALL_INTEGER_EXT};
use vstd::prelude::*;

verus! {

/// A row that follows `done`: the same row, with `done` before its items.
pub open spec fn after_items(done: Seq<Seq<SinkOp>>, row: DecodedRow) -> DecodedRow {
    match row {
        DecodedRow::Done { items, rest } => DecodedRow::Done { items: done + items, rest },
        DecodedRow::Failed { code, left } => DecodedRow::Failed { code, left },
    }
}

/// A row that follows nothing is the row itself.
pub proof fn lemma_after_nothing(row: DecodedRow)
    ensures
        row == after_items(Seq::empty(), row),
{
    if let DecodedRow::Done { items, rest } = row {
        assert(Seq::<Seq<SinkOp>>::empty() + items =~= items);
    }
}

/// A row of `n` terms is its first term, then a row of one term fewer.
pub proof fn lemma_row_step(done: Seq<Seq<SinkOp>>, b: Seq<u8>, n: nat)
    requires
        n > 0,
    ensures
        match any(b) {
            Decoded::Done { ops, rest } => after_items(done, terms(b, n)) == after_items(
                done.push(ops),
                terms(rest, (n - 1) as nat),
            ),
            Decoded::Failed { code, left } => after_items(done, terms(b, n))
                == (DecodedRow::Failed { code, left }),
        },
{
    lemma_any_consumes(b);
    if let Decoded::Done { ops, rest } = any(b) {
        if let DecodedRow::Done { items, rest: end } = terms(rest, (n - 1) as nat) {
            assert(done + (Seq::<Seq<SinkOp>>::empty().push(ops) + items) =~= done.push(ops)
                + items);
        }
    }
}

/// A row of no terms leaves everything.
pub proof fn lemma_row_end(done: Seq<Seq<SinkOp>>, b: Seq<u8>)
    ensures
        after_items(done, terms(b, 0)) == (DecodedRow::Done { items: done, rest: b }),
{
    assert(done + Seq::<Seq<SinkOp>>::empty() =~= done);
}

/// A row of `n + 2` terms is a pair, then a row of `n` terms.
pub proof fn lemma_row_pair(done: Seq<Seq<SinkOp>>, b: Seq<u8>, n: nat)
    ensures
        match any(b) {
            Decoded::Failed { code, left } => after_items(done, terms(b, n + 2))
                == (DecodedRow::Failed { code, left }),
            Decoded::Done { ops: key, rest: middle } => match any(middle) {
                Decoded::Failed { code, left } => after_items(done, terms(b, n + 2))
                    == (DecodedRow::Failed { code, left }),
                Decoded::Done { ops: val, rest } => after_items(done, terms(b, n + 2))
                    == after_items(done.push(key).push(val), terms(rest, n)),
            },
        },
{
    lemma_row_step(done, b, n + 2);
    if let Decoded::Done { ops: key, rest: middle } = any(b) {
        lemma_row_step(done.push(key), middle, n + 1);
    }
}

/// One more pair in a row of pairs.
pub proof fn lemma_paired_step(done: Seq<Seq<SinkOp>>, key: Seq<SinkOp>, val: Seq<SinkOp>, n: int)
    ensures
        paired(done.push(key).push(val), n) == if done.len() + 2 < 2 * n {
            (paired(done, n) + pair(key, val)).push(ch(','))
        } else {
            paired(done, n) + pair(key, val)
        },
{
    let longer = done.push(key).push(val);
    assert(longer.take(longer.len() - 2) =~= done);
}

/// A filter of the one-byte integer alone admits just that.
pub proof fn lemma_filter_small_integer(filter: Seq<u8>, b: Seq<u8>)
    requires
        filter.len() == 1,
        filter[0] == SMALL_INTEGER_EXT,
    ensures
        filtered(filter, b) == small_integer_only(b),
{
    reveal(small_integer_only);
    if b.len() >= 1 {
        assert(filter.contains(b[0]) == (b[0] == SMALL_INTEGER_EXT));
    }
}

/// A filter of the two fixed-width integers admits just those.
pub proof fn lemma_filter_integer(filter: Seq<u8>, b: Seq<u8>)
    requires
        filter.len() == 2,
        filter[0] == INTEGER_EXT,
        filter[1] == SMALL_INTEGER_EXT,
    ensures
        filtered(filter, b) == integer_only(b),
{
    reveal(integer_only);
    if b.len() >= 1 {
        assert(filter.contains(b[0]) == is_integer_tag(b[0]));
    }
}

/// A filter of the process id alone admits just that.
pub proof fn lemma_filter_pid(filter: Seq<u8>, b: Seq<u8>)
    requires
        filter.len() == 1,
        filter[0] == PID_EXT,
    ensures
        filtered(filter, b) == pid_only(b),
{
    reveal(pid_only);
    if b.len() >= 1 {
        assert(filter.contains(b[0]) == (b[0] == PID_EXT));
    }
}

} // verus!
