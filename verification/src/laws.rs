//! What holds of every decode, stated over the grammar that the decoder is
//! held to.

use crate::consumption::{lemma_any_consumes, lemma_atom_only_consumes};
use crate::elem_compose::{ElemCompose, SinkOp};
use crate::grammar::{
    any, atom_only, atom_utf8_term, document, failed, list_term, short, small_atom_utf8_term,
    terms, utf8_atom, Decoded, DecodedRow,
};
use crate::parse_result::{ErrorCode, ParseResult};
use crate::parser::{decodes, rendering};
use crate::read_stream::{be_u16, be_u32};
use crate::render::base64_fits;
use crate::tags::{NIL_EXT, VERSION_MARKER};
use vstd::prelude::*;
use vstd::utf8::valid_utf8;

verus! {

/// A document whose first byte is not the version marker is refused as not
/// being of this format, whatever follows that byte.
pub proof fn law_wrong_marker(b: Seq<u8>)
    requires
        b.len() >= 1,
        b[0] != VERSION_MARKER,
    ensures
        document(b) == failed(ErrorCode::NotErlangBinary, b.skip(1)),
        rendering(b) == Err::<Seq<char>, ErrorCode>(ErrorCode::NotErlangBinary),
{
}

/// A list whose arity and items decode is accepted exactly when the nil tag
/// follows the items. Any other tag there is an invalid list; no byte there
/// is a failed read.
pub proof fn law_list_terminator(b: Seq<u8>)
    requires
        b.len() >= 4,
        terms(b.skip(4), be_u32(b) as nat) is Done,
    ensures
        ({
            let after_items = terms(b.skip(4), be_u32(b) as nat)->rest;
            &&& list_term(b) is Done <==> after_items.len() >= 1 && after_items[0] == NIL_EXT
            &&& after_items.len() >= 1 && after_items[0] != NIL_EXT ==> list_term(b) == failed(
                ErrorCode::InvalidListTerm,
                after_items.skip(1),
            )
            &&& after_items.len() == 0 ==> list_term(b) == short()
        }),
{
}

/// A UTF-8 atom whose payload is all there is accepted exactly when the
/// payload is valid UTF-8; otherwise it is refused as not being UTF-8.
pub proof fn law_utf8_atom(n: int, b: Seq<u8>)
    requires
        0 <= n <= b.len(),
    ensures
        utf8_atom(n, b) is Done <==> valid_utf8(b.take(n)),
        !valid_utf8(b.take(n)) ==> utf8_atom(n, b) == failed(ErrorCode::NotUtf8Atom, b.skip(n)),
{
}

/// The same of the atom with a two-byte length.
pub proof fn law_atom_utf8_term(b: Seq<u8>)
    requires
        b.len() >= 2,
        b.len() - 2 >= be_u16(b),
    ensures
        atom_utf8_term(b) is Done <==> valid_utf8(b.skip(2).take(be_u16(b))),
        !valid_utf8(b.skip(2).take(be_u16(b))) ==> atom_utf8_term(b) == failed(
            ErrorCode::NotUtf8Atom,
            b.skip(2).skip(be_u16(b)),
        ),
{
}

/// The same of the atom with a one-byte length.
pub proof fn law_small_atom_utf8_term(b: Seq<u8>)
    requires
        b.len() >= 1,
        b.len() - 1 >= b[0],
    ensures
        small_atom_utf8_term(b) is Done <==> valid_utf8(b.skip(1).take(b[0] as int)),
        !valid_utf8(b.skip(1).take(b[0] as int)) ==> small_atom_utf8_term(b) == failed(
            ErrorCode::NotUtf8Atom,
            b.skip(1).skip(b[0] as int),
        ),
{
}

/// Decoding is a function of the bytes: equal documents have equal renderings
/// or fail alike.
pub proof fn law_deterministic(first: Seq<u8>, second: Seq<u8>)
    requires
        first == second,
    ensures
        document(first) == document(second),
        rendering(first) == rendering(second),
{
}

/// Two runs of the decoder that start from the same bytes and the same sink
/// text end alike: both succeed, with the same bytes left and the same text in
/// the sink, or both fail, with the same kind of failure and, where the
/// failure says how far the source was read, with the same bytes left.
pub proof fn law_runs_agree<C: ElemCompose>(
    expected: Decoded,
    before: Seq<char>,
    first: ParseResult,
    first_left: Seq<u8>,
    first_after: Seq<char>,
    second: ParseResult,
    second_left: Seq<u8>,
    second_after: Seq<char>,
)
    requires
        decodes::<C>(expected, first, first_left, before, first_after),
        decodes::<C>(expected, second, second_left, before, second_after),
    ensures
        first is Ok <==> second is Ok,
        first is Ok ==> first_left == second_left && first_after == second_after,
        first matches Err(e) ==> second matches Err(f) && e.error_code == f.error_code,
        expected matches Decoded::Failed { left: Some(there), .. } ==> first_left
            == second_left,
{
}

/// A document has a rendering or a failure, never both: it is rendered exactly
/// when it decodes, and fails exactly when it does not.
pub proof fn law_rendering_or_failure(b: Seq<u8>)
    ensures
        rendering(b) is Ok <==> document(b) is Done,
        rendering(b) is Err <==> document(b) is Failed,
        !(rendering(b) is Ok && rendering(b) is Err),
{
}

/// The test in `terms` turns no row away: a row of terms is its first term,
/// then the row of the others.
pub proof fn law_terms_unfold(b: Seq<u8>, n: nat)
    requires
        n > 0,
    ensures
        terms(b, n) == match any(b) {
            Decoded::Failed { code, left } => DecodedRow::Failed { code, left },
            Decoded::Done { ops, rest: after_first } => match terms(after_first, (n - 1) as nat) {
                DecodedRow::Failed { code, left } => DecodedRow::Failed { code, left },
                DecodedRow::Done { items, rest } => DecodedRow::Done {
                    items: Seq::<Seq<SinkOp>>::empty().push(ops) + items,
                    rest,
                },
            },
        },
{
    lemma_any_consumes(b);
}

/// The test in `fun_term` turns no closure away: its process id and its
/// module leave fewer bytes than the closure found.
pub proof fn law_fun_front_consumes(b: Seq<u8>)
    requires
        b.len() >= 4,
        any(b.skip(4)) is Done,
        atom_only(any(b.skip(4))->rest) is Done,
    ensures
        atom_only(any(b.skip(4))->rest)->rest.len() < b.len(),
{
    lemma_any_consumes(b.skip(4));
    lemma_atom_only_consumes(any(b.skip(4))->rest);
}

/// Where a `usize` has sixty-four bits, no length that four bytes can declare
/// is too long for its base64 text: the limit on blobs then turns none away.
pub proof fn law_base64_fits(len: int)
    requires
        usize::MAX >= 0xFFFF_FFFF_FFFF_FFFF,
        0 <= len <= u32::MAX,
    ensures
        base64_fits(len),
{
}

} // verus!
