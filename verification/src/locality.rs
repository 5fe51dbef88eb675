//! Decoding looks at the bytes of the term and at no other: it leaves exactly
//! what follows them, and any bytes that begin in the same way decode alike.

use crate::consumption::lemma_any_consumes;
use crate::grammar::{
    any, atom_by_tag, atom_cache_term, atom_only, atom_term, atom_utf8_term, big, binary_term,
    bit_binary_term, document, export_term, float_term, fun_term, integer_only, integer_term,
    large_big_term, legacy_atom, new_float_term, new_fun_free, new_fun_head, new_fun_named,
    new_reference_term, node_term, pid_only, pid_term, small_atom_term, small_atom_utf8_term,
    small_big_term, small_integer_only, small_integer_term, string_term, term, terms, utf8_atom,
    Decoded, DecodedRow,
};
use crate::read_stream::{be_u16, be_u32};
use crate::render::{decimal_text, hex_text};
use crate::tags::{
    is_atom_tag, ATOM_CACHE_REF, BINARY_EXT, BIT_BINARY_EXT, EXPORT_EXT, FLOAT_EXT, FUN_EXT,
    INTEGER_EXT, LARGE_BIG_EXT, LARGE_TUPLE_EXT, LIST_EXT, MAP_EXT, NEW_FLOAT_EXT, NEW_FUN_EXT,
    NEW_REFERENCE_EXT, NIL_EXT, PID_EXT, PORT_EXT, REFERENCE_EXT, SMALL_BIG_EXT, SMALL_INTEGER_EXT,
    SMALL_TUPLE_EXT, STRING_EXT,
};
use vstd::prelude::*;

verus! {

/// The two sequences begin with the same `k` bytes.
pub open spec fn agree(a: Seq<u8>, b: Seq<u8>, k: int) -> bool {
    &&& 0 <= k <= a.len()
    &&& k <= b.len()
    &&& forall|i: int| 0 <= i < k ==> #[trigger] a[i] == b[i]
}

/// An outcome on `a` that is local: where a term was decoded, it took some
/// bytes from the front of `a` and left what follows them, and `on_b`, the
/// outcome on `b`, is the same term wherever `b` begins with those bytes.
pub open spec fn local(on_a: Decoded, a: Seq<u8>, on_b: Decoded, b: Seq<u8>) -> bool {
    on_a matches Decoded::Done { ops, rest } ==> {
        let k = a.len() - rest.len();
        &&& 0 <= k <= a.len()
        &&& rest == a.skip(k)
        &&& agree(a, b, k) ==> on_b == (Decoded::Done { ops, rest: b.skip(k) })
    }
}

/// The same of a row of terms.
pub open spec fn local_row(on_a: DecodedRow, a: Seq<u8>, on_b: DecodedRow, b: Seq<u8>) -> bool {
    on_a matches DecodedRow::Done { items, rest } ==> {
        let k = a.len() - rest.len();
        &&& 0 <= k <= a.len()
        &&& rest == a.skip(k)
        &&& agree(a, b, k) ==> on_b == (DecodedRow::Done { items, rest: b.skip(k) })
    }
}

/// Sequences that agree hold the same bytes in every stretch of what they
/// agree on, and go on agreeing behind any part of it.
proof fn lemma_agree_parts(a: Seq<u8>, b: Seq<u8>, from: int, n: int)
    requires
        0 <= from,
        0 <= n,
        agree(a, b, from + n),
    ensures
        a.skip(from).take(n) == b.skip(from).take(n),
        a.subrange(from, from + n) == b.subrange(from, from + n),
        agree(a.skip(from), b.skip(from), n),
        agree(a, b, from),
{
    assert(a.skip(from).take(n) =~= b.skip(from).take(n));
    assert(a.subrange(from, from + n) =~= b.subrange(from, from + n));
}

/// Skipping twice is skipping once.
proof fn lemma_skip_twice(a: Seq<u8>, i: int, j: int)
    requires
        0 <= i,
        0 <= j,
        i + j <= a.len(),
    ensures
        a.skip(i).skip(j) == a.skip(i + j),
{
    assert(a.skip(i).skip(j) =~= a.skip(i + j));
}

proof fn lemma_small_integer_term_local(a: Seq<u8>, b: Seq<u8>)
    ensures
        local(small_integer_term(a), a, small_integer_term(b), b),
        local(atom_cache_term(a), a, atom_cache_term(b), b),
{
}

proof fn lemma_integer_term_local(a: Seq<u8>, b: Seq<u8>)
    ensures
        local(integer_term(a), a, integer_term(b), b),
{
}

proof fn lemma_float_terms_local(a: Seq<u8>, b: Seq<u8>)
    ensures
        local(float_term(a), a, float_term(b), b),
        local(new_float_term(a), a, new_float_term(b), b),
{
    if a.len() >= 31 && agree(a, b, 31) {
        lemma_agree_parts(a, b, 0, 31);
        assert(a.skip(0) =~= a);
        assert(b.skip(0) =~= b);
    }
    if a.len() >= 8 && agree(a, b, 8) {
        lemma_agree_parts(a, b, 0, 8);
        assert(a.skip(0) =~= a);
        assert(b.skip(0) =~= b);
    }
}

proof fn lemma_legacy_atom_local(n: int, a: Seq<u8>, b: Seq<u8>)
    requires
        0 <= n,
    ensures
        local(legacy_atom(n, a), a, legacy_atom(n, b), b),
        local(utf8_atom(n, a), a, utf8_atom(n, b), b),
{
    if a.len() >= n && agree(a, b, n) {
        lemma_agree_parts(a, b, 0, n);
        assert(a.skip(0) =~= a);
        assert(b.skip(0) =~= b);
    }
}

/// An outcome that is local behind the first `h` bytes is local from the
/// front, too.
proof fn lemma_local_behind(
    a: Seq<u8>,
    b: Seq<u8>,
    h: int,
    on_a_tail: Decoded,
    on_b_tail: Decoded,
)
    requires
        0 <= h <= a.len(),
        local(on_a_tail, a.skip(h), on_b_tail, b.skip(h)),
    ensures
        local(on_a_tail, a, on_b_tail, b),
        on_a_tail matches Decoded::Done { rest, .. } ==> h <= a.len() - rest.len(),
{
    if let Decoded::Done { ops, rest } = on_a_tail {
        let k = a.len() - rest.len();
        lemma_skip_twice(a, h, k - h);
        if agree(a, b, k) {
            lemma_agree_parts(a, b, h, k - h);
            lemma_skip_twice(b, h, k - h);
        }
    }
}

/// The same of a row of terms.
proof fn lemma_local_row_behind(
    a: Seq<u8>,
    b: Seq<u8>,
    h: int,
    on_a_tail: DecodedRow,
    on_b_tail: DecodedRow,
)
    requires
        0 <= h <= a.len(),
        local_row(on_a_tail, a.skip(h), on_b_tail, b.skip(h)),
    ensures
        local_row(on_a_tail, a, on_b_tail, b),
        on_a_tail matches DecodedRow::Done { rest, .. } ==> h <= a.len() - rest.len(),
{
    if let DecodedRow::Done { items, rest } = on_a_tail {
        let k = a.len() - rest.len();
        lemma_skip_twice(a, h, k - h);
        if agree(a, b, k) {
            lemma_agree_parts(a, b, h, k - h);
            lemma_skip_twice(b, h, k - h);
        }
    }
}

proof fn lemma_atom_terms_local(a: Seq<u8>, b: Seq<u8>)
    ensures
        local(atom_term(a), a, atom_term(b), b),
        local(small_atom_term(a), a, small_atom_term(b), b),
        local(atom_utf8_term(a), a, atom_utf8_term(b), b),
        local(small_atom_utf8_term(a), a, small_atom_utf8_term(b), b),
{
    if a.len() >= 2 {
        let n = be_u16(a);
        lemma_legacy_atom_local(n, a.skip(2), b.skip(2));
        lemma_local_behind(a, b, 2, legacy_atom(n, a.skip(2)), legacy_atom(n, b.skip(2)));
        lemma_local_behind(a, b, 2, utf8_atom(n, a.skip(2)), utf8_atom(n, b.skip(2)));
    }
    if a.len() >= 1 {
        let n = a[0] as int;
        lemma_legacy_atom_local(n, a.skip(1), b.skip(1));
        lemma_local_behind(a, b, 1, legacy_atom(n, a.skip(1)), legacy_atom(n, b.skip(1)));
        lemma_local_behind(a, b, 1, utf8_atom(n, a.skip(1)), utf8_atom(n, b.skip(1)));
    }
}

proof fn lemma_string_term_local(a: Seq<u8>, b: Seq<u8>)
    ensures
        local(string_term(a), a, string_term(b), b),
{
    if a.len() >= 2 {
        let n = be_u16(a);
        if a.len() - 2 >= n {
            lemma_skip_twice(a, 2, n);
            if agree(a, b, 2 + n) {
                lemma_agree_parts(a, b, 2, n);
                lemma_skip_twice(b, 2, n);
            }
        }
    }
}

proof fn lemma_binary_terms_local(a: Seq<u8>, b: Seq<u8>)
    ensures
        local(binary_term(a), a, binary_term(b), b),
        local(bit_binary_term(a), a, bit_binary_term(b), b),
{
    if a.len() >= 4 {
        let n = be_u32(a);
        if a.len() - 4 >= n {
            lemma_skip_twice(a, 4, n);
            if agree(a, b, 4 + n) {
                lemma_agree_parts(a, b, 4, n);
                lemma_skip_twice(b, 4, n);
            }
        }
        if a.len() - 5 >= n {
            lemma_skip_twice(a, 5, n);
            if agree(a, b, 5 + n) {
                lemma_agree_parts(a, b, 5, n);
                lemma_skip_twice(b, 5, n);
            }
        }
    }
}

proof fn lemma_big_local(n: int, a: Seq<u8>, b: Seq<u8>)
    requires
        0 <= n,
    ensures
        local(big(n, a), a, big(n, b), b),
{
    if a.len() >= 1 + n && agree(a, b, 1 + n) {
        lemma_agree_parts(a, b, 1, n);
    }
}

proof fn lemma_big_terms_local(a: Seq<u8>, b: Seq<u8>)
    ensures
        local(small_big_term(a), a, small_big_term(b), b),
        local(large_big_term(a), a, large_big_term(b), b),
{
    if a.len() >= 1 {
        let n = a[0] as int;
        lemma_big_local(n, a.skip(1), b.skip(1));
        lemma_local_behind(a, b, 1, big(n, a.skip(1)), big(n, b.skip(1)));
    }
    if a.len() >= 4 {
        let n = be_u32(a);
        lemma_big_local(n, a.skip(4), b.skip(4));
        lemma_local_behind(a, b, 4, big(n, a.skip(4)), big(n, b.skip(4)));
    }
}

proof fn lemma_atom_only_local(a: Seq<u8>, b: Seq<u8>)
    ensures
        local(atom_only(a), a, atom_only(b), b),
{
    reveal(atom_only);
    if a.len() >= 1 && is_atom_tag(a[0]) {
        lemma_small_integer_term_local(a.skip(1), b.skip(1));
        lemma_atom_terms_local(a.skip(1), b.skip(1));
        lemma_local_behind(a, b, 1, atom_by_tag(a[0], a.skip(1)), atom_by_tag(a[0], b.skip(1)));
    }
}

proof fn lemma_integer_only_local(a: Seq<u8>, b: Seq<u8>)
    ensures
        local(small_integer_only(a), a, small_integer_only(b), b),
        local(integer_only(a), a, integer_only(b), b),
{
    reveal(small_integer_only);
    reveal(integer_only);
    if a.len() >= 1 {
        lemma_small_integer_term_local(a.skip(1), b.skip(1));
        lemma_integer_term_local(a.skip(1), b.skip(1));
        lemma_local_behind(a, b, 1, small_integer_term(a.skip(1)), small_integer_term(b.skip(1)));
        lemma_local_behind(a, b, 1, integer_term(a.skip(1)), integer_term(b.skip(1)));
    }
}

/// Two steps in a row: where the first is local and the second is local
/// behind it, what the second leaves is what follows the bytes of both.
proof fn lemma_local_then(
    a: Seq<u8>,
    b: Seq<u8>,
    first_a: Decoded,
    first_b: Decoded,
    second_a: Decoded,
    second_b: Decoded,
)
    requires
        first_a is Done,
        local(first_a, a, first_b, b),
        local(second_a, first_a->rest, second_b, b.skip(a.len() - first_a->rest.len())),
    ensures
        local(second_a, a, second_b, b),
        second_a matches Decoded::Done { rest, .. } ==> {
            &&& rest.len() <= first_a->rest.len()
            &&& agree(a, b, a.len() - rest.len()) ==> first_b == (Decoded::Done {
                ops: first_a->ops,
                rest: b.skip(a.len() - first_a->rest.len()),
            })
        },
{
    let h = a.len() - first_a->rest.len();
    lemma_local_behind(a, b, h, second_a, second_b);
    if let Decoded::Done { ops, rest } = second_a {
        let k = a.len() - rest.len();
        if agree(a, b, k) {
            lemma_agree_parts(a, b, h, k - h);
        }
    }
}

proof fn lemma_node_term_local(kind: Seq<char>, a: Seq<u8>, b: Seq<u8>)
    ensures
        local(node_term(kind, a), a, node_term(kind, b), b),
{
    lemma_atom_only_local(a, b);
    if let Decoded::Done { ops: node, rest } = atom_only(a) {
        if rest.len() >= 5 {
            let h = a.len() - rest.len();
            lemma_skip_twice(a, h, 5);
            if agree(a, b, h + 5) {
                lemma_agree_parts(a, b, h, 5);
                lemma_skip_twice(b, h, 5);
            }
        }
    }
}

proof fn lemma_pid_term_local(a: Seq<u8>, b: Seq<u8>)
    ensures
        local(pid_term(a), a, pid_term(b), b),
{
    lemma_atom_only_local(a, b);
    if let Decoded::Done { ops: node, rest } = atom_only(a) {
        if rest.len() >= 9 {
            let h = a.len() - rest.len();
            lemma_skip_twice(a, h, 9);
            if agree(a, b, h + 9) {
                lemma_agree_parts(a, b, h, 9);
                lemma_skip_twice(b, h, 9);
                assert(rest.skip(4) =~= a.skip(h + 4));
                assert(b.skip(h).skip(4) =~= b.skip(h + 4));
                lemma_agree_parts(a, b, h + 4, 5);
            }
        }
    }
}

proof fn lemma_pid_only_local(a: Seq<u8>, b: Seq<u8>)
    ensures
        local(pid_only(a), a, pid_only(b), b),
{
    reveal(pid_only);
    if a.len() >= 1 {
        lemma_pid_term_local(a.skip(1), b.skip(1));
        lemma_local_behind(a, b, 1, pid_term(a.skip(1)), pid_term(b.skip(1)));
    }
}

proof fn lemma_new_reference_term_local(a: Seq<u8>, b: Seq<u8>)
    ensures
        local(new_reference_term(a), a, new_reference_term(b), b),
{
    if a.len() >= 2 {
        let words = be_u16(a);
        lemma_atom_only_local(a.skip(2), b.skip(2));
        lemma_local_behind(a, b, 2, atom_only(a.skip(2)), atom_only(b.skip(2)));
        if let Decoded::Done { ops: node, rest } = atom_only(a.skip(2)) {
            if rest.len() >= 1 + 4 * words {
                let h = a.len() - rest.len();
                lemma_skip_twice(a, h, 1 + 4 * words);
                if agree(a, b, h + 1 + 4 * words) {
                    lemma_agree_parts(a, b, h, 1 + 4 * words);
                    lemma_skip_twice(b, h, 1 + 4 * words);
                }
            }
        }
    }
}

proof fn lemma_export_term_local(a: Seq<u8>, b: Seq<u8>)
    ensures
        local(export_term(a), a, export_term(b), b),
{
    let module = atom_only(a);
    lemma_atom_only_local(a, b);
    if module is Done {
        let h1 = a.len() - module->rest.len();
        let function = atom_only(module->rest);
        lemma_atom_only_local(module->rest, b.skip(h1));
        lemma_local_then(a, b, module, atom_only(b), function, atom_only(b.skip(h1)));
        if function is Done {
            let h2 = a.len() - function->rest.len();
            let arity = small_integer_only(function->rest);
            lemma_integer_only_local(function->rest, b.skip(h2));
            lemma_local_then(
                a,
                b,
                function,
                atom_only(b.skip(h1)),
                arity,
                small_integer_only(b.skip(h2)),
            );
            if arity is Done {
                let k = a.len() - arity->rest.len();
                if agree(a, b, k) {
                    lemma_agree_parts(a, b, h2, k - h2);
                    lemma_agree_parts(a, b, h1, h2 - h1);
                }
            }
        }
    }
}

proof fn lemma_new_fun_named_local(
    arity: Seq<char>,
    uniq: Seq<char>,
    index: Seq<char>,
    a: Seq<u8>,
    b: Seq<u8>,
)
    ensures
        local(
            new_fun_named(arity, uniq, index, a),
            a,
            new_fun_named(arity, uniq, index, b),
            b,
        ),
{
    let module = atom_only(a);
    lemma_atom_only_local(a, b);
    if module is Done {
        let h1 = a.len() - module->rest.len();
        let old_index = integer_only(module->rest);
        lemma_integer_only_local(module->rest, b.skip(h1));
        lemma_local_then(a, b, module, atom_only(b), old_index, integer_only(b.skip(h1)));
        if old_index is Done {
            let h2 = a.len() - old_index->rest.len();
            let old_uniq = integer_only(old_index->rest);
            lemma_integer_only_local(old_index->rest, b.skip(h2));
            lemma_local_then(
                a,
                b,
                old_index,
                integer_only(b.skip(h1)),
                old_uniq,
                integer_only(b.skip(h2)),
            );
            if old_uniq is Done {
                let h3 = a.len() - old_uniq->rest.len();
                let pid = pid_only(old_uniq->rest);
                lemma_pid_only_local(old_uniq->rest, b.skip(h3));
                lemma_local_then(
                    a,
                    b,
                    old_uniq,
                    integer_only(b.skip(h2)),
                    pid,
                    pid_only(b.skip(h3)),
                );
                if pid is Done {
                    let k = a.len() - pid->rest.len();
                    if agree(a, b, k) {
                        lemma_agree_parts(a, b, h3, k - h3);
                        lemma_agree_parts(a, b, h2, h3 - h2);
                        lemma_agree_parts(a, b, h1, h2 - h1);
                    }
                }
            }
        }
    }
}

proof fn lemma_new_fun_head_local(a: Seq<u8>, b: Seq<u8>)
    ensures
        local(new_fun_head(a), a, new_fun_head(b), b),
        new_fun_head(a) matches Decoded::Done { rest, .. } ==> 29 <= a.len() - rest.len(),
{
    if a.len() >= 29 {
        let arity = decimal_text(a[4] as int);
        let uniq = hex_text(a.subrange(5, 21));
        let index = decimal_text(be_u32(a.skip(21)));
        lemma_new_fun_named_local(arity, uniq, index, a.skip(29), b.skip(29));
        lemma_local_behind(
            a,
            b,
            29,
            new_fun_named(arity, uniq, index, a.skip(29)),
            new_fun_named(arity, uniq, index, b.skip(29)),
        );
        if let Decoded::Done { ops, rest } = new_fun_head(a) {
            let k = a.len() - rest.len();
            if agree(a, b, k) {
                lemma_agree_parts(a, b, 5, 16);
                lemma_agree_parts(a, b, 21, 4);
            }
        }
    }
}

/// A term of any kind is local.
pub proof fn lemma_any_local(a: Seq<u8>, b: Seq<u8>)
    ensures
        local(any(a), a, any(b), b),
    decreases a.len(), 0nat,
{
    if a.len() >= 1 {
        lemma_term_local(a[0], a.skip(1), b.skip(1));
        lemma_local_behind(a, b, 1, term(a[0], a.skip(1)), term(a[0], b.skip(1)));
    }
}

/// A row of terms is local.
pub proof fn lemma_terms_local(a: Seq<u8>, b: Seq<u8>, n: nat)
    ensures
        local_row(terms(a, n), a, terms(b, n), b),
    decreases a.len(), 1nat,
{
    if n == 0 {
        assert(a.skip(0) =~= a);
        assert(b.skip(0) =~= b);
    } else {
        lemma_any_local(a, b);
        lemma_any_consumes(a);
        if let Decoded::Done { ops, rest: after_first } = any(a) {
            let h = a.len() - after_first.len();
            let others_a = terms(after_first, (n - 1) as nat);
            let others_b = terms(b.skip(h), (n - 1) as nat);
            lemma_terms_local(after_first, b.skip(h), (n - 1) as nat);
            lemma_local_row_behind(a, b, h, others_a, others_b);
            if let DecodedRow::Done { items, rest } = others_a {
                let k = a.len() - rest.len();
                if agree(a, b, k) {
                    lemma_agree_parts(a, b, h, k - h);
                }
            }
        }
    }
}

/// A row of terms behind a header of `h` bytes is local from the front.
proof fn lemma_row_behind_header(a: Seq<u8>, b: Seq<u8>, h: int, n: nat)
    requires
        0 <= h <= a.len(),
    ensures
        local_row(terms(a.skip(h), n), a, terms(b.skip(h), n), b),
        terms(a.skip(h), n) matches DecodedRow::Done { rest, .. } ==> h <= a.len() - rest.len(),
    decreases a.len(), 2nat,
{
    lemma_terms_local(a.skip(h), b.skip(h), n);
    lemma_local_row_behind(a, b, h, terms(a.skip(h), n), terms(b.skip(h), n));
}

/// The term with a given tag is local.
pub proof fn lemma_term_local(tag: u8, a: Seq<u8>, b: Seq<u8>)
    ensures
        local(term(tag, a), a, term(tag, b), b),
    decreases a.len(), 3nat,
{
    if tag == LIST_EXT {
        if a.len() >= 4 {
            lemma_row_behind_header(a, b, 4, be_u32(a) as nat);
            if let DecodedRow::Done { items, rest } = terms(a.skip(4), be_u32(a) as nat) {
                let k = a.len() - rest.len();
                if rest.len() >= 1 {
                    lemma_skip_twice(a, k, 1);
                    if agree(a, b, k + 1) {
                        lemma_agree_parts(a, b, k, 1);
                        lemma_skip_twice(b, k, 1);
                    }
                }
            }
        }
    } else if tag == SMALL_TUPLE_EXT {
        if a.len() >= 1 {
            lemma_row_behind_header(a, b, 1, a[0] as nat);
        }
    } else if tag == LARGE_TUPLE_EXT {
        if a.len() >= 4 {
            lemma_row_behind_header(a, b, 4, be_u32(a) as nat);
        }
    } else if tag == MAP_EXT {
        if a.len() >= 4 {
            lemma_row_behind_header(a, b, 4, (2 * be_u32(a)) as nat);
        }
    } else if tag == FUN_EXT {
        lemma_fun_term_local(a, b);
    } else if tag == NEW_FUN_EXT {
        lemma_new_fun_head_local(a, b);
        if let Decoded::Done { ops, rest: after_head } = new_fun_head(a) {
            let h = a.len() - after_head.len();
            let free_a = terms(after_head, new_fun_free(a) as nat);
            let free_b = terms(b.skip(h), new_fun_free(a) as nat);
            lemma_terms_local(after_head, b.skip(h), new_fun_free(a) as nat);
            lemma_local_row_behind(a, b, h, free_a, free_b);
            if let DecodedRow::Done { items, rest } = free_a {
                let k = a.len() - rest.len();
                if agree(a, b, k) {
                    lemma_agree_parts(a, b, h, k - h);
                    lemma_agree_parts(a, b, 25, 4);
                }
            }
        }
    } else if tag == REFERENCE_EXT {
        lemma_node_term_local("ref"@, a, b);
    } else if tag == PORT_EXT {
        lemma_node_term_local("port"@, a, b);
    } else if tag == PID_EXT {
        lemma_pid_term_local(a, b);
    } else if tag == NEW_REFERENCE_EXT {
        lemma_new_reference_term_local(a, b);
    } else if tag == EXPORT_EXT {
        lemma_export_term_local(a, b);
    } else if tag == NIL_EXT {
        assert(a.skip(0) =~= a);
        assert(b.skip(0) =~= b);
    } else if tag == STRING_EXT {
        lemma_string_term_local(a, b);
    } else if tag == INTEGER_EXT {
        lemma_integer_term_local(a, b);
    } else if tag == SMALL_INTEGER_EXT || tag == ATOM_CACHE_REF {
        lemma_small_integer_term_local(a, b);
    } else if tag == BINARY_EXT || tag == BIT_BINARY_EXT {
        lemma_binary_terms_local(a, b);
    } else if tag == FLOAT_EXT || tag == NEW_FLOAT_EXT {
        lemma_float_terms_local(a, b);
    } else if tag == SMALL_BIG_EXT || tag == LARGE_BIG_EXT {
        lemma_big_terms_local(a, b);
    } else {
        lemma_atom_terms_local(a, b);
    }
}

/// A function closure is local.
proof fn lemma_fun_term_local(a: Seq<u8>, b: Seq<u8>)
    ensures
        local(fun_term(a), a, fun_term(b), b),
    decreases a.len(), 2nat,
{
    if a.len() >= 4 {
        let n = (be_u32(a) + 2) as nat;
        let pid = any(a.skip(4));
        lemma_any_local(a.skip(4), b.skip(4));
        lemma_any_consumes(a.skip(4));
        lemma_local_behind(a, b, 4, pid, any(b.skip(4)));
        if pid is Done {
            let h1 = a.len() - pid->rest.len();
            let module = atom_only(pid->rest);
            lemma_atom_only_local(pid->rest, b.skip(h1));
            lemma_local_then(a, b, pid, any(b.skip(4)), module, atom_only(b.skip(h1)));
            if module is Done {
                let h2 = a.len() - module->rest.len();
                let others_a = terms(module->rest, n);
                let others_b = terms(b.skip(h2), n);
                lemma_terms_local(module->rest, b.skip(h2), n);
                lemma_local_row_behind(a, b, h2, others_a, others_b);
                if let DecodedRow::Done { items, rest } = others_a {
                    let k = a.len() - rest.len();
                    if agree(a, b, k) {
                        lemma_agree_parts(a, b, h2, k - h2);
                        lemma_agree_parts(a, b, h1, h2 - h1);
                    }
                }
            }
        }
    }
}

/// A document is decoded from its own bytes alone: it leaves exactly what
/// follows them, and bytes that begin in the same way decode to the same.
pub proof fn law_document_local(a: Seq<u8>, b: Seq<u8>)
    ensures
        local(document(a), a, document(b), b),
{
    if a.len() >= 1 {
        lemma_any_local(a.skip(1), b.skip(1));
        lemma_local_behind(a, b, 1, any(a.skip(1)), any(b.skip(1)));
    }
}

/// What follows a document's term is not looked at: with anything else in its
/// place the document decodes to the same, and leaves that.
pub proof fn law_tail_not_inspected(a: Seq<u8>, tail: Seq<u8>)
    requires
        document(a) is Done,
    ensures
        ({
            let used = a.len() - document(a)->rest.len();
            &&& 1 <= used <= a.len()
            &&& document(a)->rest == a.skip(used)
            &&& document(a.take(used) + tail) == (Decoded::Done {
                ops: document(a)->ops,
                rest: tail,
            })
        }),
{
    let used = a.len() - document(a)->rest.len();
    let b = a.take(used) + tail;
    law_document_local(a, b);
    lemma_any_consumes(a.skip(1));
    assert(agree(a, b, used));
    assert(b.skip(used) =~= tail);
}

} // verus!
