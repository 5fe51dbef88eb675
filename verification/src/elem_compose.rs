//! The output sink: an append-only builder that is told to open a named
//! element, to take literal content, and to close the element.

use vstd::prelude::*;

verus! {

/// One instruction given to a sink.
pub enum SinkOp {
    /// Begin an element of this name.
    Open(Seq<char>),
    /// Take this literal content.
    Push(Seq<char>),
    /// End the current element.
    Close,
}

/// A sink for rendered terms. Every instruction appends to the sink's text;
/// what it appends is the sink's own choice, fixed per kind of instruction.
/// Matching each `open` with a `close` is the caller's business.
pub trait ElemCompose {
    /// The text gathered so far.
    spec fn text(&self) -> Seq<char>;

    /// What opening an element of this name appends.
    spec fn open_text(name: Seq<char>) -> Seq<char>;

    /// What taking this content appends.
    spec fn push_text(content: Seq<char>) -> Seq<char>;

    /// What closing an element appends.
    spec fn close_text() -> Seq<char>;

    /// Begins an element of this name.
    fn open(&mut self, name: &str)
        ensures
            final(self).text() == old(self).text() + Self::open_text(name@),
    ;

    /// Takes a piece of literal content.
    fn push_str(&mut self, elem: &str)
        ensures
            final(self).text() == old(self).text() + Self::push_text(elem@),
    ;

    /// Takes one character of literal content, as `push_str` would take the
    /// string of that one character.
    fn push_char(&mut self, elem: char)
        ensures
            final(self).text() == old(self).text() + Self::push_text(seq![elem]),
    ;

    /// Ends the current element.
    fn close(&mut self)
        ensures
            final(self).text() == old(self).text() + Self::close_text(),
    ;
}

/// What one instruction appends to a sink of kind `C`.
pub open spec fn op_text<C: ElemCompose>(op: SinkOp) -> Seq<char> {
    match op {
        SinkOp::Open(name) => C::open_text(name),
        SinkOp::Push(content) => C::push_text(content),
        SinkOp::Close => C::close_text(),
    }
}

/// The text of a sink of kind `C` that held `start` and was then given `ops`
/// in order.
pub open spec fn run<C: ElemCompose>(start: Seq<char>, ops: Seq<SinkOp>) -> Seq<char>
    decreases ops.len(),
{
    if ops.len() == 0 {
        start
    } else {
        run::<C>(start, ops.drop_last()) + op_text::<C>(ops.last())
    }
}

/// Giving a sink no instruction leaves its text as it was.
pub broadcast proof fn lemma_run_empty<C: ElemCompose>(start: Seq<char>)
    ensures
        #[trigger] run::<C>(start, Seq::<SinkOp>::empty()) == start,
{
}

/// One more instruction appends that instruction's text.
pub broadcast proof fn lemma_run_push<C: ElemCompose>(
    start: Seq<char>,
    ops: Seq<SinkOp>,
    op: SinkOp,
)
    ensures
        #[trigger] run::<C>(start, ops.push(op)) == run::<C>(start, ops) + op_text::<C>(op),
{
    assert(ops.push(op).drop_last() =~= ops);
}

/// Two runs in a row are one run of both instruction lists.
pub broadcast proof fn lemma_run_concat<C: ElemCompose>(
    start: Seq<char>,
    first: Seq<SinkOp>,
    second: Seq<SinkOp>,
)
    ensures
        #[trigger] run::<C>(start, first + second) == run::<C>(run::<C>(start, first), second),
    decreases second.len(),
{
    if second.len() == 0 {
        assert(first + second =~= first);
    } else {
        lemma_run_concat::<C>(start, first, second.drop_last());
        assert((first + second).drop_last() =~= first + second.drop_last());
    }
}

/// A sink only ever appends: its text after a run is its text before, followed
/// by what the same run leaves in an empty sink.
pub proof fn lemma_run_appends<C: ElemCompose>(start: Seq<char>, ops: Seq<SinkOp>)
    ensures
        run::<C>(start, ops) == start + run::<C>(Seq::empty(), ops),
    decreases ops.len(),
{
    if ops.len() == 0 {
        assert(start + Seq::<char>::empty() =~= start);
    } else {
        lemma_run_appends::<C>(start, ops.drop_last());
        let head = run::<C>(Seq::empty(), ops.drop_last());
        let tail = op_text::<C>(ops.last());
        assert((start + head) + tail =~= start + (head + tail));
    }
}

pub broadcast group group_run {
    lemma_run_empty,
    lemma_run_push,
    lemma_run_concat,
}

} // verus!
