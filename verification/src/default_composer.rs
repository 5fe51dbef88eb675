//! The rendering sink: every element becomes `{"name":` ... `}`.

use crate::elem_compose::{run, ElemCompose, SinkOp};
use vstd::prelude::*;
use vstd::string::StringExecFns;

verus! {

/// What the rendering sinks write when an element of this name begins.
pub open spec fn framed_open(name: Seq<char>) -> Seq<char> {
    "{\""@ + name + "\":"@
}

/// What the rendering sinks write when an element ends.
pub open spec fn framed_close() -> Seq<char> {
    "}"@
}

/// A sink that gathers the visible rendering in a string of its own.
pub struct DefaultComposer {
    result: String,
}

impl DefaultComposer {
    /// The text gathered so far.
    pub closed spec fn view(&self) -> Seq<char> {
        self.result@
    }

    /// A sink that holds no text yet.
    pub fn new() -> (r: DefaultComposer)
        ensures
            r.text() == Seq::<char>::empty(),
    {
        DefaultComposer { result: String::new() }
    }

    /// A copy of the text gathered so far.
    pub fn get_result(&self) -> (r: String)
        ensures
            r@ == self.text(),
    {
        self.result.clone()
    }
}

impl ElemCompose for DefaultComposer {
    open spec fn text(&self) -> Seq<char> {
        self.view()
    }

    open spec fn open_text(name: Seq<char>) -> Seq<char> {
        framed_open(name)
    }

    open spec fn push_text(content: Seq<char>) -> Seq<char> {
        content
    }

    open spec fn close_text() -> Seq<char> {
        framed_close()
    }

    fn open(&mut self, name: &str) {
        let ghost before = self.result@;
        self.result.append("{\"");
        self.result.append(name);
        self.result.append("\":");
        assert(self.result@ =~= before + framed_open(name@));
    }

    fn push_str(&mut self, elem: &str) {
        self.result.append(elem);
    }

    fn push_char(&mut self, elem: char) {
        let ghost before = self.result@;
        self.result.push(elem);
        assert(self.result@ =~= before + seq![elem]);
    }

    fn close(&mut self) {
        self.result.append("}");
    }
}

/// The two rendering sinks gather the same text.
pub proof fn lemma_framed_alike(ops: Seq<SinkOp>)
    ensures
        run::<DefaultComposer>(Seq::empty(), ops) == run::<String>(Seq::empty(), ops),
    decreases ops.len(),
{
    if ops.len() > 0 {
        lemma_framed_alike(ops.drop_last());
    }
}

} // verus!
