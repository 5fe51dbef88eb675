//! The raw-passthrough sink: it keeps the literal content and drops the
//! element framing, so that a decoded value can be set into a text that its
//! parent builds by hand.

use crate::elem_compose::{run, ElemCompose, SinkOp};
use vstd::prelude::*;
use vstd::string::StringExecFns;

verus! {

/// A sink that gathers content only.
pub struct RawStringComposer {
    result: String,
}

impl RawStringComposer {
    /// The content gathered so far.
    pub closed spec fn view(&self) -> Seq<char> {
        self.result@
    }

    /// A sink that holds no content yet.
    pub fn new() -> (r: RawStringComposer)
        ensures
            r.text() == Seq::<char>::empty(),
    {
        RawStringComposer { result: String::new() }
    }

    /// The content gathered so far.
    pub fn as_str(&self) -> (r: &str)
        ensures
            r@ == self.text(),
    {
        self.result.as_str()
    }
}

impl ElemCompose for RawStringComposer {
    open spec fn text(&self) -> Seq<char> {
        self.view()
    }

    open spec fn open_text(name: Seq<char>) -> Seq<char> {
        Seq::empty()
    }

    open spec fn push_text(content: Seq<char>) -> Seq<char> {
        content
    }

    open spec fn close_text() -> Seq<char> {
        Seq::empty()
    }

    fn open(&mut self, _name: &str) {
        assert(self.result@ + Seq::<char>::empty() =~= self.result@);
    }

    fn push_str(&mut self, elem: &str) {
        self.result.append(elem);
    }

    fn push_char(&mut self, elem: char) {
        let ghost before = self.result@;
        self.result.push(elem);
        assert(self.result@ =~= before + seq![elem]);
    }

    fn close(&mut self) {
        assert(self.result@ + Seq::<char>::empty() =~= self.result@);
    }
}

/// The content of the instructions, one piece after the other.
pub open spec fn raw_text(ops: Seq<SinkOp>) -> Seq<char> {
    run::<RawStringComposer>(Seq::empty(), ops)
}

} // verus!
