//! A plain `String` is a rendering sink too: it gathers the same text that a
//! `DefaultComposer` does.

use crate::default_composer::{framed_close, framed_open};
use crate::elem_compose::{run, ElemCompose, SinkOp};
use vstd::prelude::*;
use vstd::string::StringExecFns;

verus! {

impl ElemCompose for String {
    open spec fn text(&self) -> Seq<char> {
        self@
    }

    open spec fn open_text(name: Seq<char>) -> Seq<char> {
        framed_open(name)
    }

    open spec fn push_text(content: Seq<char>) -> Seq<char> {
        content
    }

    open spec fn close_text() -> Seq<char> {
        framed_close()
    }

    fn open(&mut self, name: &str) {
        let ghost before = self@;
        self.append("{\"");
        self.append(name);
        self.append("\":");
        assert(self@ =~= before + framed_open(name@));
    }

    fn push_str(&mut self, elem: &str) {
        self.append(elem);
    }

    fn push_char(&mut self, elem: char) {
        let ghost before = self@;
        self.push(elem);
        assert(self@ =~= before + seq![elem]);
    }

    fn close(&mut self) {
        self.append("}");
    }
}

/// The text that the instructions leave in an empty rendering sink.
pub open spec fn framed_text(ops: Seq<SinkOp>) -> Seq<char> {
    run::<String>(Seq::empty(), ops)
}

} // verus!
