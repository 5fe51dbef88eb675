//! The discarding sink: it lets a term be walked, so that the byte source
//! ends up behind it, and keeps nothing of the rendering.

use crate::elem_compose::ElemCompose;
use vstd::prelude::*;

verus! {

/// A sink that gathers nothing.
pub struct SkipComposer;

impl ElemCompose for SkipComposer {
    open spec fn text(&self) -> Seq<char> {
        Seq::empty()
    }

    open spec fn open_text(name: Seq<char>) -> Seq<char> {
        Seq::empty()
    }

    open spec fn push_text(content: Seq<char>) -> Seq<char> {
        Seq::empty()
    }

    open spec fn close_text() -> Seq<char> {
        Seq::empty()
    }

    fn open(&mut self, _name: &str) {
        assert(Seq::<char>::empty() + Seq::<char>::empty() =~= Seq::<char>::empty());
    }

    fn push_str(&mut self, _elem: &str) {
        assert(Seq::<char>::empty() + Seq::<char>::empty() =~= Seq::<char>::empty());
    }

    fn push_char(&mut self, _elem: char) {
        assert(Seq::<char>::empty() + Seq::<char>::empty() =~= Seq::<char>::empty());
    }

    fn close(&mut self) {
        assert(Seq::<char>::empty() + Seq::<char>::empty() =~= Seq::<char>::empty());
    }
}

} // verus!
