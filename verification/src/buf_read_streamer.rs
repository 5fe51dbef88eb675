//! A byte source over a buffer that is already in memory.

use crate::parse_result::ParseError;
use crate::read_stream::{be_u32, ReadStream};
use vstd::prelude::*;
use vstd::slice::slice_subrange;

verus! {

/// Reads from the front of a byte buffer; what it holds is what is left.
pub struct BufReadStreamer<'a> {
    buf_reader: &'a [u8],
}

impl<'a> BufReadStreamer<'a> {
    /// The bytes that are left to read.
    pub closed spec fn view(&self) -> Seq<u8> {
        self.buf_reader@
    }

    /// A source that hands out the bytes of `buff`, from the first on.
    pub fn new(buff: &'a [u8]) -> (r: BufReadStreamer<'a>)
        ensures
            r.remaining() == buff@,
    {
        BufReadStreamer { buf_reader: buff }
    }

    /// Steps over the first `n` bytes.
    fn advance(&mut self, n: usize)
        requires
            n <= old(self).view().len(),
        ensures
            final(self).view() == old(self).view().skip(n as int),
    {
        let whole: &'a [u8] = self.buf_reader;
        self.buf_reader = slice_subrange(whole, n, whole.len());
    }
}

impl<'a> ReadStream for BufReadStreamer<'a> {
    open spec fn remaining(&self) -> Seq<u8> {
        self.view()
    }

    fn read_u8(&mut self) -> (r: Result<u8, ParseError>) {
        if self.buf_reader.len() < 1 {
            return Err(ParseError::read_error());
        }
        let v: u8 = self.buf_reader[0];
        self.advance(1);
        Ok(v)
    }

    fn read_u16(&mut self) -> (r: Result<u16, ParseError>) {
        if self.buf_reader.len() < 2 {
            return Err(ParseError::read_error());
        }
        let b0: u16 = self.buf_reader[0] as u16;
        let b1: u16 = self.buf_reader[1] as u16;
        self.advance(2);
        Ok(b0 * 256 + b1)
    }

    fn read_u32(&mut self) -> (r: Result<u32, ParseError>) {
        if self.buf_reader.len() < 4 {
            return Err(ParseError::read_error());
        }
        let v: u32 = be_value(self.buf_reader);
        self.advance(4);
        Ok(v)
    }

    fn read_i32(&mut self) -> (r: Result<i32, ParseError>) {
        if self.buf_reader.len() < 4 {
            return Err(ParseError::read_error());
        }
        let v: u32 = be_value(self.buf_reader);
        self.advance(4);
        if v >= 0x8000_0000 {
            let low: i32 = (v - 0x8000_0000) as i32;
            Ok(low + i32::MIN)
        } else {
            Ok(v as i32)
        }
    }

    fn read_exact(&mut self, buf: &mut [u8]) -> (r: Result<(), ParseError>) {
        let n: usize = buf.len();
        if self.buf_reader.len() < n {
            return Err(ParseError::read_error());
        }
        let mut i: usize = 0;
        while i < n
            invariant
                i <= n,
                n <= self.buf_reader@.len(),
                buf@.len() == n,
                forall|j: int| 0 <= j < i ==> buf@[j] == self.buf_reader@[j],
            decreases n - i,
        {
            buf[i] = self.buf_reader[i];
            i = i + 1;
        }
        assert(buf@ =~= self.buf_reader@.take(n as int));
        self.advance(n);
        Ok(())
    }
}

/// The big-endian value of the first four bytes.
fn be_value(b: &[u8]) -> (v: u32)
    requires
        b@.len() >= 4,
    ensures
        v == be_u32(b@),
{
    let b0: u32 = b[0] as u32;
    let b1: u32 = b[1] as u32;
    let b2: u32 = b[2] as u32;
    let b3: u32 = b[3] as u32;
    ((b0 * 256 + b1) * 256 + b2) * 256 + b3
}

} // verus!
