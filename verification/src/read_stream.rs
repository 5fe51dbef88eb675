//! The byte source: sequential reads of big-endian integers and of raw bytes.

use crate::parse_result::{fails_with, ErrorCode, ParseError};
use vstd::prelude::*;

verus! {

/// The unsigned value of two bytes, most significant first.
pub open spec fn be_u16(b: Seq<u8>) -> int
    recommends
        b.len() >= 2,
{
    b[0] as int * 256 + b[1] as int
}

/// The unsigned value of four bytes, most significant first.
pub open spec fn be_u32(b: Seq<u8>) -> int
    recommends
        b.len() >= 4,
{
    ((b[0] as int * 256 + b[1] as int) * 256 + b[2] as int) * 256 + b[3] as int
}

/// The two's-complement value of four bytes, most significant first.
pub open spec fn be_i32(b: Seq<u8>) -> int
    recommends
        b.len() >= 4,
{
    if be_u32(b) >= 0x8000_0000 {
        be_u32(b) - 0x1_0000_0000
    } else {
        be_u32(b)
    }
}

/// What a read of `n` bytes does to a source that had `before` left: it
/// succeeds exactly when that many bytes are there, and then leaves the rest.
/// Nothing is said of what a failed read leaves.
pub open spec fn took(before: Seq<u8>, n: nat, ok: bool, after: Seq<u8>) -> bool {
    if before.len() >= n {
        ok && after == before.skip(n as int)
    } else {
        !ok
    }
}

/// The one way in which a read fails: as a failed read, with or without the
/// fault of the source as its cause.
pub open spec fn read_failed<T>(r: Result<T, ParseError>) -> bool {
    r matches Err(e) ==> fails_with(e, ErrorCode::ReadError)
}

/// A sequential, non-seekable source of bytes. A source stands for the finite
/// sequence of bytes that it has yet to hand out: a read succeeds exactly when
/// enough of them are left, and a source that breaks off has none left from
/// there on.
pub trait ReadStream {
    /// The bytes not yet read.
    spec fn remaining(&self) -> Seq<u8>;

    /// Reads one byte.
    fn read_u8(&mut self) -> (r: Result<u8, ParseError>)
        ensures
            took(old(self).remaining(), 1, r is Ok, final(self).remaining()),
            r matches Ok(v) ==> v == old(self).remaining()[0],
            read_failed(r),
    ;

    /// Reads two bytes as an unsigned integer, most significant byte first.
    fn read_u16(&mut self) -> (r: Result<u16, ParseError>)
        ensures
            took(old(self).remaining(), 2, r is Ok, final(self).remaining()),
            r matches Ok(v) ==> v == be_u16(old(self).remaining()),
            read_failed(r),
    ;

    /// Reads four bytes as an unsigned integer, most significant byte first.
    fn read_u32(&mut self) -> (r: Result<u32, ParseError>)
        ensures
            took(old(self).remaining(), 4, r is Ok, final(self).remaining()),
            r matches Ok(v) ==> v == be_u32(old(self).remaining()),
            read_failed(r),
    ;

    /// Reads four bytes as a signed integer in two's complement, most
    /// significant byte first.
    fn read_i32(&mut self) -> (r: Result<i32, ParseError>)
        ensures
            took(old(self).remaining(), 4, r is Ok, final(self).remaining()),
            r matches Ok(v) ==> v == be_i32(old(self).remaining()),
            read_failed(r),
    ;

    /// Fills the whole of `buf` with the next bytes.
    fn read_exact(&mut self, buf: &mut [u8]) -> (r: Result<(), ParseError>)
        ensures
            took(old(self).remaining(), old(buf)@.len(), r is Ok, final(self).remaining()),
            final(buf)@.len() == old(buf)@.len(),
            r is Ok ==> final(buf)@ == old(self).remaining().take(old(buf)@.len() as int),
            read_failed(r),
    ;
}

} // verus!
