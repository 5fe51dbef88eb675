//! The one-byte tags of the format.

use vstd::prelude::*;

verus! {

/// The first byte of every encoded document.
pub const VERSION_MARKER: u8 = 131;

/// A double in eight bytes.
pub const NEW_FLOAT_EXT: u8 = 70;

/// A binary whose last byte is used in part.
pub const BIT_BINARY_EXT: u8 = 77;

/// An index into the atom cache.
pub const ATOM_CACHE_REF: u8 = 82;

/// An unsigned integer in one byte.
pub const SMALL_INTEGER_EXT: u8 = 97;

/// A signed integer in four bytes.
pub const INTEGER_EXT: u8 = 98;

/// A float as thirty-one bytes of decimal text.
pub const FLOAT_EXT: u8 = 99;

/// A legacy atom with a two-byte length.
pub const ATOM_EXT: u8 = 100;

/// A reference.
pub const REFERENCE_EXT: u8 = 101;

/// A port.
pub const PORT_EXT: u8 = 102;

/// A process id.
pub const PID_EXT: u8 = 103;

/// A tuple with a one-byte arity.
pub const SMALL_TUPLE_EXT: u8 = 104;

/// A tuple with a four-byte arity.
pub const LARGE_TUPLE_EXT: u8 = 105;

/// The empty list, which also ends every list.
pub const NIL_EXT: u8 = 106;

/// A list of character codes, each in one byte.
pub const STRING_EXT: u8 = 107;

/// A list.
pub const LIST_EXT: u8 = 108;

/// A binary.
pub const BINARY_EXT: u8 = 109;

/// An integer of any size with a one-byte digit count.
pub const SMALL_BIG_EXT: u8 = 110;

/// An integer of any size with a four-byte digit count.
pub const LARGE_BIG_EXT: u8 = 111;

/// A new-style function closure.
pub const NEW_FUN_EXT: u8 = 112;

/// An exported function.
pub const EXPORT_EXT: u8 = 113;

/// A new-style reference.
pub const NEW_REFERENCE_EXT: u8 = 114;

/// A legacy atom with a one-byte length.
pub const SMALL_ATOM_EXT: u8 = 115;

/// A map.
pub const MAP_EXT: u8 = 116;

/// A function closure.
pub const FUN_EXT: u8 = 117;

/// A UTF-8 atom with a two-byte length.
pub const ATOM_UTF8_EXT: u8 = 118;

/// A UTF-8 atom with a one-byte length.
pub const SMALL_ATOM_UTF8_EXT: u8 = 119;

/// The tags that encode an atom.
pub open spec fn is_atom_tag(tag: u8) -> bool {
    tag == SMALL_ATOM_UTF8_EXT || tag == ATOM_UTF8_EXT || tag == ATOM_CACHE_REF || tag == ATOM_EXT
        || tag == SMALL_ATOM_EXT
}

/// The tags that encode an integer of fixed width.
pub open spec fn is_integer_tag(tag: u8) -> bool {
    tag == INTEGER_EXT || tag == SMALL_INTEGER_EXT
}

} // verus!
