//! How the values inside a term are written out.

use byteorder::{BigEndian, ByteOrder};
use num_bigint::{BigInt, Sign};
use vstd::prelude::*;

verus! {

/// The character that a legacy payload byte stands for: the one with that code.
pub open spec fn latin1(b: u8) -> char {
    b as char
}

/// The decimal digit for a value below ten.
pub open spec fn digit_char(d: int) -> char
    recommends
        0 <= d < 10,
{
    ((48 + d) as u8) as char
}

/// The base-10 digits of a natural number, without leading zeros.
pub open spec fn digits_text(n: nat) -> Seq<char>
    decreases n,
{
    if n < 10 {
        seq![digit_char(n as int)]
    } else {
        digits_text(n / 10).push(digit_char((n % 10) as int))
    }
}

/// The base-10 text of an integer: a minus sign where it is negative, then
/// the digits of its magnitude.
pub open spec fn decimal_text(v: int) -> Seq<char> {
    if v < 0 {
        seq!['-'] + digits_text((-v) as nat)
    } else {
        digits_text(v as nat)
    }
}

/// The decimal digit for the last digit of `n`.
fn last_digit(n: u64) -> (c: char)
    ensures
        c == digit_char((n % 10) as int),
{
    let d: u8 = (n % 10) as u8;
    (48 + d) as char
}

/// Writes an integer in base 10.
pub fn decimal(v: i64) -> (r: String)
    ensures
        r@ == decimal_text(v as int),
{
    let negative: bool = v < 0;
    let magnitude: u64 = if negative {
        ((-(v + 1)) as u64) + 1
    } else {
        v as u64
    };
    // The digits, least significant first.
    let mut low_first: Vec<char> = Vec::new();
    low_first.push(last_digit(magnitude));
    let mut left: u64 = magnitude / 10;
    while left > 0
        invariant
            low_first@.len() >= 1,
            left == 0 ==> digits_text(magnitude as nat) =~= low_first@.reverse(),
            left > 0 ==> digits_text(magnitude as nat) =~= digits_text(left as nat)
                + low_first@.reverse(),
        decreases left,
    {
        let ghost before = low_first@;
        let d: char = last_digit(left);
        low_first.push(d);
        assert(low_first@.reverse() =~= seq![d] + before.reverse());
        left = left / 10;
    }
    let mut out: String = String::new();
    if negative {
        out.push('-');
    }
    let ghost sign = out@;
    let count: usize = low_first.len();
    let mut i: usize = count;
    while i > 0
        invariant
            i <= count,
            count == low_first@.len(),
            out@ =~= sign + low_first@.reverse().take(count - i),
        decreases i,
    {
        i = i - 1;
        out.push(low_first[i]);
    }
    assert(low_first@.reverse().take(count as int) =~= low_first@.reverse());
    out
}

/// The lowercase hexadecimal digit for a value below sixteen.
pub open spec fn hex_digit(d: int) -> char
    recommends
        0 <= d < 16,
{
    if d < 10 {
        ((48 + d) as u8) as char
    } else {
        ((87 + d) as u8) as char
    }
}

/// Two lowercase hexadecimal digits for each byte, the high one first.
pub open spec fn hex_text(bytes: Seq<u8>) -> Seq<char>
    decreases bytes.len(),
{
    if bytes.len() == 0 {
        Seq::empty()
    } else {
        hex_text(bytes.drop_last()).push(hex_digit(bytes.last() as int / 16)).push(
            hex_digit(bytes.last() as int % 16),
        )
    }
}

/// `hex::encode`: the bytes as a hex string in lowercase characters, two
/// digits for every byte of the input, in the input's order.
#[verifier::external_body]
pub(crate) fn hex_encode(data: &[u8]) -> (r: String)
    ensures
        r@ == hex_text(data@),
{
    hex::encode(data)
}

/// The standard base64 text of the bytes, with padding.
pub uninterp spec fn base64_text(data: Seq<u8>) -> Seq<char>;

/// Whether the base64 text of so many bytes has a length that a `usize` holds.
pub open spec fn base64_fits(len: int) -> bool {
    len / 3 * 4 + 4 <= usize::MAX
}

/// `base64::encode`: the base64 text of the input in the standard character
/// set, padded. It is a function of the input bytes alone. The call panics
/// where the length of the text overflows `usize`, which `requires` rules out.
#[verifier::external_body]
pub(crate) fn base64_encode(data: &[u8]) -> (r: String)
    requires
        base64_fits(data@.len() as int),
    ensures
        r@ == base64_text(data@),
{
    base64::encode(data)
}

/// The value of a magnitude given as bytes, least significant first.
pub open spec fn le_value(digits: Seq<u8>) -> nat
    decreases digits.len(),
{
    if digits.len() == 0 {
        0
    } else {
        digits[0] as nat + 256 * le_value(digits.drop_first())
    }
}

/// The integer with this sign and this little-endian magnitude.
pub open spec fn big_value(negative: bool, digits: Seq<u8>) -> int {
    if negative {
        -(le_value(digits) as int)
    } else {
        le_value(digits) as int
    }
}

/// `BigInt::from_bytes_le`, then the integer's `to_string`: the exact base-10
/// text of the integer whose magnitude the bytes give, least significant byte
/// first, and whose sign is as asked. A zero magnitude gives `0` under either
/// sign.
#[verifier::external_body]
pub(crate) fn big_decimal(negative: bool, digits: &[u8]) -> (r: String)
    ensures
        r@ == decimal_text(big_value(negative, digits@)),
{
    let sign = match negative {
        true => Sign::Minus,
        false => Sign::Plus,
    };
    BigInt::from_bytes_le(sign, digits).to_string()
}

/// The text of the double whose IEEE-754 bits are the first eight bytes, most
/// significant first, as the standard library displays a double.
pub uninterp spec fn float_text(bits: Seq<u8>) -> Seq<char>;

/// `BigEndian::read_f64`, then the double's `to_string`. The text is a
/// function of the bytes alone. The call panics on fewer than eight bytes,
/// which `requires` rules out.
#[verifier::external_body]
pub(crate) fn float_decimal(bits: &[u8]) -> (r: String)
    requires
        bits@.len() >= 8,
    ensures
        r@ == float_text(bits@),
{
    BigEndian::read_f64(bits).to_string()
}

} // verus!
