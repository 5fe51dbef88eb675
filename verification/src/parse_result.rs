//! The closed set of failures a decode can end in.

use core::str::Utf8Error;
use vstd::prelude::*;
use vstd::std_specs::convert::FromSpecImpl;

verus! {

/// Why a decode stopped.
#[derive(Debug, Clone, Copy, PartialEq, Eq, Structural)]
pub enum ErrorCode {
    /// The byte source failed or ended before a value was complete.
    ReadError,
    /// The tag byte names no supported term kind.
    NotImplemented,
    /// The items of a list were not followed by the nil tag.
    InvalidListTerm,
    /// The version marker is wrong, or a tag stood where only certain tags may.
    NotErlangBinary,
    /// An atom declared as UTF-8 holds bytes that are not.
    NotUtf8Atom,
}

/// The failure of a decode: its kind and, where another failure lies under
/// it, that failure as its cause. The kind alone decides what is reported.
#[derive(Debug)]
pub struct ParseError {
    /// The kind of the failure.
    pub error_code: ErrorCode,
    /// The fault of the byte source under a failed read, where the source
    /// gives one.
    pub io_error: Option<std::io::Error>,
    /// What was found wrong with the bytes of an atom declared as UTF-8.
    pub utf8_error: Option<Utf8Error>,
}

/// How a decode ends: with nothing to hand back, or with its failure.
pub type ParseResult = Result<(), ParseError>;

/// The failure of this kind that has no cause.
pub open spec fn bare(code: ErrorCode) -> ParseError {
    ParseError { error_code: code, io_error: None, utf8_error: None }
}

/// What a failure of this kind looks like when the decoder reports it: only a
/// failed read may carry a fault of the byte source, and the atoms that are
/// not UTF-8, and only they, carry what was found wrong with their bytes.
pub open spec fn fails_with(e: ParseError, code: ErrorCode) -> bool {
    &&& e.error_code == code
    &&& e.io_error is Some ==> code == ErrorCode::ReadError
    &&& e.utf8_error is Some <==> code == ErrorCode::NotUtf8Atom
}

/// The name under which a failure kind is reported.
pub open spec fn code_name(code: ErrorCode) -> Seq<char> {
    match code {
        ErrorCode::ReadError => "ReadError"@,
        ErrorCode::NotImplemented => "NotImplemented"@,
        ErrorCode::InvalidListTerm => "InvalidListTerm"@,
        ErrorCode::NotErlangBinary => "NotErlangBinary"@,
        ErrorCode::NotUtf8Atom => "NotUtf8Atom"@,
    }
}

impl ErrorCode {
    /// The kind's name, as it is reported to the user.
    pub fn name(&self) -> (r: &'static str)
        ensures
            r@ == code_name(*self),
    {
        match self {
            ErrorCode::ReadError => "ReadError",
            ErrorCode::NotImplemented => "NotImplemented",
            ErrorCode::InvalidListTerm => "InvalidListTerm",
            ErrorCode::NotErlangBinary => "NotErlangBinary",
            ErrorCode::NotUtf8Atom => "NotUtf8Atom",
        }
    }
}

impl ParseError {
    /// A failure of this kind, without a cause.
    pub fn new(err_code: ErrorCode) -> (e: ParseError)
        ensures
            e == bare(err_code),
    {
        ParseError::common_error(err_code)
    }

    /// The version marker is wrong, or a tag stood where it may not.
    pub fn not_erlang_binary() -> (e: ParseError)
        ensures
            e == bare(ErrorCode::NotErlangBinary),
    {
        ParseError::common_error(ErrorCode::NotErlangBinary)
    }

    /// The tag is not in the table.
    pub fn not_implemented() -> (e: ParseError)
        ensures
            e == bare(ErrorCode::NotImplemented),
    {
        ParseError::common_error(ErrorCode::NotImplemented)
    }

    /// A list does not end in nil.
    pub fn invalid_list_item() -> (e: ParseError)
        ensures
            e == bare(ErrorCode::InvalidListTerm),
    {
        ParseError::common_error(ErrorCode::InvalidListTerm)
    }

    /// The bytes ran out, with no fault of the source to show for it.
    pub fn read_error() -> (e: ParseError)
        ensures
            e == bare(ErrorCode::ReadError),
    {
        ParseError::common_error(ErrorCode::ReadError)
    }

    /// A failure of this kind, without a cause.
    pub fn common_error(code: ErrorCode) -> (e: ParseError)
        ensures
            e == bare(code),
    {
        ParseError { error_code: code, io_error: None, utf8_error: None }
    }

    /// The text shown for this failure: the name of its kind.
    pub fn to_string(&self) -> (r: String)
        ensures
            r@ == code_name(self.error_code),
    {
        self.error_code.name().to_owned()
    }
}

/// A fault of the byte source is a failed read, with the fault as its cause.
impl From<std::io::Error> for ParseError {
    fn from(err: std::io::Error) -> (e: ParseError) {
        ParseError { error_code: ErrorCode::ReadError, io_error: Some(err), utf8_error: None }
    }
}

impl FromSpecImpl<std::io::Error> for ParseError {
    open spec fn obeys_from_spec() -> bool {
        true
    }

    open spec fn from_spec(err: std::io::Error) -> ParseError {
        ParseError { error_code: ErrorCode::ReadError, io_error: Some(err), utf8_error: None }
    }
}

/// Bytes that are not UTF-8 where an atom declared them to be are an atom that
/// is not UTF-8, with what was found wrong as its cause.
impl From<Utf8Error> for ParseError {
    fn from(err: Utf8Error) -> (e: ParseError) {
        ParseError { error_code: ErrorCode::NotUtf8Atom, io_error: None, utf8_error: Some(err) }
    }
}

impl FromSpecImpl<Utf8Error> for ParseError {
    open spec fn obeys_from_spec() -> bool {
        true
    }

    open spec fn from_spec(err: Utf8Error) -> ParseError {
        ParseError { error_code: ErrorCode::NotUtf8Atom, io_error: None, utf8_error: Some(err) }
    }
}

} // verus!
