//! Errors that the mock bank answers with on demand.

use vstd::prelude::*;
use vstd::utf8::*;

use crate::text::{copy_bytes, push_text};

verus! {

/// The operation to answer with an error.
#[derive(Debug, Clone, Copy, PartialEq, Eq, Structural)]
pub enum ErrorOn {
    /// HKSAL.
    Balance,
    /// HKKAZ.
    Transactions,
    /// HKWPD.
    Holdings,
    /// HKVVB, and HKSYN with it.
    Init,
}

/// The error to answer with.
#[derive(Debug, Clone, Copy, PartialEq, Eq, Structural)]
pub enum ErrorType {
    WrongPin,
    Locked,
    BankError,
    Timeout,
}

/// The code of an error.
pub open spec fn error_code(t: ErrorType) -> Seq<char> {
    match t {
        ErrorType::WrongPin => "9910"@,
        ErrorType::Locked => "3938"@,
        ErrorType::BankError => "9010"@,
        ErrorType::Timeout => "9800"@,
    }
}

/// The text that comes with the code.
pub open spec fn error_text(t: ErrorType) -> Seq<char> {
    match t {
        ErrorType::WrongPin => "Pin ungueltig"@,
        ErrorType::Locked => "Zugang gesperrt"@,
        ErrorType::BankError => "Auftrag abgelehnt"@,
        ErrorType::Timeout => "Zeitueberschreitung"@,
    }
}

/// The error on one operation, where that is the one set.
pub open spec fn fault_on(
    error_on: Option<ErrorOn>,
    error_type: ErrorType,
    operation: ErrorOn,
) -> Option<ErrorType> {
    if error_on == Some(operation) {
        Some(error_type)
    } else {
        None
    }
}

/// What stands in place of the answer to a segment: its number and the code of
/// the error.
pub open spec fn error_reply(number: Seq<char>, t: ErrorType) -> Seq<u8> {
    encode_utf8("HIRMS::2:"@) + encode_utf8(number) + encode_utf8("+"@) + encode_utf8(error_code(t))
        + encode_utf8("::"@) + encode_utf8(error_text(t)) + encode_utf8("'"@)
}

impl ErrorType {
    /// The code of the error.
    pub fn code(&self) -> (s: &'static str)
        ensures
            s@ == error_code(*self),
    {
        match self {
            ErrorType::WrongPin => "9910",
            ErrorType::Locked => "3938",
            ErrorType::BankError => "9010",
            ErrorType::Timeout => "9800",
        }
    }

    /// The text that comes with the code.
    pub fn text(&self) -> (s: &'static str)
        ensures
            s@ == error_text(*self),
    {
        match self {
            ErrorType::WrongPin => "Pin ungueltig",
            ErrorType::Locked => "Zugang gesperrt",
            ErrorType::BankError => "Auftrag abgelehnt",
            ErrorType::Timeout => "Zeitueberschreitung",
        }
    }
}

/// The error on one operation, where that is the one set.
pub fn find_fault(
    error_on: Option<ErrorOn>,
    error_type: ErrorType,
    operation: ErrorOn,
) -> (res: Option<ErrorType>)
    ensures
        res == fault_on(error_on, error_type, operation),
{
    match error_on {
        Some(set) => if set == operation {
            Some(error_type)
        } else {
            None
        },
        None => None,
    }
}

/// Writes an error in place of the answer to a segment.
pub fn build_error_reply(number: &str, t: ErrorType) -> (out: Vec<u8>)
    ensures
        out@ == error_reply(number@, t),
{
    let mut out: Vec<u8> = copy_bytes("HIRMS::2:".as_bytes());
    push_text(&mut out, number);
    push_text(&mut out, "+");
    push_text(&mut out, t.code());
    push_text(&mut out, "::");
    push_text(&mut out, t.text());
    push_text(&mut out, "'");
    out
}

} // verus!
