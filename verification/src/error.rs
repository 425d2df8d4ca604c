//! Errors.

use vstd::prelude::*;

use crate::codes::{Kind, ResponseCodeKind};

verus! {

/// What can go wrong.
#[derive(Debug)]
pub enum FinTSError {
    /// The bank refuses the PIN.
    PinWrong,
    /// The bank has locked the access.
    AccountLocked,
    /// The bank reports an error.
    BankError { kind: ResponseCodeKind, message: String },
    /// The dialog cannot go on.
    Dialog(String),
    /// A message from the bank is malformed.
    Parse(String),
    /// A value cannot be written in a message.
    Encoding(String),
}

/// An error as a value.
pub enum Failure {
    PinWrong,
    AccountLocked,
    BankError { kind: Kind, message: Seq<char> },
    Dialog(Seq<char>),
    Parse(Seq<char>),
    Encoding(Seq<char>),
}

impl View for FinTSError {
    type V = Failure;

    open spec fn view(&self) -> Failure {
        match self {
            FinTSError::PinWrong => Failure::PinWrong,
            FinTSError::AccountLocked => Failure::AccountLocked,
            FinTSError::BankError { kind, message } => Failure::BankError {
                kind: kind@,
                message: message@,
            },
            FinTSError::Dialog(s) => Failure::Dialog(s@),
            FinTSError::Parse(s) => Failure::Parse(s@),
            FinTSError::Encoding(s) => Failure::Encoding(s@),
        }
    }
}

pub type Result<T> = core::result::Result<T, FinTSError>;

/// A result by the views of what it holds.
pub open spec fn result_of<T: View>(res: Result<T>) -> core::result::Result<T::V, Failure> {
    match res {
        Ok(t) => Ok(t@),
        Err(e) => Err(e@),
    }
}

} // verus!
