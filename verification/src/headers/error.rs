//! What can be wrong with a header.

use vstd::prelude::*;

verus! {

/// Why a header could not be decoded or encoded.
#[derive(Clone, Copy, Debug, PartialEq, Eq)]
pub enum PduError {
    NotEnoughBytes { received: usize, expected: usize },
    InvalidField { field: &'static str, reason: &'static str },
    Other { description: &'static str },
}

/// The result of decoding.
pub type DecodeResult<T> = Result<T, PduError>;

/// The result of encoding.
pub type EncodeResult<T> = Result<T, PduError>;

/// A `PduError` as a value.
pub enum Fault {
    NotEnoughBytes { received: int, expected: int },
    InvalidField { field: Seq<char>, reason: Seq<char> },
    Other { description: Seq<char> },
}

impl View for PduError {
    type V = Fault;

    open spec fn view(&self) -> Fault {
        match *self {
            PduError::NotEnoughBytes { received, expected } => Fault::NotEnoughBytes {
                received: received as int,
                expected: expected as int,
            },
            PduError::InvalidField { field, reason } => Fault::InvalidField {
                field: field@,
                reason: reason@,
            },
            PduError::Other { description } => Fault::Other { description: description@ },
        }
    }
}

/// The fault of a buffer of `received` bytes that should have `expected`.
pub open spec fn not_enough(received: int, expected: int) -> Fault {
    Fault::NotEnoughBytes { received, expected }
}

/// A result ends as it should.
pub open spec fn ends<T>(res: Result<T, PduError>, end: Result<(), Fault>) -> bool {
    match end {
        Ok(_) => res is Ok,
        Err(fault) => res matches Err(e) && e@ == fault,
    }
}

} // verus!
