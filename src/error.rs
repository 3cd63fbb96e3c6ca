//! The error kinds that every part of the library reports.
use vstd::prelude::*;

verus! {

/// A value that does not fit the field or the address range.
#[derive(Clone, Copy, Debug, PartialEq, Eq, Structural)]
pub enum ConversionError {
    /// A byte array whose value is not below the field's prime.
    FromByteArrayError,
    /// A field element that is zero or not below two to the power 251.
    InvalidContractAddress,
}

/// Why a transaction could not be built or hashed.
#[derive(Clone, Debug)]
pub enum TransactionError {
    /// A fee rule was violated; carries a reason a person can read.
    FeeError(String),
    /// A contract class whose class hash could not be derived.
    ClassHashError(String),
    /// A nonce other than the sender account's next one.
    InvalidNonce,
}

/// Failures of reads and writes of the ledger.
#[derive(Clone, Copy, Debug, PartialEq, Eq, Structural)]
pub enum StateError {
    /// No account is deployed at the address.
    AccountNotFound,
}

/// Failures of the snapshot text that a request names.
#[derive(Clone, Debug)]
pub enum JsonError {
    Custom { msg: String },
}

/// Every failure that the library reports, each wrapping its cause.
#[derive(Clone, Debug)]
pub enum Error {
    StateError(StateError),
    ConversionError(ConversionError),
    TransactionError(TransactionError),
    JsonError(JsonError),
    /// A snapshot whose bytes do not decode to a ledger state.
    SerializationError,
    /// A snapshot source that does not exist.
    PathNotFound,
    /// A storage failure while reading or writing a snapshot.
    IOError(String),
}

/// The two error classes that the transport layer tells apart.
#[derive(Clone, Copy, Debug, PartialEq, Eq, Structural)]
pub enum HttpApiError {
    GeneralError,
    PathNotFound,
}

} // verus!
