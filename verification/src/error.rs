//! The ways in which an operation of the ledger fails.
use vstd::prelude::*;
use vstd::string::*;
use crate::symbols::{join, joined, texts};

verus! {

/// A role that a caller must hold to write.
#[derive(Clone, Copy, Debug, PartialEq, Eq, Structural)]
pub enum Role {
    Owner,
    Relayer,
}

/// Why an operation failed. A failed operation leaves the ledger as it was.
#[derive(Clone, Debug, PartialEq, Eq)]
pub enum ContractError {
    /// The caller does not hold the role that the write asks for.
    Unauthorized(Role),
    /// Two lists that belong together differ in length.
    SizeMismatch,
    /// A batch holds a rate of zero, which no rate could be divided by.
    InvalidRate,
    /// A strict relay met an entry that is no fresher than what the ledger
    /// holds.
    InvalidResolveTime,
    /// The named symbols have no observation and are not `USD`.
    NotFound(Vec<String>),
    /// A cross rate has a zero divisor or does not fit in 128 bits.
    Arithmetic,
    /// The ledger has no owner yet.
    NotInitialized,
}

/// A `ContractError` with its names as texts.
pub enum ErrorView {
    Unauthorized(Role),
    SizeMismatch,
    InvalidRate,
    InvalidResolveTime,
    NotFound(Seq<Seq<char>>),
    Arithmetic,
    NotInitialized,
}

impl View for ContractError {
    type V = ErrorView;

    open spec fn view(&self) -> ErrorView {
        match self {
            ContractError::Unauthorized(role) => ErrorView::Unauthorized(*role),
            ContractError::SizeMismatch => ErrorView::SizeMismatch,
            ContractError::InvalidRate => ErrorView::InvalidRate,
            ContractError::InvalidResolveTime => ErrorView::InvalidResolveTime,
            ContractError::NotFound(names) => ErrorView::NotFound(texts(names@)),
            ContractError::Arithmetic => ErrorView::Arithmetic,
            ContractError::NotInitialized => ErrorView::NotInitialized,
        }
    }
}

/// An operation's result with its error, if any, as a view.
pub open spec fn outcome<T>(r: Result<T, ContractError>) -> Result<T, ErrorView> {
    match r {
        Ok(v) => Ok(v),
        Err(e) => Err(e@),
    }
}

/// The result of an operation that answers with a list, the list as a
/// sequence and the error, if any, as a view.
pub open spec fn outcome_seq<T>(r: Result<Vec<T>, ContractError>) -> Result<Seq<T>, ErrorView> {
    match r {
        Ok(v) => Ok(v@),
        Err(e) => Err(e@),
    }
}

/// The text that reports an error.
pub open spec fn message_text(e: ErrorView) -> Seq<char> {
    match e {
        ErrorView::Unauthorized(Role::Owner) => "NOT_AUTHORIZED"@,
        ErrorView::Unauthorized(Role::Relayer) => "NOT_A_RELAYER"@,
        ErrorView::SizeMismatch => "MISMATCHED_INPUT_SIZES"@,
        ErrorView::InvalidRate => "INVALID_RATE"@,
        ErrorView::InvalidResolveTime => "INVALID_RESOLVE_TIME"@,
        ErrorView::NotFound(names) => "DATA_NOT_AVAILABLE_FOR_"@ + joined(names, "_"@),
        ErrorView::Arithmetic => "INVALID_RATE_DIVISION"@,
        ErrorView::NotInitialized => "CONFIG_NOT_INITIALIZED"@,
    }
}

impl ContractError {
    /// The text that reports this error; the names of missing symbols are
    /// joined by `_`.
    pub fn message(&self) -> (r: String)
        ensures
            r@ == message_text(self@),
    {
        match self {
            ContractError::Unauthorized(Role::Owner) => "NOT_AUTHORIZED".to_owned(),
            ContractError::Unauthorized(Role::Relayer) => "NOT_A_RELAYER".to_owned(),
            ContractError::SizeMismatch => "MISMATCHED_INPUT_SIZES".to_owned(),
            ContractError::InvalidRate => "INVALID_RATE".to_owned(),
            ContractError::InvalidResolveTime => "INVALID_RESOLVE_TIME".to_owned(),
            ContractError::NotFound(names) => {
                let mut text = "DATA_NOT_AVAILABLE_FOR_".to_owned();
                let list = join(names, "_");
                text.append(list.as_str());
                text
            },
            ContractError::Arithmetic => "INVALID_RATE_DIVISION".to_owned(),
            ContractError::NotInitialized => "CONFIG_NOT_INITIALIZED".to_owned(),
        }
    }
}

} // verus!
