//! Error taxonomy of the coordination core.
//!
//! `TransactionError` is a store failure (a commit that lost an optimistic
//! conflict); `DatabaseError` is an expected-but-absent record, an integrity
//! inconsistency; `SerializationError` is a decode failure on stored bytes.
//! Extraction failures of the executor side are carried separately as an
//! `ExtractionError`.

use vstd::prelude::*;

verus! {

/// Mathematical value of a [`StateMachineError`]: the variant and the
/// characters of its message.
pub ghost enum StateMachineErrorV {
    TransactionError(Seq<char>),
    DatabaseError(Seq<char>),
    SerializationError(Seq<char>),
}

#[derive(Debug, Clone)]
pub enum StateMachineError {
    TransactionError(String),
    DatabaseError(String),
    SerializationError(String),
}

impl View for StateMachineError {
    type V = StateMachineErrorV;

    open spec fn view(&self) -> StateMachineErrorV {
        match self {
            StateMachineError::TransactionError(m) => StateMachineErrorV::TransactionError(m@),
            StateMachineError::DatabaseError(m) => StateMachineErrorV::DatabaseError(m@),
            StateMachineError::SerializationError(m) => StateMachineErrorV::SerializationError(
                m@,
            ),
        }
    }
}

impl StateMachineError {
    /// The human-readable message carried by the error.
    pub fn message(&self) -> (r: &String)
        ensures
            match self@ {
                StateMachineErrorV::TransactionError(m) => r@ == m,
                StateMachineErrorV::DatabaseError(m) => r@ == m,
                StateMachineErrorV::SerializationError(m) => r@ == m,
            },
    {
        match self {
            StateMachineError::TransactionError(m) => m,
            StateMachineError::DatabaseError(m) => m,
            StateMachineError::SerializationError(m) => m,
        }
    }
}

/// Failure reported by the extraction capability during `extract`.
#[derive(Debug, Clone)]
pub struct ExtractionError {
    pub message: String,
}

} // verus!
