//! The errors that registry operations report.

use vstd::prelude::*;
use vstd::string::StringExecFns;

verus! {

/// Why an operation of the registry did not give a result.
#[derive(Debug, PartialEq, Eq)]
pub enum ContractError {
    /// The record's metadata has no entry under the key asked for.
    KeyNotFound,
    /// No record is stored under `id`.
    AttestationNotFound { id: String },
    /// A creation payload lacks a field that it must carry.
    InvalidPayload,
}

impl ContractError {
    /// The text that describes the error.
    pub open spec fn message_text(&self) -> Seq<char> {
        match self {
            ContractError::KeyNotFound => "Key not found"@,
            ContractError::AttestationNotFound { id } => "Attestation not found with id: "@ + id@,
            ContractError::InvalidPayload => "Invalid payload"@,
        }
    }

    /// Renders the error for a reader.
    pub fn message(&self) -> (r: String)
        ensures
            r@ == self.message_text(),
    {
        match self {
            ContractError::KeyNotFound => String::from_str("Key not found"),
            ContractError::AttestationNotFound { id } => {
                String::from_str("Attestation not found with id: ").concat(id.as_str())
            },
            ContractError::InvalidPayload => String::from_str("Invalid payload"),
        }
    }
}

} // verus!
