//! An attestation registry: claim records kept under unique identifiers, in
//! the order in which they were first stored, each with optional metadata and
//! two vote counters.

pub mod attestation;
pub mod codec;
pub mod error;
pub mod explorer;
pub mod ids;
pub mod laws;
pub mod store;

pub use crate::attestation::{Attestation, AttestationParts, HostContext, Payload, ReputationTally};
pub use crate::codec::Metadata;
pub use crate::error::ContractError;
pub use crate::explorer::{AttestationExplorer, SchemaList};
pub use crate::ids::{IdAllocator, IdPolicy};
pub use crate::store::AttestationStore;
