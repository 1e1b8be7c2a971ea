//! Decoding of GRANDPA finality justifications and assembly of the ed25519
//! attestation batch that proves a block final.
//!
//! - `scale`: primitive SCALE readers and writers with their grammar
//! - `types`: the records of a finality proof and their models
//! - `decode` / `encode`: justifications, headers and finality proofs
//! - `payload`: the message that a voter signs
//! - `batch`: pairing votes with authorities, the batch and its attestation
//! - `pipeline`: from the answer of a node to a checked batch
pub mod scale;
pub mod types;
pub mod decode;
pub mod encode;
pub mod payload;
pub mod batch;
pub mod pipeline;
