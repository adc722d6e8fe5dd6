//! Data types of the prover/server API surface that this core's values
//! travel through. The library holds the bare types; serialization lives
//! with the surrounding application code.

use vstd::prelude::*;

verus! {

// Types for data returned in responses.

/// Response to a proof submission.
#[derive(Debug)]
pub enum SubmitProofResponse {
    Success,
    Error(String),
}

/// Response to a TEE proof submission.
#[derive(Debug)]
pub enum SubmitTeeProofResponse {
    Success,
}

/// Response to a TEE attestation registration.
#[derive(Debug)]
pub enum RegisterTeeAttestationResponse {
    Success,
}

// Types for data carried in requests.

/// Request for proof generation data.
#[derive(Debug)]
pub struct ProofGenerationDataRequest {}

/// The TEE flavor a proof comes from.
#[derive(Clone, Copy, Debug, PartialEq, Eq, Structural)]
pub enum TeeType {
    Sgx,
}

/// Request for TEE proof generation data.
#[derive(Clone, Copy, Debug, PartialEq, Eq, Structural)]
pub struct TeeProofGenerationDataRequest {
    pub tee_type: TeeType,
}

/// A TEE proof of one L1 batch: the signature, the signer's public key,
/// the serialized proof, and the TEE flavor it comes from.
#[derive(Debug, PartialEq, Eq)]
pub struct L1BatchTeeProofForL1 {
    pub signature: Vec<u8>,
    pub pubkey: Vec<u8>,
    pub proof: Vec<u8>,
    pub tee_type: TeeType,
}

/// Request submitting a TEE proof.
#[derive(Debug, PartialEq, Eq)]
pub struct SubmitTeeProofRequest(pub Box<L1BatchTeeProofForL1>);

/// Request registering a TEE attestation.
#[derive(Debug, PartialEq, Eq)]
pub struct RegisterTeeAttestationRequest {
    pub attestation: Vec<u8>,
    pub pubkey: Vec<u8>,
}

} // verus!
