//! Trust and attestation layer of a relay chain: the parachain candidate
//! model with its validity rules and canonical encoding, and the curated
//! rotation of the finality voter set.

pub mod codec;
pub mod crypto;
pub mod curated_grandpa;
pub mod parachain;
