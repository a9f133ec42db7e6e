//! The shortint engine: small integers in LWE ciphertexts, with their carry bookkeeping.
pub mod ciphertext;
pub mod client_key;
pub mod engine;
pub mod parameters;
pub mod public_key;
pub mod serialization;
pub mod server_key;
