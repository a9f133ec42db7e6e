//! The core of a TFHE library: a shortint engine over LWE ciphertexts, with programmable
//! bootstrapping, key switching and carry bookkeeping.
pub mod core_crypto;
pub mod integer;
pub mod shortint;
