//! Typed wrappers over contiguous buffers of scalars.
pub mod glwe_ciphertext;
pub mod lwe_bootstrap_key;
pub mod lwe_ciphertext;
pub mod lwe_keyswitch_key;
pub mod lwe_secret_key;
pub mod seeded_lwe_bootstrap_key;
