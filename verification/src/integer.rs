//! Integers in radix representation: one shortint ciphertext for each digit.
pub mod ciphertext;
pub mod client_key;
pub mod digits;
pub mod encodings;
pub mod server_key;
