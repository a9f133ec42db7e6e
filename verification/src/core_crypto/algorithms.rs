//! Algorithms on raw buffers and on the entities.
pub mod blind_rotation_correctness;
pub mod bootstrap_correctness;
pub mod cmux_correctness;
pub mod decomposition;
pub mod external_product_correctness;
pub mod ggsw_encryption;
pub mod ggsw_phase;
pub mod glwe_phase;
pub mod lwe_bootstrap_key_generation;
pub mod lwe_encryption;
pub mod lwe_keyswitch;
pub mod lwe_keyswitch_correctness;
pub mod lwe_linear_algebra;
pub mod lwe_keyswitch_key_generation;
pub mod lwe_programmable_bootstrapping;
pub mod modulus_switch_correctness;
pub mod polynomial_algorithms;
pub mod polynomial_ring;
pub mod sample_extraction_correctness;
pub mod seeded_decompression;
pub mod slice_algorithms;
