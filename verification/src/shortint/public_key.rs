//! Public keys: encryption without the secret key.
use crate::core_crypto::algorithms::lwe_encryption::generated_lwe_encryption;
use crate::core_crypto::algorithms::lwe_keyswitch_key_generation::generator_of_keyswitch_row;
use crate::core_crypto::algorithms::polynomial_algorithms::{concat_polynomials, polynomial_of};
use crate::core_crypto::algorithms::slice_algorithms::slice_sum;
use crate::core_crypto::commons::generators::EncryptionRandomGenerator;
use crate::core_crypto::commons::parameters::{LweSize, StandardDev};
use crate::shortint::ciphertext::PBSOrder;
use crate::shortint::parameters::Parameters;
use vstd::prelude::*;

pub mod correctness;

verus! {

/// A public key: a list of encryptions of zero under the key of an order. A sum of some of
/// them, plus a plaintext on the body, is an encryption of the plaintext.
#[derive(Debug)]
pub struct PublicKey {
    pub lwe_public_key: Vec<u64>,
    pub lwe_size: LweSize,
    pub parameters: Parameters,
    pub pbs_order: PBSOrder,
}

/// The encryption of zero of index `row` of the public key that a generator gives.
pub open spec fn zero_encryption(
    generator: EncryptionRandomGenerator,
    key: Seq<u64>,
    std: StandardDev,
    row: int,
) -> Seq<u64> {
    generated_lwe_encryption(
        generator_of_keyswitch_row(generator, key.len() as int, row),
        key,
        0,
        std,
    )
}

/// The `count` encryptions of zero of the public key that a generator gives.
pub open spec fn zero_encryptions(
    generator: EncryptionRandomGenerator,
    key: Seq<u64>,
    std: StandardDev,
    count: int,
) -> Seq<u64> {
    concat_polynomials(|row: int| zero_encryption(generator, key, std, row), count)
}

/// The ciphertext with a zero mask and the body `plaintext`.
pub open spec fn trivial_encryption(plaintext: u64, size: int) -> Seq<u64> {
    Seq::new(
        size as nat,
        |j: int|
            if j == size - 1 {
                plaintext
            } else {
                0u64
            },
    )
}

/// The sum of `start` and of those of the first `rows` encryptions of zero whose selection
/// bit is one.
pub open spec fn selected_sum(
    public_key: Seq<u64>,
    size: int,
    bits: Seq<u64>,
    start: Seq<u64>,
    rows: int,
) -> Seq<u64>
    decreases rows,
{
    if rows <= 0 {
        start
    } else {
        let before = selected_sum(public_key, size, bits, start, rows - 1);
        if bits[rows - 1] == 1 {
            slice_sum(before, polynomial_of(public_key, rows - 1, size))
        } else {
            before
        }
    }
}

impl PublicKey {
    /// The number of encryptions of zero.
    pub open spec fn spec_zero_encryption_count(&self) -> int {
        self.lwe_public_key@.len() as int / self.lwe_size.0 as int
    }

    /// The key holds whole ciphertexts that are not empty, and its parameters are well
    /// formed and have the native ciphertext modulus, for which the key encrypts.
    pub open spec fn wf(&self) -> bool {
        &&& self.parameters.wf()
        &&& self.parameters.ciphertext_modulus.is_native_modulus()
        &&& self.lwe_size.0 >= 1
        &&& self.lwe_public_key@.len() == self.spec_zero_encryption_count() * self.lwe_size.0
    }
}

} // verus!
