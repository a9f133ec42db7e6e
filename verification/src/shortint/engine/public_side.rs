//! The public side of the engine: public keys and encryption with them.
use crate::core_crypto::algorithms::ggsw_encryption::lemma_concat_polynomials_congruent;
use crate::core_crypto::algorithms::lwe_encryption::allocate_and_encrypt_new_lwe_ciphertext;
use crate::core_crypto::algorithms::lwe_keyswitch_key_generation::generator_of_keyswitch_row;
use crate::core_crypto::algorithms::polynomial_algorithms::{
    concat_polynomials,
    lemma_concat_polynomials,
    lemma_polynomial_bounds,
    polynomial,
};
use crate::core_crypto::algorithms::slice_algorithms::slice_wrapping_add_assign;
use crate::core_crypto::commons::generators::lemma_encryption_generator_advanced_twice;
use crate::core_crypto::commons::numeric::{append_slice, filled_vec, lemma_wrapping_is_torus};
use crate::core_crypto::commons::generators::EncryptionRandomGenerator;
use crate::core_crypto::commons::parameters::{CiphertextModulus, LweSize, Plaintext, StandardDev};
use crate::core_crypto::entities::lwe_secret_key::LweSecretKey;
use crate::core_crypto::entities::lwe_ciphertext::LweCiphertext;
use crate::shortint::ciphertext::{Ciphertext, CiphertextView, Degree, PBSOrder};
use crate::shortint::client_key::ClientKey;
use crate::shortint::engine::client_side::encoded;
use crate::shortint::engine::{EngineResult, EngineState, ShortintEngine};
use crate::shortint::public_key::{
    selected_sum,
    trivial_encryption,
    zero_encryption,
    zero_encryptions,
    PublicKey,
};
use vstd::prelude::*;

verus! {

/// The number of encryptions of zero of the public key for ciphertexts of `lwe_size`
/// scalars: `64 * lwe_size + 128`.
pub open spec fn zero_encryption_count(lwe_size: nat) -> int {
    (64 * lwe_size + 128) as int
}

impl EngineState {
    /// The ciphertext that a public key gives for a message: the sum of the encryptions of
    /// zero that the next bits of the secret generator select, with the encoded message on
    /// the body.
    pub open spec fn public_key_encryption(self, public_key: PublicKey, message: u64) -> CiphertextView {
        CiphertextView {
            ct: selected_sum(
                public_key.lwe_public_key@,
                public_key.lwe_size.0 as int,
                self.secret_generator.bits(public_key.spec_zero_encryption_count() as nat),
                trivial_encryption(
                    encoded(
                        public_key.parameters,
                        message,
                        public_key.parameters.message_modulus.0 as int,
                    ),
                    public_key.lwe_size.0 as int,
                ),
                public_key.spec_zero_encryption_count(),
            ),
            degree: Degree((public_key.parameters.message_modulus.0 - 1) as usize),
            message_modulus: public_key.parameters.message_modulus,
            carry_modulus: public_key.parameters.carry_modulus,
            pbs_order: public_key.pbs_order,
        }
    }
}

impl ShortintEngine {
    /// Generate the public key of a client key for the ciphertexts of an order: encryptions
    /// of zero under the key of the order, from the generator of encryptions.
    ///
    /// The ciphertext modulus must be the native one: the scaling factor of the encoding is
    /// a fraction of `2^64`, and no encoding is defined for another modulus.
    pub fn new_public_key(&mut self, client_key: &ClientKey, order: PBSOrder) -> (result: EngineResult<
        PublicKey,
    >)
        requires
            client_key.wf(),
            client_key.parameters.ciphertext_modulus.is_native_modulus(),
            zero_encryption_count(client_key.spec_encryption_key(order).len() + 1) * (
            client_key.spec_encryption_key(order).len() + 1) <= usize::MAX,
        ensures
            result matches Ok(public_key) && {
                &&& public_key.wf()
                &&& public_key.lwe_public_key@ == zero_encryptions(
                    old(self)@.encryption_generator,
                    client_key.spec_encryption_key(order),
                    client_key.spec_encryption_noise(order),
                    zero_encryption_count(client_key.spec_encryption_key(order).len() + 1),
                )
                &&& public_key.lwe_size.0 == client_key.spec_encryption_key(order).len() + 1
                &&& public_key.spec_zero_encryption_count() == zero_encryption_count(
                    client_key.spec_encryption_key(order).len() + 1,
                )
                &&& public_key.parameters == client_key.parameters
                &&& public_key.pbs_order == order
                &&& public_key.is_key_of(old(self)@, *client_key)
            },
            final(self)@ == (EngineState {
                encryption_generator: generator_of_keyswitch_row(
                    old(self)@.encryption_generator,
                    client_key.spec_encryption_key(order).len() as int,
                    zero_encryption_count(client_key.spec_encryption_key(order).len() + 1),
                ),
                ..old(self)@
            }),
    {
        let key = client_key.encryption_key(order);
        let std = client_key.encryption_noise(order);
        let lwe_size = key.data.len() + 1;
        proof {
            assert(64 * lwe_size + 128 <= (64 * lwe_size + 128) * lwe_size) by (nonlinear_arith)
                requires
                    lwe_size >= 1,
            ;
        }
        let count = 64 * lwe_size + 128;
        let data = encrypt_zero_rows(key, std, &mut self.encryption_generator, count);
        proof {
            vstd::arithmetic::div_mod::lemma_div_multiples_vanish(count as int, lwe_size as int);
            assert(count * lwe_size == lwe_size * count) by (nonlinear_arith);
            assert(data@.len() == count * lwe_size);
        }
        Ok(
            PublicKey {
                lwe_public_key: data,
                lwe_size: LweSize(lwe_size),
                parameters: client_key.parameters,
                pbs_order: order,
            },
        )
    }

    /// Encrypt a message with a public key: the bits that select the encryptions of zero
    /// come from the secret generator.
    pub fn encrypt_with_public_key(&mut self, public_key: &PublicKey, message: u64) -> (result:
        EngineResult<Ciphertext>)
        requires
            public_key.wf(),
        ensures
            result matches Ok(ct) && ct.wf() && ct@ == old(self)@.public_key_encryption(
                *public_key,
                message,
            ),
            final(self)@ == old(self)@.after_key_generation(
                public_key.spec_zero_encryption_count(),
            ),
    {
        let lwe_size = public_key.lwe_size.0;
        let count = public_key.lwe_public_key.len() / lwe_size;
        let delta = public_key.parameters.delta();
        let m = message % (public_key.parameters.message_modulus.0 as u64);
        let shifted_message = m.wrapping_mul(delta);
        proof {
            lemma_wrapping_is_torus(m, delta);
        }
        let mut bits = filled_vec(0, count);
        self.secret_generator.fill_slice_with_random_uniform_binary(bits.as_mut_slice());
        let mut data = filled_vec(0, lwe_size);
        data[lwe_size - 1] = shifted_message;
        assert(data@ =~= trivial_encryption(shifted_message, lwe_size as int));
        let ghost start = data@;
        let mut row: usize = 0;
        while row < count
            invariant
                public_key.lwe_public_key@.len() == count * lwe_size,
                lwe_size >= 1,
                bits@.len() == count,
                data@.len() == lwe_size,
                start.len() == lwe_size,
                row <= count,
                data@ == selected_sum(
                    public_key.lwe_public_key@,
                    lwe_size as int,
                    bits@,
                    start,
                    row as int,
                ),
            decreases count - row,
        {
            proof {
                lemma_polynomial_bounds(row as int, count as int, lwe_size as int);
            }
            if bits[row] == 1 {
                let zero = polynomial(public_key.lwe_public_key.as_slice(), row, lwe_size);
                slice_wrapping_add_assign::<u64>(data.as_mut_slice(), zero);
            }
            row += 1;
        }
        Ok(
            Ciphertext {
                ct: LweCiphertext {
                    data,
                    ciphertext_modulus: public_key.parameters.ciphertext_modulus,
                },
                degree: Degree(public_key.parameters.message_modulus.0 - 1),
                message_modulus: public_key.parameters.message_modulus,
                carry_modulus: public_key.parameters.carry_modulus,
                pbs_order: public_key.pbs_order,
            },
        )
    }
}

/// Give `count` encryptions of zero under `key`, one after the other.
fn encrypt_zero_rows(
    key: &LweSecretKey,
    std: StandardDev,
    generator: &mut EncryptionRandomGenerator,
    count: usize,
) -> (data: Vec<u64>)
    ensures
        data@ == zero_encryptions(*old(generator), key@, std, count as int),
        data@.len() == count * (key@.len() + 1),
        *final(generator) == generator_of_keyswitch_row(
            *old(generator),
            key@.len() as int,
            count as int,
        ),
{
    let dimension = key.data.len();
    let ghost start = *old(generator);
    let ghost f = |row: int| zero_encryption(start, key@, std, row);
    let mut data: Vec<u64> = Vec::new();
    let mut row: usize = 0;
    proof {
        lemma_encryption_generator_advanced_twice(start, 0, 0, 0, 0, std);
        assert(0 * dimension == 0) by (nonlinear_arith);
    }
    while row < count
        invariant
            dimension == key@.len(),
            row <= count,
            start == *old(generator),
            *generator == generator_of_keyswitch_row(start, dimension as int, row as int),
            forall|r: int| #[trigger] f(r) == zero_encryption(start, key@, std, r),
            data@ == concat_polynomials(f, row as int),
        decreases count - row,
    {
        let ciphertext = allocate_and_encrypt_new_lwe_ciphertext(
            key,
            Plaintext(0),
            std,
            CiphertextModulus::Native,
            generator,
        );
        proof {
            lemma_encryption_generator_advanced_twice(
                start,
                row * dimension,
                row as int,
                dimension as int,
                1,
                std,
            );
            assert((row + 1) * dimension == row * dimension + dimension) by (nonlinear_arith);
        }
        append_slice(&mut data, ciphertext.data.as_slice());
        proof {
            assert(data@ =~= concat_polynomials(f, row as int) + f(row as int));
        }
        row += 1;
    }
    proof {
        lemma_concat_polynomials_congruent(
            f,
            |row: int| zero_encryption(start, key@, std, row),
            count as int,
        );
        assert forall|r: int| 0 <= r < count implies (#[trigger] f(r)).len() == dimension + 1 by {}
        lemma_concat_polynomials(f, count as int, dimension + 1);
    }
    data
}

} // verus!
