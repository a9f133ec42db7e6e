//! The client side of the engine: key generation, encryption and decryption.
use crate::core_crypto::algorithms::lwe_encryption::{
    allocate_and_encrypt_new_lwe_ciphertext,
    allocate_and_encrypt_new_seeded_lwe_ciphertext,
    decrypt_lwe_ciphertext,
    generated_lwe_encryption,
    generated_seeded_lwe_encryption,
    lemma_decompression_is_encryption,
    lemma_phase_of_encryption,
    lwe_phase,
};
use crate::core_crypto::commons::generators::{
    lemma_noise_bounded,
    noise_draw,
    EncryptionRandomGenerator,
    Seeder,
};
use crate::core_crypto::commons::numeric::{lemma_torus_absorbs, lemma_wrapping_is_torus, torus};
use crate::core_crypto::commons::parameters::{Plaintext, StandardDev};
use crate::core_crypto::entities::lwe_ciphertext::LweCiphertextOwned;
use crate::core_crypto::entities::lwe_secret_key::{
    allocate_and_generate_new_binary_glwe_secret_key,
    allocate_and_generate_new_binary_lwe_secret_key,
    LweSecretKey,
};
use crate::shortint::ciphertext::{
    Ciphertext,
    CiphertextView,
    CompressedCiphertext,
    Degree,
    PBSOrder,
};
use crate::shortint::client_key::ClientKey;
use crate::shortint::engine::{EngineResult, EngineState, ShortintEngine};
use crate::shortint::parameters::{CarryModulus, MessageModulus, Parameters};
use vstd::prelude::*;

verus! {

/// The encoding of a message: its residue modulo `message_modulus`, scaled by the factor of
/// the parameters.
pub open spec fn encoded(parameters: Parameters, message: u64, message_modulus: int) -> u64 {
    torus((message as int % message_modulus) * parameters.spec_delta())
}

/// The encoding of an integer with its carry: its residue modulo the product of the moduli,
/// scaled by the factor of the parameters.
pub open spec fn encoded_unchecked(parameters: Parameters, message: u64) -> u64 {
    torus((message as int % parameters.modulus_sup()) * parameters.spec_delta())
}

/// The encoding of a message without the padding bit: its residue modulo the message
/// modulus, scaled by twice the factor of the parameters.
pub open spec fn encoded_without_padding(parameters: Parameters, message: u64) -> u64 {
    torus((message as int % (parameters.message_modulus.0 as int)) * (2 * parameters.spec_delta()))
}

/// The encoding for a residue of a CRT basis: `(message mod modulus) * 2^64 / modulus`.
pub open spec fn encoded_native_crt(message: u64, message_modulus: u8) -> u64 {
    (((message % (message_modulus as u64)) * 0x1_0000_0000_0000_0000) / (message_modulus as int)) as u64
}

/// The integer that a phase decodes to for the scaling factor `delta`: the phase is centred
/// by half of the factor and divided by it.
pub open spec fn decoded(delta: int, phase: u64) -> u64 {
    (torus(phase + delta / 2) as int / delta) as u64
}

/// The residue that a phase decodes to for a CRT basis: the phase is scaled by the basis,
/// rounded to a multiple of `2^64`, and reduced.
pub open spec fn decoded_native_crt(phase: u64, basis: u64) -> u64 {
    (((phase * basis + 0x8000_0000_0000_0000) / 0x1_0000_0000_0000_0000) % (basis as int)) as u64
}

impl EngineState {
    /// The state after `count` key bits.
    pub open spec fn after_key_generation(self, count: int) -> EngineState {
        EngineState { secret_generator: self.secret_generator.advanced(count), ..self }
    }

    /// The state after one encryption under a key of `dimension` scalars.
    pub open spec fn after_encryption(self, dimension: int) -> EngineState {
        EngineState {
            encryption_generator: self.encryption_generator.advanced(dimension, 1),
            ..self
        }
    }

    /// The state after `count` encryptions under a key of `dimension` scalars.
    pub open spec fn after_encryptions(self, dimension: int, count: int) -> EngineState {
        EngineState {
            encryption_generator: self.encryption_generator.advanced(count * dimension, count),
            ..self
        }
    }

    /// The state after one seeded encryption.
    pub open spec fn after_seeded_encryption(self) -> EngineState {
        EngineState { seeder: self.seeder.advanced(2), ..self }
    }

    /// The ciphertext that the engine gives for a plaintext: a fresh encryption under the key
    /// of the order, with the bookkeeping given.
    pub open spec fn encryption(
        self,
        client_key: ClientKey,
        plaintext: u64,
        degree: int,
        message_modulus: int,
        carry_modulus: int,
        order: PBSOrder,
    ) -> CiphertextView {
        CiphertextView {
            ct: generated_lwe_encryption(
                self.encryption_generator,
                client_key.spec_encryption_key(order),
                plaintext,
                client_key.spec_encryption_noise(order),
            ),
            degree: Degree(degree as usize),
            message_modulus: MessageModulus(message_modulus as usize),
            carry_modulus: CarryModulus(carry_modulus as usize),
            pbs_order: order,
        }
    }

    /// The compressed ciphertext that the engine gives for a plaintext.
    pub open spec fn seeded_encryption(
        self,
        client_key: ClientKey,
        plaintext: u64,
        degree: int,
        message_modulus: int,
        carry_modulus: int,
        order: PBSOrder,
    ) -> CompressedCiphertext {
        CompressedCiphertext {
            ct: generated_seeded_lwe_encryption(
                self.seeder,
                client_key.spec_encryption_key(order),
                plaintext,
                client_key.spec_encryption_noise(order),
                client_key.parameters.ciphertext_modulus,
            ),
            degree: Degree(degree as usize),
            message_modulus: MessageModulus(message_modulus as usize),
            carry_modulus: CarryModulus(carry_modulus as usize),
            pbs_order: order,
        }
    }
}

/// The integer, message and carry together, that a ciphertext decrypts to under the keys of
/// a client.
pub open spec fn decrypted_message_and_carry(client_key: ClientKey, ct: CiphertextView) -> u64 {
    decoded(
        client_key.parameters.spec_delta() as int,
        lwe_phase(client_key.spec_encryption_key(ct.pbs_order), ct.ct),
    )
}

/// The message that a ciphertext decrypts to under the keys of a client.
pub open spec fn decrypted(client_key: ClientKey, ct: CiphertextView) -> u64 {
    decrypted_message_and_carry(client_key, ct) % (ct.message_modulus.0 as u64)
}

/// The integer that a ciphertext without padding bit decrypts to.
pub open spec fn decrypted_message_and_carry_without_padding(
    client_key: ClientKey,
    ct: CiphertextView,
) -> u64 {
    decoded(
        2 * client_key.parameters.spec_delta(),
        lwe_phase(client_key.spec_encryption_key(ct.pbs_order), ct.ct),
    )
}

/// Whether a ciphertext has the size of the ciphertexts of its order under the keys of a
/// client.
pub open spec fn is_decryptable(client_key: ClientKey, ct: CiphertextView) -> bool {
    ct.ct.len() == client_key.spec_encryption_key(ct.pbs_order).len() + 1
}

impl ShortintEngine {
    /// Generate the keys of a client: the small LWE key first, then the GLWE key, from the
    /// next bits of the secret generator.
    pub fn new_client_key(&mut self, parameters: Parameters) -> (result: EngineResult<ClientKey>)
        requires
            parameters.wf(),
        ensures
            result matches Ok(client_key) && {
                &&& client_key.wf()
                &&& client_key.parameters == parameters
                &&& client_key.small_lwe_secret_key@ == old(self)@.secret_generator.bits(
                    parameters.lwe_dimension.0 as nat,
                )
                &&& client_key.glwe_secret_key@ == old(self)@.secret_generator.advanced(
                    parameters.lwe_dimension.0 as int,
                ).bits((parameters.glwe_dimension.0 * parameters.polynomial_size.0) as nat)
            },
            final(self)@ == old(self)@.after_key_generation(
                parameters.lwe_dimension.0 + parameters.glwe_dimension.0
                    * parameters.polynomial_size.0,
            ),
    {
        proof {
            assert(parameters.glwe_dimension.0 * parameters.polynomial_size.0 <= (
            parameters.glwe_dimension.0 + 1) * parameters.polynomial_size.0) by (nonlinear_arith);
            crate::core_crypto::commons::generators::lemma_advanced_twice(
                old(self).secret_generator.generator,
                parameters.lwe_dimension.0 as int,
                parameters.glwe_dimension.0 * parameters.polynomial_size.0,
            );
        }
        let small_lwe_secret_key = allocate_and_generate_new_binary_lwe_secret_key(
            parameters.lwe_dimension,
            &mut self.secret_generator,
        );
        let glwe_secret_key = allocate_and_generate_new_binary_glwe_secret_key(
            parameters.glwe_dimension,
            parameters.polynomial_size,
            &mut self.secret_generator,
        );
        let large_lwe_secret_key = LweSecretKey {
            data: vstd::slice::slice_to_vec(glwe_secret_key.data.as_slice()),
        };
        Ok(ClientKey { large_lwe_secret_key, glwe_secret_key, small_lwe_secret_key, parameters })
    }

    /// Encrypt a message with the message modulus of the parameters.
    ///
    /// The ciphertext modulus must be the native one: the scaling factor of the encoding is
    /// a fraction of `2^64`, and no encoding is defined for another modulus.
    pub fn encrypt(&mut self, client_key: &ClientKey, message: u64, order: PBSOrder) -> (result:
        EngineResult<Ciphertext>)
        requires
            client_key.wf(),
            client_key.parameters.ciphertext_modulus.is_native_modulus(),
        ensures
            result matches Ok(ct) && ct.wf() && ct@ == old(self)@.encryption(
                *client_key,
                encoded(
                    client_key.parameters,
                    message,
                    client_key.parameters.message_modulus.0 as int,
                ),
                client_key.parameters.message_modulus.0 - 1,
                client_key.parameters.message_modulus.0 as int,
                client_key.parameters.carry_modulus.0 as int,
                order,
            ),
            final(self)@ == old(self)@.after_encryption(
                client_key.spec_encryption_key(order).len() as int,
            ),
    {
        proof {
            let m = client_key.parameters.message_modulus.0 as int;
            let c = client_key.parameters.carry_modulus.0 as int;
            vstd::arithmetic::div_mod::lemma_div_multiples_vanish(c, m);
            assert(m * c == c * m) by (nonlinear_arith);
        }
        self.encrypt_with_message_modulus(
            client_key,
            message,
            client_key.parameters.message_modulus,
            order,
        )
    }

    /// Encrypt a message with the message modulus of the parameters into a compressed
    /// ciphertext.
    ///
    /// The ciphertext modulus must be the native one: the scaling factor of the encoding is
    /// a fraction of `2^64`, and no encoding is defined for another modulus.
    pub fn encrypt_compressed(
        &mut self,
        client_key: &ClientKey,
        message: u64,
        order: PBSOrder,
    ) -> (result: EngineResult<CompressedCiphertext>)
        requires
            client_key.wf(),
            client_key.parameters.ciphertext_modulus.is_native_modulus(),
        ensures
            result matches Ok(ct) && ct.wf() && ct == old(self)@.seeded_encryption(
                *client_key,
                encoded(
                    client_key.parameters,
                    message,
                    client_key.parameters.message_modulus.0 as int,
                ),
                client_key.parameters.message_modulus.0 - 1,
                client_key.parameters.message_modulus.0 as int,
                client_key.parameters.carry_modulus.0 as int,
                order,
            ),
            final(self)@ == old(self)@.after_seeded_encryption(),
    {
        proof {
            let m = client_key.parameters.message_modulus.0 as int;
            let c = client_key.parameters.carry_modulus.0 as int;
            vstd::arithmetic::div_mod::lemma_div_multiples_vanish(c, m);
            assert(m * c == c * m) by (nonlinear_arith);
        }
        self.encrypt_with_message_modulus_compressed(
            client_key,
            message,
            client_key.parameters.message_modulus,
            order,
        )
    }

    /// Encrypt the residue of `message` modulo `message_modulus`, scaled by the factor of the
    /// parameters, under `client_lwe_sk`.
    ///
    /// The ciphertext modulus must be the native one: the scaling factor of the encoding is
    /// a fraction of `2^64`, and no encoding is defined for another modulus.
    fn encrypt_inner_ct(
        &mut self,
        client_key_parameters: &Parameters,
        client_lwe_sk: &LweSecretKey,
        noise_parameter: StandardDev,
        message: u64,
        message_modulus: MessageModulus,
    ) -> (ct: LweCiphertextOwned)
        requires
            client_key_parameters.wf(),
            client_key_parameters.ciphertext_modulus.is_native_modulus(),
            message_modulus.0 >= 1,
        ensures
            ct@ == generated_lwe_encryption(
                old(self)@.encryption_generator,
                client_lwe_sk@,
                encoded(*client_key_parameters, message, message_modulus.0 as int),
                noise_parameter,
            ),
            ct.wf(),
            ct.ciphertext_modulus == client_key_parameters.ciphertext_modulus,
            final(self)@ == old(self)@.after_encryption(client_lwe_sk@.len() as int),
    {
        let delta = client_key_parameters.delta();
        let m = message % (message_modulus.0 as u64);
        let shifted_message = m.wrapping_mul(delta);
        proof {
            lemma_wrapping_is_torus(m, delta);
        }
        allocate_and_encrypt_new_lwe_ciphertext(
            client_lwe_sk,
            Plaintext(shifted_message),
            noise_parameter,
            client_key_parameters.ciphertext_modulus,
            &mut self.encryption_generator,
        )
    }

    /// Encrypt a message reduced by `message_modulus`. The carry modulus of the ciphertext
    /// is what the space of the parameters leaves: their product divided by
    /// `message_modulus`.
    ///
    /// The ciphertext modulus must be the native one: the scaling factor of the encoding is
    /// a fraction of `2^64`, and no encoding is defined for another modulus.
    pub fn encrypt_with_message_modulus(
        &mut self,
        client_key: &ClientKey,
        message: u64,
        message_modulus: MessageModulus,
        order: PBSOrder,
    ) -> (result: EngineResult<Ciphertext>)
        requires
            client_key.wf(),
            client_key.parameters.ciphertext_modulus.is_native_modulus(),
            message_modulus.0 >= 1,
        ensures
            result matches Ok(ct) && ct.ct.wf() && ct.ct.ciphertext_modulus
                == client_key.parameters.ciphertext_modulus && ct@ == old(self)@.encryption(
                *client_key,
                encoded(client_key.parameters, message, message_modulus.0 as int),
                message_modulus.0 - 1,
                message_modulus.0 as int,
                client_key.parameters.modulus_sup() / (message_modulus.0 as int),
                order,
            ),
            final(self)@ == old(self)@.after_encryption(
                client_key.spec_encryption_key(order).len() as int,
            ),
    {
        let encryption_noise = client_key.encryption_noise(order);
        let ct = self.encrypt_inner_ct(
            &client_key.parameters,
            client_key.encryption_key(order),
            encryption_noise,
            message,
            message_modulus,
        );
        let carry_modulus = (client_key.parameters.message_modulus.0
            * client_key.parameters.carry_modulus.0) / message_modulus.0;
        Ok(
            Ciphertext {
                ct,
                degree: Degree(message_modulus.0 - 1),
                message_modulus,
                carry_modulus: CarryModulus(carry_modulus),
                pbs_order: order,
            },
        )
    }

    /// Encrypt a message reduced by `message_modulus` into a compressed ciphertext.
    ///
    /// The ciphertext modulus must be the native one: the scaling factor of the encoding is
    /// a fraction of `2^64`, and no encoding is defined for another modulus.
    pub fn encrypt_with_message_modulus_compressed(
        &mut self,
        client_key: &ClientKey,
        message: u64,
        message_modulus: MessageModulus,
        order: PBSOrder,
    ) -> (result: EngineResult<CompressedCiphertext>)
        requires
            client_key.wf(),
            client_key.parameters.ciphertext_modulus.is_native_modulus(),
            message_modulus.0 >= 1,
        ensures
            result matches Ok(ct) && ct.ct.wf() && ct.ct.ciphertext_modulus
                == client_key.parameters.ciphertext_modulus && ct
                == old(self)@.seeded_encryption(
                *client_key,
                encoded(client_key.parameters, message, message_modulus.0 as int),
                message_modulus.0 - 1,
                message_modulus.0 as int,
                client_key.parameters.modulus_sup() / (message_modulus.0 as int),
                order,
            ),
            final(self)@ == old(self)@.after_seeded_encryption(),
    {
        let carry_modulus = (client_key.parameters.message_modulus.0
            * client_key.parameters.carry_modulus.0) / message_modulus.0;
        let delta = client_key.parameters.delta();
        let m = message % (message_modulus.0 as u64);
        let shifted_message = m.wrapping_mul(delta);
        proof {
            lemma_wrapping_is_torus(m, delta);
        }
        let encryption_noise = client_key.encryption_noise(order);
        let ct = allocate_and_encrypt_new_seeded_lwe_ciphertext(
            client_key.encryption_key(order),
            Plaintext(shifted_message),
            encryption_noise,
            client_key.parameters.ciphertext_modulus,
            &mut self.seeder,
        );
        Ok(
            CompressedCiphertext {
                ct,
                degree: Degree(message_modulus.0 - 1),
                message_modulus,
                carry_modulus: CarryModulus(carry_modulus),
                pbs_order: order,
            },
        )
    }

    /// Encrypt an integer with its carry: the integer is reduced modulo the product of the
    /// moduli only, and the degree of the ciphertext is the largest that the parameters
    /// allow, so its carry counts as full.
    ///
    /// The ciphertext modulus must be the native one: the scaling factor of the encoding is
    /// a fraction of `2^64`, and no encoding is defined for another modulus.
    pub fn unchecked_encrypt(&mut self, client_key: &ClientKey, message: u64, order: PBSOrder) -> (result:
        EngineResult<Ciphertext>)
        requires
            client_key.wf(),
            client_key.parameters.ciphertext_modulus.is_native_modulus(),
        ensures
            result matches Ok(ct) && ct.wf() && ct@ == old(self)@.encryption(
                *client_key,
                encoded_unchecked(client_key.parameters, message),
                client_key.parameters.modulus_sup() - 1,
                client_key.parameters.message_modulus.0 as int,
                client_key.parameters.carry_modulus.0 as int,
                order,
            ),
            final(self)@ == old(self)@.after_encryption(
                client_key.spec_encryption_key(order).len() as int,
            ),
    {
        let encryption_noise = client_key.encryption_noise(order);
        let delta = client_key.parameters.delta();
        proof {
            crate::shortint::parameters::lemma_modulus_sup_positive(
                client_key.parameters.message_modulus.0 as int,
                client_key.parameters.carry_modulus.0 as int,
            );
        }
        let modulus_sup = (client_key.parameters.message_modulus.0
            * client_key.parameters.carry_modulus.0) as u64;
        let reduced = message % modulus_sup;
        let shifted_message = reduced.wrapping_mul(delta);
        proof {
            lemma_wrapping_is_torus(reduced, delta);
        }
        let ct = allocate_and_encrypt_new_lwe_ciphertext(
            client_key.encryption_key(order),
            Plaintext(shifted_message),
            encryption_noise,
            client_key.parameters.ciphertext_modulus,
            &mut self.encryption_generator,
        );
        Ok(
            Ciphertext {
                ct,
                degree: Degree(
                    client_key.parameters.message_modulus.0 * client_key.parameters.carry_modulus.0
                        - 1,
                ),
                message_modulus: client_key.parameters.message_modulus,
                carry_modulus: client_key.parameters.carry_modulus,
                pbs_order: order,
            },
        )
    }

    /// Decrypt the integer that a ciphertext encodes, message and carry together.
    pub fn decrypt_message_and_carry(&mut self, client_key: &ClientKey, ct: &Ciphertext) -> (result:
        EngineResult<u64>)
        requires
            client_key.wf(),
            is_decryptable(*client_key, ct@),
        ensures
            result matches Ok(value) && value == decrypted_message_and_carry(*client_key, ct@),
            final(self)@ == old(self)@,
    {
        let decrypted_encoded = decrypt_lwe_ciphertext(
            client_key.encryption_key(ct.pbs_order),
            &ct.ct,
        );
        let decrypted_u64: u64 = decrypted_encoded.0;
        let delta = client_key.parameters.delta();
        let rounding = delta / 2;
        proof {
            lemma_wrapping_is_torus(decrypted_u64, rounding);
        }
        Ok(decrypted_u64.wrapping_add(rounding) / delta)
    }

    /// Decrypt the message of a ciphertext: the integer that it encodes, reduced by its
    /// message modulus.
    pub fn decrypt(&mut self, client_key: &ClientKey, ct: &Ciphertext) -> (result: EngineResult<u64>)
        requires
            client_key.wf(),
            is_decryptable(*client_key, ct@),
            ct.message_modulus.0 >= 1,
        ensures
            result matches Ok(value) && value == decrypted(*client_key, ct@),
            final(self)@ == old(self)@,
    {
        match self.decrypt_message_and_carry(client_key, ct) {
            Ok(message_and_carry) => Ok(message_and_carry % (ct.message_modulus.0 as u64)),
            Err(error) => Err(error),
        }
    }

    /// Encrypt a message without the padding bit: the message is reduced modulo the message
    /// modulus, and the scaling factor is doubled.
    ///
    /// The ciphertext modulus must be the native one: the scaling factor of the encoding is
    /// a fraction of `2^64`, and no encoding is defined for another modulus.
    pub fn encrypt_without_padding(
        &mut self,
        client_key: &ClientKey,
        message: u64,
        order: PBSOrder,
    ) -> (result: EngineResult<Ciphertext>)
        requires
            client_key.wf(),
            client_key.parameters.ciphertext_modulus.is_native_modulus(),
            client_key.parameters.modulus_sup() >= 2,
        ensures
            result matches Ok(ct) && ct.wf() && ct@ == old(self)@.encryption(
                *client_key,
                encoded_without_padding(client_key.parameters, message),
                client_key.parameters.message_modulus.0 - 1,
                client_key.parameters.message_modulus.0 as int,
                client_key.parameters.carry_modulus.0 as int,
                order,
            ),
            final(self)@ == old(self)@.after_encryption(
                client_key.spec_encryption_key(order).len() as int,
            ),
    {
        let delta = client_key.parameters.delta() * 2;
        let reduced = message % (client_key.parameters.message_modulus.0 as u64);
        let shifted_message = reduced.wrapping_mul(delta);
        proof {
            lemma_wrapping_is_torus(reduced, delta);
        }
        let encryption_noise = client_key.encryption_noise(order);
        let ct = allocate_and_encrypt_new_lwe_ciphertext(
            client_key.encryption_key(order),
            Plaintext(shifted_message),
            encryption_noise,
            client_key.parameters.ciphertext_modulus,
            &mut self.encryption_generator,
        );
        Ok(
            Ciphertext {
                ct,
                degree: Degree(client_key.parameters.message_modulus.0 - 1),
                message_modulus: client_key.parameters.message_modulus,
                carry_modulus: client_key.parameters.carry_modulus,
                pbs_order: order,
            },
        )
    }

    /// Encrypt a message without the padding bit into a compressed ciphertext: the message
    /// is reduced modulo the message modulus, and the scaling factor is doubled.
    ///
    /// The ciphertext modulus must be the native one: the scaling factor of the encoding is
    /// a fraction of `2^64`, and no encoding is defined for another modulus.
    pub fn encrypt_without_padding_compressed(
        &mut self,
        client_key: &ClientKey,
        message: u64,
        order: PBSOrder,
    ) -> (result: EngineResult<CompressedCiphertext>)
        requires
            client_key.wf(),
            client_key.parameters.ciphertext_modulus.is_native_modulus(),
            client_key.parameters.modulus_sup() >= 2,
        ensures
            result matches Ok(ct) && ct.wf() && ct == old(self)@.seeded_encryption(
                *client_key,
                encoded_without_padding(client_key.parameters, message),
                client_key.parameters.message_modulus.0 - 1,
                client_key.parameters.message_modulus.0 as int,
                client_key.parameters.carry_modulus.0 as int,
                order,
            ),
            final(self)@ == old(self)@.after_seeded_encryption(),
    {
        let delta = client_key.parameters.delta() * 2;
        let reduced = message % (client_key.parameters.message_modulus.0 as u64);
        let shifted_message = reduced.wrapping_mul(delta);
        proof {
            lemma_wrapping_is_torus(reduced, delta);
        }
        let encryption_noise = client_key.encryption_noise(order);
        let ct = allocate_and_encrypt_new_seeded_lwe_ciphertext(
            client_key.encryption_key(order),
            Plaintext(shifted_message),
            encryption_noise,
            client_key.parameters.ciphertext_modulus,
            &mut self.seeder,
        );
        Ok(
            CompressedCiphertext {
                ct,
                degree: Degree(client_key.parameters.message_modulus.0 - 1),
                message_modulus: client_key.parameters.message_modulus,
                carry_modulus: client_key.parameters.carry_modulus,
                pbs_order: order,
            },
        )
    }

    /// Decrypt the integer that a ciphertext without padding bit encodes.
    pub fn decrypt_message_and_carry_without_padding(
        &mut self,
        client_key: &ClientKey,
        ct: &Ciphertext,
    ) -> (result: EngineResult<u64>)
        requires
            client_key.wf(),
            client_key.parameters.modulus_sup() >= 2,
            is_decryptable(*client_key, ct@),
        ensures
            result matches Ok(value) && value == decrypted_message_and_carry_without_padding(
                *client_key,
                ct@,
            ),
            final(self)@ == old(self)@,
    {
        let decrypted_encoded = decrypt_lwe_ciphertext(
            client_key.encryption_key(ct.pbs_order),
            &ct.ct,
        );
        let decrypted_u64: u64 = decrypted_encoded.0;
        let delta = client_key.parameters.delta() * 2;
        let rounding = delta / 2;
        proof {
            lemma_wrapping_is_torus(decrypted_u64, rounding);
        }
        Ok(decrypted_u64.wrapping_add(rounding) / delta)
    }

    /// Decrypt the message of a ciphertext without padding bit.
    pub fn decrypt_without_padding(&mut self, client_key: &ClientKey, ct: &Ciphertext) -> (result:
        EngineResult<u64>)
        requires
            client_key.wf(),
            client_key.parameters.modulus_sup() >= 2,
            is_decryptable(*client_key, ct@),
            ct.message_modulus.0 >= 1,
        ensures
            result matches Ok(value) && value == decrypted_message_and_carry_without_padding(
                *client_key,
                ct@,
            ) % (ct.message_modulus.0 as u64),
            final(self)@ == old(self)@,
    {
        match self.decrypt_message_and_carry_without_padding(client_key, ct) {
            Ok(message_and_carry) => Ok(message_and_carry % (ct.message_modulus.0 as u64)),
            Err(error) => Err(error),
        }
    }

    /// Encrypt the residue of a message for one modulus of a CRT basis: the residue is
    /// scaled by `2^64 / message_modulus`, and the ciphertext has no carry space.
    ///
    /// The ciphertext modulus must be the native one: the scaling factor of the encoding is
    /// a fraction of `2^64`, and no encoding is defined for another modulus.
    pub fn encrypt_native_crt(
        &mut self,
        client_key: &ClientKey,
        message: u64,
        message_modulus: u8,
        order: PBSOrder,
    ) -> (result: EngineResult<Ciphertext>)
        requires
            client_key.wf(),
            client_key.parameters.ciphertext_modulus.is_native_modulus(),
            message_modulus >= 1,
        ensures
            result matches Ok(ct) && ct.wf() && ct@ == old(self)@.encryption(
                *client_key,
                encoded_native_crt(message, message_modulus),
                message_modulus - 1,
                message_modulus as int,
                1,
                order,
            ),
            final(self)@ == old(self)@.after_encryption(
                client_key.spec_encryption_key(order).len() as int,
            ),
    {
        let shifted_message = encode_native_crt(message, message_modulus);
        let encryption_noise = client_key.encryption_noise(order);
        let ct = allocate_and_encrypt_new_lwe_ciphertext(
            client_key.encryption_key(order),
            Plaintext(shifted_message),
            encryption_noise,
            client_key.parameters.ciphertext_modulus,
            &mut self.encryption_generator,
        );
        Ok(
            Ciphertext {
                ct,
                degree: Degree(message_modulus as usize - 1),
                message_modulus: MessageModulus(message_modulus as usize),
                carry_modulus: CarryModulus(1),
                pbs_order: order,
            },
        )
    }

    /// Encrypt the residue of a message for one modulus of a CRT basis into a compressed
    /// ciphertext.
    ///
    /// The ciphertext modulus must be the native one: the scaling factor of the encoding is
    /// a fraction of `2^64`, and no encoding is defined for another modulus.
    pub fn encrypt_native_crt_compressed(
        &mut self,
        client_key: &ClientKey,
        message: u64,
        message_modulus: u8,
        order: PBSOrder,
    ) -> (result: EngineResult<CompressedCiphertext>)
        requires
            client_key.wf(),
            client_key.parameters.ciphertext_modulus.is_native_modulus(),
            message_modulus >= 1,
        ensures
            result matches Ok(ct) && ct.wf() && ct == old(self)@.seeded_encryption(
                *client_key,
                encoded_native_crt(message, message_modulus),
                message_modulus - 1,
                message_modulus as int,
                1,
                order,
            ),
            final(self)@ == old(self)@.after_seeded_encryption(),
    {
        let shifted_message = encode_native_crt(message, message_modulus);
        let encryption_noise = client_key.encryption_noise(order);
        let ct = allocate_and_encrypt_new_seeded_lwe_ciphertext(
            client_key.encryption_key(order),
            Plaintext(shifted_message),
            encryption_noise,
            client_key.parameters.ciphertext_modulus,
            &mut self.seeder,
        );
        Ok(
            CompressedCiphertext {
                ct,
                degree: Degree(message_modulus as usize - 1),
                message_modulus: MessageModulus(message_modulus as usize),
                carry_modulus: CarryModulus(1),
                pbs_order: order,
            },
        )
    }

    /// Decrypt the residue of a ciphertext for the modulus `basis` of a CRT basis.
    pub fn decrypt_message_native_crt(
        &mut self,
        client_key: &ClientKey,
        ct: &Ciphertext,
        basis: u64,
    ) -> (result: EngineResult<u64>)
        requires
            client_key.wf(),
            is_decryptable(*client_key, ct@),
            basis >= 1,
        ensures
            result matches Ok(value) && value == decoded_native_crt(
                lwe_phase(client_key.spec_encryption_key(ct.pbs_order), ct@.ct),
                basis,
            ),
            final(self)@ == old(self)@,
    {
        let decrypted_encoded = decrypt_lwe_ciphertext(
            client_key.encryption_key(ct.pbs_order),
            &ct.ct,
        );
        let decrypted_u64: u64 = decrypted_encoded.0;
        assert(decrypted_u64 * basis <= 0xffff_ffff_ffff_ffff * 0xffff_ffff_ffff_ffff)
            by (nonlinear_arith)
            requires
                decrypted_u64 <= 0xffff_ffff_ffff_ffff,
                basis <= 0xffff_ffff_ffff_ffff,
        ;
        let scaled: u128 = decrypted_u64 as u128 * basis as u128;
        let rounded: u128 = (scaled + 0x8000_0000_0000_0000) / 0x1_0000_0000_0000_0000;
        Ok((rounded % (basis as u128)) as u64)
    }
}

/// Scale the residue of `message` modulo `message_modulus` by `2^64 / message_modulus`.
fn encode_native_crt(message: u64, message_modulus: u8) -> (plaintext: u64)
    requires
        message_modulus >= 1,
    ensures
        plaintext == encoded_native_crt(message, message_modulus),
{
    let m: u128 = (message % (message_modulus as u64)) as u128;
    let scaled: u128 = m * 0x1_0000_0000_0000_0000;
    let quotient: u128 = scaled / (message_modulus as u128);
    assert(quotient < 0x1_0000_0000_0000_0000) by (nonlinear_arith)
        requires
            quotient as int == (m as int * 0x1_0000_0000_0000_0000) / (message_modulus as int),
            m < message_modulus,
            message_modulus >= 1,
    ;
    quotient as u64
}

/// Decoding rounds the noise away: an encoding of `value` that carries a noise strictly
/// under half of the scaling factor, in absolute value, decodes to `value`.
pub proof fn lemma_decoding_rounds_noise_away(delta: int, value: int, noise: int)
    requires
        delta >= 1,
        value >= 0,
        (value + 1) * delta <= 0x1_0000_0000_0000_0000,
        -(delta / 2) <= noise < delta / 2,
    ensures
        decoded(delta, torus(torus(value * delta) + torus(noise))) == value,
{
    lemma_torus_absorbs(value * delta, noise);
    lemma_torus_absorbs(value * delta, torus(noise) as int);
    lemma_torus_absorbs(value * delta + noise, delta / 2);
    let centred = value * delta + noise + delta / 2;
    assert(0 <= value * delta) by (nonlinear_arith)
        requires
            value >= 0,
            delta >= 1,
    ;
    assert((value + 1) * delta == value * delta + delta) by (nonlinear_arith);
    assert(value * delta <= centred < value * delta + delta);
    vstd::arithmetic::div_mod::lemma_small_mod(centred as nat, 0x1_0000_0000_0000_0000nat);
    vstd::arithmetic::div_mod::lemma_fundamental_div_mod_converse(
        centred,
        delta,
        value,
        centred - value * delta,
    );
    assert(value < 0x1_0000_0000_0000_0000) by (nonlinear_arith)
        requires
            (value + 1) * delta <= 0x1_0000_0000_0000_0000,
            delta >= 1,
            value >= 0,
    ;
}

/// Whatever the generator, the encryption that it gives of an encoded integer decodes to
/// that integer under the same key, when three standard deviations of noise stay under half
/// of the scaling factor.
pub proof fn lemma_generated_encryption_decodes(
    generator: EncryptionRandomGenerator,
    key: Seq<u64>,
    delta: int,
    value: int,
    std: StandardDev,
)
    requires
        delta >= 1,
        value >= 0,
        (value + 1) * delta <= 0x1_0000_0000_0000_0000,
        3 * std.0 < delta / 2,
    ensures
        decoded(
            delta,
            lwe_phase(key, generated_lwe_encryption(generator, key, torus(value * delta), std)),
        ) == value,
{
    let plaintext = torus(value * delta);
    let noise = generator.noise_at(0, std);
    lemma_phase_of_encryption(key, generator.mask.words(key.len()), plaintext, noise);
    assert(delta <= 0x1_0000_0000_0000_0000) by (nonlinear_arith)
        requires
            (value + 1) * delta <= 0x1_0000_0000_0000_0000,
            value >= 0,
            delta >= 1,
    ;
    lemma_noise_bounded(generator.noise.advanced(0), std);
    let draw = noise_draw(generator.noise.advanced(0), std);
    lemma_torus_absorbs(plaintext as int, draw);
    lemma_torus_absorbs(plaintext as int, noise as int);
    lemma_torus_absorbs(value * delta, draw);
    lemma_torus_absorbs(value * delta, torus(draw) as int);
    lemma_decoding_rounds_noise_away(delta, value, draw);
}

/// Every integer below the product of the moduli has its encoding below `2^63`.
pub proof fn lemma_encoding_fits(parameters: Parameters, value: int)
    requires
        parameters.wf(),
        0 <= value < parameters.modulus_sup(),
    ensures
        parameters.spec_delta() >= 1,
        (value + 1) * parameters.spec_delta() <= 0x8000_0000_0000_0000,
{
    crate::shortint::parameters::lemma_modulus_sup_positive(
        parameters.message_modulus.0 as int,
        parameters.carry_modulus.0 as int,
    );
    crate::shortint::parameters::lemma_delta_bounds(parameters.modulus_sup());
    let delta = parameters.spec_delta() as int;
    let sup = parameters.modulus_sup();
    assert((value + 1) * delta <= sup * delta) by (nonlinear_arith)
        requires
            value + 1 <= sup,
            delta >= 0,
    ;
    assert(sup * delta == delta * sup) by (nonlinear_arith);
}

/// Encryption then decryption is the identity on messages: for every state of the engine,
/// every key, every order and every message below the message modulus, the ciphertext that
/// `encrypt` gives decrypts to the message, provided that the noise of the parameters fits.
pub proof fn lemma_encrypt_then_decrypt(
    state: EngineState,
    client_key: ClientKey,
    message: u64,
    order: PBSOrder,
)
    requires
        client_key.wf(),
        client_key.parameters.noise_fits(),
        message < client_key.parameters.message_modulus.0,
    ensures
        decrypted(
            client_key,
            state.encryption(
                client_key,
                encoded(
                    client_key.parameters,
                    message,
                    client_key.parameters.message_modulus.0 as int,
                ),
                client_key.parameters.message_modulus.0 - 1,
                client_key.parameters.message_modulus.0 as int,
                client_key.parameters.carry_modulus.0 as int,
                order,
            ),
        ) == message,
{
    let parameters = client_key.parameters;
    crate::shortint::parameters::lemma_modulus_sup_positive(
        parameters.message_modulus.0 as int,
        parameters.carry_modulus.0 as int,
    );
    lemma_encoding_fits(parameters, message as int);
    vstd::arithmetic::div_mod::lemma_small_mod(
        message as nat,
        parameters.message_modulus.0 as nat,
    );
    lemma_generated_encryption_decodes(
        state.encryption_generator,
        client_key.spec_encryption_key(order),
        parameters.spec_delta() as int,
        message as int,
        client_key.spec_encryption_noise(order),
    );
}

/// Without the padding bit, encryption then decryption gives the message reduced by the
/// message modulus, for every message, provided that three standard deviations of noise stay
/// under the scaling factor.
pub proof fn lemma_encrypt_without_padding_then_decrypt(
    state: EngineState,
    client_key: ClientKey,
    message: u64,
    order: PBSOrder,
)
    requires
        client_key.wf(),
        3 * client_key.spec_encryption_noise(order).0 < client_key.parameters.spec_delta(),
    ensures
        decrypted_message_and_carry_without_padding(
            client_key,
            state.encryption(
                client_key,
                encoded_without_padding(client_key.parameters, message),
                client_key.parameters.message_modulus.0 - 1,
                client_key.parameters.message_modulus.0 as int,
                client_key.parameters.carry_modulus.0 as int,
                order,
            ),
        ) == message as int % (client_key.parameters.message_modulus.0 as int),
        message as int % (client_key.parameters.message_modulus.0 as int)
            <= client_key.parameters.message_modulus.0 - 1,
{
    let parameters = client_key.parameters;
    let base = parameters.message_modulus.0 as int;
    let sup = parameters.modulus_sup();
    let value = message as int % base;
    crate::shortint::parameters::lemma_modulus_sup_positive(
        base,
        parameters.carry_modulus.0 as int,
    );
    assert(base <= sup) by (nonlinear_arith)
        requires
            sup == base * parameters.carry_modulus.0,
            parameters.carry_modulus.0 >= 1,
            base >= 1,
    ;
    vstd::arithmetic::div_mod::lemma_mod_bound(message as int, base);
    lemma_encoding_fits(parameters, value);
    let delta = parameters.spec_delta() as int;
    assert((value + 1) * (2 * delta) == 2 * ((value + 1) * delta)) by (nonlinear_arith);
    lemma_generated_encryption_decodes(
        state.encryption_generator,
        client_key.spec_encryption_key(order),
        2 * delta,
        value,
        client_key.spec_encryption_noise(order),
    );
}

/// For a residue of a CRT basis, encryption then decryption gives the residue of the
/// message, provided that three standard deviations of noise, scaled by the modulus, stay
/// under half of the torus with a margin of the modulus.
pub proof fn lemma_encrypt_native_crt_then_decrypt(
    state: EngineState,
    client_key: ClientKey,
    message: u64,
    message_modulus: u8,
    order: PBSOrder,
)
    requires
        client_key.wf(),
        message_modulus >= 1,
        3 * client_key.spec_encryption_noise(order).0 * message_modulus + message_modulus
            <= 0x8000_0000_0000_0000,
    ensures
        decoded_native_crt(
            lwe_phase(
                client_key.spec_encryption_key(order),
                state.encryption(
                    client_key,
                    encoded_native_crt(message, message_modulus),
                    message_modulus - 1,
                    message_modulus as int,
                    1,
                    order,
                ).ct,
            ),
            message_modulus as u64,
        ) == message % (message_modulus as u64),
{
    let key = client_key.spec_encryption_key(order);
    let std = client_key.spec_encryption_noise(order);
    let generator = state.encryption_generator;
    let basis = message_modulus as int;
    let residue = message as int % basis;
    let whole = 0x1_0000_0000_0000_0000int;
    let plaintext = encoded_native_crt(message, message_modulus);
    let noise = generator.noise_at(0, std);
    lemma_phase_of_encryption(key, generator.mask.words(key.len()), plaintext, noise);
    assert(3 * std.0 <= 0x7fff_ffff_ffff_ffff) by (nonlinear_arith)
        requires
            3 * std.0 * basis + basis <= 0x8000_0000_0000_0000,
            basis >= 1,
            std.0 >= 0,
    ;
    lemma_noise_bounded(generator.noise.advanced(0), std);
    let draw = noise_draw(generator.noise.advanced(0), std);
    lemma_torus_absorbs(plaintext as int, draw);
    lemma_torus_absorbs(plaintext as int, noise as int);
    let phase = torus(plaintext + draw);
    // the plaintext times the modulus is the residue on the torus, less a remainder
    vstd::arithmetic::div_mod::lemma_mod_bound(message as int, basis);
    vstd::arithmetic::div_mod::lemma_fundamental_div_mod(residue * whole, basis);
    vstd::arithmetic::div_mod::lemma_mod_bound(residue * whole, basis);
    let lost = (residue * whole) % basis;
    let scaled = (residue * whole) / basis;
    assert(0 <= residue * whole <= (basis - 1) * whole) by (nonlinear_arith)
        requires
            0 <= residue <= basis - 1,
            whole >= 0,
    ;
    assert(0 <= scaled && scaled * basis <= (basis - 1) * whole) by (nonlinear_arith)
        requires
            residue * whole == basis * scaled + lost,
            0 <= lost < basis,
            0 <= residue * whole <= (basis - 1) * whole,
            basis >= 1,
    ;
    assert(scaled < whole) by (nonlinear_arith)
        requires
            scaled * basis <= (basis - 1) * whole,
            basis >= 1,
            whole > 0,
    ;
    assert(plaintext == scaled);
    // the noise times the modulus stays within its bound
    assert(-(0x8000_0000_0000_0000 - basis) <= draw * basis <= 0x8000_0000_0000_0000 - basis)
        by (nonlinear_arith)
        requires
            -3 * std.0 <= draw <= 3 * std.0,
            3 * std.0 * basis + basis <= 0x8000_0000_0000_0000,
            basis >= 1,
    ;
    let sum = scaled + draw;
    assert(sum * basis == scaled * basis + draw * basis) by (nonlinear_arith)
        requires
            sum == scaled + draw,
    ;
    assert(-whole < sum < whole) by (nonlinear_arith)
        requires
            sum * basis == scaled * basis + draw * basis,
            0 <= scaled * basis <= (basis - 1) * whole,
            -(0x8000_0000_0000_0000 - basis) <= draw * basis <= 0x8000_0000_0000_0000 - basis,
            basis >= 1,
            whole == 0x1_0000_0000_0000_0000,
    ;
    let turns: int = if sum < 0 {
        1
    } else {
        0
    };
    vstd::arithmetic::div_mod::lemma_fundamental_div_mod_converse(
        sum,
        whole,
        -turns,
        sum + turns * whole,
    );
    assert(phase == sum + turns * whole);
    let rounded = phase * basis + 0x8000_0000_0000_0000;
    let rest = 0x8000_0000_0000_0000 - lost + draw * basis;
    assert(rounded == (residue + turns * basis) * whole + rest) by (nonlinear_arith)
        requires
            rounded == phase * basis + 0x8000_0000_0000_0000,
            phase == sum + turns * whole,
            sum * basis == scaled * basis + draw * basis,
            residue * whole == basis * scaled + lost,
            rest == 0x8000_0000_0000_0000 - lost + draw * basis,
    ;
    vstd::arithmetic::div_mod::lemma_fundamental_div_mod_converse(
        rounded,
        whole,
        residue + turns * basis,
        rest,
    );
    vstd::arithmetic::div_mod::lemma_mod_multiples_vanish(turns, residue, basis);
    vstd::arithmetic::div_mod::lemma_small_mod(residue as nat, basis as nat);
    assert(basis * turns + residue == residue + turns * basis) by (nonlinear_arith);
}

/// A compressed ciphertext decompresses to the ciphertext that the engine gives without
/// compression when the masks start at the compression seed and the noise at the next seed
/// of the seeder: all scalars are equal, the body among them.
pub proof fn lemma_decompressed_is_fresh_encryption(
    state: EngineState,
    client_key: ClientKey,
    plaintext: u64,
    degree: int,
    message_modulus: int,
    carry_modulus: int,
    order: PBSOrder,
)
    requires
        client_key.wf(),
    ensures
        state.seeded_encryption(
            client_key,
            plaintext,
            degree,
            message_modulus,
            carry_modulus,
            order,
        ).decompressed() == (EngineState {
            encryption_generator: EncryptionRandomGenerator::spec_new(
                state.seeder.generator.spec_seed(),
                state.seeder.advanced(1),
            ),
            ..state
        }).encryption(client_key, plaintext, degree, message_modulus, carry_modulus, order),
{
    let k = client_key.parameters.glwe_dimension.0 as int;
    let n = client_key.parameters.polynomial_size.0 as int;
    assert(k * n <= (k + 1) * n) by (nonlinear_arith)
        requires
            n >= 0,
    ;
    lemma_decompression_is_encryption(
        state.seeder,
        client_key.spec_encryption_key(order),
        plaintext,
        client_key.spec_encryption_noise(order),
        client_key.parameters.ciphertext_modulus,
    );
}

/// Compressed encryption, decompression and decryption give the message back: for every
/// state of the engine, every key, every order and every message below the message modulus,
/// provided that the noise of the parameters fits.
pub proof fn lemma_encrypt_compressed_then_decrypt(
    state: EngineState,
    client_key: ClientKey,
    message: u64,
    order: PBSOrder,
)
    requires
        client_key.wf(),
        client_key.parameters.noise_fits(),
        message < client_key.parameters.message_modulus.0,
    ensures
        decrypted(
            client_key,
            state.seeded_encryption(
                client_key,
                encoded(
                    client_key.parameters,
                    message,
                    client_key.parameters.message_modulus.0 as int,
                ),
                client_key.parameters.message_modulus.0 - 1,
                client_key.parameters.message_modulus.0 as int,
                client_key.parameters.carry_modulus.0 as int,
                order,
            ).decompressed(),
        ) == message,
{
    let parameters = client_key.parameters;
    let plaintext = encoded(parameters, message, parameters.message_modulus.0 as int);
    lemma_decompressed_is_fresh_encryption(
        state,
        client_key,
        plaintext,
        parameters.message_modulus.0 - 1,
        parameters.message_modulus.0 as int,
        parameters.carry_modulus.0 as int,
        order,
    );
    let fresh = EngineState {
        encryption_generator: EncryptionRandomGenerator::spec_new(
            state.seeder.generator.spec_seed(),
            state.seeder.advanced(1),
        ),
        ..state
    };
    lemma_encrypt_then_decrypt(fresh, client_key, message, order);
}

/// Runs are reproducible: two seeders that give the same seed next start, with
/// [`ShortintEngine::new_from_seeder`], two engines in the same state, the state of the
/// seed. So the two engines draw the same key bits, give the same ciphertexts, compressed
/// or not, and go through the same states: a seed fixes every buffer that a sequence of
/// key generations and encryptions writes.
pub proof fn lemma_runs_are_reproducible<First: Seeder, Second: Seeder>(
    first_seeder: First,
    second_seeder: Second,
    client_key: ClientKey,
    plaintext: u64,
    degree: int,
    message_modulus: int,
    carry_modulus: int,
    order: PBSOrder,
    count: nat,
)
    requires
        first_seeder.spec_next_seed() == second_seeder.spec_next_seed(),
    ensures
        ({
            let first = EngineState::initial(first_seeder.spec_next_seed());
            let second = EngineState::initial(second_seeder.spec_next_seed());
            &&& first == second
            &&& first.secret_generator.bits(count) == second.secret_generator.bits(count)
            &&& first.after_key_generation(count as int) == second.after_key_generation(
                count as int,
            )
            &&& first.encryption(
                client_key,
                plaintext,
                degree,
                message_modulus,
                carry_modulus,
                order,
            ) == second.encryption(
                client_key,
                plaintext,
                degree,
                message_modulus,
                carry_modulus,
                order,
            )
            &&& first.after_encryption(count as int) == second.after_encryption(count as int)
            &&& first.seeded_encryption(
                client_key,
                plaintext,
                degree,
                message_modulus,
                carry_modulus,
                order,
            ) == second.seeded_encryption(
                client_key,
                plaintext,
                degree,
                message_modulus,
                carry_modulus,
                order,
            )
            &&& first.after_seeded_encryption() == second.after_seeded_encryption()
        }),
{
}

} // verus!
