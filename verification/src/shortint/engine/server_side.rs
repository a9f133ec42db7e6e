//! The server side of the engine: generation of server keys.
use crate::core_crypto::algorithms::ggsw_encryption::{generator_of_row, ggsw_list, GgswShape};
use crate::core_crypto::algorithms::lwe_bootstrap_key_generation::{
    allocate_and_generate_new_lwe_bootstrap_key,
    allocate_and_generate_new_lwe_keyswitch_key,
    allocate_and_generate_new_seeded_lwe_bootstrap_key,
    allocate_and_generate_new_seeded_lwe_keyswitch_key,
    bootstrap_key_fits,
    keyswitch_key_fits,
};
use crate::core_crypto::algorithms::lwe_keyswitch_key_generation::{
    generator_of_keyswitch_row,
    keyswitch_key,
    KeyswitchShape,
};
use crate::core_crypto::commons::generators::EncryptionRandomGenerator;
use crate::core_crypto::commons::traits::Container;
use crate::shortint::ciphertext::{Ciphertext, CiphertextView};
use crate::shortint::client_key::ClientKey;
use crate::shortint::engine::{accumulator_of, degree_of, grown, max_value, message_table};
use crate::shortint::engine::{EngineResult, EngineState, ShortintEngine};
use crate::shortint::server_key::compressed::CompressedServerKey;
use crate::shortint::server_key::{MaxDegree, ServerKey};
use vstd::prelude::*;

verus! {

impl ClientKey {
    /// The shape of the bootstrap key of the server key, and the noise of its rows.
    pub open spec fn bootstrap_key_shape(&self) -> GgswShape {
        GgswShape {
            polynomial_size: self.parameters.polynomial_size.0 as int,
            glwe_dimension: self.parameters.glwe_dimension.0 as int,
            base_log: self.parameters.pbs_base_log.0 as nat,
            levels: self.parameters.pbs_level.0 as nat,
            std: self.parameters.glwe_modular_std_dev,
        }
    }

    /// The gadget of the key switching key of the server key, and the noise of its rows.
    pub open spec fn keyswitch_key_shape(&self) -> KeyswitchShape {
        KeyswitchShape {
            base_log: self.parameters.ks_base_log.0 as nat,
            levels: self.parameters.ks_level.0 as nat,
            std: self.parameters.lwe_modular_std_dev,
        }
    }

    /// The number of rows of the bootstrap key of the server key.
    pub open spec fn bootstrap_key_rows(&self) -> int {
        self.parameters.lwe_dimension.0 * (self.parameters.pbs_level.0 * (
        self.parameters.glwe_dimension.0 + 1))
    }

    /// The number of rows of the key switching key of the server key.
    pub open spec fn keyswitch_key_rows(&self) -> int {
        (self.parameters.glwe_dimension.0 * self.parameters.polynomial_size.0)
            * self.parameters.ks_level.0
    }

    /// The keys of a well formed client key give keys that can be addressed.
    pub proof fn lemma_keys_fit(&self)
        requires
            self.wf(),
        ensures
            bootstrap_key_fits(
                &self.small_lwe_secret_key,
                &self.glwe_secret_key,
                self.parameters.pbs_base_log,
                self.parameters.pbs_level,
            ),
            keyswitch_key_fits(
                &self.large_lwe_secret_key,
                &self.small_lwe_secret_key,
                self.parameters.ks_base_log,
                self.parameters.ks_level,
            ),
            self.glwe_secret_key@.len() as int / self.parameters.polynomial_size.0 as int
                == self.parameters.glwe_dimension.0,
            self.parameters.glwe_dimension.0 * self.parameters.polynomial_size.0 + 1 <= usize::MAX,
    {
        let n = self.parameters.lwe_dimension.0 as int;
        let k = self.parameters.glwe_dimension.0 as int;
        let size = self.parameters.polynomial_size.0 as int;
        let l = self.parameters.pbs_level.0 as int;
        let lk = self.parameters.ks_level.0 as int;
        vstd::arithmetic::div_mod::lemma_div_multiples_vanish(k, size);
        let unit = l * (k + 1) * (k + 1) * size;
        assert(unit <= n * unit) by (nonlinear_arith)
            requires
                n >= 1,
                unit >= 0 || unit < 0,
                n * unit <= usize::MAX,
                unit == l * (k + 1) * (k + 1) * size,
                l >= 1,
                k >= 1,
                size >= 1,
        ;
        assert(k * size >= 1) by (nonlinear_arith)
            requires
                k >= 1,
                size >= 1,
        ;
        assert(k * size <= (k + 1) * size) by (nonlinear_arith)
            requires
                size >= 1,
        ;
        assert((k * size) * lk * (n + 1) == (k * size) * (lk * (n + 1))) by (nonlinear_arith);
        assert(lk * (n + 1) <= (k * size) * (lk * (n + 1))) by (nonlinear_arith)
            requires
                k * size >= 1,
                lk >= 1,
                n >= 0,
        ;
    }
}

impl EngineState {
    /// The state after the generation of a server key for a client key: the generator of
    /// encryptions has given all the rows of the two keys.
    pub open spec fn after_server_key_generation(self, client_key: ClientKey) -> EngineState {
        EngineState {
            encryption_generator: generator_of_keyswitch_row(
                generator_of_row(
                    self.encryption_generator,
                    client_key.bootstrap_key_shape(),
                    client_key.bootstrap_key_rows(),
                ),
                client_key.parameters.lwe_dimension.0 as int,
                client_key.keyswitch_key_rows(),
            ),
            ..self
        }
    }

    /// The bootstrap key that the engine gives for a client key.
    pub open spec fn bootstrap_key(self, client_key: ClientKey) -> Seq<u64> {
        ggsw_list(
            self.encryption_generator,
            client_key.bootstrap_key_shape(),
            client_key.small_lwe_secret_key@,
            client_key.glwe_secret_key@,
            true,
        )
    }

    /// The key switching key that the engine gives for a client key, after the bootstrap
    /// key.
    pub open spec fn keyswitch_key(self, client_key: ClientKey) -> Seq<u64> {
        keyswitch_key(
            generator_of_row(
                self.encryption_generator,
                client_key.bootstrap_key_shape(),
                client_key.bootstrap_key_rows(),
            ),
            client_key.keyswitch_key_shape(),
            client_key.large_lwe_secret_key@,
            client_key.small_lwe_secret_key@,
            true,
        )
    }

    /// The bodies of the bootstrap key that the engine gives for a compressed server key.
    pub open spec fn seeded_bootstrap_key(self, client_key: ClientKey) -> Seq<u64> {
        ggsw_list(
            EncryptionRandomGenerator::spec_new(
                self.seeder.generator.spec_seed(),
                self.seeder.advanced(1),
            ),
            client_key.bootstrap_key_shape(),
            client_key.small_lwe_secret_key@,
            client_key.glwe_secret_key@,
            false,
        )
    }

    /// The bodies of the key switching key that the engine gives for a compressed server
    /// key, after the bootstrap key.
    pub open spec fn seeded_keyswitch_key(self, client_key: ClientKey) -> Seq<u64> {
        keyswitch_key(
            EncryptionRandomGenerator::spec_new(
                self.seeder.advanced(2).generator.spec_seed(),
                self.seeder.advanced(3),
            ),
            client_key.keyswitch_key_shape(),
            client_key.large_lwe_secret_key@,
            client_key.small_lwe_secret_key@,
            false,
        )
    }
}

impl ShortintEngine {
    /// Generate the server key of a client key: the bootstrap key first, then the key
    /// switching key, from the generator of encryptions.
    pub fn new_server_key(&mut self, cks: &ClientKey) -> (result: EngineResult<ServerKey>)
        requires
            cks.wf(),
        ensures
            result matches Ok(server_key) && {
                &&& server_key.wf()
                &&& server_key.bootstrapping_key@ == old(self)@.bootstrap_key(*cks)
                &&& server_key.key_switching_key@ == old(self)@.keyswitch_key(*cks)
                &&& server_key.bootstrapping_key.polynomial_size == cks.parameters.polynomial_size
                &&& server_key.bootstrapping_key.glwe_size.0 == cks.parameters.glwe_dimension.0 + 1
                &&& server_key.bootstrapping_key.decomp_base_log == cks.parameters.pbs_base_log
                &&& server_key.bootstrapping_key.decomp_level_count == cks.parameters.pbs_level
                &&& server_key.key_switching_key.decomp_base_log == cks.parameters.ks_base_log
                &&& server_key.key_switching_key.decomp_level_count == cks.parameters.ks_level
                &&& server_key.key_switching_key.output_lwe_size.0
                    == cks.parameters.lwe_dimension.0 + 1
                &&& server_key.message_modulus == cks.parameters.message_modulus
                &&& server_key.carry_modulus == cks.parameters.carry_modulus
                &&& server_key.max_degree.0 == cks.parameters.modulus_sup() - 1
                &&& server_key.ciphertext_modulus == cks.parameters.ciphertext_modulus
                &&& server_key.bootstrapping_key.ciphertext_modulus
                    == cks.parameters.ciphertext_modulus
                &&& server_key.key_switching_key.ciphertext_modulus
                    == cks.parameters.ciphertext_modulus
            },
            final(self)@ == old(self)@.after_server_key_generation(*cks),
    {
        proof {
            cks.lemma_keys_fit();
            crate::shortint::parameters::lemma_modulus_sup_positive(
                cks.parameters.message_modulus.0 as int,
                cks.parameters.carry_modulus.0 as int,
            );
        }
        let bootstrapping_key = allocate_and_generate_new_lwe_bootstrap_key(
            &cks.small_lwe_secret_key,
            &cks.glwe_secret_key,
            cks.parameters.pbs_base_log,
            cks.parameters.pbs_level,
            cks.parameters.glwe_modular_std_dev,
            cks.parameters.ciphertext_modulus,
            &mut self.encryption_generator,
        );
        let key_switching_key = allocate_and_generate_new_lwe_keyswitch_key(
            &cks.large_lwe_secret_key,
            &cks.small_lwe_secret_key,
            cks.parameters.ks_base_log,
            cks.parameters.ks_level,
            cks.parameters.lwe_modular_std_dev,
            cks.parameters.ciphertext_modulus,
            &mut self.encryption_generator,
        );
        let max_value = cks.parameters.message_modulus.0 * cks.parameters.carry_modulus.0 - 1;
        proof {
            let k = cks.parameters.glwe_dimension.0 as int;
            let size = cks.parameters.polynomial_size.0 as int;
            assert((k + 1 - 1) * size == k * size) by (nonlinear_arith);
        }
        Ok(
            ServerKey {
                key_switching_key,
                bootstrapping_key,
                message_modulus: cks.parameters.message_modulus,
                carry_modulus: cks.parameters.carry_modulus,
                max_degree: MaxDegree(max_value),
                ciphertext_modulus: cks.parameters.ciphertext_modulus,
            },
        )
    }

    /// Generate the compressed server key of a client key: the seeded bootstrap key first,
    /// then the seeded key switching key, each with two seeds from the seeder.
    ///
    /// The ciphertext modulus must be the native one: the scaling factor of the encoding is
    /// a fraction of `2^64`, and no encoding is defined for another modulus.
    pub fn new_compressed_server_key(&mut self, cks: &ClientKey) -> (result: EngineResult<
        CompressedServerKey,
    >)
        requires
            cks.wf(),
            cks.parameters.ciphertext_modulus.is_native_modulus(),
        ensures
            result matches Ok(server_key) && {
                &&& server_key.wf()
                &&& server_key.bootstrapping_key@ == old(self)@.seeded_bootstrap_key(*cks)
                &&& server_key.bootstrapping_key.compression_seed.seed == old(
                    self,
                )@.seeder.generator.spec_seed()
                &&& server_key.key_switching_key@ == old(self)@.seeded_keyswitch_key(*cks)
                &&& server_key.key_switching_key.compression_seed.seed == old(
                    self,
                )@.seeder.advanced(2).generator.spec_seed()
                &&& server_key.bootstrapping_key.polynomial_size == cks.parameters.polynomial_size
                &&& server_key.bootstrapping_key.glwe_size.0 == cks.parameters.glwe_dimension.0 + 1
                &&& server_key.bootstrapping_key.decomp_base_log == cks.parameters.pbs_base_log
                &&& server_key.bootstrapping_key.decomp_level_count == cks.parameters.pbs_level
                &&& server_key.key_switching_key.decomp_base_log == cks.parameters.ks_base_log
                &&& server_key.key_switching_key.decomp_level_count == cks.parameters.ks_level
                &&& server_key.key_switching_key.output_lwe_size.0
                    == cks.parameters.lwe_dimension.0 + 1
                &&& server_key.message_modulus == cks.parameters.message_modulus
                &&& server_key.carry_modulus == cks.parameters.carry_modulus
                &&& server_key.max_degree.0 == cks.parameters.modulus_sup() - 1
                &&& server_key.bootstrapping_key.ciphertext_modulus
                    == cks.parameters.ciphertext_modulus
                &&& server_key.key_switching_key.ciphertext_modulus
                    == cks.parameters.ciphertext_modulus
            },
            final(self)@ == (EngineState { seeder: old(self)@.seeder.advanced(4), ..old(self)@ }),
    {
        proof {
            cks.lemma_keys_fit();
            crate::shortint::parameters::lemma_modulus_sup_positive(
                cks.parameters.message_modulus.0 as int,
                cks.parameters.carry_modulus.0 as int,
            );
            crate::core_crypto::commons::generators::lemma_advanced_twice(
                old(self).seeder.generator,
                4,
                2,
            );
            crate::core_crypto::commons::generators::lemma_advanced_twice(
                old(self).seeder.generator,
                4,
                4,
            );
        }
        let bootstrapping_key = allocate_and_generate_new_seeded_lwe_bootstrap_key(
            &cks.small_lwe_secret_key,
            &cks.glwe_secret_key,
            cks.parameters.pbs_base_log,
            cks.parameters.pbs_level,
            cks.parameters.glwe_modular_std_dev,
            cks.parameters.ciphertext_modulus,
            &mut self.seeder,
        );
        let key_switching_key = allocate_and_generate_new_seeded_lwe_keyswitch_key(
            &cks.large_lwe_secret_key,
            &cks.small_lwe_secret_key,
            cks.parameters.ks_base_log,
            cks.parameters.ks_level,
            cks.parameters.lwe_modular_std_dev,
            cks.parameters.ciphertext_modulus,
            &mut self.seeder,
        );
        let max_value = cks.parameters.message_modulus.0 * cks.parameters.carry_modulus.0 - 1;
        proof {
            let n = cks.parameters.lwe_dimension.0 as int;
            let k = cks.parameters.glwe_dimension.0 as int;
            let size = cks.parameters.polynomial_size.0 as int;
            let l = cks.parameters.pbs_level.0 as int;
            let lk = cks.parameters.ks_level.0 as int;
            crate::core_crypto::algorithms::lwe_bootstrap_key_generation::lemma_ggsw_list_len(
                EncryptionRandomGenerator::spec_new(
                    old(self).seeder.generator.spec_seed(),
                    old(self).seeder.advanced(1),
                ),
                cks.bootstrap_key_shape(),
                cks.small_lwe_secret_key@,
                cks.glwe_secret_key@,
                false,
            );
            crate::core_crypto::algorithms::lwe_bootstrap_key_generation::lemma_keyswitch_key_len(
                EncryptionRandomGenerator::spec_new(
                    old(self).seeder.advanced(2).generator.spec_seed(),
                    old(self).seeder.advanced(3),
                ),
                cks.keyswitch_key_shape(),
                cks.large_lwe_secret_key@,
                cks.small_lwe_secret_key@,
                false,
            );
            crate::core_crypto::algorithms::lwe_bootstrap_key_generation::lemma_bootstrap_key_sizes(
                n,
                l,
                k,
                size,
            );
            assert(n * (l * (k + 1) * (k + 1) * size) == n * (l * (k + 1) * (k + 1) * size));
            assert((k * size) * lk * 1 == (k * size) * lk) by (nonlinear_arith);
            assert((k * size) * lk <= (k * size) * lk * (n + 1)) by (nonlinear_arith)
                requires
                    (k * size) * lk >= 0,
                    n >= 0,
            ;
            assert((k * size) * lk >= 0) by (nonlinear_arith)
                requires
                    k >= 1,
                    size >= 1,
                    lk >= 1,
            ;
        }
        Ok(
            CompressedServerKey {
                key_switching_key,
                bootstrapping_key,
                message_modulus: cks.parameters.message_modulus,
                carry_modulus: cks.parameters.carry_modulus,
                max_degree: MaxDegree(max_value),
            },
        )
    }

    /// Clear the carry of a ciphertext in place, with the accumulator of the scratch memory
    /// of the engine: the table that keeps the message is written over what the memory
    /// holds, and the ciphertext is bootstrapped with it. The scratch memory grows if it is
    /// too short and never shrinks: after the call it starts with the accumulator, and the
    /// rest is as it was, or zero where the memory grew.
    pub fn clear_carry_assign(&mut self, server_key: &ServerKey, ct: &mut Ciphertext) -> (result:
        EngineResult<()>)
        requires
            server_key.wf(),
            server_key.admits(old(ct)),
        ensures
            result is Ok,
            final(ct)@ == (CiphertextView {
                ct: server_key.lookup_table_applied(
                    old(ct)@.ct,
                    old(ct).pbs_order,
                    accumulator_of(
                        grown(
                            old(self).ciphertext_buffers.buffer@,
                            2 * server_key.glwe_len() + server_key.small_lwe_size() + 1
                                - server_key.bootstrapping_key.polynomial_size.0,
                        ).subrange(0, server_key.glwe_len()),
                        message_table(server_key.message_modulus.0 as int, server_key.modulus_sup()),
                        server_key.spec_delta(),
                        server_key.bootstrapping_key.polynomial_size.0 as int,
                    ),
                ),
                degree: degree_of(
                    max_value(
                        message_table(server_key.message_modulus.0 as int, server_key.modulus_sup()),
                    ),
                ),
                ..old(ct)@
            }),
            server_key.admits(final(ct)),
            final(self)@ == old(self)@,
            final(self).ciphertext_buffers.buffer@ == accumulator_of(
                grown(
                    old(self).ciphertext_buffers.buffer@,
                    2 * server_key.glwe_len() + server_key.small_lwe_size() + 1
                        - server_key.bootstrapping_key.polynomial_size.0,
                ).subrange(0, server_key.glwe_len()),
                message_table(server_key.message_modulus.0 as int, server_key.modulus_sup()),
                server_key.spec_delta(),
                server_key.bootstrapping_key.polynomial_size.0 as int,
            ) + grown(
                old(self).ciphertext_buffers.buffer@,
                2 * server_key.glwe_len() + server_key.small_lwe_size() + 1
                    - server_key.bootstrapping_key.polynomial_size.0,
            ).skip(server_key.glwe_len()),
            final(self).ciphertext_buffers.buffer@.len() >= old(
                self,
            ).ciphertext_buffers.buffer@.len(),
            final(self).computation_buffers.buffer@ == old(self).computation_buffers.buffer@,
    {
        let ghost total = 2 * server_key.glwe_len() + server_key.small_lwe_size() + 1
            - server_key.bootstrapping_key.polynomial_size.0;
        let ghost memory = grown(old(self).ciphertext_buffers.buffer@, total);
        let (buffers, _) = self.get_carry_clearing_accumulator_and_buffers(server_key);
        let data = server_key.apply_lookup_table_to_scalars(
            ct.ct.data.as_slice(),
            ct.pbs_order,
            buffers.accumulator.acc.data.as_slice(),
        );
        ct.ct.data = data;
        ct.degree = buffers.accumulator.degree;
        proof {
            let after_ks = buffers.buffer_lwe_after_ks@;
            let after_pbs = buffers.buffer_lwe_after_pbs@;
            let glwe_len = server_key.glwe_len();
            let small = server_key.small_lwe_size();
            assert(memory.len() >= total);
            assert(after_ks.len() == small);
            assert(after_pbs.len() == server_key.big_lwe_size());
            assert(total == glwe_len + small + server_key.big_lwe_size()) by (nonlinear_arith)
                requires
                    total == 2 * glwe_len + small + 1
                        - server_key.bootstrapping_key.polynomial_size.0,
                    glwe_len == server_key.bootstrapping_key.glwe_size.0
                        * server_key.bootstrapping_key.polynomial_size.0,
                    server_key.big_lwe_size() == (server_key.bootstrapping_key.glwe_size.0 - 1)
                        * server_key.bootstrapping_key.polynomial_size.0 + 1,
            ;
            assert(after_ks == memory.subrange(glwe_len, glwe_len + small));
            assert(after_pbs == memory.subrange(glwe_len + small, total));
            assert(after_ks + after_pbs + memory.skip(total) =~= memory.skip(glwe_len));
            assert(buffers.accumulator.acc@.len() == server_key.glwe_len());
        }
        Ok(())
    }
}

} // verus!
