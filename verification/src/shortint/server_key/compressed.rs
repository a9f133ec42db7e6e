//! The compressed server key.
use crate::core_crypto::entities::lwe_keyswitch_key::SeededLweKeyswitchKeyOwned;
use crate::core_crypto::entities::seeded_lwe_bootstrap_key::SeededLweBootstrapKeyOwned;
use crate::shortint::client_key::ClientKey;
use crate::core_crypto::algorithms::lwe_bootstrap_key_generation::{
    lemma_decompressed_ggsw_list,
    lemma_decompressed_keyswitch_key,
    lemma_ggsw_list_len,
    lemma_keyswitch_key_len,
};
use crate::shortint::engine::{EngineState, ShortintEngine};
use crate::shortint::parameters::{CarryModulus, MessageModulus};
use crate::shortint::server_key::{MaxDegree, ServerKey};
use vstd::prelude::*;

verus! {

/// A compressed server key: the seeded forms of the two keys of a server key. The client
/// publishes it, and the server decompresses it once.
#[derive(Debug)]
pub struct CompressedServerKey {
    pub key_switching_key: SeededLweKeyswitchKeyOwned,
    pub bootstrapping_key: SeededLweBootstrapKeyOwned,
    /// The size of the message part.
    pub message_modulus: MessageModulus,
    /// The size of the carry part.
    pub carry_modulus: CarryModulus,
    /// The largest degree before the carry must be cleared.
    pub max_degree: MaxDegree,
}

impl CompressedServerKey {
    /// The number of scalars of an accumulator of the server key that this one stands for.
    pub open spec fn glwe_len(&self) -> int {
        self.bootstrapping_key.glwe_size.0 * self.bootstrapping_key.polynomial_size.0
    }

    /// The two seeded keys are well formed, the keys that they stand for fit each other and
    /// can be addressed, and the moduli are those of a server key.
    pub open spec fn wf(&self) -> bool {
        &&& self.bootstrapping_key.wf()
        &&& self.key_switching_key.wf()
        &&& self.bootstrapping_key.glwe_size.0 >= 2
        &&& crate::core_crypto::algorithms::decomposition::is_valid_gadget(
            self.bootstrapping_key.decomp_base_log.0 as int,
            self.bootstrapping_key.decomp_level_count.0 as int,
        )
        &&& self.bootstrapping_key.polynomial_size.0 <= 0x4000_0000
        &&& self.bootstrapping_key.ciphertext_modulus.is_native_modulus()
        &&& self.key_switching_key.output_lwe_size.0
            == self.bootstrapping_key.spec_input_lwe_dimension() + 1
        &&& self.key_switching_key@.len() == ((self.bootstrapping_key.glwe_size.0 - 1)
            * self.bootstrapping_key.polynomial_size.0) * self.key_switching_key.decomp_level_count.0
        &&& self.bootstrapping_key.spec_input_lwe_dimension() * (
        self.bootstrapping_key.decomp_level_count.0 * self.bootstrapping_key.glwe_size.0
            * self.bootstrapping_key.glwe_size.0 * self.bootstrapping_key.polynomial_size.0)
            <= usize::MAX
        &&& self.bootstrapping_key.decomp_level_count.0 * self.bootstrapping_key.glwe_size.0
            * self.bootstrapping_key.glwe_size.0 * self.bootstrapping_key.polynomial_size.0
            <= usize::MAX
        &&& self.key_switching_key@.len() * self.key_switching_key.output_lwe_size.0 <= usize::MAX
        &&& self.message_modulus.0 >= 1
        &&& self.carry_modulus.0 >= 1
        &&& self.message_modulus.0 * self.carry_modulus.0 <= usize::MAX
        &&& self.message_modulus.0 * self.carry_modulus.0 <= 0x8000_0000_0000_0000
        &&& 2 * self.glwe_len() + self.key_switching_key.output_lwe_size.0 + 1 <= usize::MAX
    }

    /// Generate the compressed server key of a client key with the seeder of an engine.
    ///
    /// The ciphertext modulus must be the native one: the scaling factor of the encoding is
    /// a fraction of `2^64`, and no encoding is defined for another modulus.
    pub fn new(client_key: &ClientKey, engine: &mut ShortintEngine) -> (server_key: CompressedServerKey)
        requires
            client_key.wf(),
            client_key.parameters.ciphertext_modulus.is_native_modulus(),
        ensures
            server_key.is_key_of(old(engine)@, *client_key),
            server_key.max_degree.0 == client_key.parameters.modulus_sup() - 1,
            final(engine)@ == (EngineState {
                seeder: old(engine)@.seeder.advanced(4),
                ..old(engine)@
            }),
    {
        engine.new_compressed_server_key(client_key).unwrap()
    }

    /// Decompress the two keys and give the server key: the masks of all the rows are
    /// generated again from the two seeds.
    pub fn decompress(self) -> (server_key: ServerKey)
        requires
            self.wf(),
        ensures
            self.decompresses_to(server_key),
    {
        proof {
            self.lemma_decompressed_sizes();
        }
        let ciphertext_modulus = self.bootstrapping_key.ciphertext_modulus;
        let bootstrapping_key = self.bootstrapping_key.decompress_into_lwe_bootstrap_key();
        let key_switching_key = self.key_switching_key.decompress_into_lwe_keyswitch_key();
        ServerKey {
            key_switching_key,
            bootstrapping_key,
            message_modulus: self.message_modulus,
            carry_modulus: self.carry_modulus,
            max_degree: self.max_degree,
            ciphertext_modulus,
        }
    }

    /// The keys that a well formed compressed key stands for hold whole GGSW ciphertexts and
    /// whole blocks, as many as the dimensions say.
    pub proof fn lemma_decompressed_sizes(&self)
        requires
            self.wf(),
        ensures
            self.bootstrapping_key.decompressed().len() == self.bootstrapping_key.spec_input_lwe_dimension()
                * (self.bootstrapping_key.decomp_level_count.0 * self.bootstrapping_key.glwe_size.0
                * self.bootstrapping_key.glwe_size.0 * self.bootstrapping_key.polynomial_size.0),
            self.bootstrapping_key.decompressed().len() as int % (
            self.bootstrapping_key.decomp_level_count.0 * self.bootstrapping_key.glwe_size.0
                * self.bootstrapping_key.glwe_size.0 * self.bootstrapping_key.polynomial_size.0)
                == 0,
            self.bootstrapping_key.decompressed().len() as int / (
            self.bootstrapping_key.decomp_level_count.0 * self.bootstrapping_key.glwe_size.0
                * self.bootstrapping_key.glwe_size.0 * self.bootstrapping_key.polynomial_size.0)
                == self.bootstrapping_key.spec_input_lwe_dimension(),
            self.bootstrapping_key.decomp_level_count.0 * self.bootstrapping_key.glwe_size.0
                * self.bootstrapping_key.glwe_size.0 * self.bootstrapping_key.polynomial_size.0
                <= usize::MAX,
            self.bootstrapping_key.glwe_size.0 * self.bootstrapping_key.polynomial_size.0
                < usize::MAX,
            self.key_switching_key.decompressed().len() == ((self.bootstrapping_key.glwe_size.0 - 1)
                * self.bootstrapping_key.polynomial_size.0) * (
            self.key_switching_key.decomp_level_count.0 * self.key_switching_key.output_lwe_size.0),
            self.key_switching_key.decompressed().len() as int % (
            self.key_switching_key.decomp_level_count.0 * self.key_switching_key.output_lwe_size.0)
                == 0,
            self.key_switching_key.decompressed().len() as int / (
            self.key_switching_key.decomp_level_count.0 * self.key_switching_key.output_lwe_size.0)
                == (self.bootstrapping_key.glwe_size.0 - 1)
                * self.bootstrapping_key.polynomial_size.0,
    {
        let n = self.bootstrapping_key.spec_input_lwe_dimension();
        let l = self.bootstrapping_key.decomp_level_count.0 as int;
        let g = self.bootstrapping_key.glwe_size.0 as int;
        let size = self.bootstrapping_key.polynomial_size.0 as int;
        let len = self.bootstrapping_key@.len() as int;
        let unit = l * g * size;
        crate::core_crypto::entities::seeded_lwe_bootstrap_key::lemma_seeded_sizes(
            self.bootstrapping_key.glwe_size,
            self.bootstrapping_key.polynomial_size,
            self.bootstrapping_key.decomp_level_count,
        );
        crate::core_crypto::entities::lwe_bootstrap_key::lemma_ggsw_size_positive(
            self.bootstrapping_key.glwe_size,
            self.bootstrapping_key.polynomial_size,
            self.bootstrapping_key.decomp_level_count,
        );
        vstd::arithmetic::div_mod::lemma_fundamental_div_mod(len, unit);
        vstd::arithmetic::div_mod::lemma_div_pos_is_pos(len, unit);
        assert(len == n * unit) by (nonlinear_arith)
            requires
                len == unit * n + 0,
        ;
        crate::core_crypto::entities::seeded_lwe_bootstrap_key::lemma_whole_polynomials(
            len,
            size,
            l * g,
        );
        let rows = len / size;
        assert(rows == n * (l * g)) by {
            assert(n * unit == (n * (l * g)) * size) by (nonlinear_arith)
                requires
                    unit == l * g * size,
            ;
            vstd::arithmetic::div_mod::lemma_div_multiples_vanish(n * (l * g), size);
            assert(size * (n * (l * g)) == (n * (l * g)) * size) by (nonlinear_arith);
        }
        assert(rows >= 0) by (nonlinear_arith)
            requires
                rows == n * (l * g),
                n >= 0,
                l >= 1,
                g >= 1,
        ;
        crate::core_crypto::algorithms::seeded_decompression::lemma_with_masks_len(
            self.bootstrapping_key@,
            self.bootstrapping_key.compression_seed.seed,
            (g - 1) * size,
            size,
            rows,
        );
        let ggsw = l * g * g * size;
        assert(rows * ((g - 1) * size + size) == n * ggsw) by (nonlinear_arith)
            requires
                rows == n * (l * g),
                ggsw == l * g * g * size,
        ;
        vstd::arithmetic::div_mod::lemma_mod_multiples_basic(n, ggsw);
        vstd::arithmetic::div_mod::lemma_div_multiples_vanish(n, ggsw);
        assert(ggsw * n == n * ggsw) by (nonlinear_arith);
        assert(ggsw <= n * ggsw || n == 0) by (nonlinear_arith)
            requires
                n >= 0,
                ggsw >= 1,
        ;
        assert(g * size <= ggsw) by (nonlinear_arith)
            requires
                ggsw == l * g * g * size,
                l >= 1,
                g >= 1,
                size >= 1,
        ;
        if n == 0 {
            assert(ggsw == (l * g * size) * g) by (nonlinear_arith)
                requires
                    ggsw == l * g * g * size,
            ;
        }
        let lk = self.key_switching_key.decomp_level_count.0 as int;
        let out = self.key_switching_key.output_lwe_size.0 as int;
        let big = (g - 1) * size;
        let ks_rows = self.key_switching_key@.len() as int;
        assert(ks_rows * 1 == ks_rows);
        crate::core_crypto::algorithms::seeded_decompression::lemma_with_masks_len(
            self.key_switching_key@,
            self.key_switching_key.compression_seed.seed,
            out - 1,
            1,
            ks_rows,
        );
        assert(ks_rows * (out - 1 + 1) == big * (lk * out)) by (nonlinear_arith)
            requires
                ks_rows == big * lk,
        ;
        crate::core_crypto::entities::lwe_keyswitch_key::lemma_block_size_positive(lk, out);
        vstd::arithmetic::div_mod::lemma_mod_multiples_basic(big, lk * out);
        vstd::arithmetic::div_mod::lemma_div_multiples_vanish(big, lk * out);
        assert((lk * out) * big == big * (lk * out)) by (nonlinear_arith);
    }
}

impl CompressedServerKey {
    /// Whether this is the compressed server key that an engine in the state `state`
    /// generates for a client key.
    pub open spec fn is_key_of(&self, state: EngineState, client_key: ClientKey) -> bool {
        &&& self.wf()
        &&& self.bootstrapping_key@ == state.seeded_bootstrap_key(client_key)
        &&& self.bootstrapping_key.compression_seed.seed == state.seeder.generator.spec_seed()
        &&& self.key_switching_key@ == state.seeded_keyswitch_key(client_key)
        &&& self.key_switching_key.compression_seed.seed == state.seeder.advanced(
            2,
        ).generator.spec_seed()
        &&& self.bootstrapping_key.polynomial_size == client_key.parameters.polynomial_size
        &&& self.bootstrapping_key.glwe_size.0 == client_key.parameters.glwe_dimension.0 + 1
        &&& self.bootstrapping_key.decomp_base_log == client_key.parameters.pbs_base_log
        &&& self.bootstrapping_key.decomp_level_count == client_key.parameters.pbs_level
        &&& self.key_switching_key.decomp_base_log == client_key.parameters.ks_base_log
        &&& self.key_switching_key.decomp_level_count == client_key.parameters.ks_level
        &&& self.key_switching_key.output_lwe_size.0 == client_key.parameters.lwe_dimension.0 + 1
        &&& self.message_modulus == client_key.parameters.message_modulus
        &&& self.carry_modulus == client_key.parameters.carry_modulus
        &&& self.bootstrapping_key.ciphertext_modulus
            == client_key.parameters.ciphertext_modulus
        &&& self.key_switching_key.ciphertext_modulus
            == client_key.parameters.ciphertext_modulus
    }

    /// Whether a server key is the one that this key decompresses to.
    pub open spec fn decompresses_to(&self, server_key: ServerKey) -> bool {
        &&& server_key.wf()
        &&& server_key.bootstrapping_key@ == self.bootstrapping_key.decompressed()
        &&& server_key.key_switching_key@ == self.key_switching_key.decompressed()
        &&& server_key.bootstrapping_key.glwe_size == self.bootstrapping_key.glwe_size
        &&& server_key.bootstrapping_key.polynomial_size == self.bootstrapping_key.polynomial_size
        &&& server_key.bootstrapping_key.decomp_base_log == self.bootstrapping_key.decomp_base_log
        &&& server_key.bootstrapping_key.decomp_level_count
            == self.bootstrapping_key.decomp_level_count
        &&& server_key.key_switching_key.decomp_base_log == self.key_switching_key.decomp_base_log
        &&& server_key.key_switching_key.decomp_level_count
            == self.key_switching_key.decomp_level_count
        &&& server_key.key_switching_key.output_lwe_size == self.key_switching_key.output_lwe_size
        &&& server_key.message_modulus == self.message_modulus
        &&& server_key.carry_modulus == self.carry_modulus
        &&& server_key.max_degree == self.max_degree
        &&& server_key.ciphertext_modulus == self.bootstrapping_key.ciphertext_modulus
        &&& server_key.bootstrapping_key.ciphertext_modulus
            == self.bootstrapping_key.ciphertext_modulus
        &&& server_key.key_switching_key.ciphertext_modulus
            == self.key_switching_key.ciphertext_modulus
    }
}

/// Decompression gives the keys that the seeds give without compression: the server key
/// that a compressed server key of a client decompresses to holds the bootstrap key and the
/// key switching key of the two generators that start at the seeds of the compressed key.
/// So every law of the server keys holds of it.
pub proof fn lemma_decompressed_is_key(
    state: EngineState,
    client_key: ClientKey,
    compressed: CompressedServerKey,
    server_key: ServerKey,
)
    requires
        client_key.wf(),
        compressed.is_key_of(state, client_key),
        compressed.decompresses_to(server_key),
    ensures
        server_key.is_key_from(state.compressed_server_key_generators(), client_key),
{
    let generators = state.compressed_server_key_generators();
    let shape = client_key.bootstrap_key_shape();
    let small = client_key.small_lwe_secret_key@;
    let large = client_key.large_lwe_secret_key@;
    let glwe_key = client_key.glwe_secret_key@;
    let size = shape.polynomial_size;
    let rows = small.len() * shape.rows();
    lemma_ggsw_list_len(generators.bootstrap, shape, small, glwe_key, false);
    lemma_decompressed_ggsw_list(generators.bootstrap, shape, small, glwe_key);
    assert(rows >= 0) by (nonlinear_arith)
        requires
            rows == small.len() * shape.rows(),
            shape.rows() == shape.levels * (shape.glwe_dimension + 1),
            shape.glwe_dimension >= 0,
    ;
    vstd::arithmetic::div_mod::lemma_div_multiples_vanish(rows, size);
    assert(rows * size == size * rows) by (nonlinear_arith);
    assert(compressed.bootstrapping_key@.len() as int / size == rows);
    let ks_shape = client_key.keyswitch_key_shape();
    lemma_keyswitch_key_len(generators.keyswitch, ks_shape, large, small, false);
    lemma_decompressed_keyswitch_key(generators.keyswitch, ks_shape, large, small);
    assert((large.len() * ks_shape.levels) * 1 == large.len() * ks_shape.levels)
        by (nonlinear_arith);
}

} // verus!
