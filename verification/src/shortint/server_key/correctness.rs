//! What a lookup table does to the integer that a ciphertext encodes.
//!
//! The laws here follow a ciphertext through the key switch, the modulus switch, the blind
//! rotation and the sample extraction. They hold for every key and every ciphertext whose
//! noise, with the errors that the key switch, the modulus switch and the blind rotation
//! can add at worst, stays within the budget of the parameters.
use crate::core_crypto::algorithms::blind_rotation_correctness::cmux_error_bound;
use crate::core_crypto::algorithms::bootstrap_correctness::{
    lemma_bootstrap_reads_table,
    lemma_located_in_box,
    lemma_rotation_is_located,
    located_degree,
};
use crate::core_crypto::algorithms::cmux_correctness::bootstrap_shape_of;
use crate::core_crypto::algorithms::ggsw_phase::lemma_key_products_equal;
use crate::core_crypto::algorithms::glwe_phase::{
    family_of,
    glwe_phase,
    ints,
    is_glwe_key,
    poly_zero,
};
use crate::core_crypto::algorithms::external_product_correctness::lemma_zero_family_products;
use crate::core_crypto::algorithms::lwe_encryption::lwe_phase;
use crate::core_crypto::commons::capped::{
    budget_cap,
    capped,
    capped_product,
    capped_sum,
    lemma_capped_operations,
};
use crate::core_crypto::commons::generators::EncryptionRandomGenerator;
use crate::core_crypto::algorithms::lwe_keyswitch_correctness::{
    keyswitch_error,
    keyswitch_error_bound,
    lemma_keyswitch_keeps_phase,
};
use crate::core_crypto::algorithms::modulus_switch_correctness::{
    is_switch_size,
    lemma_switch_unit,
    switch_unit,
};
use crate::core_crypto::algorithms::polynomial_algorithms::{
    lemma_polynomial_bounds,
    polynomial_of,
};
use crate::core_crypto::algorithms::polynomial_ring::{
    coefficient,
    lemma_coefficient_in_range,
    lemma_degree_residues,
    poly_difference,
};
use crate::core_crypto::commons::numeric::{
    congruent,
    lemma_congruent_ops,
    lemma_congruent_torus,
    lemma_torus_absorbs,
    torus,
};
use crate::shortint::ciphertext::{CiphertextView, PBSOrder};
use crate::shortint::client_key::ClientKey;
use crate::shortint::engine::client_side::{
    decoded,
    decrypted_message_and_carry,
    lemma_decoding_rounds_noise_away,
};
use crate::shortint::engine::{accumulator_body, accumulator_of, EngineState};
use crate::shortint::parameters::Parameters;
use crate::shortint::server_key::ServerKey;
use vstd::prelude::*;

verus! {

/// The coefficient of the body of an accumulator at a degree in the box of an input, moved
/// back by half a box, is the value of the table for the input, scaled: the box of an input
/// is centred on the multiple of the box size that encodes it, and the half box below zero
/// is read with the opposite sign from the other end.
pub proof fn lemma_accumulator_box(
    old_body: Seq<u64>,
    values: Seq<u64>,
    delta: u64,
    input: int,
    degree: int,
)
    requires
        old_body.len() >= 1,
        values.len() >= 1,
        old_body.len() as int % values.len() as int == 0,
        0 <= input < values.len(),
        input * (old_body.len() as int / values.len() as int) - (old_body.len() as int
            / values.len() as int) / 2 <= degree < (input + 1) * (old_body.len() as int
            / values.len() as int) - (old_body.len() as int / values.len() as int) / 2,
    ensures
        congruent(
            coefficient(ints(accumulator_body(old_body, values, delta)), degree),
            values[input] * delta,
        ),
{
    let n = old_body.len() as int;
    let count = values.len() as int;
    let box_size = n / count;
    let half = box_size / 2;
    let body = accumulator_body(old_body, values, delta);
    vstd::arithmetic::div_mod::lemma_fundamental_div_mod(n, count);
    assert(count * box_size == n);
    assert(box_size >= 1) by (nonlinear_arith)
        requires
            count * box_size == n,
            n >= 1,
            count >= 1,
    ;
    assert((input + 1) * box_size <= count * box_size) by (nonlinear_arith)
        requires
            input + 1 <= count,
            box_size >= 0,
    ;
    assert(input * box_size >= 0) by (nonlinear_arith)
        requires
            input >= 0,
            box_size >= 0,
    ;
    assert((input + 1) * box_size == input * box_size + box_size) by (nonlinear_arith);
    lemma_congruent_torus(values[input] * delta);
    if degree >= 0 {
        lemma_coefficient_in_range(ints(body), degree);
        let source = degree + half;
        vstd::arithmetic::div_mod::lemma_small_mod(source as nat, n as nat);
        vstd::arithmetic::div_mod::lemma_fundamental_div_mod_converse(
            source,
            box_size,
            input,
            source - input * box_size,
        );
        assert(body[degree] == torus(values[input] * delta));
    } else {
        // only the first input has degrees below zero in its box
        assert(input == 0) by (nonlinear_arith)
            requires
                input * box_size - half <= degree,
                degree < 0,
                half <= box_size,
                input >= 0,
                box_size >= 1,
        ;
        lemma_degree_residues(degree, n);
        vstd::arithmetic::div_mod::lemma_fundamental_div_mod_converse(
            degree,
            2 * n,
            -1,
            degree + 2 * n,
        );
        let j = degree + n;
        assert(degree % n == j);
        let source = degree + half;
        assert((j + half) == n * 1 + source);
        vstd::arithmetic::div_mod::lemma_fundamental_div_mod_converse(j + half, n, 1, source);
        vstd::arithmetic::div_mod::lemma_basic_div(source, box_size);
        let raw = torus(values[0] * delta);
        assert(body[j] == torus(-raw));
        lemma_congruent_torus(-raw);
        lemma_congruent_ops(0, 0, body[j] as int, -raw);
        lemma_congruent_ops(0, 0, raw as int, values[0] * delta);
        lemma_congruent_ops(0, 0, 0 - raw, 0 - values[0] * delta);
    }
}

/// The phase of the accumulator of a table is its body: its mask is zero.
pub proof fn lemma_accumulator_phase(
    size_of_mask: int,
    values: Seq<u64>,
    delta: u64,
    glwe_key: Seq<u64>,
    polynomial_size: int,
    dimension: int,
)
    requires
        is_glwe_key(glwe_key, polynomial_size, dimension),
        size_of_mask == dimension * polynomial_size,
    ensures
        glwe_phase(
            accumulator_of(
                Seq::new((size_of_mask + polynomial_size) as nat, |i: int| 0u64),
                values,
                delta,
                polynomial_size,
            ),
            glwe_key,
            polynomial_size,
            dimension,
        ) == ints(
            accumulator_body(Seq::new(polynomial_size as nat, |i: int| 0u64), values, delta),
        ),
{
    let n = polynomial_size;
    let k = dimension;
    let old = Seq::new((size_of_mask + n) as nat, |i: int| 0u64);
    let accumulator = accumulator_of(old, values, delta, n);
    let zeros = Seq::new(n as nat, |i: int| 0u64);
    let body = accumulator_body(zeros, values, delta);
    assert(size_of_mask >= 0) by (nonlinear_arith)
        requires
            size_of_mask == k * n,
            k >= 0,
            n >= 1,
    ;
    assert(old.subrange(size_of_mask, old.len() as int) =~= zeros);
    let family = family_of(accumulator, n);
    let zero_family = |c: int| poly_zero(n as nat);
    assert((k + 1) * n == k * n + n) by (nonlinear_arith);
    assert forall|c: int| 0 <= c < k implies #[trigger] family(c) == zero_family(c) by {
        lemma_polynomial_bounds(c, k + 1, n);
        lemma_polynomial_bounds(c, k, n);
        assert(ints(polynomial_of(accumulator, c, n)) =~= poly_zero(n as nat));
    }
    lemma_key_products_equal(family, zero_family, glwe_key, n, k);
    lemma_zero_family_products(zero_family, glwe_key, n, k, k);
    lemma_polynomial_bounds(k, k + 1, n);
    assert(polynomial_of(accumulator, k, n) =~= body);
    assert(poly_difference(ints(body), poly_zero(n as nat)) =~= ints(body));
}

impl Parameters {
    /// The number of degrees of a lookup table that an input has to itself.
    pub open spec fn box_size(&self) -> int {
        self.polynomial_size.0 as int / self.modulus_sup()
    }

    /// The largest error that a key switch adds.
    pub open spec fn keyswitch_bound(&self) -> int {
        keyswitch_error_bound(
            crate::core_crypto::algorithms::lwe_keyswitch_key_generation::KeyswitchShape {
                base_log: self.ks_base_log.0 as nat,
                levels: self.ks_level.0 as nat,
                std: self.lwe_modular_std_dev,
            },
            self.glwe_dimension.0 * self.polynomial_size.0,
        )
    }

    /// The largest error that a blind rotation adds.
    pub open spec fn blind_rotation_bound(&self) -> int {
        self.lwe_dimension.0 * cmux_error_bound(
            crate::core_crypto::algorithms::ggsw_encryption::GgswShape {
                polynomial_size: self.polynomial_size.0 as int,
                glwe_dimension: self.glwe_dimension.0 as int,
                base_log: self.pbs_base_log.0 as nat,
                levels: self.pbs_level.0 as nat,
                std: self.glwe_modular_std_dev,
            },
        )
    }

    /// Whether a bootstrap is exact for every input whose noise is at most `input_noise`:
    /// the boxes of the lookup tables tile the polynomial, the noise of the input, with the
    /// error of a key switch and half a unit of the modulus switch for the body and for
    /// each scalar of the mask, stays under half a box, and the errors of the blind
    /// rotation and of a key switch together stay under half of the scaling factor.
    pub open spec fn bootstrap_budget(&self, input_noise: int) -> bool {
        &&& self.polynomial_size.0 as int % self.modulus_sup() == 0
        &&& self.lwe_modular_std_dev.0 <= 0x7fff_ffff_ffff_ffff
        &&& self.glwe_modular_std_dev.0 <= 0x7fff_ffff_ffff_ffff
        &&& input_noise >= 0
        &&& input_noise + self.keyswitch_bound() + (self.lwe_dimension.0 + 1) * (switch_unit(
            self.polynomial_size.0 as int,
        ) / 2) < (self.box_size() / 2) * switch_unit(self.polynomial_size.0 as int)
        &&& self.blind_rotation_bound() + self.keyswitch_bound() < self.spec_delta() / 2
    }

    /// The scaling factor is one box of units of the modulus switch, when the boxes tile
    /// the polynomial.
    pub proof fn lemma_delta_is_boxes(&self)
        requires
            self.wf(),
            self.polynomial_size.0 as int % self.modulus_sup() == 0,
        ensures
            self.spec_delta() == self.box_size() * switch_unit(self.polynomial_size.0 as int),
            self.box_size() >= 1,
            self.box_size() * self.modulus_sup() == self.polynomial_size.0,
            is_switch_size(self.polynomial_size.0 as int),
            self.modulus_sup() >= 1,
    {
        let n = self.polynomial_size.0 as int;
        let sup = self.modulus_sup();
        crate::shortint::parameters::lemma_modulus_sup_positive(
            self.message_modulus.0 as int,
            self.carry_modulus.0 as int,
        );
        lemma_switch_unit(n);
        let d = switch_unit(n);
        let b = n / sup;
        vstd::arithmetic::div_mod::lemma_fundamental_div_mod(n, sup);
        assert(b * sup == n) by (nonlinear_arith)
            requires
                n == sup * b + 0,
        ;
        assert(b >= 1) by (nonlinear_arith)
            requires
                b * sup == n,
                n >= 1,
                sup >= 1,
        ;
        // 2^63 == d * n == (d * b) * sup
        assert((b * d) * sup == 0x8000_0000_0000_0000) by (nonlinear_arith)
            requires
                d * n == 0x8000_0000_0000_0000,
                b * sup == n,
        ;
        vstd::arithmetic::div_mod::lemma_div_multiples_vanish(b * d, sup);
        assert(sup * (b * d) == (b * d) * sup) by (nonlinear_arith);
        crate::shortint::parameters::lemma_delta_bounds(sup);
    }
}

/// The generators of the two keys of a server key, each at the start of its key.
pub struct KeyGenerators {
    pub bootstrap: EncryptionRandomGenerator,
    pub keyswitch: EncryptionRandomGenerator,
}

impl EngineState {
    /// The generators of the keys of the server key that the engine gives: the generator of
    /// encryptions gives the bootstrap key, then the key switching key.
    pub open spec fn server_key_generators(self, client_key: ClientKey) -> KeyGenerators {
        KeyGenerators {
            bootstrap: self.encryption_generator,
            keyswitch: crate::core_crypto::algorithms::ggsw_encryption::generator_of_row(
                self.encryption_generator,
                client_key.bootstrap_key_shape(),
                client_key.bootstrap_key_rows(),
            ),
        }
    }

    /// The generators of the keys of the compressed server key that the engine gives: each
    /// key has a generator of its own, whose masks start at the compression seed of the
    /// key and whose noise starts at the next seed of the seeder.
    pub open spec fn compressed_server_key_generators(self) -> KeyGenerators {
        KeyGenerators {
            bootstrap: EncryptionRandomGenerator::spec_new(
                self.seeder.generator.spec_seed(),
                self.seeder.advanced(1),
            ),
            keyswitch: EncryptionRandomGenerator::spec_new(
                self.seeder.advanced(2).generator.spec_seed(),
                self.seeder.advanced(3),
            ),
        }
    }
}

impl ServerKey {
    /// Whether the two keys of this server key are those that the generators give for a
    /// client key.
    pub open spec fn is_key_from(&self, generators: KeyGenerators, client_key: ClientKey) -> bool {
        &&& self.wf()
        &&& self.bootstrapping_key@ == crate::core_crypto::algorithms::ggsw_encryption::ggsw_list(
            generators.bootstrap,
            client_key.bootstrap_key_shape(),
            client_key.small_lwe_secret_key@,
            client_key.glwe_secret_key@,
            true,
        )
        &&& self.key_switching_key@
            == crate::core_crypto::algorithms::lwe_keyswitch_key_generation::keyswitch_key(
            generators.keyswitch,
            client_key.keyswitch_key_shape(),
            client_key.large_lwe_secret_key@,
            client_key.small_lwe_secret_key@,
            true,
        )
        &&& self.bootstrapping_key.polynomial_size == client_key.parameters.polynomial_size
        &&& self.bootstrapping_key.glwe_size.0 == client_key.parameters.glwe_dimension.0 + 1
        &&& self.bootstrapping_key.decomp_base_log == client_key.parameters.pbs_base_log
        &&& self.bootstrapping_key.decomp_level_count == client_key.parameters.pbs_level
        &&& self.key_switching_key.decomp_base_log == client_key.parameters.ks_base_log
        &&& self.key_switching_key.decomp_level_count == client_key.parameters.ks_level
        &&& self.key_switching_key.output_lwe_size.0 == client_key.parameters.lwe_dimension.0 + 1
        &&& self.message_modulus == client_key.parameters.message_modulus
        &&& self.carry_modulus == client_key.parameters.carry_modulus
    }

    /// Whether this is the server key that an engine in the state `state` generates for a
    /// client key.
    pub open spec fn is_key_of(&self, state: EngineState, client_key: ClientKey) -> bool {
        self.is_key_from(state.server_key_generators(client_key), client_key)
    }
}

/// A key switch by the server key keeps the phase: the phase under the small key of the key
/// switch of a ciphertext is its phase under the large key, plus an error within the bound
/// of the parameters.
pub proof fn lemma_server_keyswitch(
    generators: KeyGenerators,
    client_key: ClientKey,
    server_key: ServerKey,
    ct: Seq<u64>,
)
    requires
        client_key.wf(),
        server_key.is_key_from(generators, client_key),
        client_key.parameters.lwe_modular_std_dev.0 <= 0x7fff_ffff_ffff_ffff,
        ct.len() == client_key.large_lwe_secret_key@.len() + 1,
    ensures
        exists|error: int|
            -client_key.parameters.keyswitch_bound() <= error
                <= client_key.parameters.keyswitch_bound() && #[trigger] torus(
                lwe_phase(client_key.large_lwe_secret_key@, ct) + error,
            ) == lwe_phase(client_key.small_lwe_secret_key@, server_key.spec_keyswitched(ct)),
        server_key.spec_keyswitched(ct).len() == client_key.small_lwe_secret_key@.len() + 1,
{
    let generator = generators.keyswitch;
    let shape = client_key.keyswitch_key_shape();
    let large = client_key.large_lwe_secret_key@;
    let small = client_key.small_lwe_secret_key@;
    lemma_keyswitch_keeps_phase(generator, shape, large, small, ct);
    let error = keyswitch_error(generator, shape, ct, large, small.len() as int);
    assert(torus(lwe_phase(large, ct) + error) == lwe_phase(
        small,
        server_key.spec_keyswitched(ct),
    ));
    crate::core_crypto::algorithms::lwe_keyswitch::lemma_keyswitch_partial_len(
        server_key.key_switching_key@,
        ct,
        server_key.small_lwe_size(),
        shape.base_log,
        shape.levels,
        (ct.len() - 1) * shape.levels,
    );
}

/// A bootstrap by the server key evaluates its table: for an input under the small key that
/// encodes the value `value` with a noise within `noise_bound`, the phase under the large
/// key of the bootstrap with the table `values` is the scaled value of the table for
/// `value`, plus an error within the bound of the blind rotation.
pub proof fn lemma_server_bootstrap(
    generators: KeyGenerators,
    client_key: ClientKey,
    server_key: ServerKey,
    input: Seq<u64>,
    values: Seq<u64>,
    value: int,
    noise: int,
    noise_bound: int,
)
    requires
        client_key.wf(),
        server_key.is_key_from(generators, client_key),
        client_key.parameters.polynomial_size.0 as int % client_key.parameters.modulus_sup() == 0,
        client_key.parameters.glwe_modular_std_dev.0 <= 0x7fff_ffff_ffff_ffff,
        input.len() == client_key.small_lwe_secret_key@.len() + 1,
        values.len() == client_key.parameters.modulus_sup(),
        0 <= value < client_key.parameters.modulus_sup(),
        congruent(
            lwe_phase(client_key.small_lwe_secret_key@, input) as int,
            value * client_key.parameters.spec_delta() + noise,
        ),
        -noise_bound <= noise <= noise_bound,
        noise_bound + (client_key.parameters.lwe_dimension.0 + 1) * (switch_unit(
            client_key.parameters.polynomial_size.0 as int,
        ) / 2) < (client_key.parameters.box_size() / 2) * switch_unit(
            client_key.parameters.polynomial_size.0 as int,
        ),
    ensures
        exists|error: int|
            -client_key.parameters.blind_rotation_bound() <= error
                <= client_key.parameters.blind_rotation_bound() && #[trigger] torus(
                values[value] * client_key.parameters.spec_delta() + error,
            ) == lwe_phase(
                client_key.large_lwe_secret_key@,
                server_key.spec_bootstrapped(input, server_key.accumulator(values)),
            ),
        server_key.spec_bootstrapped(input, server_key.accumulator(values)).len()
            == client_key.large_lwe_secret_key@.len() + 1,
{
    let parameters = client_key.parameters;
    let n = parameters.polynomial_size.0 as int;
    let k = parameters.glwe_dimension.0 as int;
    let shape = client_key.bootstrap_key_shape();
    let small = client_key.small_lwe_secret_key@;
    let glwe_key = client_key.glwe_secret_key@;
    let generator = generators.bootstrap;
    let delta = parameters.spec_delta();
    let box_size = parameters.box_size();
    parameters.lemma_delta_is_boxes();
    let d = switch_unit(n);
    let table = server_key.accumulator(values);
    assert(server_key.spec_delta() == delta);
    assert(server_key.bootstrap_shape() == bootstrap_shape_of(shape));
    assert((k + 1) * n == k * n + n) by (nonlinear_arith);
    assert(server_key.glwe_len() == (k + 1) * n);
    assert(value * delta == value * (box_size * d)) by (nonlinear_arith)
        requires
            delta == box_size * d,
    ;
    lemma_bootstrap_reads_table(generator, shape, small, glwe_key, table, input, box_size, value, noise);
    lemma_rotation_is_located(input, small, n, box_size, value, noise);
    lemma_located_in_box(input, small, n, box_size, value, noise, noise_bound);
    let located = located_degree(input, small, n, box_size, value, noise);
    lemma_accumulator_phase(k * n, values, delta, glwe_key, n, k);
    let zeros = Seq::new(n as nat, |i: int| 0u64);
    assert((value + 1) * box_size == value * box_size + box_size) by (nonlinear_arith);
    lemma_accumulator_box(zeros, values, delta, value, located);
    let error = crate::core_crypto::algorithms::blind_rotation_correctness::blind_rotation_error(
        generator,
        shape,
        small,
        glwe_key,
        table,
        input,
        small.len() as int,
    )[0];
    let read = coefficient(glwe_phase(table, glwe_key, n, k), located);
    lemma_congruent_ops(read, values[value] * delta, error, error);
    assert(torus(values[value] * delta + error) == lwe_phase(
        client_key.large_lwe_secret_key@,
        server_key.spec_bootstrapped(input, table),
    ));
}

/// The phase of the result of a lookup table on a ciphertext under the large key: the
/// scaled value of the table, plus an error within the bound of the blind rotation.
pub proof fn lemma_table_applied_to_large(
    generators: KeyGenerators,
    client_key: ClientKey,
    server_key: ServerKey,
    ct: Seq<u64>,
    values: Seq<u64>,
    value: int,
    noise: int,
    noise_bound: int,
)
    requires
        client_key.wf(),
        server_key.is_key_from(generators, client_key),
        client_key.parameters.bootstrap_budget(noise_bound),
        ct.len() == client_key.large_lwe_secret_key@.len() + 1,
        values.len() == client_key.parameters.modulus_sup(),
        0 <= value < client_key.parameters.modulus_sup(),
        congruent(
            lwe_phase(client_key.large_lwe_secret_key@, ct) as int,
            value * client_key.parameters.spec_delta() + noise,
        ),
        -noise_bound <= noise <= noise_bound,
    ensures
        exists|error: int|
            -client_key.parameters.blind_rotation_bound() <= error
                <= client_key.parameters.blind_rotation_bound() && #[trigger] torus(
                values[value] * client_key.parameters.spec_delta() + error,
            ) == lwe_phase(
                client_key.large_lwe_secret_key@,
                server_key.lookup_table_applied(
                    ct,
                    PBSOrder::KeyswitchBootstrap,
                    server_key.accumulator(values),
                ),
            ),
        server_key.lookup_table_applied(
            ct,
            PBSOrder::KeyswitchBootstrap,
            server_key.accumulator(values),
        ).len() == ct.len(),
{
    let parameters = client_key.parameters;
    let delta = parameters.spec_delta() as int;
    let ks = parameters.keyswitch_bound();
    let large = client_key.large_lwe_secret_key@;
    let small = client_key.small_lwe_secret_key@;
    lemma_keyswitch_bound_positive(parameters);
    lemma_server_keyswitch(generators, client_key, server_key, ct);
    let switched = server_key.spec_keyswitched(ct);
    let ks_error = choose|error: int|
        -ks <= error <= ks && #[trigger] torus(lwe_phase(large, ct) + error) == lwe_phase(
            small,
            switched,
        );
    lemma_congruent_torus(lwe_phase(large, ct) + ks_error);
    lemma_congruent_ops(lwe_phase(large, ct) as int, value * delta + noise, ks_error, ks_error);
    lemma_server_bootstrap(
        generators,
        client_key,
        server_key,
        switched,
        values,
        value,
        noise + ks_error,
        noise_bound + ks,
    );
}

/// The phase of the result of a lookup table on a ciphertext under the small key: the
/// scaled value of the table, plus an error within the bounds of the blind rotation and of
/// the key switch together.
pub proof fn lemma_table_applied_to_small(
    generators: KeyGenerators,
    client_key: ClientKey,
    server_key: ServerKey,
    ct: Seq<u64>,
    values: Seq<u64>,
    value: int,
    noise: int,
    noise_bound: int,
)
    requires
        client_key.wf(),
        server_key.is_key_from(generators, client_key),
        client_key.parameters.bootstrap_budget(noise_bound),
        ct.len() == client_key.small_lwe_secret_key@.len() + 1,
        values.len() == client_key.parameters.modulus_sup(),
        0 <= value < client_key.parameters.modulus_sup(),
        congruent(
            lwe_phase(client_key.small_lwe_secret_key@, ct) as int,
            value * client_key.parameters.spec_delta() + noise,
        ),
        -noise_bound <= noise <= noise_bound,
    ensures
        exists|error: int|
            -(client_key.parameters.blind_rotation_bound()
                + client_key.parameters.keyswitch_bound()) <= error
                <= client_key.parameters.blind_rotation_bound()
                + client_key.parameters.keyswitch_bound() && #[trigger] torus(
                values[value] * client_key.parameters.spec_delta() + error,
            ) == lwe_phase(
                client_key.small_lwe_secret_key@,
                server_key.lookup_table_applied(
                    ct,
                    PBSOrder::BootstrapKeyswitch,
                    server_key.accumulator(values),
                ),
            ),
        server_key.lookup_table_applied(
            ct,
            PBSOrder::BootstrapKeyswitch,
            server_key.accumulator(values),
        ).len() == ct.len(),
{
    let parameters = client_key.parameters;
    let delta = parameters.spec_delta() as int;
    let ks = parameters.keyswitch_bound();
    let br = parameters.blind_rotation_bound();
    let large = client_key.large_lwe_secret_key@;
    let small = client_key.small_lwe_secret_key@;
    let table = server_key.accumulator(values);
    let target = values[value] as int;
    lemma_keyswitch_bound_positive(parameters);
    lemma_server_bootstrap(generators, client_key, server_key, ct, values, value, noise, noise_bound);
    let bootstrapped = server_key.spec_bootstrapped(ct, table);
    let br_error = choose|error: int|
        -br <= error <= br && #[trigger] torus(target * delta + error) == lwe_phase(
            large,
            bootstrapped,
        );
    lemma_server_keyswitch(generators, client_key, server_key, bootstrapped);
    let switched = server_key.spec_keyswitched(bootstrapped);
    let ks_error = choose|error: int|
        -ks <= error <= ks && #[trigger] torus(lwe_phase(large, bootstrapped) + error)
            == lwe_phase(small, switched);
    lemma_torus_absorbs(target * delta + br_error, ks_error);
    assert(torus(target * delta + (br_error + ks_error)) == lwe_phase(small, switched));
}

/// Applying a lookup table evaluates it on the integer that a ciphertext encodes: if a
/// ciphertext of the order of its key encodes `value` with a noise within `noise_bound`,
/// and the parameters have the budget for this noise, then the result of the table `values`
/// decrypts to the value of the table for `value`, when this value is below the product of
/// the moduli.
pub proof fn lemma_table_applied_decrypts(
    generators: KeyGenerators,
    client_key: ClientKey,
    server_key: ServerKey,
    ct: CiphertextView,
    values: Seq<u64>,
    value: int,
    noise: int,
    noise_bound: int,
)
    requires
        client_key.wf(),
        server_key.is_key_from(generators, client_key),
        client_key.parameters.bootstrap_budget(noise_bound),
        ct.ct.len() == client_key.spec_encryption_key(ct.pbs_order).len() + 1,
        values.len() == client_key.parameters.modulus_sup(),
        0 <= value < client_key.parameters.modulus_sup(),
        values[value] < client_key.parameters.modulus_sup(),
        congruent(
            lwe_phase(client_key.spec_encryption_key(ct.pbs_order), ct.ct) as int,
            value * client_key.parameters.spec_delta() + noise,
        ),
        -noise_bound <= noise <= noise_bound,
    ensures
        decrypted_message_and_carry(client_key, server_key.table_applied(ct, values))
            == values[value],
        server_key.table_applied(ct, values).ct.len() == ct.ct.len(),
{
    let parameters = client_key.parameters;
    let delta = parameters.spec_delta() as int;
    let ks = parameters.keyswitch_bound();
    let br = parameters.blind_rotation_bound();
    let target = values[value] as int;
    parameters.lemma_delta_is_boxes();
    crate::shortint::parameters::lemma_delta_bounds(parameters.modulus_sup());
    lemma_keyswitch_bound_positive(parameters);
    let key = client_key.spec_encryption_key(ct.pbs_order);
    let applied = server_key.lookup_table_applied(
        ct.ct,
        ct.pbs_order,
        server_key.accumulator(values),
    );
    match ct.pbs_order {
        PBSOrder::KeyswitchBootstrap => {
            lemma_table_applied_to_large(
                generators,
                client_key,
                server_key,
                ct.ct,
                values,
                value,
                noise,
                noise_bound,
            );
            let error = choose|error: int|
                -br <= error <= br && #[trigger] torus(target * delta + error) == lwe_phase(
                    key,
                    applied,
                );
            lemma_decoding_of_torus(delta, target, error, parameters.modulus_sup());
        },
        PBSOrder::BootstrapKeyswitch => {
            lemma_table_applied_to_small(
                generators,
                client_key,
                server_key,
                ct.ct,
                values,
                value,
                noise,
                noise_bound,
            );
            let error = choose|error: int|
                -(br + ks) <= error <= br + ks && #[trigger] torus(target * delta + error)
                    == lwe_phase(key, applied);
            lemma_decoding_of_torus(delta, target, error, parameters.modulus_sup());
        },
    }
}

/// The bound of the error of a key switch is not negative.
pub proof fn lemma_keyswitch_bound_positive(parameters: Parameters)
    requires
        parameters.wf(),
    ensures
        parameters.keyswitch_bound() >= 0,
        parameters.blind_rotation_bound() >= 0,
{
    let k = parameters.glwe_dimension.0 as int;
    let n = parameters.polynomial_size.0 as int;
    let levels = parameters.ks_level.0 as int;
    let unit = vstd::arithmetic::power2::pow2(
        (64 - parameters.ks_base_log.0 * parameters.ks_level.0) as nat,
    ) as int / 2;
    let half = vstd::arithmetic::power2::pow2(parameters.ks_base_log.0 as nat) as int / 2;
    let std = 3 * parameters.lwe_modular_std_dev.0;
    assert(k * n >= 0) by (nonlinear_arith)
        requires
            k >= 1,
            n >= 1,
    ;
    assert((k * n) * unit >= 0) by (nonlinear_arith)
        requires
            k * n >= 0,
            unit >= 0,
    ;
    assert(((k * n) * levels) * (half * std) >= 0) by (nonlinear_arith)
        requires
            k * n >= 0,
            levels >= 1,
            half >= 0,
            std >= 0,
    ;
    let pbs_unit = vstd::arithmetic::power2::pow2(
        (64 - parameters.pbs_base_log.0 * parameters.pbs_level.0) as nat,
    ) as int / 2;
    let pbs_half = vstd::arithmetic::power2::pow2(parameters.pbs_base_log.0 as nat) as int / 2;
    let pbs_std = 3 * parameters.glwe_modular_std_dev.0;
    let rows = parameters.pbs_level.0 * (k + 1);
    assert((k * n + 1) * pbs_unit >= 0) by (nonlinear_arith)
        requires
            k * n >= 0,
            pbs_unit >= 0,
    ;
    assert(rows * (n * (pbs_half * pbs_std)) >= 0) by (nonlinear_arith)
        requires
            rows >= 0,
            n >= 1,
            pbs_half >= 0,
            pbs_std >= 0,
    ;
    assert(rows >= 0) by (nonlinear_arith)
        requires
            rows == parameters.pbs_level.0 * (k + 1),
            k >= 1,
    ;
    let step = (k * n + 1) * pbs_unit + rows * (n * (pbs_half * pbs_std));
    assert(parameters.lwe_dimension.0 * step >= 0) by (nonlinear_arith)
        requires
            step >= 0,
    ;
}

/// Decoding rounds an error under half of the scaling factor away, for a value below the
/// product of the moduli.
pub proof fn lemma_decoding_of_torus(delta: int, value: int, error: int, modulus_sup: int)
    requires
        delta >= 1,
        0 <= value < modulus_sup,
        modulus_sup * delta <= 0x8000_0000_0000_0000,
        -(delta / 2) <= error < delta / 2,
    ensures
        decoded(delta, torus(value * delta + error)) == value,
{
    assert((value + 1) * delta <= modulus_sup * delta) by (nonlinear_arith)
        requires
            value + 1 <= modulus_sup,
            delta >= 0,
    ;
    lemma_decoding_rounds_noise_away(delta, value, error);
    lemma_torus_absorbs(value * delta, error);
    lemma_torus_absorbs(torus(value * delta) as int, error);
}

/// A noise for which parameters have the budget is under half of the scaling factor.
pub proof fn lemma_budget_bounds_noise(parameters: Parameters, noise: int)
    requires
        parameters.wf(),
        parameters.bootstrap_budget(noise),
    ensures
        noise < parameters.spec_delta() / 2,
{
    parameters.lemma_delta_is_boxes();
    lemma_keyswitch_bound_positive(parameters);
    let unit = switch_unit(parameters.polynomial_size.0 as int);
    let size = parameters.box_size();
    let dimension = parameters.lwe_dimension.0 as int;
    assert(unit >= 0) by {
        vstd::arithmetic::div_mod::lemma_div_pos_is_pos(
            0x8000_0000_0000_0000int,
            parameters.polynomial_size.0 as int,
        );
    }
    assert((dimension + 1) * (unit / 2) >= 0) by (nonlinear_arith)
        requires
            dimension >= 0,
            unit >= 0,
    ;
    assert((size / 2) * unit * 2 <= size * unit) by (nonlinear_arith)
        requires
            size >= 0,
            unit >= 0,
    ;
}

impl Parameters {
    /// Whether a bootstrap is exact for every input whose noise is at most `input_noise`:
    /// whether the parameters have the budget of [`Parameters::bootstrap_budget`].
    pub fn has_bootstrap_budget(&self, input_noise: u64) -> (has: bool)
        requires
            self.wf(),
        ensures
            has == self.bootstrap_budget(input_noise as int),
    {
        proof {
            crate::shortint::parameters::lemma_modulus_sup_positive(
                self.message_modulus.0 as int,
                self.carry_modulus.0 as int,
            );
            crate::core_crypto::algorithms::decomposition::lemma_gadget_exponents(
                self.ks_base_log.0 as int,
                self.ks_level.0 as int,
                self.ks_level.0 as int,
            );
            crate::core_crypto::algorithms::decomposition::lemma_gadget_exponents(
                self.pbs_base_log.0 as int,
                self.pbs_level.0 as int,
                self.pbs_level.0 as int,
            );
            let k = self.glwe_dimension.0 as int;
            let n = self.polynomial_size.0 as int;
            assert(0 <= k * n <= (k + 1) * n) by (nonlinear_arith)
                requires
                    k >= 1,
                    n >= 1,
            ;
            assert(self.pbs_level.0 * (k + 1) >= 0) by (nonlinear_arith)
                requires
                    k >= 1,
            ;
            crate::shortint::parameters::lemma_delta_bounds(self.modulus_sup());
        }
        let modulus_sup = self.message_modulus.0 * self.carry_modulus.0;
        if self.polynomial_size.0 % modulus_sup != 0 || self.lwe_modular_std_dev.0
            > 0x7fff_ffff_ffff_ffff || self.glwe_modular_std_dev.0 > 0x7fff_ffff_ffff_ffff {
            return false;
        }
        let big_dimension = (self.glwe_dimension.0 * self.polynomial_size.0) as u128;
        let unit: u64 = 0x8000_0000_0000_0000u64 / (self.polynomial_size.0 as u64);
        let box_size = self.polynomial_size.0 / modulus_sup;
        let delta: u64 = 0x8000_0000_0000_0000u64 / (modulus_sup as u64);
        // the bound of a key switch
        let ks_rounding = (crate::core_crypto::algorithms::decomposition::power_of_two(
            64 - self.ks_base_log.0 * self.ks_level.0,
        ) / 2) as u128;
        let ks_half_base = (crate::core_crypto::algorithms::decomposition::power_of_two(
            self.ks_base_log.0,
        ) / 2) as u128;
        let ks_noise = 3 * (self.lwe_modular_std_dev.0 as u128);
        let ks_first = capped_product(big_dimension, ks_rounding);
        let ks_rows = capped_product(big_dimension, self.ks_level.0 as u128);
        let ks_row = capped_product(ks_half_base, ks_noise);
        let ks_second = capped_product(ks_rows, ks_row);
        let keyswitch = capped_sum(ks_first, ks_second);
        // the bound of a blind rotation
        let pbs_rounding = (crate::core_crypto::algorithms::decomposition::power_of_two(
            64 - self.pbs_base_log.0 * self.pbs_level.0,
        ) / 2) as u128;
        let pbs_half_base = (crate::core_crypto::algorithms::decomposition::power_of_two(
            self.pbs_base_log.0,
        ) / 2) as u128;
        let pbs_noise = 3 * (self.glwe_modular_std_dev.0 as u128);
        let rounding = capped_product(big_dimension + 1, pbs_rounding);
        assert(self.pbs_level.0 <= 64) by (nonlinear_arith)
            requires
                self.pbs_base_log.0 >= 1,
                self.pbs_base_log.0 * self.pbs_level.0 <= 63,
        ;
        assert(self.pbs_level.0 * (self.glwe_dimension.0 + 1) <= 64 * 0x1_0000_0000_0000_0000)
            by (nonlinear_arith)
            requires
                self.pbs_level.0 <= 64,
                0 <= self.glwe_dimension.0 + 1 <= 0x1_0000_0000_0000_0000,
        ;
        let rows = (self.pbs_level.0 as u128) * (self.glwe_dimension.0 as u128 + 1);
        let pbs_row = capped_product(pbs_half_base, pbs_noise);
        let pbs_polynomial = capped_product(self.polynomial_size.0 as u128, pbs_row);
        let pbs_rows = capped_product(rows, pbs_polynomial);
        let step = capped_sum(rounding, pbs_rows);
        let blind_rotation = capped_product(self.lwe_dimension.0 as u128, step);
        // the two inequalities
        assert((self.lwe_dimension.0 + 1) * (unit / 2) <= budget_cap()) by (nonlinear_arith)
            requires
                0 <= self.lwe_dimension.0 + 1 <= 0x1_0000_0000_0000_0000,
                0 <= unit / 2 <= 0x4000_0000_0000_0000,
                budget_cap() == 0x1_0000_0000_0000_0000 * 0x4000_0000_0000_0000,
        ;
        let switch = (self.lwe_dimension.0 as u128 + 1) * ((unit / 2) as u128);
        let before = capped_sum(capped_sum(input_noise as u128, keyswitch), switch);
        assert((box_size / 2) * unit <= 0x4000_0000 * 0x8000_0000_0000_0000) by (nonlinear_arith)
            requires
                0 <= box_size / 2 <= 0x4000_0000,
                0 <= unit <= 0x8000_0000_0000_0000,
        ;
        let half_box = ((box_size / 2) as u128) * (unit as u128);
        let after = capped_sum(blind_rotation, keyswitch);
        proof {
            let kn = self.glwe_dimension.0 * self.polynomial_size.0;
            let ks_shape =
                crate::core_crypto::algorithms::lwe_keyswitch_key_generation::KeyswitchShape {
                base_log: self.ks_base_log.0 as nat,
                levels: self.ks_level.0 as nat,
                std: self.lwe_modular_std_dev,
            };
            let r = vstd::arithmetic::power2::pow2(
                (64 - self.ks_base_log.0 * self.ks_level.0) as nat,
            ) as int / 2;
            let b = vstd::arithmetic::power2::pow2(self.ks_base_log.0 as nat) as int / 2;
            let e = 3 * self.lwe_modular_std_dev.0;
            lemma_capped_operations(kn as int, r);
            lemma_capped_operations(kn as int, self.ks_level.0 as int);
            lemma_capped_operations(b, e);
            lemma_capped_operations(kn * self.ks_level.0, b * e);
            lemma_capped_operations(kn * r, (kn * self.ks_level.0) * (b * e));
            assert(keyswitch == capped(self.keyswitch_bound()));
            let pr = vstd::arithmetic::power2::pow2(
                (64 - self.pbs_base_log.0 * self.pbs_level.0) as nat,
            ) as int / 2;
            let pb = vstd::arithmetic::power2::pow2(self.pbs_base_log.0 as nat) as int / 2;
            let pe = 3 * self.glwe_modular_std_dev.0;
            let size = self.polynomial_size.0 as int;
            let all_rows = self.pbs_level.0 * (self.glwe_dimension.0 + 1);
            lemma_capped_operations(kn + 1, pr);
            lemma_capped_operations(pb, pe);
            lemma_capped_operations(size, pb * pe);
            lemma_capped_operations(all_rows as int, size * (pb * pe));
            lemma_capped_operations((kn + 1) * pr, all_rows * (size * (pb * pe)));
            let step_bound = (kn + 1) * pr + all_rows * (size * (pb * pe));
            lemma_capped_operations(self.lwe_dimension.0 as int, step_bound);
            assert(blind_rotation == capped(self.blind_rotation_bound()));
            lemma_keyswitch_bound_positive(*self);
            lemma_capped_operations(input_noise as int, self.keyswitch_bound());
            lemma_capped_operations(input_noise + self.keyswitch_bound(), switch as int);
            lemma_capped_operations(self.blind_rotation_bound(), self.keyswitch_bound());
        }
        before < half_box && after < (delta / 2) as u128
    }
}

} // verus!
