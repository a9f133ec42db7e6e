//! What the ciphertexts of each operation encode.
//!
//! A ciphertext encodes an integer when its phase, under the key of its order, is the
//! integer times the scaling factor, up to a bounded noise. The laws here say which integer
//! the result of each operation encodes and with which noise, from what its operands
//! encode, and that the degree stays an upper bound of the encoded integer.
use crate::core_crypto::algorithms::lwe_encryption::{lemma_phase_of_encryption, lwe_phase};
use crate::core_crypto::algorithms::lwe_linear_algebra::{lemma_phase_of_scaled, lemma_phase_of_sum};
use crate::core_crypto::algorithms::slice_algorithms::{slice_scaled, slice_sum};
use crate::core_crypto::commons::generators::{lemma_noise_bounded, noise_draw};
use crate::core_crypto::commons::numeric::{
    congruent,
    lemma_congruent_ops,
    lemma_congruent_torus,
    torus,
};
use crate::shortint::ciphertext::{CiphertextView, PBSOrder};
use crate::shortint::client_key::ClientKey;
use crate::shortint::engine::client_side::{
    decrypted,
    encoded_unchecked,
    decrypted_message_and_carry,
    encoded,
};
use crate::shortint::engine::{
    lemma_max_value_at_most,
    lemma_max_value_bounds,
    max_value,
    message_table,
    EngineState,
};
use crate::shortint::server_key::bitwise_op::{bitwise_table, BitwiseOperation};
use crate::shortint::server_key::correctness::{
    KeyGenerators,
    lemma_decoding_of_torus,
    lemma_keyswitch_bound_positive,
    lemma_table_applied_to_large,
    lemma_table_applied_to_small,
};
use crate::shortint::server_key::degree::{lemma_carry_table_max, lemma_message_table_max};
use crate::shortint::server_key::{bivariate_packed, carry_table, ServerKey};
use vstd::prelude::*;

verus! {

/// Whether a phase is `value` times the scaling factor plus `noise`, on the torus.
pub open spec fn is_noisy_encoding(phase: u64, delta: int, value: int, noise: int) -> bool {
    congruent(phase as int, value * delta + noise)
}

/// Whether the scalars of a ciphertext of an order encode `value` with a noise within
/// `noise_bound`, under the key of the order.
pub open spec fn scalars_encode(
    client_key: ClientKey,
    ct: Seq<u64>,
    order: PBSOrder,
    value: int,
    noise_bound: int,
) -> bool {
    &&& ct.len() == client_key.spec_encryption_key(order).len() + 1
    &&& exists|noise: int|
        -noise_bound <= noise <= noise_bound && #[trigger] is_noisy_encoding(
            lwe_phase(client_key.spec_encryption_key(order), ct),
            client_key.parameters.spec_delta() as int,
            value,
            noise,
        )
}

/// Whether a ciphertext encodes `value` with a noise within `noise_bound`, and its degree
/// is an upper bound of `value`.
pub open spec fn encodes(
    client_key: ClientKey,
    ct: CiphertextView,
    value: int,
    noise_bound: int,
) -> bool {
    &&& scalars_encode(client_key, ct.ct, ct.pbs_order, value, noise_bound)
    &&& 0 <= value <= ct.degree.0
}

/// The noise bound of the results of lookup tables: the errors of a blind rotation and of a
/// key switch together.
pub open spec fn bootstrapped_noise(client_key: ClientKey) -> int {
    client_key.parameters.blind_rotation_bound() + client_key.parameters.keyswitch_bound()
}

/// A fresh encryption of a plaintext encodes what the plaintext encodes, with a noise within
/// three standard deviations.
pub proof fn lemma_encryption_encodes(
    state: EngineState,
    client_key: ClientKey,
    value: int,
    degree: int,
    message_modulus: int,
    carry_modulus: int,
    order: PBSOrder,
)
    requires
        client_key.wf(),
        client_key.spec_encryption_noise(order).0 <= 0x7fff_ffff_ffff_ffff,
        0 <= value <= degree <= usize::MAX,
    ensures
        encodes(
            client_key,
            state.encryption(
                client_key,
                torus(value * client_key.parameters.spec_delta()),
                degree,
                message_modulus,
                carry_modulus,
                order,
            ),
            value,
            3 * client_key.spec_encryption_noise(order).0,
        ),
{
    let key = client_key.spec_encryption_key(order);
    let std = client_key.spec_encryption_noise(order);
    let generator = state.encryption_generator;
    let delta = client_key.parameters.spec_delta() as int;
    let plaintext = torus(value * delta);
    let noise = generator.noise_at(0, std);
    lemma_phase_of_encryption(key, generator.mask.words(key.len()), plaintext, noise);
    lemma_noise_bounded(generator.noise.advanced(0), std);
    let draw = noise_draw(generator.noise.advanced(0), std);
    lemma_congruent_torus(value * delta);
    lemma_congruent_torus(draw);
    lemma_congruent_ops(plaintext as int, value * delta, noise as int, draw);
    lemma_congruent_torus(plaintext + noise);
    let ct = state.encryption(
        client_key,
        plaintext,
        degree,
        message_modulus,
        carry_modulus,
        order,
    );
    assert(is_noisy_encoding(lwe_phase(key, ct.ct), delta, value, draw));
}

/// The ciphertext that `encrypt` gives for a message encodes the message reduced by the
/// message modulus, and its degree bounds it.
pub proof fn lemma_encrypt_encodes(
    state: EngineState,
    client_key: ClientKey,
    message: u64,
    order: PBSOrder,
)
    requires
        client_key.wf(),
        client_key.spec_encryption_noise(order).0 <= 0x7fff_ffff_ffff_ffff,
    ensures
        encodes(
            client_key,
            state.encryption(
                client_key,
                encoded(
                    client_key.parameters,
                    message,
                    client_key.parameters.message_modulus.0 as int,
                ),
                client_key.parameters.message_modulus.0 - 1,
                client_key.parameters.message_modulus.0 as int,
                client_key.parameters.carry_modulus.0 as int,
                order,
            ),
            message as int % client_key.parameters.message_modulus.0 as int,
            3 * client_key.spec_encryption_noise(order).0,
        ),
{
    let m = client_key.parameters.message_modulus.0 as int;
    vstd::arithmetic::div_mod::lemma_mod_bound(message as int, m);
    lemma_encryption_encodes(
        state,
        client_key,
        message as int % m,
        m - 1,
        m,
        client_key.parameters.carry_modulus.0 as int,
        order,
    );
}

/// The ciphertext that `unchecked_encrypt` gives for an integer encodes the integer reduced
/// by the product of the moduli, and its degree, the largest of the parameters, bounds it.
pub proof fn lemma_unchecked_encrypt_encodes(
    state: EngineState,
    client_key: ClientKey,
    message: u64,
    order: PBSOrder,
)
    requires
        client_key.wf(),
        client_key.spec_encryption_noise(order).0 <= 0x7fff_ffff_ffff_ffff,
    ensures
        encodes(
            client_key,
            state.encryption(
                client_key,
                encoded_unchecked(client_key.parameters, message),
                client_key.parameters.modulus_sup() - 1,
                client_key.parameters.message_modulus.0 as int,
                client_key.parameters.carry_modulus.0 as int,
                order,
            ),
            message as int % client_key.parameters.modulus_sup(),
            3 * client_key.spec_encryption_noise(order).0,
        ),
{
    let sup = client_key.parameters.modulus_sup();
    crate::shortint::parameters::lemma_modulus_sup_positive(
        client_key.parameters.message_modulus.0 as int,
        client_key.parameters.carry_modulus.0 as int,
    );
    vstd::arithmetic::div_mod::lemma_mod_bound(message as int, sup);
    lemma_encryption_encodes(
        state,
        client_key,
        message as int % sup,
        sup - 1,
        client_key.parameters.message_modulus.0 as int,
        client_key.parameters.carry_modulus.0 as int,
        order,
    );
}

/// A ciphertext that encodes a value below the product of the moduli, with a noise under
/// half of the scaling factor, decrypts to the value.
pub proof fn lemma_encoding_decrypts(
    client_key: ClientKey,
    ct: CiphertextView,
    value: int,
    noise_bound: int,
)
    requires
        client_key.wf(),
        scalars_encode(client_key, ct.ct, ct.pbs_order, value, noise_bound),
        0 <= value < client_key.parameters.modulus_sup(),
        noise_bound < client_key.parameters.spec_delta() / 2,
    ensures
        decrypted_message_and_carry(client_key, ct) == value,
        decrypted(client_key, ct) == value % (ct.message_modulus.0 as int),
{
    let delta = client_key.parameters.spec_delta() as int;
    let key = client_key.spec_encryption_key(ct.pbs_order);
    let phase = lwe_phase(key, ct.ct);
    let noise = choose|noise: int|
        -noise_bound <= noise <= noise_bound && #[trigger] is_noisy_encoding(
            phase,
            delta,
            value,
            noise,
        );
    crate::shortint::parameters::lemma_modulus_sup_positive(
        client_key.parameters.message_modulus.0 as int,
        client_key.parameters.carry_modulus.0 as int,
    );
    crate::shortint::parameters::lemma_delta_bounds(client_key.parameters.modulus_sup());
    lemma_decoding_of_torus(delta, value, noise, client_key.parameters.modulus_sup());
    lemma_congruent_torus(phase as int);
    vstd::arithmetic::div_mod::lemma_small_mod(phase as nat, 0x1_0000_0000_0000_0000);
}

/// Applying a lookup table evaluates it: if a ciphertext encodes a value below the product
/// of the moduli, and the parameters have the budget for its noise, then the result of a
/// table encodes the value of the table for that value, with the noise of a bootstrap, and
/// its degree bounds it.
pub proof fn lemma_table_applied_encodes(
    generators: KeyGenerators,
    client_key: ClientKey,
    server_key: ServerKey,
    ct: CiphertextView,
    values: Seq<u64>,
    value: int,
    noise_bound: int,
)
    requires
        client_key.wf(),
        server_key.is_key_from(generators, client_key),
        client_key.parameters.bootstrap_budget(noise_bound),
        scalars_encode(client_key, ct.ct, ct.pbs_order, value, noise_bound),
        values.len() == client_key.parameters.modulus_sup(),
        0 <= value < client_key.parameters.modulus_sup(),
        max_value(values) <= usize::MAX,
    ensures
        encodes(
            client_key,
            server_key.table_applied(ct, values),
            values[value] as int,
            bootstrapped_noise(client_key),
        ),
        server_key.table_applied(ct, values).degree.0 == max_value(values),
{
    let delta = client_key.parameters.spec_delta() as int;
    let key = client_key.spec_encryption_key(ct.pbs_order);
    let phase = lwe_phase(key, ct.ct);
    let noise = choose|noise: int|
        -noise_bound <= noise <= noise_bound && #[trigger] is_noisy_encoding(
            phase,
            delta,
            value,
            noise,
        );
    lemma_keyswitch_bound_positive(client_key.parameters);
    lemma_max_value_bounds(values);
    let result = server_key.table_applied(ct, values);
    let target = values[value] as int;
    let br = client_key.parameters.blind_rotation_bound();
    let ks = client_key.parameters.keyswitch_bound();
    match ct.pbs_order {
        PBSOrder::KeyswitchBootstrap => {
            lemma_table_applied_to_large(
                generators,
                client_key,
                server_key,
                ct.ct,
                values,
                value,
                noise,
                noise_bound,
            );
            let error = choose|error: int|
                -br <= error <= br && #[trigger] torus(target * delta + error) == lwe_phase(
                    key,
                    result.ct,
                );
            lemma_congruent_torus(target * delta + error);
            assert(is_noisy_encoding(lwe_phase(key, result.ct), delta, target, error));
        },
        PBSOrder::BootstrapKeyswitch => {
            lemma_table_applied_to_small(
                generators,
                client_key,
                server_key,
                ct.ct,
                values,
                value,
                noise,
                noise_bound,
            );
            let error = choose|error: int|
                -(br + ks) <= error <= br + ks && #[trigger] torus(target * delta + error)
                    == lwe_phase(key, result.ct);
            lemma_congruent_torus(target * delta + error);
            assert(is_noisy_encoding(lwe_phase(key, result.ct), delta, target, error));
        },
    }
}

/// The sum of two ciphertexts of one order encodes the sum of what they encode, with the
/// sum of their noises, and the sum of their degrees bounds it.
pub proof fn lemma_added_encodes(
    client_key: ClientKey,
    left: CiphertextView,
    right: CiphertextView,
    left_value: int,
    left_noise: int,
    right_value: int,
    right_noise: int,
)
    requires
        encodes(client_key, left, left_value, left_noise),
        encodes(client_key, right, right_value, right_noise),
        left.pbs_order == right.pbs_order,
        left.degree.0 + right.degree.0 <= usize::MAX,
    ensures
        encodes(
            client_key,
            ServerKey::added(left, right),
            left_value + right_value,
            left_noise + right_noise,
        ),
{
    let delta = client_key.parameters.spec_delta() as int;
    let key = client_key.spec_encryption_key(left.pbs_order);
    let a = choose|noise: int|
        -left_noise <= noise <= left_noise && #[trigger] is_noisy_encoding(
            lwe_phase(key, left.ct),
            delta,
            left_value,
            noise,
        );
    let b = choose|noise: int|
        -right_noise <= noise <= right_noise && #[trigger] is_noisy_encoding(
            lwe_phase(key, right.ct),
            delta,
            right_value,
            noise,
        );
    lemma_phase_of_sum(key, left.ct, right.ct);
    lemma_congruent_torus(lwe_phase(key, left.ct) + lwe_phase(key, right.ct));
    lemma_congruent_ops(
        lwe_phase(key, left.ct) as int,
        left_value * delta + a,
        lwe_phase(key, right.ct) as int,
        right_value * delta + b,
    );
    assert((left_value + right_value) * delta == left_value * delta + right_value * delta)
        by (nonlinear_arith);
    assert(is_noisy_encoding(
        lwe_phase(key, slice_sum(left.ct, right.ct)),
        delta,
        left_value + right_value,
        a + b,
    ));
}

/// The packing of two ciphertexts of one order encodes the value of the left one times the
/// scaling, plus the value of the right one, with the noise of the left one times the
/// scaling, plus the noise of the right one.
pub proof fn lemma_packed_encodes(
    client_key: ClientKey,
    left: CiphertextView,
    right: CiphertextView,
    scaling: u64,
    left_value: int,
    left_noise: int,
    right_value: int,
    right_noise: int,
)
    requires
        scalars_encode(client_key, left.ct, left.pbs_order, left_value, left_noise),
        scalars_encode(client_key, right.ct, right.pbs_order, right_value, right_noise),
        left.pbs_order == right.pbs_order,
    ensures
        scalars_encode(
            client_key,
            bivariate_packed(left.ct, right.ct, scaling),
            right.pbs_order,
            scaling * left_value + right_value,
            scaling * left_noise + right_noise,
        ),
{
    let delta = client_key.parameters.spec_delta() as int;
    let key = client_key.spec_encryption_key(left.pbs_order);
    let a = choose|noise: int|
        -left_noise <= noise <= left_noise && #[trigger] is_noisy_encoding(
            lwe_phase(key, left.ct),
            delta,
            left_value,
            noise,
        );
    let b = choose|noise: int|
        -right_noise <= noise <= right_noise && #[trigger] is_noisy_encoding(
            lwe_phase(key, right.ct),
            delta,
            right_value,
            noise,
        );
    let scaled = slice_scaled(left.ct, scaling);
    lemma_phase_of_scaled(key, left.ct, scaling);
    lemma_phase_of_sum(key, scaled, right.ct);
    lemma_congruent_torus(scaling * lwe_phase(key, left.ct));
    lemma_congruent_ops(
        scaling as int,
        scaling as int,
        lwe_phase(key, left.ct) as int,
        left_value * delta + a,
    );
    lemma_congruent_torus(lwe_phase(key, scaled) + lwe_phase(key, right.ct));
    lemma_congruent_ops(
        lwe_phase(key, scaled) as int,
        scaling * (left_value * delta + a),
        lwe_phase(key, right.ct) as int,
        right_value * delta + b,
    );
    assert(scaling * (left_value * delta + a) + (right_value * delta + b) == (scaling
        * left_value + right_value) * delta + (scaling * a + b)) by (nonlinear_arith);
    assert(-(scaling * left_noise) <= scaling * a <= scaling * left_noise) by (nonlinear_arith)
        requires
            -left_noise <= a <= left_noise,
            scaling >= 0,
    ;
    assert(is_noisy_encoding(
        lwe_phase(key, bivariate_packed(left.ct, right.ct, scaling)),
        delta,
        scaling * left_value + right_value,
        scaling * a + b,
    ));
}

/// A bivariate bootstrap evaluates its table on the two messages: for operands of one order
/// that encode messages below the message modulus, the bootstrap of their packing with the
/// table of a function `g` of two operands encodes `g` of the two messages.
pub proof fn lemma_bivariate_table_applied_encodes(
    generators: KeyGenerators,
    client_key: ClientKey,
    server_key: ServerKey,
    left: CiphertextView,
    right: CiphertextView,
    values: Seq<u64>,
    left_value: int,
    left_noise: int,
    right_value: int,
    right_noise: int,
)
    requires
        client_key.wf(),
        server_key.is_key_from(generators, client_key),
        left.pbs_order == right.pbs_order,
        scalars_encode(client_key, left.ct, left.pbs_order, left_value, left_noise),
        scalars_encode(client_key, right.ct, right.pbs_order, right_value, right_noise),
        0 <= left_value < client_key.parameters.message_modulus.0,
        0 <= right_value < client_key.parameters.message_modulus.0,
        client_key.parameters.message_modulus.0 <= client_key.parameters.carry_modulus.0,
        left_noise >= 0,
        right_noise >= 0,
        client_key.parameters.bootstrap_budget(
            client_key.parameters.message_modulus.0 * left_noise + right_noise,
        ),
        values.len() == client_key.parameters.modulus_sup(),
        max_value(values) <= usize::MAX,
    ensures
        encodes(
            client_key,
            server_key.table_applied(
                CiphertextView {
                    ct: bivariate_packed(
                        left.ct,
                        right.ct,
                        client_key.parameters.message_modulus.0 as u64,
                    ),
                    ..right
                },
                values,
            ),
            values[client_key.parameters.message_modulus.0 * left_value + right_value] as int,
            bootstrapped_noise(client_key),
        ),
        0 <= client_key.parameters.message_modulus.0 * left_value + right_value
            < client_key.parameters.modulus_sup(),
{
    let m = client_key.parameters.message_modulus.0 as int;
    let c = client_key.parameters.carry_modulus.0 as int;
    let packed_value = m * left_value + right_value;
    assert(0 <= packed_value < m * c) by (nonlinear_arith)
        requires
            0 <= left_value < m,
            0 <= right_value < m,
            m <= c,
            packed_value == m * left_value + right_value,
    ;
    lemma_packed_encodes(
        client_key,
        left,
        right,
        m as u64,
        left_value,
        left_noise,
        right_value,
        right_noise,
    );
    let packed = CiphertextView {
        ct: bivariate_packed(left.ct, right.ct, m as u64),
        ..right
    };
    lemma_table_applied_encodes(
        generators,
        client_key,
        server_key,
        packed,
        values,
        packed_value,
        m * left_noise + right_noise,
    );
}

/// The packed input of two messages stands for the two messages.
pub proof fn lemma_packed_operands(message_modulus: int, left: int, right: int)
    requires
        message_modulus >= 1,
        0 <= left < message_modulus,
        0 <= right < message_modulus,
    ensures
        ((message_modulus * left + right) / message_modulus) % message_modulus == left,
        ((message_modulus * left + right) % message_modulus) % message_modulus == right,
{
    let packed = message_modulus * left + right;
    assert(packed == left * message_modulus + right) by (nonlinear_arith)
        requires
            packed == message_modulus * left + right,
    ;
    vstd::arithmetic::div_mod::lemma_fundamental_div_mod_converse(
        packed,
        message_modulus,
        left,
        right,
    );
    vstd::arithmetic::div_mod::lemma_small_mod(left as nat, message_modulus as nat);
    vstd::arithmetic::div_mod::lemma_small_mod(right as nat, message_modulus as nat);
}

/// A bitwise operation without any check is exact on messages: for operands of one order
/// that encode messages below the message modulus, the result encodes the operation on the
/// two messages.
pub proof fn lemma_unchecked_bitwise_encodes(
    generators: KeyGenerators,
    client_key: ClientKey,
    server_key: ServerKey,
    operation: BitwiseOperation,
    left: CiphertextView,
    right: CiphertextView,
    left_value: u64,
    left_noise: int,
    right_value: u64,
    right_noise: int,
)
    requires
        client_key.wf(),
        server_key.is_key_from(generators, client_key),
        left.pbs_order == right.pbs_order,
        scalars_encode(client_key, left.ct, left.pbs_order, left_value as int, left_noise),
        scalars_encode(client_key, right.ct, right.pbs_order, right_value as int, right_noise),
        left_value < client_key.parameters.message_modulus.0,
        right_value < client_key.parameters.message_modulus.0,
        client_key.parameters.message_modulus.0 <= client_key.parameters.carry_modulus.0,
        left_noise >= 0,
        right_noise >= 0,
        client_key.parameters.bootstrap_budget(
            client_key.parameters.message_modulus.0 * left_noise + right_noise,
        ),
    ensures
        encodes(
            client_key,
            server_key.unchecked_bitwise(operation, left, right),
            operation.apply_modulo(
                left_value,
                right_value,
                client_key.parameters.message_modulus.0 as int,
            ) as int,
            bootstrapped_noise(client_key),
        ),
{
    let m = client_key.parameters.message_modulus.0 as int;
    let sup = client_key.parameters.modulus_sup();
    let table = bitwise_table(operation, m, sup);
    lemma_max_value_bounds(table);
    crate::shortint::parameters::lemma_modulus_sup_positive(
        m,
        client_key.parameters.carry_modulus.0 as int,
    );
    lemma_bitwise_table_degree(operation, m, sup);
    lemma_bivariate_table_applied_encodes(
        generators,
        client_key,
        server_key,
        left,
        right,
        table,
        left_value as int,
        left_noise,
        right_value as int,
        right_noise,
    );
    lemma_packed_operands(m, left_value as int, right_value as int);
    let packed = CiphertextView {
        ct: bivariate_packed(left.ct, right.ct, m as u64),
        ..right
    };
    let applied = server_key.table_applied(packed, table);
    let result = server_key.unchecked_bitwise(operation, left, right);
    assert(result.ct == applied.ct);
    assert(result.degree == applied.degree);
    assert(result.pbs_order == applied.pbs_order);
}

/// The packed input of two integers, whatever their carries: what of the right one is above
/// the message modulus adds to the left one.
pub proof fn lemma_packed_carries(message_modulus: int, left: int, right: int)
    requires
        message_modulus >= 1,
        left >= 0,
        right >= 0,
    ensures
        (message_modulus * left + right) / message_modulus == left + right / message_modulus,
        (message_modulus * left + right) % message_modulus == right % message_modulus,
{
    let packed = message_modulus * left + right;
    vstd::arithmetic::div_mod::lemma_fundamental_div_mod(right, message_modulus);
    vstd::arithmetic::div_mod::lemma_mod_bound(right, message_modulus);
    assert(packed == (left + right / message_modulus) * message_modulus + right % message_modulus)
        by (nonlinear_arith)
        requires
            packed == message_modulus * left + right,
            right == message_modulus * (right / message_modulus) + right % message_modulus,
    ;
    vstd::arithmetic::div_mod::lemma_fundamental_div_mod_converse(
        packed,
        message_modulus,
        left + right / message_modulus,
        right % message_modulus,
    );
}

/// A bitwise operation without any check, whatever the carries of its operands: for
/// operands of one order whose packing fits below the product of the moduli, the result
/// encodes the operation, reduced by the message modulus, on the message of the right
/// operand and on the message of the left operand plus the carry of the right one. So the
/// operation is on the two messages when the carry of the right operand is empty.
pub proof fn lemma_unchecked_bitwise_encodes_with_carries(
    generators: KeyGenerators,
    client_key: ClientKey,
    server_key: ServerKey,
    operation: BitwiseOperation,
    left: CiphertextView,
    right: CiphertextView,
    left_value: u64,
    left_noise: int,
    right_value: u64,
    right_noise: int,
)
    requires
        client_key.wf(),
        server_key.is_key_from(generators, client_key),
        left.pbs_order == right.pbs_order,
        scalars_encode(client_key, left.ct, left.pbs_order, left_value as int, left_noise),
        scalars_encode(client_key, right.ct, right.pbs_order, right_value as int, right_noise),
        client_key.parameters.message_modulus.0 * left_value + right_value
            < client_key.parameters.modulus_sup(),
        left_noise >= 0,
        right_noise >= 0,
        client_key.parameters.bootstrap_budget(
            client_key.parameters.message_modulus.0 * left_noise + right_noise,
        ),
    ensures
        encodes(
            client_key,
            server_key.unchecked_bitwise(operation, left, right),
            operation.apply_modulo(
                ((left_value + right_value / (client_key.parameters.message_modulus.0 as u64)) % (
                client_key.parameters.message_modulus.0 as int)) as u64,
                right_value % (client_key.parameters.message_modulus.0 as u64),
                client_key.parameters.message_modulus.0 as int,
            ) as int,
            bootstrapped_noise(client_key),
        ),
{
    let m = client_key.parameters.message_modulus.0 as int;
    let sup = client_key.parameters.modulus_sup();
    let table = bitwise_table(operation, m, sup);
    let packed_value = m * left_value + right_value;
    crate::shortint::parameters::lemma_modulus_sup_positive(
        m,
        client_key.parameters.carry_modulus.0 as int,
    );
    lemma_bitwise_table_degree(operation, m, sup);
    assert(0 <= m * left_value) by (nonlinear_arith)
        requires
            m >= 1,
            left_value >= 0,
    ;
    lemma_packed_encodes(
        client_key,
        left,
        right,
        m as u64,
        left_value as int,
        left_noise,
        right_value as int,
        right_noise,
    );
    let packed = CiphertextView {
        ct: bivariate_packed(left.ct, right.ct, m as u64),
        ..right
    };
    lemma_table_applied_encodes(
        generators,
        client_key,
        server_key,
        packed,
        table,
        packed_value,
        m * left_noise + right_noise,
    );
    lemma_packed_carries(m, left_value as int, right_value as int);
    vstd::arithmetic::div_mod::lemma_mod_twice(right_value as int, m);
    vstd::arithmetic::div_mod::lemma_mod_bound(left_value + right_value / (m as u64), m);
    vstd::arithmetic::div_mod::lemma_mod_bound(right_value as int, m);
    let applied = server_key.table_applied(packed, table);
    let result = server_key.unchecked_bitwise(operation, left, right);
    assert(result.ct == applied.ct);
    assert(result.degree == applied.degree);
    assert(result.pbs_order == applied.pbs_order);
}

/// Operands that the feasibility predicate admits can be packed: the packing of what they
/// encode is below the product of the moduli, since their degrees bound what they encode.
pub proof fn lemma_feasible_operands_fit(
    client_key: ClientKey,
    server_key: ServerKey,
    left: CiphertextView,
    right: CiphertextView,
    left_value: int,
    left_noise: int,
    right_value: int,
    right_noise: int,
)
    requires
        server_key.message_modulus == client_key.parameters.message_modulus,
        server_key.carry_modulus == client_key.parameters.carry_modulus,
        encodes(client_key, left, left_value, left_noise),
        encodes(client_key, right, right_value, right_noise),
        server_key.spec_is_functional_bivariate_pbs_possible(left, right),
    ensures
        client_key.parameters.message_modulus.0 * left_value + right_value
            < client_key.parameters.modulus_sup(),
{
    let m = client_key.parameters.message_modulus.0 as int;
    assert(m * left_value <= (left.degree.0 + 1) * m) by (nonlinear_arith)
        requires
            0 <= left_value <= left.degree.0,
            m >= 0,
    ;
}

/// The values of the table of a bitwise operation are messages: none reaches the message
/// modulus.
pub proof fn lemma_bitwise_table_degree(operation: BitwiseOperation, message_modulus: int, count: int)
    requires
        1 <= message_modulus <= usize::MAX,
    ensures
        max_value(bitwise_table(operation, message_modulus, count)) <= message_modulus - 1,
{
    let table = bitwise_table(operation, message_modulus, count);
    let bound = (message_modulus - 1) as u64;
    assert forall|i: int| 0 <= i < table.len() implies #[trigger] table[i] <= bound by {
        let x = ((i / message_modulus) % message_modulus) as u64;
        let y = ((i % message_modulus) % message_modulus) as u64;
        vstd::arithmetic::div_mod::lemma_mod_bound(operation.apply(x, y) as int, message_modulus);
    }
    lemma_max_value_at_most(table, bound);
}

/// Parameters that have the budget for a noise have it for every smaller noise.
pub proof fn lemma_budget_for_less(client_key: ClientKey, noise: int, less: int)
    requires
        client_key.parameters.bootstrap_budget(noise),
        0 <= less <= noise,
    ensures
        client_key.parameters.bootstrap_budget(less),
{
}

/// A ciphertext that encodes a value with a noise encodes it with every larger noise.
pub proof fn lemma_encodes_with_more_noise(
    client_key: ClientKey,
    ct: CiphertextView,
    value: int,
    noise: int,
    more: int,
)
    requires
        scalars_encode(client_key, ct.ct, ct.pbs_order, value, noise),
        noise <= more,
    ensures
        scalars_encode(client_key, ct.ct, ct.pbs_order, value, more),
{
    let delta = client_key.parameters.spec_delta() as int;
    let phase = lwe_phase(client_key.spec_encryption_key(ct.pbs_order), ct.ct);
    let e = choose|e: int|
        -noise <= e <= noise && #[trigger] is_noisy_encoding(phase, delta, value, e);
    assert(is_noisy_encoding(phase, delta, value, e));
}

/// Clearing the carry keeps the message: if a ciphertext encodes a value below the product
/// of the moduli, the ciphertext with its carry cleared encodes the value reduced by the
/// message modulus, and its degree is the largest message.
pub proof fn lemma_message_extracted_encodes(
    generators: KeyGenerators,
    client_key: ClientKey,
    server_key: ServerKey,
    ct: CiphertextView,
    value: int,
    noise_bound: int,
)
    requires
        client_key.wf(),
        server_key.is_key_from(generators, client_key),
        client_key.parameters.bootstrap_budget(noise_bound),
        scalars_encode(client_key, ct.ct, ct.pbs_order, value, noise_bound),
        0 <= value < client_key.parameters.modulus_sup(),
    ensures
        encodes(
            client_key,
            server_key.message_extracted(ct),
            value % (client_key.parameters.message_modulus.0 as int),
            bootstrapped_noise(client_key),
        ),
        server_key.message_extracted(ct).degree.0 == client_key.parameters.message_modulus.0 - 1,
{
    let m = client_key.parameters.message_modulus.0 as int;
    let sup = client_key.parameters.modulus_sup();
    crate::shortint::parameters::lemma_modulus_sup_positive(
        m,
        client_key.parameters.carry_modulus.0 as int,
    );
    lemma_message_table_max(m, sup);
    lemma_table_applied_encodes(
        generators,
        client_key,
        server_key,
        ct,
        message_table(m, sup),
        value,
        noise_bound,
    );
}

/// Extracting the carry gives the carry: if a ciphertext encodes a value below the product
/// of the moduli, the ciphertext of its carry encodes the quotient of the value by the
/// message modulus, and its degree is the largest carry.
pub proof fn lemma_carry_extracted_encodes(
    generators: KeyGenerators,
    client_key: ClientKey,
    server_key: ServerKey,
    ct: CiphertextView,
    value: int,
    noise_bound: int,
)
    requires
        client_key.wf(),
        server_key.is_key_from(generators, client_key),
        client_key.parameters.bootstrap_budget(noise_bound),
        scalars_encode(client_key, ct.ct, ct.pbs_order, value, noise_bound),
        0 <= value < client_key.parameters.modulus_sup(),
    ensures
        encodes(
            client_key,
            server_key.carry_extracted(ct),
            value / (client_key.parameters.message_modulus.0 as int),
            bootstrapped_noise(client_key),
        ),
        server_key.carry_extracted(ct).degree.0 == (client_key.parameters.modulus_sup() - 1) / (
        client_key.parameters.message_modulus.0 as int),
{
    let m = client_key.parameters.message_modulus.0 as int;
    let sup = client_key.parameters.modulus_sup();
    crate::shortint::parameters::lemma_modulus_sup_positive(
        m,
        client_key.parameters.carry_modulus.0 as int,
    );
    lemma_carry_table_max(m, sup);
    vstd::arithmetic::div_mod::lemma_div_is_ordered_by_denominator(sup - 1, 1, m);
    lemma_table_applied_encodes(
        generators,
        client_key,
        server_key,
        ct,
        carry_table(m, sup),
        value,
        noise_bound,
    );
}

/// The product of a ciphertext and a scalar encodes the product of what the ciphertext
/// encodes and the scalar, with the noise multiplied too, and the product of the degree and
/// the scalar bounds it.
pub proof fn lemma_scalar_multiplied_encodes(
    client_key: ClientKey,
    ct: CiphertextView,
    scalar: u8,
    value: int,
    noise_bound: int,
)
    requires
        encodes(client_key, ct, value, noise_bound),
        ct.degree.0 * scalar <= usize::MAX,
    ensures
        encodes(
            client_key,
            ServerKey::scalar_multiplied(ct, scalar),
            value * scalar,
            noise_bound * scalar,
        ),
{
    let delta = client_key.parameters.spec_delta() as int;
    let key = client_key.spec_encryption_key(ct.pbs_order);
    let phase = lwe_phase(key, ct.ct);
    let e = choose|e: int|
        -noise_bound <= e <= noise_bound && #[trigger] is_noisy_encoding(phase, delta, value, e);
    lemma_phase_of_scaled(key, ct.ct, scalar as u64);
    lemma_congruent_torus(scalar * phase);
    lemma_congruent_ops(scalar as int, scalar as int, phase as int, value * delta + e);
    assert(scalar * (value * delta + e) == (value * scalar) * delta + e * scalar)
        by (nonlinear_arith);
    assert(-(noise_bound * scalar) <= e * scalar <= noise_bound * scalar) by (nonlinear_arith)
        requires
            -noise_bound <= e <= noise_bound,
            scalar >= 0,
    ;
    assert(0 <= value * scalar <= ct.degree.0 * scalar) by (nonlinear_arith)
        requires
            0 <= value <= ct.degree.0,
            scalar >= 0,
    ;
    assert(is_noisy_encoding(
        lwe_phase(key, slice_scaled(ct.ct, scalar as u64)),
        delta,
        value * scalar,
        e * scalar,
    ));
}

/// A bootstrap with the identity keeps the message: the fresh encryption of a message,
/// bootstrapped with the table of the identity modulo the message modulus, decrypts to the
/// message reduced by the message modulus, and its degree is the largest message.
pub proof fn lemma_identity_bootstrap(
    encryption_state: EngineState,
    key_generators: KeyGenerators,
    client_key: ClientKey,
    server_key: ServerKey,
    message: u64,
    order: PBSOrder,
)
    requires
        client_key.wf(),
        server_key.is_key_from(key_generators, client_key),
        client_key.parameters.bootstrap_budget(3 * client_key.spec_encryption_noise(order).0),
    ensures
        decrypted(
            client_key,
            server_key.message_extracted(
                encryption_state.encryption(
                    client_key,
                    encoded(
                        client_key.parameters,
                        message,
                        client_key.parameters.message_modulus.0 as int,
                    ),
                    client_key.parameters.message_modulus.0 - 1,
                    client_key.parameters.message_modulus.0 as int,
                    client_key.parameters.carry_modulus.0 as int,
                    order,
                ),
            ),
        ) == message % (client_key.parameters.message_modulus.0 as u64),
        server_key.message_extracted(
            encryption_state.encryption(
                client_key,
                encoded(
                    client_key.parameters,
                    message,
                    client_key.parameters.message_modulus.0 as int,
                ),
                client_key.parameters.message_modulus.0 - 1,
                client_key.parameters.message_modulus.0 as int,
                client_key.parameters.carry_modulus.0 as int,
                order,
            ),
        ).degree.0 == client_key.parameters.message_modulus.0 - 1,
{
    let m = client_key.parameters.message_modulus.0 as int;
    let sup = client_key.parameters.modulus_sup();
    let ct = encryption_state.encryption(
        client_key,
        encoded(client_key.parameters, message, m),
        m - 1,
        m,
        client_key.parameters.carry_modulus.0 as int,
        order,
    );
    crate::shortint::parameters::lemma_modulus_sup_positive(
        m,
        client_key.parameters.carry_modulus.0 as int,
    );
    vstd::arithmetic::div_mod::lemma_mod_bound(message as int, m);
    lemma_encrypt_encodes(encryption_state, client_key, message, order);
    let value = message as int % m;
    lemma_message_extracted_encodes(
        key_generators,
        client_key,
        server_key,
        ct,
        value,
        3 * client_key.spec_encryption_noise(order).0,
    );
    vstd::arithmetic::div_mod::lemma_mod_twice(message as int, m);
    lemma_encoding_decrypts(
        client_key,
        server_key.message_extracted(ct),
        value % m,
        bootstrapped_noise(client_key),
    );
}

/// The table of a function of two operands on packed inputs.
pub open spec fn bivariate_table(
    g: spec_fn(u64, u64) -> u64,
    message_modulus: int,
    count: int,
) -> Seq<u64> {
    Seq::new(
        count as nat,
        |i: int|
            g(
                ((i / message_modulus) % message_modulus) as u64,
                ((i % message_modulus) % message_modulus) as u64,
            ),
    )
}

/// The bivariate packing is exact: for two fresh encryptions of messages below the message
/// modulus, the bootstrap of their packing, with the table of a function `g` of two
/// operands under the scaling of the message modulus, decrypts to `g` of the two messages,
/// reduced by the message modulus.
pub proof fn lemma_bivariate_packing(
    left_state: EngineState,
    right_state: EngineState,
    key_generators: KeyGenerators,
    client_key: ClientKey,
    server_key: ServerKey,
    g: spec_fn(u64, u64) -> u64,
    left_message: u64,
    right_message: u64,
    order: PBSOrder,
)
    requires
        client_key.wf(),
        server_key.is_key_from(key_generators, client_key),
        left_message < client_key.parameters.message_modulus.0,
        right_message < client_key.parameters.message_modulus.0,
        client_key.parameters.message_modulus.0 <= client_key.parameters.carry_modulus.0,
        client_key.parameters.bootstrap_budget(
            client_key.parameters.message_modulus.0 * (3 * client_key.spec_encryption_noise(
                order,
            ).0) + 3 * client_key.spec_encryption_noise(order).0,
        ),
        g(left_message, right_message) < client_key.parameters.modulus_sup(),
        max_value(
            bivariate_table(
                g,
                client_key.parameters.message_modulus.0 as int,
                client_key.parameters.modulus_sup(),
            ),
        ) <= usize::MAX,
    ensures
        ({
            let m = client_key.parameters.message_modulus.0 as int;
            let c = client_key.parameters.carry_modulus.0 as int;
            let left = left_state.encryption(
                client_key,
                encoded(client_key.parameters, left_message, m),
                m - 1,
                m,
                c,
                order,
            );
            let right = right_state.encryption(
                client_key,
                encoded(client_key.parameters, right_message, m),
                m - 1,
                m,
                c,
                order,
            );
            let packed = CiphertextView {
                ct: bivariate_packed(left.ct, right.ct, m as u64),
                ..right
            };
            decrypted(
                client_key,
                server_key.table_applied(
                    packed,
                    bivariate_table(g, m, client_key.parameters.modulus_sup()),
                ),
            ) == g(left_message, right_message) % (m as u64)
        }),
{
    let m = client_key.parameters.message_modulus.0 as int;
    let c = client_key.parameters.carry_modulus.0 as int;
    let sup = client_key.parameters.modulus_sup();
    let std = 3 * client_key.spec_encryption_noise(order).0;
    let left = left_state.encryption(
        client_key,
        encoded(client_key.parameters, left_message, m),
        m - 1,
        m,
        c,
        order,
    );
    let right = right_state.encryption(
        client_key,
        encoded(client_key.parameters, right_message, m),
        m - 1,
        m,
        c,
        order,
    );
    lemma_encrypt_encodes(left_state, client_key, left_message, order);
    lemma_encrypt_encodes(right_state, client_key, right_message, order);
    vstd::arithmetic::div_mod::lemma_small_mod(left_message as nat, m as nat);
    vstd::arithmetic::div_mod::lemma_small_mod(right_message as nat, m as nat);
    let table = bivariate_table(g, m, sup);
    lemma_bivariate_table_applied_encodes(
        key_generators,
        client_key,
        server_key,
        left,
        right,
        table,
        left_message as int,
        std,
        right_message as int,
        std,
    );
    lemma_packed_operands(m, left_message as int, right_message as int);
    let packed = CiphertextView { ct: bivariate_packed(left.ct, right.ct, m as u64), ..right };
    let result = server_key.table_applied(packed, table);
    let value = table[m * left_message + right_message] as int;
    assert(value == g(left_message, right_message));
    lemma_encoding_decrypts(client_key, result, value, bootstrapped_noise(client_key));
}

/// A default bitwise operation is exact on messages: whatever the operands encode below the
/// product of the moduli, the result encodes the operation on their messages, when the
/// parameters have the budget for the noises on the way.
pub proof fn lemma_default_bitwise_encodes(
    generators: KeyGenerators,
    client_key: ClientKey,
    server_key: ServerKey,
    operation: BitwiseOperation,
    left: CiphertextView,
    right: CiphertextView,
    left_value: u64,
    right_value: u64,
    noise_bound: int,
)
    requires
        client_key.wf(),
        server_key.is_key_from(generators, client_key),
        left.pbs_order == right.pbs_order,
        left.message_modulus == client_key.parameters.message_modulus,
        right.message_modulus == client_key.parameters.message_modulus,
        encodes(client_key, left, left_value as int, noise_bound),
        encodes(client_key, right, right_value as int, noise_bound),
        left_value < client_key.parameters.modulus_sup(),
        right_value < client_key.parameters.modulus_sup(),
        client_key.parameters.message_modulus.0 <= client_key.parameters.carry_modulus.0,
        noise_bound >= bootstrapped_noise(client_key),
        client_key.parameters.bootstrap_budget(
            client_key.parameters.message_modulus.0 * noise_bound + noise_bound,
        ),
    ensures
        encodes(
            client_key,
            server_key.default_bitwise(operation, left, right),
            operation.apply_modulo(
                left_value % (client_key.parameters.message_modulus.0 as u64),
                right_value % (client_key.parameters.message_modulus.0 as u64),
                client_key.parameters.message_modulus.0 as int,
            ) as int,
            bootstrapped_noise(client_key),
        ),
{
    let m = client_key.parameters.message_modulus.0 as int;
    lemma_keyswitch_bound_positive(client_key.parameters);
    assert(noise_bound <= m * noise_bound + noise_bound) by (nonlinear_arith)
        requires
            m >= 1,
            noise_bound >= 0,
    ;
    lemma_budget_for_less(client_key, m * noise_bound + noise_bound, noise_bound);
    let prepared_left = server_key.default_operand(left);
    let prepared_right = server_key.default_operand(right);
    vstd::arithmetic::div_mod::lemma_mod_bound(left_value as int, m);
    vstd::arithmetic::div_mod::lemma_mod_bound(right_value as int, m);
    if left.carry_is_empty() {
        vstd::arithmetic::div_mod::lemma_small_mod(left_value as nat, m as nat);
    } else {
        lemma_message_extracted_encodes(
            generators,
            client_key,
            server_key,
            left,
            left_value as int,
            noise_bound,
        );
        lemma_encodes_with_more_noise(
            client_key,
            prepared_left,
            left_value as int % m,
            bootstrapped_noise(client_key),
            noise_bound,
        );
    }
    if right.carry_is_empty() {
        vstd::arithmetic::div_mod::lemma_small_mod(right_value as nat, m as nat);
    } else {
        lemma_message_extracted_encodes(
            generators,
            client_key,
            server_key,
            right,
            right_value as int,
            noise_bound,
        );
        lemma_encodes_with_more_noise(
            client_key,
            prepared_right,
            right_value as int % m,
            bootstrapped_noise(client_key),
            noise_bound,
        );
    }
    lemma_unchecked_bitwise_encodes(
        generators,
        client_key,
        server_key,
        operation,
        prepared_left,
        prepared_right,
        left_value % (m as u64),
        noise_bound,
        right_value % (m as u64),
        noise_bound,
    );
}

/// A smart bitwise operation that clears the carries of its operands is exact on messages:
/// the result decrypts to the operation on the messages of what the operands encode.
pub proof fn lemma_smart_bitwise_after_clearing(
    generators: KeyGenerators,
    client_key: ClientKey,
    server_key: ServerKey,
    operation: BitwiseOperation,
    left: CiphertextView,
    right: CiphertextView,
    left_value: u64,
    right_value: u64,
    noise_bound: int,
)
    requires
        client_key.wf(),
        server_key.is_key_from(generators, client_key),
        left.pbs_order == right.pbs_order,
        scalars_encode(client_key, left.ct, left.pbs_order, left_value as int, noise_bound),
        scalars_encode(client_key, right.ct, right.pbs_order, right_value as int, noise_bound),
        left_value < client_key.parameters.modulus_sup(),
        right_value < client_key.parameters.modulus_sup(),
        client_key.parameters.message_modulus.0 <= client_key.parameters.carry_modulus.0,
        noise_bound >= bootstrapped_noise(client_key),
        client_key.parameters.bootstrap_budget(
            client_key.parameters.message_modulus.0 * noise_bound + noise_bound,
        ),
        !server_key.spec_is_functional_bivariate_pbs_possible(left, right),
    ensures
        decrypted_message_and_carry(
            client_key,
            server_key.smart_bitwise(operation, left, right),
        ) == operation.apply_modulo(
            left_value % (client_key.parameters.message_modulus.0 as u64),
            right_value % (client_key.parameters.message_modulus.0 as u64),
            client_key.parameters.message_modulus.0 as int,
        ),
        scalars_encode(
            client_key,
            server_key.smart_operand(left, left, right).ct,
            left.pbs_order,
            (left_value % (client_key.parameters.message_modulus.0 as u64)) as int,
            noise_bound,
        ),
        scalars_encode(
            client_key,
            server_key.smart_operand(right, left, right).ct,
            right.pbs_order,
            (right_value % (client_key.parameters.message_modulus.0 as u64)) as int,
            noise_bound,
        ),
{
    let m = client_key.parameters.message_modulus.0 as int;
    let c = client_key.parameters.carry_modulus.0 as int;
    let sup = client_key.parameters.modulus_sup();
    crate::shortint::parameters::lemma_modulus_sup_positive(m, c);
    lemma_keyswitch_bound_positive(client_key.parameters);
    assert(noise_bound <= m * noise_bound + noise_bound) by (nonlinear_arith)
        requires
            m >= 1,
            noise_bound >= 0,
    ;
    lemma_budget_for_less(client_key, m * noise_bound + noise_bound, noise_bound);
    let left_after = server_key.message_extracted(left);
    let right_after = server_key.message_extracted(right);
    lemma_message_extracted_encodes(
        generators,
        client_key,
        server_key,
        left,
        left_value as int,
        noise_bound,
    );
    lemma_message_extracted_encodes(
        generators,
        client_key,
        server_key,
        right,
        right_value as int,
        noise_bound,
    );
    vstd::arithmetic::div_mod::lemma_mod_bound(left_value as int, m);
    vstd::arithmetic::div_mod::lemma_mod_bound(right_value as int, m);
    let a = left_value % (m as u64);
    let b = right_value % (m as u64);
    lemma_encodes_with_more_noise(
        client_key,
        left_after,
        a as int,
        bootstrapped_noise(client_key),
        noise_bound,
    );
    lemma_encodes_with_more_noise(
        client_key,
        right_after,
        b as int,
        bootstrapped_noise(client_key),
        noise_bound,
    );
    lemma_unchecked_bitwise_encodes(
        generators,
        client_key,
        server_key,
        operation,
        left_after,
        right_after,
        a,
        noise_bound,
        b,
        noise_bound,
    );
    assert(m <= m * c) by (nonlinear_arith)
        requires
            1 <= m,
            1 <= c,
    ;
    vstd::arithmetic::div_mod::lemma_mod_bound(operation.apply(a, b) as int, m);
    lemma_encoding_decrypts(
        client_key,
        server_key.unchecked_bitwise(operation, left_after, right_after),
        operation.apply_modulo(a, b, m) as int,
        bootstrapped_noise(client_key),
    );
}

/// A smart bitwise operation gives the same plaintext a second time: a second operation on
/// the operands as the first one left them decrypts to what the first one decrypts to.
pub proof fn lemma_smart_bitwise_twice(
    generators: KeyGenerators,
    client_key: ClientKey,
    server_key: ServerKey,
    operation: BitwiseOperation,
    left: CiphertextView,
    right: CiphertextView,
    left_value: u64,
    right_value: u64,
    noise_bound: int,
)
    requires
        client_key.wf(),
        server_key.is_key_from(generators, client_key),
        left.pbs_order == right.pbs_order,
        scalars_encode(client_key, left.ct, left.pbs_order, left_value as int, noise_bound),
        scalars_encode(client_key, right.ct, right.pbs_order, right_value as int, noise_bound),
        left_value < client_key.parameters.modulus_sup(),
        right_value < client_key.parameters.modulus_sup(),
        client_key.parameters.message_modulus.0 <= client_key.parameters.carry_modulus.0,
        noise_bound >= bootstrapped_noise(client_key),
        client_key.parameters.bootstrap_budget(
            client_key.parameters.message_modulus.0 * noise_bound + noise_bound,
        ),
    ensures
        decrypted_message_and_carry(
            client_key,
            server_key.smart_bitwise(
                operation,
                server_key.smart_operand(left, left, right),
                server_key.smart_operand(right, left, right),
            ),
        ) == decrypted_message_and_carry(
            client_key,
            server_key.smart_bitwise(operation, left, right),
        ),
{
    let m = client_key.parameters.message_modulus.0 as int;
    let left_after = server_key.smart_operand(left, left, right);
    let right_after = server_key.smart_operand(right, left, right);
    if !server_key.spec_is_functional_bivariate_pbs_possible(left, right) {
        lemma_smart_bitwise_after_clearing(
            generators,
            client_key,
            server_key,
            operation,
            left,
            right,
            left_value,
            right_value,
            noise_bound,
        );
        if !server_key.spec_is_functional_bivariate_pbs_possible(left_after, right_after) {
            let a = left_value % (m as u64);
            let b = right_value % (m as u64);
            vstd::arithmetic::div_mod::lemma_mod_bound(left_value as int, m);
            vstd::arithmetic::div_mod::lemma_mod_bound(right_value as int, m);
            crate::shortint::parameters::lemma_modulus_sup_positive(
                m,
                client_key.parameters.carry_modulus.0 as int,
            );
            lemma_smart_bitwise_after_clearing(
                generators,
                client_key,
                server_key,
                operation,
                left_after,
                right_after,
                a,
                b,
                noise_bound,
            );
            vstd::arithmetic::div_mod::lemma_small_mod(a as nat, m as nat);
            vstd::arithmetic::div_mod::lemma_small_mod(b as nat, m as nat);
        }
    }
}

} // verus!
