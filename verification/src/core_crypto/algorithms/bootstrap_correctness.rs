//! The programmable bootstrap reads the lookup table at the phase of its input: the phase of
//! its output is the coefficient of the phase of the table at the degree that the phase of
//! the input selects, up to the error of the blind rotation.
use crate::core_crypto::algorithms::blind_rotation_correctness::{
    blind_rotation_error,
    cmux_error_bound,
    lemma_blind_rotation_rotates_phase,
    rotation_of,
};
use crate::core_crypto::algorithms::cmux_correctness::{bootstrap_shape_of, is_bootstrap_setting};
use crate::core_crypto::algorithms::ggsw_encryption::{ggsw_list, GgswShape};
use crate::core_crypto::algorithms::glwe_phase::{
    family_of,
    glwe_phase,
    lemma_key_products_len,
    lemma_poly_congruent_at,
    lemma_polynomial_of_len,
};
use crate::core_crypto::algorithms::lwe_encryption::lwe_phase;
use crate::core_crypto::algorithms::lwe_programmable_bootstrapping::{
    blind_rotated,
    programmable_bootstrapped,
};
use crate::core_crypto::algorithms::modulus_switch_correctness::{
    is_switch_size,
    lemma_rotation_is_phase,
    lemma_switch_unit,
    modulus_switch_error,
    switch_unit,
};
use crate::core_crypto::algorithms::polynomial_ring::{
    coefficient,
    lemma_coefficient_period,
    monomial_multiple,
};
use crate::core_crypto::algorithms::sample_extraction_correctness::lemma_phase_of_extracted_sample;
use crate::core_crypto::commons::generators::EncryptionRandomGenerator;
use crate::core_crypto::commons::numeric::{
    congruent,
    lemma_congruent_ops,
    lemma_congruent_torus,
    torus,
};
use vstd::prelude::*;

verus! {

/// The degree at which a bootstrap reads its lookup table, for an input that encodes the
/// value `index` in boxes of `box_size` units with the noise `noise`: the start of the box
/// of the value, moved by the noise and by the error of the modulus switch, in units.
pub open spec fn located_degree(
    input: Seq<u64>,
    key: Seq<u64>,
    polynomial_size: int,
    box_size: int,
    index: int,
    noise: int,
) -> int {
    index * box_size + (noise - modulus_switch_error(input, key, polynomial_size)) / switch_unit(
        polynomial_size,
    )
}

/// Integers that are congruent on the torus differ by a multiple of `2^64`.
pub proof fn lemma_congruent_difference(x: int, y: int)
    requires
        congruent(x, y),
    ensures
        (x - y) % 0x1_0000_0000_0000_0000 == 0,
        x - y == 0x1_0000_0000_0000_0000 * ((x - y) / 0x1_0000_0000_0000_0000),
{
    let w = 0x1_0000_0000_0000_0000int;
    vstd::arithmetic::div_mod::lemma_fundamental_div_mod(x, w);
    vstd::arithmetic::div_mod::lemma_fundamental_div_mod(y, w);
    vstd::arithmetic::div_mod::lemma_mod_bound(x, w);
    vstd::arithmetic::div_mod::lemma_mod_bound(y, w);
    assert(x % w == y % w);
    let k = x / w - y / w;
    assert(x - y == w * k) by (nonlinear_arith)
        requires
            x == w * (x / w) + x % w,
            y == w * (y / w) + y % w,
            x % w == y % w,
            k == x / w - y / w,
    ;
    vstd::arithmetic::div_mod::lemma_mod_multiples_basic(k, w);
    assert(w * k == k * w) by (nonlinear_arith);
    vstd::arithmetic::div_mod::lemma_fundamental_div_mod(x - y, w);
}

/// The rotation of a blind rotation, with the opposite sign, is the located degree modulo
/// `2N`, when the noise and the error of the modulus switch stay within the box.
pub proof fn lemma_rotation_is_located(
    input: Seq<u64>,
    key: Seq<u64>,
    polynomial_size: int,
    box_size: int,
    index: int,
    noise: int,
)
    requires
        is_switch_size(polynomial_size),
        crate::core_crypto::entities::lwe_secret_key::is_binary(key),
        input.len() == key.len() + 1,
        box_size >= 1,
        congruent(
            lwe_phase(key, input) as int,
            index * (box_size * switch_unit(polynomial_size)) + noise,
        ),
    ensures
        exists|turns: int|
            -rotation_of(input, key, polynomial_size, key.len() as int) == #[trigger] (turns * (2
                * polynomial_size)) + located_degree(
                input,
                key,
                polynomial_size,
                box_size,
                index,
                noise,
            ),
        (noise - modulus_switch_error(input, key, polynomial_size)) % switch_unit(polynomial_size)
            == 0,
{
    let n = polynomial_size;
    let d = switch_unit(n);
    lemma_switch_unit(n);
    lemma_rotation_is_phase(input, key, n);
    let rotation = rotation_of(input, key, n, key.len() as int);
    let error = modulus_switch_error(input, key, n);
    let phase = lwe_phase(key, input) as int;
    lemma_congruent_ops(phase, index * (box_size * d) + noise, error, error);
    // (-rotation) * d and index * box * d + noise - error differ by a multiple of 2^64
    let x = (-rotation) * d;
    let y = index * (box_size * d) + noise - error;
    assert(congruent(x, y));
    lemma_congruent_difference(x, y);
    let v = (x - y) / 0x1_0000_0000_0000_0000;
    let t = noise - error;
    // t == d * (-rotation - index * box - 2N v)
    let u = -rotation - index * box_size - (2 * n) * v;
    assert(t == d * u) by (nonlinear_arith)
        requires
            (-rotation) * d - (index * (box_size * d) + t) == 0x1_0000_0000_0000_0000 * v,
            d * (2 * n) == 0x1_0000_0000_0000_0000,
            u == -rotation - index * box_size - (2 * n) * v,
    ;
    vstd::arithmetic::div_mod::lemma_div_multiples_vanish(u, d);
    vstd::arithmetic::div_mod::lemma_mod_multiples_basic(u, d);
    assert(d * u == u * d) by (nonlinear_arith);
    assert(t / d == u);
    assert(-rotation == v * (2 * n) + located_degree(input, key, n, box_size, index, noise))
        by (nonlinear_arith)
        requires
            u == -rotation - index * box_size - (2 * n) * v,
            located_degree(input, key, n, box_size, index, noise) == index * box_size + u,
    ;
}

/// The located degree is in the box of its value, moved back by half a box, when the noise
/// and the error of the modulus switch together stay under half a box.
pub proof fn lemma_located_in_box(
    input: Seq<u64>,
    key: Seq<u64>,
    polynomial_size: int,
    box_size: int,
    index: int,
    noise: int,
    noise_bound: int,
)
    requires
        is_switch_size(polynomial_size),
        crate::core_crypto::entities::lwe_secret_key::is_binary(key),
        input.len() == key.len() + 1,
        box_size >= 1,
        -noise_bound <= noise <= noise_bound,
        noise_bound + (key.len() + 1) * (switch_unit(polynomial_size) / 2) < (box_size / 2)
            * switch_unit(polynomial_size),
        (noise - modulus_switch_error(input, key, polynomial_size)) % switch_unit(polynomial_size)
            == 0,
    ensures
        index * box_size - box_size / 2 < located_degree(
            input,
            key,
            polynomial_size,
            box_size,
            index,
            noise,
        ) < index * box_size + box_size / 2,
{
    let n = polynomial_size;
    let d = switch_unit(n);
    lemma_switch_unit(n);
    lemma_rotation_is_phase(input, key, n);
    let error = modulus_switch_error(input, key, n);
    let t = noise - error;
    let half = box_size / 2;
    vstd::arithmetic::div_mod::lemma_fundamental_div_mod(t, d);
    let u = t / d;
    assert(t == d * u);
    assert(-(half * d) < t < half * d);
    assert(-half < u < half) by (nonlinear_arith)
        requires
            t == d * u,
            -(half * d) < t < half * d,
            d >= 1,
    ;
}

/// The bootstrap reads the lookup table at the located degree: the phase of its output,
/// under the GLWE key read as an LWE key, is the coefficient of that degree of the phase of
/// the table, plus the constant coefficient of the error of the blind rotation, which is
/// within the error of one step for each scalar of the mask.
pub proof fn lemma_bootstrap_reads_table(
    generator: EncryptionRandomGenerator,
    shape: GgswShape,
    input_key: Seq<u64>,
    glwe_key: Seq<u64>,
    lookup_table: Seq<u64>,
    input: Seq<u64>,
    box_size: int,
    index: int,
    noise: int,
)
    requires
        is_bootstrap_setting(shape, input_key, glwe_key),
        is_switch_size(shape.polynomial_size),
        lookup_table.len() == (shape.glwe_dimension + 1) * shape.polynomial_size,
        input.len() == input_key.len() + 1,
        box_size >= 1,
        congruent(
            lwe_phase(input_key, input) as int,
            index * (box_size * switch_unit(shape.polynomial_size)) + noise,
        ),
    ensures
        lwe_phase(
            glwe_key,
            programmable_bootstrapped(
                ggsw_list(generator, shape, input_key, glwe_key, true),
                lookup_table,
                input,
                bootstrap_shape_of(shape),
            ),
        ) == torus(
            coefficient(
                glwe_phase(lookup_table, glwe_key, shape.polynomial_size, shape.glwe_dimension),
                located_degree(input, input_key, shape.polynomial_size, box_size, index, noise),
            ) + blind_rotation_error(
                generator,
                shape,
                input_key,
                glwe_key,
                lookup_table,
                input,
                input_key.len() as int,
            )[0],
        ),
        -(input_key.len() * cmux_error_bound(shape)) <= blind_rotation_error(
            generator,
            shape,
            input_key,
            glwe_key,
            lookup_table,
            input,
            input_key.len() as int,
        )[0] <= input_key.len() * cmux_error_bound(shape),
        programmable_bootstrapped(
            ggsw_list(generator, shape, input_key, glwe_key, true),
            lookup_table,
            input,
            bootstrap_shape_of(shape),
        ).len() == glwe_key.len() + 1,
{
    let n = shape.polynomial_size;
    let k = shape.glwe_dimension;
    let steps = input_key.len() as int;
    let bshape = bootstrap_shape_of(shape);
    let key = ggsw_list(generator, shape, input_key, glwe_key, true);
    lemma_blind_rotation_rotates_phase(
        generator,
        shape,
        input_key,
        glwe_key,
        lookup_table,
        input,
        steps,
    );
    let accumulator = blind_rotated(key, lookup_table, input, bshape, steps);
    assert(input.len() - 1 == steps);
    lemma_phase_of_extracted_sample(accumulator, glwe_key, bshape);
    let v = glwe_phase(lookup_table, glwe_key, n, k);
    lemma_key_products_len(family_of(lookup_table, n), glwe_key, n, k);
    lemma_polynomial_of_len(lookup_table, k, k + 1, n);
    assert(family_of(lookup_table, n)(k).len() == n);
    let rotation = rotation_of(input, input_key, n, steps);
    let error = blind_rotation_error(
        generator,
        shape,
        input_key,
        glwe_key,
        lookup_table,
        input,
        steps,
    );
    let rotated = monomial_multiple(v, rotation);
    lemma_poly_congruent_at(
        glwe_phase(accumulator, glwe_key, n, k),
        crate::core_crypto::algorithms::polynomial_ring::poly_sum(rotated, error),
        0,
    );
    // the coefficient of the rotated table
    lemma_rotation_is_located(input, input_key, n, box_size, index, noise);
    let located = located_degree(input, input_key, n, box_size, index, noise);
    let turns = choose|turns: int| -rotation == #[trigger] (turns * (2 * n)) + located;
    lemma_coefficient_period(v, located, turns);
    assert(0 - rotation == located + turns * (2 * n));
    assert(rotated[0] == coefficient(v, 0 - rotation));
    assert(error[0] <= steps * cmux_error_bound(shape));
    let out = programmable_bootstrapped(key, lookup_table, input, bshape);
    lemma_congruent_torus(lwe_phase(glwe_key, out) as int);
    vstd::arithmetic::div_mod::lemma_small_mod(
        lwe_phase(glwe_key, out) as nat,
        0x1_0000_0000_0000_0000,
    );
}

} // verus!
