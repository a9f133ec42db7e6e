//! The blind rotation multiplies the phase of the lookup table by the monomial whose degree
//! is the switched phase of the input, with the opposite sign, up to an error that grows
//! with each step by at most the error of one step.
use crate::core_crypto::algorithms::cmux_correctness::{
    bootstrap_shape_of,
    ggsw_of_step,
    is_bootstrap_setting,
    lemma_noise_products_bounded,
    lemma_products_len,
    lemma_rounding_phase_bounded,
    lemma_row_products_len,
    lemma_row_products_of_step,
    lemma_rows_of_step,
    lemma_signal_of_all_rows,
    noise_products,
    rounding_phase,
    rounding_phase_bound,
    signal_products,
};
use crate::core_crypto::algorithms::external_product_correctness::{
    lemma_phase_of_external_product,
    row_products,
};
use crate::core_crypto::algorithms::ggsw_encryption::{ggsw_list, GgswShape};
use crate::core_crypto::algorithms::glwe_phase::{
    family_of,
    glwe_phase,
    is_glwe_key,
    lemma_key_products_len,
    lemma_monomial_product_is_multiple,
    lemma_phase_congruent,
    lemma_phase_linear,
    lemma_phase_of_multiples,
    lemma_poly_congruent_equivalence,
    lemma_poly_congruent_ops,
    lemma_polynomial_of_len,
    lemma_slice_operations_are_poly_operations,
    poly_congruent,
    poly_zero,
};
use crate::core_crypto::algorithms::lwe_programmable_bootstrapping::{
    blind_rotated,
    cmux_rotated,
    modulus_switched,
};
use crate::core_crypto::algorithms::polynomial_algorithms::{
    lemma_concat_polynomials,
    lemma_polynomial_bounds,
    monomial_product,
    monomial_product_of_each,
    polynomial_of,
};
use crate::core_crypto::algorithms::polynomial_ring::{
    is_bounded,
    lemma_monomial_multiple_bounded,
    lemma_monomial_multiple_by_one,
    lemma_monomial_multiple_linear,
    lemma_monomial_multiple_twice,
    monomial_multiple,
    poly_difference,
    poly_scaled,
    poly_sum,
};
use crate::core_crypto::algorithms::slice_algorithms::slice_difference;
use crate::core_crypto::commons::generators::EncryptionRandomGenerator;
use vstd::arithmetic::power2::pow2;
use vstd::prelude::*;

verus! {

/// The polynomials of a GLWE ciphertext whose polynomials were each multiplied by a
/// monomial.
pub proof fn lemma_rotated_polynomials(glwe: Seq<u64>, size: int, degree: int, count: int, c: int)
    requires
        size >= 1,
        count >= 1,
        glwe.len() == count * size,
        0 <= c < count,
    ensures
        polynomial_of(monomial_product_of_each(glwe, size, degree, count), c, size)
            == monomial_product(polynomial_of(glwe, c, size), degree),
        monomial_product_of_each(glwe, size, degree, count).len() == count * size,
        polynomial_of(glwe, c, size).len() == size,
{
    let f = |j: int| monomial_product(polynomial_of(glwe, j, size), degree);
    assert forall|j: int| 0 <= j < count implies (#[trigger] f(j)).len() == size by {
        lemma_polynomial_bounds(j, count, size);
    }
    lemma_concat_polynomials(f, count, size);
    lemma_polynomial_bounds(c, count, size);
}

/// The phase of a GLWE ciphertext whose polynomials were each multiplied by a monomial is
/// the phase of the ciphertext multiplied by the monomial.
pub proof fn lemma_phase_of_rotated(
    glwe: Seq<u64>,
    key: Seq<u64>,
    size: int,
    dimension: int,
    degree: int,
)
    requires
        is_glwe_key(key, size, dimension),
        glwe.len() == (dimension + 1) * size,
    ensures
        poly_congruent(
            glwe_phase(
                monomial_product_of_each(glwe, size, degree, dimension + 1),
                key,
                size,
                dimension,
            ),
            monomial_multiple(glwe_phase(glwe, key, size, dimension), degree),
        ),
{
    let rotated = monomial_product_of_each(glwe, size, degree, dimension + 1);
    let family = family_of(glwe, size);
    let rotated_family = family_of(rotated, size);
    let exact = |c: int| monomial_multiple(family(c), degree);
    assert forall|c: int| 0 <= c <= dimension implies poly_congruent(
        #[trigger] rotated_family(c),
        exact(c),
    ) && rotated_family(c).len() == size by {
        lemma_rotated_polynomials(glwe, size, degree, dimension + 1, c);
        lemma_monomial_product_is_multiple(polynomial_of(glwe, c, size), degree);
    }
    assert forall|c: int| 0 <= c <= dimension implies (#[trigger] family(c)).len() == size by {
        lemma_rotated_polynomials(glwe, size, degree, dimension + 1, c);
    }
    lemma_phase_congruent(rotated_family, exact, key, size, dimension);
    lemma_phase_of_multiples(exact, family, key, size, dimension, true, poly_zero(size as nat), degree);
}

/// The phase of the difference of two GLWE ciphertexts is the difference of their phases.
pub proof fn lemma_phase_of_difference(
    a: Seq<u64>,
    b: Seq<u64>,
    key: Seq<u64>,
    size: int,
    dimension: int,
)
    requires
        is_glwe_key(key, size, dimension),
        a.len() == (dimension + 1) * size,
        b.len() == (dimension + 1) * size,
    ensures
        poly_congruent(
            glwe_phase(slice_difference(a, b), key, size, dimension),
            poly_difference(
                glwe_phase(a, key, size, dimension),
                glwe_phase(b, key, size, dimension),
            ),
        ),
{
    let difference = slice_difference(a, b);
    let family = family_of(difference, size);
    let family_a = family_of(a, size);
    let family_b = family_of(b, size);
    let exact = |c: int| poly_difference(family_a(c), family_b(c));
    assert forall|c: int| 0 <= c <= dimension implies poly_congruent(
        #[trigger] family(c),
        exact(c),
    ) && family(c).len() == size by {
        lemma_polynomial_bounds(c, dimension + 1, size);
        assert(polynomial_of(difference, c, size) =~= slice_difference(
            polynomial_of(a, c, size),
            polynomial_of(b, c, size),
        ));
        lemma_slice_operations_are_poly_operations(
            polynomial_of(a, c, size),
            polynomial_of(b, c, size),
        );
    }
    assert forall|c: int| 0 <= c <= dimension implies (#[trigger] family_a(c)).len() == size by {
        lemma_polynomial_bounds(c, dimension + 1, size);
    }
    assert forall|c: int| 0 <= c <= dimension implies (#[trigger] family_b(c)).len() == size by {
        lemma_polynomial_bounds(c, dimension + 1, size);
    }
    lemma_phase_congruent(family, exact, key, size, dimension);
    lemma_phase_linear(exact, family_a, family_b, key, size, dimension, 1, 0);
}

/// The GLWE ciphertext that one step of the blind rotation decomposes: the accumulator
/// multiplied by the monomial of the step, minus the accumulator.
pub open spec fn cmux_difference(accumulator: Seq<u64>, shape: GgswShape, degree: int) -> Seq<u64> {
    slice_difference(
        monomial_product_of_each(
            accumulator,
            shape.polynomial_size,
            degree,
            shape.glwe_dimension + 1,
        ),
        accumulator,
    )
}

/// The error that one step of the blind rotation adds to the phase of the accumulator: what
/// the decompositions round away, if the bit of the step is one, and the noise of the rows
/// of the GGSW ciphertext, each times its digits.
pub open spec fn cmux_error(
    generator: EncryptionRandomGenerator,
    shape: GgswShape,
    glwe_key: Seq<u64>,
    accumulator: Seq<u64>,
    degree: int,
    bit: int,
    step: int,
) -> Seq<int> {
    poly_sum(
        poly_scaled(rounding_phase(cmux_difference(accumulator, shape, degree), glwe_key, shape), bit),
        noise_products(
            generator,
            shape,
            cmux_difference(accumulator, shape, degree),
            step,
            shape.rows(),
        ),
    )
}

/// The bound of the error of one step of the blind rotation.
pub open spec fn cmux_error_bound(shape: GgswShape) -> int {
    rounding_phase_bound(shape) + shape.rows() * (shape.polynomial_size * ((pow2(shape.base_log)
        / 2) * (3 * shape.std.0)))
}

/// The error of one step of the blind rotation stays within its bound.
pub proof fn lemma_cmux_error_bounded(
    generator: EncryptionRandomGenerator,
    shape: GgswShape,
    glwe_key: Seq<u64>,
    accumulator: Seq<u64>,
    degree: int,
    bit: int,
    step: int,
)
    requires
        is_glwe_key(glwe_key, shape.polynomial_size, shape.glwe_dimension),
        crate::core_crypto::algorithms::decomposition::is_valid_gadget(
            shape.base_log as int,
            shape.levels as int,
        ),
        crate::core_crypto::entities::lwe_secret_key::is_binary(glwe_key),
        shape.std.0 <= 0x7fff_ffff_ffff_ffff,
        0 <= bit <= 1,
    ensures
        is_bounded(
            cmux_error(generator, shape, glwe_key, accumulator, degree, bit, step),
            cmux_error_bound(shape),
        ),
        cmux_error(generator, shape, glwe_key, accumulator, degree, bit, step).len()
            == shape.polynomial_size,
{
    let difference = cmux_difference(accumulator, shape, degree);
    let rows = shape.rows();
    assert(rows >= 0) by (nonlinear_arith)
        requires
            rows == shape.levels * (shape.glwe_dimension + 1),
            shape.glwe_dimension >= 0,
    ;
    lemma_rounding_phase_bounded(difference, glwe_key, shape);
    lemma_noise_products_bounded(generator, shape, difference, step, rows);
    lemma_products_len(generator, glwe_key, shape, difference, bit, step, rows);
    let rounding = rounding_phase(difference, glwe_key, shape);
    let noise = noise_products(generator, shape, difference, step, rows);
    let all = cmux_error(generator, shape, glwe_key, accumulator, degree, bit, step);
    let b1 = rounding_phase_bound(shape);
    let b2 = rows * (shape.polynomial_size * ((pow2(shape.base_log) / 2) * (3 * shape.std.0)));
    assert forall|t: int| 0 <= t < all.len() implies -cmux_error_bound(shape) <= #[trigger] all[t]
        <= cmux_error_bound(shape) by {
        assert(-b1 <= rounding[t] <= b1);
        assert(-b2 <= noise[t] <= b2);
        assert(-b1 <= bit * rounding[t] <= b1) by (nonlinear_arith)
            requires
                -b1 <= rounding[t] <= b1,
                0 <= bit <= 1,
        ;
    }
}

/// One step of the blind rotation multiplies the phase of the accumulator by the monomial
/// of the step if the bit of the step is one, and leaves it if the bit is zero, up to the
/// error of the step.
pub proof fn lemma_cmux_rotates_phase(
    generator: EncryptionRandomGenerator,
    shape: GgswShape,
    input_key: Seq<u64>,
    glwe_key: Seq<u64>,
    accumulator: Seq<u64>,
    degree: int,
    step: int,
)
    requires
        is_bootstrap_setting(shape, input_key, glwe_key),
        0 <= step < input_key.len(),
        accumulator.len() == (shape.glwe_dimension + 1) * shape.polynomial_size,
    ensures
        poly_congruent(
            glwe_phase(
                cmux_rotated(
                    accumulator,
                    ggsw_of_step(generator, shape, input_key, glwe_key, step),
                    degree,
                    bootstrap_shape_of(shape),
                ),
                glwe_key,
                shape.polynomial_size,
                shape.glwe_dimension,
            ),
            poly_sum(
                monomial_multiple(
                    glwe_phase(accumulator, glwe_key, shape.polynomial_size, shape.glwe_dimension),
                    input_key[step] * degree,
                ),
                cmux_error(
                    generator,
                    shape,
                    glwe_key,
                    accumulator,
                    degree,
                    input_key[step] as int,
                    step,
                ),
            ),
        ),
        cmux_rotated(
            accumulator,
            ggsw_of_step(generator, shape, input_key, glwe_key, step),
            degree,
            bootstrap_shape_of(shape),
        ).len() == (shape.glwe_dimension + 1) * shape.polynomial_size,
{
    let n = shape.polynomial_size;
    let k = shape.glwe_dimension;
    let g = k + 1;
    let bshape = bootstrap_shape_of(shape);
    let rows = shape.rows();
    let bit = input_key[step] as int;
    let ggsw = ggsw_of_step(generator, shape, input_key, glwe_key, step);
    let rotated = monomial_product_of_each(accumulator, n, degree, g);
    let difference = cmux_difference(accumulator, shape, degree);
    let out = cmux_rotated(accumulator, ggsw, degree, bshape);
    let p = glwe_phase(accumulator, glwe_key, n, k);
    assert(rows >= 1) by (nonlinear_arith)
        requires
            rows == shape.levels * (k + 1),
            shape.levels >= 1,
            k >= 0,
    ;
    lemma_rows_of_step(generator, shape, input_key, glwe_key, step, 0);
    lemma_rotated_polynomials(accumulator, n, degree, g, 0);
    assert(difference.len() == g * n);
    // the phase of the difference
    lemma_phase_of_rotated(accumulator, glwe_key, n, k, degree);
    lemma_phase_of_difference(rotated, accumulator, glwe_key, n, k);
    let rotated_phase = monomial_multiple(p, degree);
    let difference_phase = poly_difference(rotated_phase, p);
    lemma_key_products_len(family_of(accumulator, n), glwe_key, n, k);
    lemma_key_products_len(family_of(rotated, n), glwe_key, n, k);
    lemma_poly_congruent_equivalence(p, p, p);
    assert(family_of(accumulator, n)(k).len() == n) by {
        lemma_polynomial_of_len(accumulator, k, g, n);
    }
    assert(family_of(rotated, n)(k).len() == n) by {
        lemma_polynomial_of_len(rotated, k, g, n);
    }
    lemma_poly_congruent_ops(glwe_phase(rotated, glwe_key, n, k), rotated_phase, p, p, 0, 0);
    lemma_poly_congruent_equivalence(
        glwe_phase(difference, glwe_key, n, k),
        poly_difference(glwe_phase(rotated, glwe_key, n, k), p),
        difference_phase,
    );
    // the phase of the external product
    lemma_phase_of_external_product(accumulator, ggsw, difference, glwe_key, bshape);
    lemma_row_products_of_step(generator, shape, input_key, glwe_key, difference, step, rows);
    lemma_signal_of_all_rows(glwe_key, shape, difference, bit);
    let products = row_products(ggsw, difference, glwe_key, bshape, rows);
    let signal = signal_products(glwe_key, shape, difference, bit, rows);
    let noise = noise_products(generator, shape, difference, step, rows);
    let rounding = rounding_phase(difference, glwe_key, shape);
    lemma_rounding_phase_bounded(difference, glwe_key, shape);
    lemma_products_len(generator, glwe_key, shape, difference, bit, step, rows);
    lemma_row_products_len(ggsw, difference, glwe_key, bshape, rows);
    lemma_key_products_len(family_of(difference, n), glwe_key, n, k);
    assert(family_of(difference, n)(k).len() == n) by {
        lemma_polynomial_of_len(difference, k, g, n);
    }
    // signal is congruent to bit * (difference_phase + rounding)
    lemma_poly_congruent_equivalence(rounding, rounding, rounding);
    lemma_poly_congruent_ops(
        glwe_phase(difference, glwe_key, n, k),
        difference_phase,
        rounding,
        rounding,
        0,
        0,
    );
    lemma_poly_congruent_ops(
        poly_sum(glwe_phase(difference, glwe_key, n, k), rounding),
        poly_sum(difference_phase, rounding),
        rounding,
        rounding,
        bit,
        0,
    );
    let exact_signal = poly_scaled(poly_sum(difference_phase, rounding), bit);
    lemma_poly_congruent_equivalence(
        signal,
        poly_scaled(poly_sum(glwe_phase(difference, glwe_key, n, k), rounding), bit),
        exact_signal,
    );
    lemma_poly_congruent_equivalence(noise, noise, noise);
    lemma_poly_congruent_ops(signal, exact_signal, noise, noise, 0, 0);
    lemma_poly_congruent_equivalence(
        products,
        poly_sum(signal, noise),
        poly_sum(exact_signal, noise),
    );
    lemma_poly_congruent_ops(p, p, products, poly_sum(exact_signal, noise), 0, 0);
    let exact = poly_sum(p, poly_sum(exact_signal, noise));
    lemma_poly_congruent_equivalence(
        glwe_phase(out, glwe_key, n, k),
        poly_sum(p, products),
        exact,
    );
    // the two values of the bit
    let target = poly_sum(
        monomial_multiple(p, bit * degree),
        cmux_error(generator, shape, glwe_key, accumulator, degree, bit, step),
    );
    assert(0 <= bit <= 1);
    if bit == 0 {
        assert(bit * degree == 0) by (nonlinear_arith)
            requires
                bit == 0,
        ;
        lemma_monomial_multiple_by_one(p);
        assert forall|t: int| 0 <= t < n implies exact[t] == target[t] by {
            assert(0 * (difference_phase[t] + rounding[t]) == 0) by (nonlinear_arith);
            assert(0 * rounding[t] == 0) by (nonlinear_arith);
        }
        assert(exact =~= target);
    } else {
        assert(bit * degree == degree) by (nonlinear_arith)
            requires
                bit == 1,
        ;
        assert forall|t: int| 0 <= t < n implies exact[t] == target[t] by {
            assert(1 * (difference_phase[t] + rounding[t]) == difference_phase[t] + rounding[t])
                by (nonlinear_arith);
            assert(1 * rounding[t] == rounding[t]) by (nonlinear_arith);
        }
        assert(exact =~= target);
    }
}

/// The degree of the monomial that the phase of the lookup table is multiplied by after
/// `steps` steps of the blind rotation: minus the switched body of the input, plus the
/// switched scalars of the mask for the bits of the key that are one.
pub open spec fn rotation_of(
    input: Seq<u64>,
    input_key: Seq<u64>,
    polynomial_size: int,
    steps: int,
) -> int
    decreases steps,
{
    if steps <= 0 {
        (2 * polynomial_size - modulus_switched(input.last(), polynomial_size)) % (2
            * polynomial_size)
    } else {
        rotation_of(input, input_key, polynomial_size, steps - 1) + input_key[steps - 1]
            * modulus_switched(input[steps - 1], polynomial_size)
    }
}

/// The error of the blind rotation after `steps` steps: the error before the step,
/// multiplied by the monomial of the step, plus the error of the step.
pub open spec fn blind_rotation_error(
    generator: EncryptionRandomGenerator,
    shape: GgswShape,
    input_key: Seq<u64>,
    glwe_key: Seq<u64>,
    lookup_table: Seq<u64>,
    input: Seq<u64>,
    steps: int,
) -> Seq<int>
    decreases steps,
{
    if steps <= 0 {
        poly_zero(shape.polynomial_size as nat)
    } else {
        poly_sum(
            monomial_multiple(
                blind_rotation_error(
                    generator,
                    shape,
                    input_key,
                    glwe_key,
                    lookup_table,
                    input,
                    steps - 1,
                ),
                input_key[steps - 1] * modulus_switched(input[steps - 1], shape.polynomial_size),
            ),
            cmux_error(
                generator,
                shape,
                glwe_key,
                blind_rotated(
                    ggsw_list(generator, shape, input_key, glwe_key, true),
                    lookup_table,
                    input,
                    bootstrap_shape_of(shape),
                    steps - 1,
                ),
                modulus_switched(input[steps - 1], shape.polynomial_size),
                input_key[steps - 1] as int,
                steps - 1,
            ),
        )
    }
}

/// The blind rotation multiplies the phase of the lookup table by the monomial of its
/// rotation, up to its error, and its error stays within the error of one step for each
/// step.
pub proof fn lemma_blind_rotation_rotates_phase(
    generator: EncryptionRandomGenerator,
    shape: GgswShape,
    input_key: Seq<u64>,
    glwe_key: Seq<u64>,
    lookup_table: Seq<u64>,
    input: Seq<u64>,
    steps: int,
)
    requires
        is_bootstrap_setting(shape, input_key, glwe_key),
        lookup_table.len() == (shape.glwe_dimension + 1) * shape.polynomial_size,
        input.len() == input_key.len() + 1,
        0 <= steps <= input_key.len(),
    ensures
        poly_congruent(
            glwe_phase(
                blind_rotated(
                    ggsw_list(generator, shape, input_key, glwe_key, true),
                    lookup_table,
                    input,
                    bootstrap_shape_of(shape),
                    steps,
                ),
                glwe_key,
                shape.polynomial_size,
                shape.glwe_dimension,
            ),
            poly_sum(
                monomial_multiple(
                    glwe_phase(lookup_table, glwe_key, shape.polynomial_size, shape.glwe_dimension),
                    rotation_of(input, input_key, shape.polynomial_size, steps),
                ),
                blind_rotation_error(
                    generator,
                    shape,
                    input_key,
                    glwe_key,
                    lookup_table,
                    input,
                    steps,
                ),
            ),
        ),
        is_bounded(
            blind_rotation_error(generator, shape, input_key, glwe_key, lookup_table, input, steps),
            steps * cmux_error_bound(shape),
        ),
        blind_rotation_error(
            generator,
            shape,
            input_key,
            glwe_key,
            lookup_table,
            input,
            steps,
        ).len() == shape.polynomial_size,
        blind_rotated(
            ggsw_list(generator, shape, input_key, glwe_key, true),
            lookup_table,
            input,
            bootstrap_shape_of(shape),
            steps,
        ).len() == (shape.glwe_dimension + 1) * shape.polynomial_size,
    decreases steps,
{
    let n = shape.polynomial_size;
    let k = shape.glwe_dimension;
    let g = k + 1;
    let bshape = bootstrap_shape_of(shape);
    let key = ggsw_list(generator, shape, input_key, glwe_key, true);
    let v = glwe_phase(lookup_table, glwe_key, n, k);
    lemma_key_products_len(family_of(lookup_table, n), glwe_key, n, k);
    assert(family_of(lookup_table, n)(k).len() == n) by {
        lemma_polynomial_of_len(lookup_table, k, g, n);
    }
    let bound = cmux_error_bound(shape);
    if steps == 0 {
        let degree = rotation_of(input, input_key, n, 0);
        lemma_phase_of_rotated(lookup_table, glwe_key, n, k, degree);
        lemma_rotated_polynomials(lookup_table, n, degree, g, 0);
        let zero = poly_zero(n as nat);
        assert(poly_sum(monomial_multiple(v, degree), zero) =~= monomial_multiple(v, degree));
        assert(0 * bound == 0) by (nonlinear_arith);
    } else {
        let step = steps - 1;
        lemma_blind_rotation_rotates_phase(
            generator,
            shape,
            input_key,
            glwe_key,
            lookup_table,
            input,
            step,
        );
        let accumulator = blind_rotated(key, lookup_table, input, bshape, step);
        let degree = modulus_switched(input[step], n);
        let bit = input_key[step] as int;
        lemma_cmux_rotates_phase(
            generator,
            shape,
            input_key,
            glwe_key,
            accumulator,
            degree,
            step,
        );
        lemma_cmux_error_bounded(generator, shape, glwe_key, accumulator, degree, bit, step);
        let p = glwe_phase(accumulator, glwe_key, n, k);
        let rotation = rotation_of(input, input_key, n, step);
        let error_before = blind_rotation_error(
            generator,
            shape,
            input_key,
            glwe_key,
            lookup_table,
            input,
            step,
        );
        let step_error = cmux_error(generator, shape, glwe_key, accumulator, degree, bit, step);
        let before = poly_sum(monomial_multiple(v, rotation), error_before);
        // multiply the phase before the step by the monomial of the step
        lemma_key_products_len(family_of(accumulator, n), glwe_key, n, k);
        assert(family_of(accumulator, n)(k).len() == n) by {
            lemma_polynomial_of_len(accumulator, k, g, n);
        }
        lemma_poly_congruent_ops(p, before, p, before, 0, bit * degree);
        lemma_monomial_multiple_linear(monomial_multiple(v, rotation), error_before, 0, bit * degree);
        lemma_monomial_multiple_twice(v, rotation, bit * degree);
        lemma_poly_congruent_equivalence(step_error, step_error, step_error);
        lemma_poly_congruent_ops(
            monomial_multiple(p, bit * degree),
            monomial_multiple(before, bit * degree),
            step_error,
            step_error,
            0,
            0,
        );
        let out = blind_rotated(key, lookup_table, input, bshape, steps);
        assert(out == cmux_rotated(
            accumulator,
            ggsw_of_step(generator, shape, input_key, glwe_key, step),
            degree,
            bshape,
        ));
        lemma_poly_congruent_equivalence(
            glwe_phase(out, glwe_key, n, k),
            poly_sum(monomial_multiple(p, bit * degree), step_error),
            poly_sum(monomial_multiple(before, bit * degree), step_error),
        );
        let moved_error = monomial_multiple(error_before, bit * degree);
        assert(poly_sum(
            poly_sum(monomial_multiple(v, rotation + bit * degree), moved_error),
            step_error,
        ) =~= poly_sum(
            monomial_multiple(v, rotation + bit * degree),
            poly_sum(moved_error, step_error),
        ));
        // the bound of the error
        lemma_monomial_multiple_bounded(error_before, bit * degree, step * bound);
        assert(steps * bound == step * bound + bound) by (nonlinear_arith)
            requires
                step == steps - 1,
        ;
        let error = blind_rotation_error(
            generator,
            shape,
            input_key,
            glwe_key,
            lookup_table,
            input,
            steps,
        );
        assert forall|t: int| 0 <= t < error.len() implies -(steps * bound) <= #[trigger] error[t]
            <= steps * bound by {
            assert(-(step * bound) <= moved_error[t] <= step * bound);
            assert(-bound <= step_error[t] <= bound);
        }
    }
}

} // verus!
