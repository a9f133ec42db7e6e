//! One step of the blind rotation multiplies the phase of the accumulator by a monomial, or
//! not, as the bit that the GGSW ciphertext of the step encrypts says, up to an error that
//! the gadget and the noise of the key bound.
use crate::core_crypto::algorithms::decomposition::{
    is_valid_gadget,
    lemma_gadget_exponents,
    lemma_recomposition,
    lemma_rounding_error_range,
    lemma_signed_digit_range,
    recomposed,
    rounding_error,
    signed_digit,
};
use crate::core_crypto::algorithms::external_product_correctness::{
    ggsw_row,
    lemma_polynomial_of_row,
    lemma_zero_family_products,
    row_products,
    signed_digits_polynomial,
};
use crate::core_crypto::algorithms::ggsw_encryption::{
    ggsw_list,
    ggsw_list_row,
    row_component,
    row_input,
    row_level,
    GgswShape,
};
use crate::core_crypto::algorithms::ggsw_phase::{
    lemma_phase_of_ggsw_row,
    lemma_row_draws_bounded,
    row_draws,
    row_plaintext,
};
use crate::core_crypto::algorithms::glwe_phase::{
    family_of,
    glwe_phase,
    ints,
    is_family,
    is_glwe_key,
    key_products,
    lemma_key_products_len,
    lemma_phase_congruent,
    lemma_phase_linear,
    lemma_poly_congruent_equivalence,
    lemma_poly_congruent_ops,
    lemma_polynomial_of_len,
    phase_of,
    poly_congruent,
    poly_zero,
};
use crate::core_crypto::algorithms::lwe_bootstrap_key_generation::lemma_ggsw_list_len;
use crate::core_crypto::algorithms::lwe_programmable_bootstrapping::{
    lemma_shape_sizes,
    BootstrapShape,
};
use crate::core_crypto::algorithms::polynomial_algorithms::{
    lemma_concat_polynomials,
    lemma_polynomial_bounds,
    polynomial_of,
};
use crate::core_crypto::algorithms::polynomial_ring::{
    is_bounded,
    lemma_product_bounded,
    lemma_product_linear_left,
    lemma_product_linear_right,
    lemma_product_with_constant,
    poly_difference,
    poly_scaled,
    poly_sum,
    product,
};
use crate::core_crypto::commons::generators::EncryptionRandomGenerator;
use crate::core_crypto::commons::numeric::congruent;
use crate::core_crypto::entities::lwe_secret_key::is_binary;
use vstd::arithmetic::power2::pow2;
use vstd::prelude::*;

verus! {

/// The shape of the bootstrap key that a list of GGSW ciphertexts is.
pub open spec fn bootstrap_shape_of(shape: GgswShape) -> BootstrapShape {
    BootstrapShape {
        polynomial_size: shape.polynomial_size,
        glwe_size: shape.glwe_dimension + 1,
        base_log: shape.base_log,
        levels: shape.levels,
    }
}

/// The number of levels of the component `component` among the first `count` rows of a GGSW
/// ciphertext.
pub open spec fn levels_done(component: int, count: int, glwe_size: int) -> int {
    (count - component + glwe_size - 1) / glwe_size
}

/// The row of index `count` is the next level of its component, and of no other.
pub proof fn lemma_levels_done_step(count: int, component: int, glwe_size: int)
    requires
        glwe_size >= 1,
        count >= 0,
        0 <= component < glwe_size,
    ensures
        levels_done(count % glwe_size, count, glwe_size) == count / glwe_size,
        levels_done(component, count + 1, glwe_size) == levels_done(component, count, glwe_size)
            + (if component == count % glwe_size {
            1int
        } else {
            0int
        }),
        0 <= levels_done(component, count, glwe_size),
{
    let g = glwe_size;
    let q = count / g;
    let c0 = count % g;
    vstd::arithmetic::div_mod::lemma_fundamental_div_mod(count, g);
    vstd::arithmetic::div_mod::lemma_mod_bound(count, g);
    assert(count == q * g + c0) by (nonlinear_arith)
        requires
            count == g * q + c0,
    ;
    // before the row
    if component <= c0 - 1 {
        assert(count - component + g - 1 == (q + 1) * g + (c0 - component - 1))
            by (nonlinear_arith)
            requires
                count == q * g + c0,
        ;
        vstd::arithmetic::div_mod::lemma_fundamental_div_mod_converse(
            count - component + g - 1,
            g,
            q + 1,
            c0 - component - 1,
        );
    } else {
        assert(count - component + g - 1 == q * g + (g - 1 - (component - c0)))
            by (nonlinear_arith)
            requires
                count == q * g + c0,
        ;
        vstd::arithmetic::div_mod::lemma_fundamental_div_mod_converse(
            count - component + g - 1,
            g,
            q,
            g - 1 - (component - c0),
        );
    }
    // after the row
    if component <= c0 {
        assert(count + 1 - component + g - 1 == (q + 1) * g + (c0 - component))
            by (nonlinear_arith)
            requires
                count == q * g + c0,
        ;
        vstd::arithmetic::div_mod::lemma_fundamental_div_mod_converse(
            count + 1 - component + g - 1,
            g,
            q + 1,
            c0 - component,
        );
    } else {
        assert(count + 1 - component + g - 1 == q * g + (g - (component - c0)))
            by (nonlinear_arith)
            requires
                count == q * g + c0,
        ;
        vstd::arithmetic::div_mod::lemma_fundamental_div_mod_converse(
            count + 1 - component + g - 1,
            g,
            q,
            g - (component - c0),
        );
    }
    vstd::arithmetic::div_mod::lemma_div_pos_is_pos(count, g);
    assert(count - c0 + g - 1 == q * g + (g - 1)) by (nonlinear_arith)
        requires
            count == q * g + c0,
    ;
    vstd::arithmetic::div_mod::lemma_fundamental_div_mod_converse(
        count - c0 + g - 1,
        g,
        q,
        g - 1,
    );
}

/// All the rows of a GGSW ciphertext are all the levels of every component.
pub proof fn lemma_levels_done_all(component: int, levels: int, glwe_size: int)
    requires
        glwe_size >= 1,
        levels >= 0,
        0 <= component < glwe_size,
    ensures
        levels_done(component, levels * glwe_size, glwe_size) == levels,
{
    let g = glwe_size;
    assert(levels * g - component + g - 1 == levels * g + (g - 1 - component));
    vstd::arithmetic::div_mod::lemma_fundamental_div_mod_converse(
        levels * g - component + g - 1,
        g,
        levels,
        g - 1 - component,
    );
}

/// The recomposition of the polynomial of a component of a GLWE ciphertext from the levels
/// of the component among the first `count` rows.
pub open spec fn partial_recomposition(
    glwe: Seq<u64>,
    shape: BootstrapShape,
    component: int,
    count: int,
) -> Seq<int> {
    Seq::new(
        shape.polynomial_size as nat,
        |t: int|
            recomposed(
                glwe[component * shape.polynomial_size + t],
                shape.base_log,
                shape.levels,
                levels_done(component, count, shape.glwe_size) as nat,
            ),
    )
}

/// What the decomposition of the polynomial of a component of a GLWE ciphertext rounds
/// away.
pub open spec fn rounding_polynomial(glwe: Seq<u64>, shape: BootstrapShape, component: int) -> Seq<
    int,
> {
    Seq::new(
        shape.polynomial_size as nat,
        |t: int|
            rounding_error(
                glwe[component * shape.polynomial_size + t],
                shape.base_log,
                shape.levels,
            ),
    )
}

/// The local row of index `row` of the GGSW ciphertext of index `step` of a list, as a row
/// of the list.
pub open spec fn row_of_step(shape: GgswShape, step: int, row: int) -> int {
    step * shape.rows() + row
}

/// The sum, over the first `count` rows of the GGSW ciphertext of a step, of the product of
/// the digits of the row and of the plaintext of the row.
pub open spec fn signal_products(
    glwe_key: Seq<u64>,
    shape: GgswShape,
    glwe: Seq<u64>,
    bit: int,
    count: int,
) -> Seq<int>
    decreases count,
{
    if count <= 0 {
        poly_zero(shape.polynomial_size as nat)
    } else {
        poly_sum(
            signal_products(glwe_key, shape, glwe, bit, count - 1),
            product(
                signed_digits_polynomial(glwe, bootstrap_shape_of(shape), count - 1),
                row_plaintext(
                    glwe_key,
                    shape,
                    bit,
                    (count - 1) / (shape.glwe_dimension + 1) + 1,
                    (count - 1) % (shape.glwe_dimension + 1),
                ),
            ),
        )
    }
}

/// The sum, over the first `count` rows of the GGSW ciphertext of a step, of the product of
/// the digits of the row and of the noise of the row.
pub open spec fn noise_products(
    generator: EncryptionRandomGenerator,
    shape: GgswShape,
    glwe: Seq<u64>,
    step: int,
    count: int,
) -> Seq<int>
    decreases count,
{
    if count <= 0 {
        poly_zero(shape.polynomial_size as nat)
    } else {
        poly_sum(
            noise_products(generator, shape, glwe, step, count - 1),
            product(
                signed_digits_polynomial(glwe, bootstrap_shape_of(shape), count - 1),
                row_draws(generator, shape, row_of_step(shape, step, count - 1)),
            ),
        )
    }
}

/// The sizes of the sums over the rows.
pub proof fn lemma_products_len(
    generator: EncryptionRandomGenerator,
    glwe_key: Seq<u64>,
    shape: GgswShape,
    glwe: Seq<u64>,
    bit: int,
    step: int,
    count: int,
)
    requires
        shape.polynomial_size >= 0,
    ensures
        signal_products(glwe_key, shape, glwe, bit, count).len() == shape.polynomial_size,
        noise_products(generator, shape, glwe, step, count).len() == shape.polynomial_size,
    decreases count,
{
    if count > 0 {
        lemma_products_len(generator, glwe_key, shape, glwe, bit, step, count - 1);
    }
}

/// The digits of a row are balanced.
pub proof fn lemma_signed_digits_bounded(glwe: Seq<u64>, shape: BootstrapShape, row: int)
    requires
        is_valid_gadget(shape.base_log as int, shape.levels as int),
        shape.glwe_size >= 1,
        0 <= row < shape.rows(),
    ensures
        is_bounded(signed_digits_polynomial(glwe, shape, row), pow2(shape.base_log) as int / 2),
        signed_digits_polynomial(glwe, shape, row).len() == shape.polynomial_size as nat,
{
    let digits = signed_digits_polynomial(glwe, shape, row);
    let g = shape.glwe_size;
    assert(shape.levels * g == g * shape.levels) by (nonlinear_arith);
    vstd::arithmetic::div_mod::lemma_multiply_divide_lt(row, g, shape.levels as int);
    vstd::arithmetic::div_mod::lemma_div_pos_is_pos(row, g);
    assert forall|t: int| 0 <= t < digits.len() implies -(pow2(shape.base_log) as int / 2)
        <= #[trigger] digits[t] <= pow2(shape.base_log) as int / 2 by {
        lemma_signed_digit_range(
            glwe[(row % g) * shape.polynomial_size + t],
            shape.base_log,
            shape.levels,
            (row / g + 1) as nat,
        );
    }
}

/// The noise of the rows of a step, each times its digits, stays within `N` times half the
/// base times three standard deviations for each row.
pub proof fn lemma_noise_products_bounded(
    generator: EncryptionRandomGenerator,
    shape: GgswShape,
    glwe: Seq<u64>,
    step: int,
    count: int,
)
    requires
        is_valid_gadget(shape.base_log as int, shape.levels as int),
        shape.polynomial_size >= 1,
        shape.glwe_dimension >= 0,
        shape.std.0 <= 0x7fff_ffff_ffff_ffff,
        0 <= count <= shape.rows(),
    ensures
        is_bounded(
            noise_products(generator, shape, glwe, step, count),
            count * (shape.polynomial_size * ((pow2(shape.base_log) / 2) * (3 * shape.std.0))),
        ),
    decreases count,
{
    let n = shape.polynomial_size;
    let half = pow2(shape.base_log) as int / 2;
    let unit = n * (half * (3 * shape.std.0));
    let all = noise_products(generator, shape, glwe, step, count);
    lemma_products_len(generator, Seq::empty(), shape, glwe, 0, step, count);
    if count > 0 {
        let row = count - 1;
        lemma_noise_products_bounded(generator, shape, glwe, step, row);
        lemma_products_len(generator, Seq::empty(), shape, glwe, 0, step, row);
        let digits = signed_digits_polynomial(glwe, bootstrap_shape_of(shape), row);
        let draws = row_draws(generator, shape, row_of_step(shape, step, row));
        lemma_signed_digits_bounded(glwe, bootstrap_shape_of(shape), row);
        lemma_row_draws_bounded(generator, shape, row_of_step(shape, step, row));
        vstd::arithmetic::power2::lemma_pow2_pos(shape.base_log);
        lemma_product_bounded(digits, draws, half, 3 * shape.std.0);
        let before = noise_products(generator, shape, glwe, step, row);
        let added = product(digits, draws);
        assert(count * unit == row * unit + unit) by (nonlinear_arith)
            requires
                row == count - 1,
        ;
        assert forall|t: int| 0 <= t < all.len() implies -(count * unit) <= #[trigger] all[t]
            <= count * unit by {
            assert(-(row * unit) <= before[t] <= row * unit);
            assert(-unit <= added[t] <= unit);
        }
    } else {
        assert(count * unit == 0) by (nonlinear_arith)
            requires
                count == 0,
        ;
    }
}

/// The phase of a family that is zero but for one polynomial: the polynomial itself if it is
/// the body, and else minus its product with the polynomial of the key of its component.
pub proof fn lemma_phase_of_single(
    family: spec_fn(int) -> Seq<int>,
    key: Seq<u64>,
    size: int,
    dimension: int,
    component: int,
)
    requires
        is_glwe_key(key, size, dimension),
        0 <= component <= dimension,
        (#[trigger] family(component)).len() == size,
        forall|c: int|
            0 <= c <= dimension && c != component ==> #[trigger] family(c) == poly_zero(
                size as nat,
            ),
    ensures
        component == dimension ==> phase_of(family, key, size, dimension) == family(component),
        component < dimension ==> phase_of(family, key, size, dimension) == poly_scaled(
            product(family(component), ints(polynomial_of(key, component, size))),
            -1,
        ),
{
    let zero = poly_zero(size as nat);
    lemma_products_of_single(family, key, size, dimension, component, dimension);
    if component == dimension {
        assert(poly_difference(family(component), zero) =~= family(component));
    } else {
        let x = product(family(component), ints(polynomial_of(key, component, size)));
        assert(family(dimension) == zero);
        assert forall|t: int| 0 <= t < size implies poly_difference(zero, x)[t] == poly_scaled(
            x,
            -1,
        )[t] by {}
        assert(poly_difference(zero, x) =~= poly_scaled(x, -1));
    }
}

/// The products with a key of a family that is zero but for one polynomial.
pub proof fn lemma_products_of_single(
    family: spec_fn(int) -> Seq<int>,
    key: Seq<u64>,
    size: int,
    dimension: int,
    component: int,
    count: int,
)
    requires
        is_glwe_key(key, size, dimension),
        0 <= component <= dimension,
        0 <= count <= dimension,
        (#[trigger] family(component)).len() == size,
        forall|c: int|
            0 <= c <= dimension && c != component ==> #[trigger] family(c) == poly_zero(
                size as nat,
            ),
    ensures
        count <= component ==> key_products(family, key, size, count) == poly_zero(size as nat),
        count > component ==> key_products(family, key, size, count) == product(
            family(component),
            ints(polynomial_of(key, component, size)),
        ),
    decreases count,
{
    let zero = poly_zero(size as nat);
    if count > 0 {
        lemma_products_of_single(family, key, size, dimension, component, count - 1);
        let c = count - 1;
        let s = ints(polynomial_of(key, c, size));
        lemma_polynomial_of_len(key, c, dimension, size);
        if c == component {
            assert(poly_sum(zero, product(family(c), s)) =~= product(family(c), s));
        } else {
            assert(family(c) == zero);
            assert forall|t: int| 0 <= t < size implies product(zero, s)[t] == 0 by {
                let terms = |i: int|
                    crate::core_crypto::algorithms::polynomial_ring::product_term(zero, s, t, i);
                assert forall|i: int| 0 <= i < size implies #[trigger] terms(i) == 0 by {
                    assert(0 * crate::core_crypto::algorithms::polynomial_ring::coefficient(
                        s,
                        t - i,
                    ) == 0) by (nonlinear_arith);
                }
                crate::core_crypto::commons::sums::lemma_sum_of_zeros(terms, size);
            }
            if c < component {
                assert(poly_sum(zero, product(zero, s)) =~= zero);
            } else {
                let x = product(family(component), ints(polynomial_of(key, component, size)));
                assert(poly_sum(x, product(zero, s)) =~= x);
            }
        }
    }
}

/// The products of the digits and of the plaintexts of the first `count` rows of a GGSW
/// ciphertext are the bit of the ciphertext times the phase of the recompositions of the
/// polynomials from these rows.
pub proof fn lemma_signal_products(
    recompositions: spec_fn(int) -> Seq<int>,
    glwe_key: Seq<u64>,
    shape: GgswShape,
    glwe: Seq<u64>,
    bit: int,
    count: int,
)
    requires
        is_glwe_key(glwe_key, shape.polynomial_size, shape.glwe_dimension),
        is_valid_gadget(shape.base_log as int, shape.levels as int),
        0 <= count <= shape.rows(),
        forall|c: int|
            0 <= c <= shape.glwe_dimension ==> #[trigger] recompositions(c)
                == partial_recomposition(glwe, bootstrap_shape_of(shape), c, count),
    ensures
        signal_products(glwe_key, shape, glwe, bit, count) == poly_scaled(
            phase_of(recompositions, glwe_key, shape.polynomial_size, shape.glwe_dimension),
            bit,
        ),
    decreases count,
{
    let n = shape.polynomial_size;
    let k = shape.glwe_dimension;
    let g = k + 1;
    let bshape = bootstrap_shape_of(shape);
    let zero = poly_zero(n as nat);
    if count == 0 {
        assert forall|c: int| 0 <= c <= k implies #[trigger] recompositions(c) == zero by {
            lemma_levels_done_step(0, c, g);
            assert(levels_done(c, 0, g) == 0) by {
                vstd::arithmetic::div_mod::lemma_basic_div(0 - c + g - 1, g);
            }
            assert(recompositions(c) =~= zero);
        }
        lemma_zero_family_products(recompositions, glwe_key, n, k, k);
        assert(poly_difference(zero, zero) =~= zero);
        assert forall|t: int| 0 <= t < n implies poly_scaled(zero, bit)[t] == zero[t] by {
            assert(bit * 0 == 0) by (nonlinear_arith);
        }
        assert(poly_scaled(zero, bit) =~= zero);
    } else {
        let row = count - 1;
        let before = |c: int| partial_recomposition(glwe, bshape, c, row);
        lemma_signal_products(before, glwe_key, shape, glwe, bit, row);
        let c0 = row % g;
        let level = row / g + 1;
        vstd::arithmetic::div_mod::lemma_mod_bound(row, g);
        assert(shape.levels * g == g * shape.levels) by (nonlinear_arith);
        vstd::arithmetic::div_mod::lemma_multiply_divide_lt(row, g, shape.levels as int);
        vstd::arithmetic::div_mod::lemma_div_pos_is_pos(row, g);
        lemma_gadget_exponents(shape.base_log as int, shape.levels as int, level);
        let w = pow2((64 - shape.base_log * level) as nat) as int;
        let digits = signed_digits_polynomial(glwe, bshape, row);
        let weighted = poly_scaled(digits, w);
        let added = |c: int|
            if c == c0 {
                weighted
            } else {
                zero
            };
        assert forall|c: int| 0 <= c <= k implies #[trigger] recompositions(c) == poly_sum(
            before(c),
            added(c),
        ) by {
            lemma_levels_done_step(row, c, g);
            if c == c0 {
                assert forall|t: int| 0 <= t < n implies recompositions(c)[t] == before(c)[t]
                    + weighted[t] by {
                    let x = glwe[c * n + t];
                    assert(recomposed(x, shape.base_log, shape.levels, level as nat) == recomposed(
                        x,
                        shape.base_log,
                        shape.levels,
                        (level - 1) as nat,
                    ) + signed_digit(x, shape.base_log, shape.levels, level as nat) * w);
                    assert(digits[t] == signed_digit(
                        x,
                        shape.base_log,
                        shape.levels,
                        level as nat,
                    ));
                    assert(digits[t] * w == w * digits[t]) by (nonlinear_arith);
                }
                assert(recompositions(c) =~= poly_sum(before(c), added(c)));
            } else {
                assert(recompositions(c) =~= poly_sum(before(c), added(c)));
            }
        }
        assert(is_family(before, n, k));
        assert(is_family(added, n, k));
        lemma_phase_linear(recompositions, before, added, glwe_key, n, k, 0, 0);
        lemma_phase_of_single(added, glwe_key, n, k, c0);
        let plaintext = row_plaintext(glwe_key, shape, bit, level, c0);
        let single = phase_of(added, glwe_key, n, k);
        // the product of the digits and of the plaintext is the bit times the phase added
        if c0 < k {
            let s = ints(polynomial_of(glwe_key, c0, n));
            lemma_polynomial_of_len(glwe_key, c0, k, n);
            lemma_product_linear_right(digits, s, s, -(bit * w));
            lemma_product_linear_left(digits, digits, s, w);
            let p = product(digits, s);
            assert forall|t: int| 0 <= t < n implies poly_scaled(p, -(bit * w))[t] == poly_scaled(
                single,
                bit,
            )[t] by {
                assert((-(bit * w)) * p[t] == bit * ((-1) * (w * p[t]))) by (nonlinear_arith);
            }
            assert(product(digits, plaintext) =~= poly_scaled(single, bit));
        } else {
            lemma_product_with_constant(digits, bit * w);
            assert forall|t: int| 0 <= t < n implies poly_scaled(digits, bit * w)[t]
                == poly_scaled(single, bit)[t] by {
                assert((bit * w) * digits[t] == bit * (w * digits[t])) by (nonlinear_arith);
            }
            assert(product(digits, plaintext) =~= poly_scaled(single, bit));
        }
        let phase_before = phase_of(before, glwe_key, n, k);
        lemma_key_products_len(before, glwe_key, n, k);
        lemma_key_products_len(added, glwe_key, n, k);
        assert forall|t: int| 0 <= t < n implies poly_sum(
            poly_scaled(phase_before, bit),
            poly_scaled(single, bit),
        )[t] == poly_scaled(poly_sum(phase_before, single), bit)[t] by {
            assert(bit * phase_before[t] + bit * single[t] == bit * (phase_before[t] + single[t]))
                by (nonlinear_arith);
        }
        assert(poly_sum(poly_scaled(phase_before, bit), poly_scaled(single, bit)) =~= poly_scaled(
            poly_sum(phase_before, single),
            bit,
        ));
    }
}

/// Whether a list of GGSW ciphertexts, a key and a shape fit each other, with a binary key
/// and a noise that can be bounded.
pub open spec fn is_bootstrap_setting(
    shape: GgswShape,
    input_key: Seq<u64>,
    glwe_key: Seq<u64>,
) -> bool {
    &&& is_glwe_key(glwe_key, shape.polynomial_size, shape.glwe_dimension)
    &&& is_valid_gadget(shape.base_log as int, shape.levels as int)
    &&& shape.std.0 <= 0x7fff_ffff_ffff_ffff
    &&& is_binary(input_key)
    &&& is_binary(glwe_key)
}

/// The GGSW ciphertext of index `step` of a list.
pub open spec fn ggsw_of_step(
    generator: EncryptionRandomGenerator,
    shape: GgswShape,
    input_key: Seq<u64>,
    glwe_key: Seq<u64>,
    step: int,
) -> Seq<u64> {
    polynomial_of(
        ggsw_list(generator, shape, input_key, glwe_key, true),
        step,
        bootstrap_shape_of(shape).ggsw_len(),
    )
}

/// The rows of the GGSW ciphertext of a step are rows of the list, for the bit of the step.
pub proof fn lemma_rows_of_step(
    generator: EncryptionRandomGenerator,
    shape: GgswShape,
    input_key: Seq<u64>,
    glwe_key: Seq<u64>,
    step: int,
    row: int,
)
    requires
        is_bootstrap_setting(shape, input_key, glwe_key),
        0 <= step < input_key.len(),
        0 <= row < shape.rows(),
    ensures
        ggsw_row(
            ggsw_of_step(generator, shape, input_key, glwe_key, step),
            bootstrap_shape_of(shape),
            row,
        ) == ggsw_list_row(
            generator,
            shape,
            input_key,
            glwe_key,
            true,
            row_of_step(shape, step, row),
        ),
        ggsw_of_step(generator, shape, input_key, glwe_key, step).len() == bootstrap_shape_of(
            shape,
        ).ggsw_len(),
        row_input(row_of_step(shape, step, row), shape.glwe_dimension + 1, shape.levels as int)
            == step,
        row_level(row_of_step(shape, step, row), shape.glwe_dimension + 1, shape.levels as int)
            == row / (shape.glwe_dimension + 1) + 1,
        row_component(row_of_step(shape, step, row), shape.glwe_dimension + 1) == row % (
        shape.glwe_dimension + 1),
        0 <= row_of_step(shape, step, row) < input_key.len() * shape.rows(),
{
    let n = shape.polynomial_size;
    let g = shape.glwe_dimension + 1;
    let levels = shape.levels as int;
    let rows = shape.rows();
    let bshape = bootstrap_shape_of(shape);
    let list = ggsw_list(generator, shape, input_key, glwe_key, true);
    let count = input_key.len() as int;
    lemma_shape_sizes(bshape);
    lemma_ggsw_list_len(generator, shape, input_key, glwe_key, true);
    assert(shape.mask_size() + n == g * n) by (nonlinear_arith)
        requires
            shape.mask_size() == shape.glwe_dimension * n,
            g == shape.glwe_dimension + 1,
    ;
    assert(rows == bshape.rows());
    assert((count * rows) * (g * n) == count * bshape.ggsw_len()) by (nonlinear_arith)
        requires
            bshape.ggsw_len() == rows * (g * n),
    ;
    lemma_polynomial_bounds(step, count, bshape.ggsw_len());
    let global = step * rows + row;
    assert(0 <= global < count * rows) by (nonlinear_arith)
        requires
            0 <= step < count,
            0 <= row < rows,
            global == step * rows + row,
    ;
    lemma_polynomial_bounds(row, rows, g * n);
    lemma_polynomial_bounds(global, count * rows, g * n);
    assert(global * (g * n) == step * bshape.ggsw_len() + row * (g * n)) by (nonlinear_arith)
        requires
            global == step * rows + row,
            bshape.ggsw_len() == rows * (g * n),
    ;
    let ggsw = ggsw_of_step(generator, shape, input_key, glwe_key, step);
    assert(ggsw_row(ggsw, bshape, row) =~= polynomial_of(list, global, g * n));
    // the rows of the list
    let f = |row: int| ggsw_list_row(generator, shape, input_key, glwe_key, true, row);
    assert forall|r: int| 0 <= r < count * rows implies (#[trigger] f(r)).len() == g * n by {
        let glwe_size = shape.glwe_dimension + 1;
        crate::core_crypto::algorithms::lwe_bootstrap_key_generation::lemma_glwe_body_len(
            glwe_key,
            crate::core_crypto::algorithms::ggsw_encryption::ggsw_list_row_mask(
                generator,
                shape,
                r,
            ),
            crate::core_crypto::algorithms::ggsw_encryption::ggsw_plaintext(
                glwe_key,
                shape.polynomial_size,
                crate::core_crypto::commons::numeric::torus(
                    input_key[row_input(r, glwe_size, shape.levels as int)]
                        * crate::core_crypto::algorithms::decomposition::gadget_weight(
                        shape.base_log,
                        row_level(r, glwe_size, shape.levels as int) as nat,
                    ),
                ),
                row_component(r, glwe_size),
                shape.glwe_dimension,
            ),
            crate::core_crypto::algorithms::ggsw_encryption::noise_polynomial(
                crate::core_crypto::algorithms::ggsw_encryption::generator_of_row(
                    generator,
                    shape,
                    r,
                ),
                shape.polynomial_size,
                shape.std,
            ),
            shape.polynomial_size,
            shape.glwe_dimension,
        );
    }
    lemma_concat_polynomials(f, count * rows, g * n);
    assert(polynomial_of(list, global, g * n) == f(global));
    // the indices of the row
    vstd::arithmetic::div_mod::lemma_mod_bound(row, g);
    vstd::arithmetic::div_mod::lemma_fundamental_div_mod(row, g);
    let q = row / g;
    let c = row % g;
    assert(rows == levels * g);
    assert(levels * g == g * levels) by (nonlinear_arith);
    vstd::arithmetic::div_mod::lemma_multiply_divide_lt(row, g, levels);
    vstd::arithmetic::div_mod::lemma_div_pos_is_pos(row, g);
    assert(global == (step * levels + q) * g + c) by (nonlinear_arith)
        requires
            global == step * rows + row,
            rows == levels * g,
            row == g * q + c,
    ;
    vstd::arithmetic::div_mod::lemma_fundamental_div_mod_converse(
        global,
        g,
        step * levels + q,
        c,
    );
    vstd::arithmetic::div_mod::lemma_fundamental_div_mod_converse(
        step * levels + q,
        levels,
        step,
        q,
    );
}

/// The products of the digits and of the phases of the first `count` rows of the GGSW
/// ciphertext of a step are the products with the plaintexts plus the products with the
/// noise.
pub proof fn lemma_row_products_of_step(
    generator: EncryptionRandomGenerator,
    shape: GgswShape,
    input_key: Seq<u64>,
    glwe_key: Seq<u64>,
    glwe: Seq<u64>,
    step: int,
    count: int,
)
    requires
        is_bootstrap_setting(shape, input_key, glwe_key),
        0 <= step < input_key.len(),
        0 <= count <= shape.rows(),
    ensures
        poly_congruent(
            row_products(
                ggsw_of_step(generator, shape, input_key, glwe_key, step),
                glwe,
                glwe_key,
                bootstrap_shape_of(shape),
                count,
            ),
            poly_sum(
                signal_products(glwe_key, shape, glwe, input_key[step] as int, count),
                noise_products(generator, shape, glwe, step, count),
            ),
        ),
    decreases count,
{
    let n = shape.polynomial_size;
    let k = shape.glwe_dimension;
    let bshape = bootstrap_shape_of(shape);
    let ggsw = ggsw_of_step(generator, shape, input_key, glwe_key, step);
    let bit = input_key[step] as int;
    let zero = poly_zero(n as nat);
    lemma_products_len(generator, glwe_key, shape, glwe, bit, step, count);
    if count == 0 {
        assert(poly_sum(zero, zero) =~= zero);
        lemma_poly_congruent_equivalence(zero, zero, zero);
    } else {
        let row = count - 1;
        lemma_row_products_of_step(generator, shape, input_key, glwe_key, glwe, step, row);
        lemma_products_len(generator, glwe_key, shape, glwe, bit, step, row);
        lemma_rows_of_step(generator, shape, input_key, glwe_key, step, row);
        let global = row_of_step(shape, step, row);
        lemma_phase_of_ggsw_row(generator, shape, input_key, glwe_key, global);
        let digits = signed_digits_polynomial(glwe, bshape, row);
        lemma_signed_digits_bounded(glwe, bshape, row);
        let plaintext = row_plaintext(
            glwe_key,
            shape,
            bit,
            row / (k + 1) + 1,
            row % (k + 1),
        );
        let draws = row_draws(generator, shape, global);
        lemma_row_draws_bounded(generator, shape, global);
        let row_phase = glwe_phase(ggsw_row(ggsw, bshape, row), glwe_key, n, k);
        lemma_poly_congruent_equivalence(digits, digits, digits);
        vstd::arithmetic::div_mod::lemma_mod_bound(row, k + 1);
        assert(shape.levels * (k + 1) == (k + 1) * shape.levels) by (nonlinear_arith);
        vstd::arithmetic::div_mod::lemma_multiply_divide_lt(row, k + 1, shape.levels as int);
        vstd::arithmetic::div_mod::lemma_div_pos_is_pos(row, k + 1);
        crate::core_crypto::algorithms::ggsw_phase::lemma_ggsw_plaintext_is_row_plaintext(
            glwe_key,
            shape,
            input_key[step],
            row / (k + 1) + 1,
            row % (k + 1),
        );
        lemma_key_products_len(family_of(ggsw_row(ggsw, bshape, row), n), glwe_key, n, k);
        lemma_polynomial_of_row(ggsw, bshape, row, k);
        assert(family_of(ggsw_row(ggsw, bshape, row), n)(k).len() == n);
        assert(row_phase.len() == digits.len());
        lemma_poly_congruent_ops(digits, digits, row_phase, poly_sum(plaintext, draws), 0, 0);
        lemma_product_linear_right(digits, plaintext, draws, 0);
        let before = row_products(ggsw, glwe, glwe_key, bshape, row);
        let signal_before = signal_products(glwe_key, shape, glwe, bit, row);
        let noise_before = noise_products(generator, shape, glwe, step, row);
        lemma_row_products_len(ggsw, glwe, glwe_key, bshape, row);
        lemma_poly_congruent_ops(
            before,
            poly_sum(signal_before, noise_before),
            product(digits, row_phase),
            poly_sum(product(digits, plaintext), product(digits, draws)),
            0,
            0,
        );
        assert(poly_sum(
            poly_sum(signal_before, noise_before),
            poly_sum(product(digits, plaintext), product(digits, draws)),
        ) =~= poly_sum(
            poly_sum(signal_before, product(digits, plaintext)),
            poly_sum(noise_before, product(digits, draws)),
        ));
    }
}

/// The sums of the products of the rows have the size of the polynomials.
pub proof fn lemma_row_products_len(
    ggsw: Seq<u64>,
    glwe: Seq<u64>,
    key: Seq<u64>,
    shape: BootstrapShape,
    count: int,
)
    requires
        shape.polynomial_size >= 0,
    ensures
        row_products(ggsw, glwe, key, shape, count).len() == shape.polynomial_size,
    decreases count,
{
    if count > 0 {
        lemma_row_products_len(ggsw, glwe, key, shape, count - 1);
    }
}

/// The phase of what the decompositions of the polynomials of a GLWE ciphertext round away.
pub open spec fn rounding_phase(glwe: Seq<u64>, glwe_key: Seq<u64>, shape: GgswShape) -> Seq<int> {
    phase_of(
        |c: int| rounding_polynomial(glwe, bootstrap_shape_of(shape), c),
        glwe_key,
        shape.polynomial_size,
        shape.glwe_dimension,
    )
}

/// The bound of the phase of what the decompositions round away: half a rounding unit, once
/// for the body and `N` times for each polynomial of the mask.
pub open spec fn rounding_phase_bound(shape: GgswShape) -> int {
    (shape.glwe_dimension * shape.polynomial_size + 1) * (pow2(
        (64 - shape.base_log * shape.levels) as nat,
    ) / 2)
}

/// The products with a binary key of a family of polynomials within a bound stay within `N`
/// times the bound for each polynomial.
pub proof fn lemma_key_products_bounded(
    family: spec_fn(int) -> Seq<int>,
    key: Seq<u64>,
    size: int,
    dimension: int,
    count: int,
    bound: int,
)
    requires
        is_glwe_key(key, size, dimension),
        is_binary(key),
        0 <= count <= dimension,
        bound >= 0,
        forall|c: int|
            0 <= c <= dimension ==> (#[trigger] family(c)).len() == size && is_bounded(
                family(c),
                bound,
            ),
    ensures
        is_bounded(key_products(family, key, size, count), count * (size * bound)),
    decreases count,
{
    lemma_key_products_len(family, key, size, count);
    let all = key_products(family, key, size, count);
    if count > 0 {
        let c = count - 1;
        lemma_key_products_bounded(family, key, size, dimension, c, bound);
        lemma_key_products_len(family, key, size, c);
        let s = ints(polynomial_of(key, c, size));
        lemma_polynomial_of_len(key, c, dimension, size);
        lemma_polynomial_bounds(c, dimension, size);
        assert forall|t: int| 0 <= t < s.len() implies -1 <= #[trigger] s[t] <= 1 by {
            assert(polynomial_of(key, c, size)[t] == key[c * size + t]);
        }
        assert(family(c).len() == size && is_bounded(family(c), bound));
        lemma_product_bounded(family(c), s, bound, 1);
        let before = key_products(family, key, size, c);
        let added = product(family(c), s);
        assert(count * (size * bound) == c * (size * bound) + size * (bound * 1))
            by (nonlinear_arith)
            requires
                c == count - 1,
        ;
        assert forall|t: int| 0 <= t < all.len() implies -(count * (size * bound))
            <= #[trigger] all[t] <= count * (size * bound) by {
            assert(-(c * (size * bound)) <= before[t] <= c * (size * bound));
            assert(-(size * (bound * 1)) <= added[t] <= size * (bound * 1));
        }
    } else {
        assert(count * (size * bound) == 0) by (nonlinear_arith)
            requires
                count == 0,
        ;
    }
}

/// The phase of what the decompositions round away stays within its bound.
pub proof fn lemma_rounding_phase_bounded(glwe: Seq<u64>, glwe_key: Seq<u64>, shape: GgswShape)
    requires
        is_glwe_key(glwe_key, shape.polynomial_size, shape.glwe_dimension),
        is_valid_gadget(shape.base_log as int, shape.levels as int),
        is_binary(glwe_key),
    ensures
        is_bounded(rounding_phase(glwe, glwe_key, shape), rounding_phase_bound(shape)),
        rounding_phase(glwe, glwe_key, shape).len() == shape.polynomial_size,
{
    let n = shape.polynomial_size;
    let k = shape.glwe_dimension;
    let bshape = bootstrap_shape_of(shape);
    let family = |c: int| rounding_polynomial(glwe, bootstrap_shape_of(shape), c);
    let half = pow2((64 - shape.base_log * shape.levels) as nat) as int / 2;
    assert forall|c: int| 0 <= c <= k implies (#[trigger] family(c)).len() == n && is_bounded(
        family(c),
        half,
    ) by {
        assert forall|t: int| 0 <= t < family(c).len() implies -half <= #[trigger] family(c)[t]
            <= half by {
            lemma_rounding_error_range(glwe[c * n + t], shape.base_log, shape.levels);
        }
    }
    lemma_key_products_bounded(family, glwe_key, n, k, k, half);
    lemma_key_products_len(family, glwe_key, n, k);
    let products = key_products(family, glwe_key, n, k);
    let all = rounding_phase(glwe, glwe_key, shape);
    assert((k * n + 1) * half == half + k * (n * half)) by (nonlinear_arith);
    assert forall|t: int| 0 <= t < all.len() implies -rounding_phase_bound(shape)
        <= #[trigger] all[t] <= rounding_phase_bound(shape) by {
        assert(-(k * (n * half)) <= products[t] <= k * (n * half));
        assert(-half <= family(k)[t] <= half);
    }
}

/// The recomposition of a polynomial of a GLWE ciphertext from all the rows stands for the
/// polynomial plus what its decomposition rounds away.
pub proof fn lemma_recomposition_of_all_rows(glwe: Seq<u64>, shape: GgswShape, component: int)
    requires
        is_valid_gadget(shape.base_log as int, shape.levels as int),
        shape.polynomial_size >= 1,
        shape.glwe_dimension >= 0,
        glwe.len() == (shape.glwe_dimension + 1) * shape.polynomial_size,
        0 <= component <= shape.glwe_dimension,
    ensures
        poly_congruent(
            partial_recomposition(glwe, bootstrap_shape_of(shape), component, shape.rows()),
            poly_sum(
                family_of(glwe, shape.polynomial_size)(component),
                rounding_polynomial(glwe, bootstrap_shape_of(shape), component),
            ),
        ),
{
    reveal(poly_congruent);
    let n = shape.polynomial_size;
    let g = shape.glwe_dimension + 1;
    let recomposition = partial_recomposition(
        glwe,
        bootstrap_shape_of(shape),
        component,
        shape.rows(),
    );
    let exact = poly_sum(
        family_of(glwe, n)(component),
        rounding_polynomial(glwe, bootstrap_shape_of(shape), component),
    );
    lemma_levels_done_all(component, shape.levels as int, g);
    lemma_polynomial_of_len(glwe, component, g, n);
    lemma_polynomial_bounds(component, g, n);
    assert forall|t: int| 0 <= t < n implies congruent(#[trigger] recomposition[t], exact[t]) by {
        let x = glwe[component * n + t];
        lemma_recomposition(x, shape.base_log, shape.levels);
        assert(polynomial_of(glwe, component, n)[t] == x);
    }
}

/// The products of the digits and of the plaintexts of all the rows of a GGSW ciphertext
/// are the bit of the ciphertext times the phase of the GLWE ciphertext, plus the phase of
/// what the decompositions round away.
pub proof fn lemma_signal_of_all_rows(
    glwe_key: Seq<u64>,
    shape: GgswShape,
    glwe: Seq<u64>,
    bit: int,
)
    requires
        is_glwe_key(glwe_key, shape.polynomial_size, shape.glwe_dimension),
        is_valid_gadget(shape.base_log as int, shape.levels as int),
        glwe.len() == (shape.glwe_dimension + 1) * shape.polynomial_size,
    ensures
        poly_congruent(
            signal_products(glwe_key, shape, glwe, bit, shape.rows()),
            poly_scaled(
                poly_sum(
                    glwe_phase(glwe, glwe_key, shape.polynomial_size, shape.glwe_dimension),
                    rounding_phase(glwe, glwe_key, shape),
                ),
                bit,
            ),
        ),
{
    let n = shape.polynomial_size;
    let k = shape.glwe_dimension;
    let g = k + 1;
    let bshape = bootstrap_shape_of(shape);
    let rows = shape.rows();
    assert(rows >= 0) by (nonlinear_arith)
        requires
            rows == shape.levels * (k + 1),
            k >= 0,
    ;
    let recompositions = |c: int| partial_recomposition(glwe, bshape, c, rows);
    lemma_signal_products(recompositions, glwe_key, shape, glwe, bit, rows);
    let family = family_of(glwe, n);
    let roundings = |c: int| rounding_polynomial(glwe, bootstrap_shape_of(shape), c);
    let exact = |c: int| poly_sum(family(c), roundings(c));
    assert forall|c: int| 0 <= c <= k implies poly_congruent(
        #[trigger] recompositions(c),
        exact(c),
    ) by {
        lemma_recomposition_of_all_rows(glwe, shape, c);
    }
    assert(is_family(recompositions, n, k));
    lemma_phase_congruent(recompositions, exact, glwe_key, n, k);
    assert forall|c: int| 0 <= c <= k implies (#[trigger] family(c)).len() == n by {
        lemma_polynomial_of_len(glwe, c, g, n);
    }
    assert(is_family(roundings, n, k));
    lemma_phase_linear(exact, family, roundings, glwe_key, n, k, 0, 0);
    lemma_key_products_len(recompositions, glwe_key, n, k);
    lemma_key_products_len(exact, glwe_key, n, k);
    lemma_poly_congruent_equivalence(
        phase_of(exact, glwe_key, n, k),
        phase_of(exact, glwe_key, n, k),
        phase_of(exact, glwe_key, n, k),
    );
    assert(recompositions(k).len() == n);
    assert(exact(k).len() == n);
    lemma_poly_congruent_ops(
        phase_of(recompositions, glwe_key, n, k),
        phase_of(exact, glwe_key, n, k),
        phase_of(exact, glwe_key, n, k),
        phase_of(exact, glwe_key, n, k),
        bit,
        0,
    );
}

} // verus!
