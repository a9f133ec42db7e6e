//! The phase of the rows of a GGSW ciphertext.
use crate::core_crypto::algorithms::decomposition::{
    gadget_weight,
    is_valid_gadget,
    lemma_gadget_exponents,
};
use crate::core_crypto::algorithms::ggsw_encryption::{
    generator_of_row,
    ggsw_list_row,
    ggsw_list_row_mask,
    ggsw_plaintext,
    glwe_body,
    noise_polynomial,
    row_component,
    row_input,
    row_level,
    GgswShape,
};
use crate::core_crypto::algorithms::glwe_phase::{
    family_of,
    glwe_phase,
    ints,
    is_glwe_key,
    key_products,
    lemma_key_products_len,
    lemma_negacyclic_product_is_product,
    lemma_poly_congruent_equivalence,
    lemma_poly_congruent_ops,
    lemma_polynomial_of_len,
    lemma_slice_operations_are_poly_operations,
    poly_congruent,
    poly_zero,
};
use crate::core_crypto::algorithms::lwe_bootstrap_key_generation::lemma_glwe_body_len;
use crate::core_crypto::algorithms::polynomial_algorithms::{
    lemma_polynomial_bounds,
    negacyclic_product,
    polynomial_of,
};
use crate::core_crypto::algorithms::polynomial_ring::{
    is_bounded,
    poly_constant,
    poly_difference,
    poly_scaled,
    poly_sum,
    product,
};

use crate::core_crypto::commons::generators::{
    lemma_noise_bounded,
    noise_draw,
    EncryptionRandomGenerator,
};
use crate::core_crypto::commons::numeric::{
    congruent,
    lemma_congruent_ops,
    lemma_congruent_torus,
    torus,
};
use vstd::arithmetic::power2::pow2;
use vstd::prelude::*;

verus! {

/// The products with a key of two families that agree on the polynomials of the products
/// are equal.
pub proof fn lemma_key_products_equal(
    f: spec_fn(int) -> Seq<int>,
    g: spec_fn(int) -> Seq<int>,
    key: Seq<u64>,
    size: int,
    count: int,
)
    requires
        forall|c: int| 0 <= c < count ==> #[trigger] f(c) == g(c),
    ensures
        key_products(f, key, size, count) == key_products(g, key, size, count),
    decreases count,
{
    if count > 0 {
        lemma_key_products_equal(f, g, key, size, count - 1);
        assert(f(count - 1) == g(count - 1));
    }
}

/// The body of a GLWE encryption stands for the plaintext, plus the noise, plus the
/// products of the mask polynomials and of the key polynomials.
pub proof fn lemma_glwe_body_is_sum(
    key: Seq<u64>,
    mask: Seq<u64>,
    plaintext: Seq<u64>,
    noise: Seq<u64>,
    size: int,
    dimension: int,
    count: int,
)
    requires
        is_glwe_key(key, size, dimension),
        mask.len() == dimension * size,
        plaintext.len() == size,
        noise.len() == size,
        0 <= count <= dimension,
    ensures
        poly_congruent(
            ints(glwe_body(key, mask, plaintext, noise, size, count)),
            poly_sum(
                poly_sum(ints(plaintext), ints(noise)),
                key_products(family_of(mask, size), key, size, count),
            ),
        ),
    decreases count,
{
    let family = family_of(mask, size);
    let start = poly_sum(ints(plaintext), ints(noise));
    lemma_key_products_len(family, key, size, count);
    if count == 0 {
        lemma_slice_operations_are_poly_operations(plaintext, noise);
        assert(poly_sum(start, poly_zero(size as nat)) =~= start);
    } else {
        lemma_glwe_body_is_sum(key, mask, plaintext, noise, size, dimension, count - 1);
        lemma_key_products_len(family, key, size, count - 1);
        let before = glwe_body(key, mask, plaintext, noise, size, count - 1);
        lemma_glwe_body_len(key, mask, plaintext, noise, size, count - 1);
        let a = polynomial_of(mask, count - 1, size);
        let s = polynomial_of(key, count - 1, size);
        lemma_polynomial_of_len(mask, count - 1, dimension, size);
        lemma_polynomial_of_len(key, count - 1, dimension, size);
        lemma_negacyclic_product_is_product(a, s);
        lemma_slice_operations_are_poly_operations(before, negacyclic_product(a, s));
        let products_before = key_products(family, key, size, count - 1);
        lemma_poly_congruent_ops(
            ints(before),
            poly_sum(start, products_before),
            ints(negacyclic_product(a, s)),
            product(ints(a), ints(s)),
            0,
            0,
        );
        lemma_poly_congruent_equivalence(
            ints(glwe_body(key, mask, plaintext, noise, size, count)),
            poly_sum(ints(before), ints(negacyclic_product(a, s))),
            poly_sum(poly_sum(start, products_before), product(ints(a), ints(s))),
        );
        assert(family(count - 1) == ints(a));
        assert(poly_sum(poly_sum(start, products_before), product(ints(a), ints(s))) =~= poly_sum(
            start,
            poly_sum(products_before, product(ints(a), ints(s))),
        ));
    }
}

/// The phase of a GLWE encryption is its plaintext plus its noise: the products of the mask
/// and of the key go away.
pub proof fn lemma_phase_of_glwe_encryption(
    key: Seq<u64>,
    mask: Seq<u64>,
    plaintext: Seq<u64>,
    noise: Seq<u64>,
    size: int,
    dimension: int,
)
    requires
        is_glwe_key(key, size, dimension),
        mask.len() == dimension * size,
        plaintext.len() == size,
        noise.len() == size,
    ensures
        poly_congruent(
            glwe_phase(
                mask + glwe_body(key, mask, plaintext, noise, size, dimension),
                key,
                size,
                dimension,
            ),
            poly_sum(ints(plaintext), ints(noise)),
        ),
{
    let body = glwe_body(key, mask, plaintext, noise, size, dimension);
    let row = mask + body;
    lemma_glwe_body_len(key, mask, plaintext, noise, size, dimension);
    lemma_glwe_body_is_sum(key, mask, plaintext, noise, size, dimension, dimension);
    let family = family_of(row, size);
    let mask_family = family_of(mask, size);
    assert forall|c: int| 0 <= c < dimension implies #[trigger] family(c) == mask_family(c) by {
        lemma_polynomial_bounds(c, dimension, size);
        assert(polynomial_of(row, c, size) =~= polynomial_of(mask, c, size));
    }
    lemma_key_products_equal(family, mask_family, key, size, dimension);
    assert((dimension + 1) * size == dimension * size + size) by (nonlinear_arith);
    assert(polynomial_of(row, dimension, size) =~= body);
    let products = key_products(mask_family, key, size, dimension);
    lemma_key_products_len(mask_family, key, size, dimension);
    let start = poly_sum(ints(plaintext), ints(noise));
    lemma_poly_congruent_equivalence(products, products, products);
    lemma_poly_congruent_ops(ints(body), poly_sum(start, products), products, products, 0, 0);
    assert(poly_difference(poly_sum(start, products), products) =~= start);
}

/// The plaintext of a row of a GGSW ciphertext, as an integer polynomial: for a component of
/// the key, the key polynomial times minus the bit and the weight of the level, and for the
/// body, the constant of the bit times the weight.
pub open spec fn row_plaintext(
    glwe_key: Seq<u64>,
    shape: GgswShape,
    bit: int,
    level: int,
    component: int,
) -> Seq<int> {
    let weight = pow2((64 - shape.base_log * level) as nat) as int;
    if component < shape.glwe_dimension {
        poly_scaled(ints(polynomial_of(glwe_key, component, shape.polynomial_size)), -(bit * weight))
    } else {
        poly_constant(bit * weight, shape.polynomial_size as nat)
    }
}

/// The noise of the row of index `row` of the list that a generator gives, as a polynomial
/// of signed integers.
pub open spec fn row_draws(
    generator: EncryptionRandomGenerator,
    shape: GgswShape,
    row: int,
) -> Seq<int> {
    Seq::new(
        shape.polynomial_size as nat,
        |t: int| noise_draw(generator_of_row(generator, shape, row).noise.advanced(3 * t), shape.std),
    )
}

/// The noise of a row stays within three standard deviations.
pub proof fn lemma_row_draws_bounded(
    generator: EncryptionRandomGenerator,
    shape: GgswShape,
    row: int,
)
    requires
        shape.std.0 <= 0x7fff_ffff_ffff_ffff,
    ensures
        is_bounded(row_draws(generator, shape, row), 3 * shape.std.0),
        row_draws(generator, shape, row).len() == shape.polynomial_size as nat,
{
    assert forall|t: int| 0 <= t < row_draws(generator, shape, row).len() implies -(3
        * shape.std.0) <= #[trigger] row_draws(generator, shape, row)[t] <= 3 * shape.std.0 by {
        lemma_noise_bounded(
            generator_of_row(generator, shape, row).noise.advanced(3 * t),
            shape.std,
        );
    }
}

/// The plaintext of a row of a GGSW ciphertext stands for its integer polynomial.
pub proof fn lemma_ggsw_plaintext_is_row_plaintext(
    glwe_key: Seq<u64>,
    shape: GgswShape,
    bit: u64,
    level: int,
    component: int,
)
    requires
        is_glwe_key(glwe_key, shape.polynomial_size, shape.glwe_dimension),
        is_valid_gadget(shape.base_log as int, shape.levels as int),
        1 <= level <= shape.levels,
        0 <= component <= shape.glwe_dimension,
    ensures
        poly_congruent(
            ints(
                ggsw_plaintext(
                    glwe_key,
                    shape.polynomial_size,
                    torus(bit * gadget_weight(shape.base_log, level as nat)),
                    component,
                    shape.glwe_dimension,
                ),
            ),
            row_plaintext(glwe_key, shape, bit as int, level, component),
        ),
        row_plaintext(glwe_key, shape, bit as int, level, component).len()
            == shape.polynomial_size,
{
    reveal(poly_congruent);
    let size = shape.polynomial_size;
    let dimension = shape.glwe_dimension;
    lemma_gadget_exponents(shape.base_log as int, shape.levels as int, level);
    vstd::bits::lemma_u64_pow2_no_overflow((64 - shape.base_log * level) as nat);
    let weight = gadget_weight(shape.base_log, level as nat);
    let w = pow2((64 - shape.base_log * level) as nat) as int;
    assert(weight == w);
    let factor = torus(bit * weight);
    let plaintext = ggsw_plaintext(glwe_key, size, factor, component, dimension);
    let exact = row_plaintext(glwe_key, shape, bit as int, level, component);
    lemma_congruent_torus(bit * weight);
    if component < dimension {
        lemma_polynomial_of_len(glwe_key, component, dimension, size);
        lemma_polynomial_bounds(component, dimension, size);
        assert(exact.len() == size);
        assert forall|t: int| 0 <= t < size implies congruent(
            #[trigger] ints(plaintext)[t],
            exact[t],
        ) by {
            let s = glwe_key[component * size + t];
            assert(polynomial_of(glwe_key, component, size)[t] == s);
            assert(exact[t] == (-(bit * w)) * s);
            assert(ints(plaintext)[t] == torus(-(factor * s)));
            lemma_congruent_torus(-(factor * s));
            lemma_congruent_ops(factor as int, bit * w, s as int, s as int);
            lemma_congruent_ops(0, 0, factor * s, (bit * w) * s);
            assert(0 - (bit * w) * s == (-(bit * w)) * s) by (nonlinear_arith);
        }
    } else {
        assert(exact.len() == size);
        assert forall|t: int| 0 <= t < size implies congruent(
            #[trigger] ints(plaintext)[t],
            exact[t],
        ) by {
            if t == 0 {
                assert(ints(plaintext)[t] == factor);
                assert(exact[t] == bit * w);
            } else {
                assert(ints(plaintext)[t] == 0);
                assert(exact[t] == 0);
            }
        }
    }
}

/// The noise of a row stands for its polynomial of signed integers.
pub proof fn lemma_noise_polynomial_is_draws(
    generator: EncryptionRandomGenerator,
    shape: GgswShape,
    row: int,
)
    requires
        shape.polynomial_size >= 0,
    ensures
        poly_congruent(
            ints(
                noise_polynomial(
                    generator_of_row(generator, shape, row),
                    shape.polynomial_size,
                    shape.std,
                ),
            ),
            row_draws(generator, shape, row),
        ),
{
    reveal(poly_congruent);
    let noise = noise_polynomial(
        generator_of_row(generator, shape, row),
        shape.polynomial_size,
        shape.std,
    );
    let draws = row_draws(generator, shape, row);
    assert forall|t: int| 0 <= t < shape.polynomial_size implies congruent(
        #[trigger] ints(noise)[t],
        draws[t],
    ) by {
        lemma_congruent_torus(
            noise_draw(generator_of_row(generator, shape, row).noise.advanced(3 * t), shape.std),
        );
    }
}

/// The phase of the row of index `row` of a list of GGSW ciphertexts is the plaintext of the
/// row plus its noise.
pub proof fn lemma_phase_of_ggsw_row(
    generator: EncryptionRandomGenerator,
    shape: GgswShape,
    input_key: Seq<u64>,
    glwe_key: Seq<u64>,
    row: int,
)
    requires
        is_glwe_key(glwe_key, shape.polynomial_size, shape.glwe_dimension),
        is_valid_gadget(shape.base_log as int, shape.levels as int),
        0 <= row,
    ensures
        poly_congruent(
            glwe_phase(
                ggsw_list_row(generator, shape, input_key, glwe_key, true, row),
                glwe_key,
                shape.polynomial_size,
                shape.glwe_dimension,
            ),
            poly_sum(
                row_plaintext(
                    glwe_key,
                    shape,
                    input_key[row_input(row, shape.glwe_dimension + 1, shape.levels as int)] as int,
                    row_level(row, shape.glwe_dimension + 1, shape.levels as int),
                    row_component(row, shape.glwe_dimension + 1),
                ),
                row_draws(generator, shape, row),
            ),
        ),
{
    let size = shape.polynomial_size;
    let dimension = shape.glwe_dimension;
    let glwe_size = dimension + 1;
    let levels = shape.levels as int;
    let level = row_level(row, glwe_size, levels);
    let component = row_component(row, glwe_size);
    let bit = input_key[row_input(row, glwe_size, levels)];
    vstd::arithmetic::div_mod::lemma_mod_bound(row, glwe_size);
    vstd::arithmetic::div_mod::lemma_mod_bound(row / glwe_size, levels);
    let weight = gadget_weight(shape.base_log, level as nat);
    let factor = torus(bit * weight);
    let mask = ggsw_list_row_mask(generator, shape, row);
    let plaintext = ggsw_plaintext(glwe_key, size, factor, component, dimension);
    let noise = noise_polynomial(generator_of_row(generator, shape, row), size, shape.std);
    lemma_phase_of_glwe_encryption(glwe_key, mask, plaintext, noise, size, dimension);
    let exact_plaintext = row_plaintext(glwe_key, shape, bit as int, level, component);
    let draws = row_draws(generator, shape, row);
    lemma_ggsw_plaintext_is_row_plaintext(glwe_key, shape, bit, level, component);
    lemma_noise_polynomial_is_draws(generator, shape, row);
    lemma_poly_congruent_ops(ints(plaintext), exact_plaintext, ints(noise), draws, 0, 0);
    let encrypted = ggsw_list_row(generator, shape, input_key, glwe_key, true, row);
    assert(encrypted == mask + glwe_body(glwe_key, mask, plaintext, noise, size, dimension));
    lemma_poly_congruent_equivalence(
        glwe_phase(encrypted, glwe_key, size, dimension),
        poly_sum(ints(plaintext), ints(noise)),
        poly_sum(exact_plaintext, draws),
    );
}

} // verus!
