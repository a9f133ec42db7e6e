//! The sample extraction gives an LWE ciphertext whose phase, under the GLWE key read as an
//! LWE key, is the constant coefficient of the phase of the GLWE ciphertext.
use crate::core_crypto::algorithms::glwe_phase::{
    family_of,
    glwe_phase,
    ints,
    is_glwe_key,
    key_products,
    lemma_key_products_len,
};
use crate::core_crypto::algorithms::lwe_encryption::lwe_phase;
use crate::core_crypto::algorithms::lwe_programmable_bootstrapping::{
    extracted_mask_polynomial,
    sample_extracted,
    BootstrapShape,
};
use crate::core_crypto::algorithms::polynomial_algorithms::{
    concat_polynomials,
    lemma_concat_polynomials,
    lemma_polynomial_bounds,
    polynomial_of,
};
use crate::core_crypto::algorithms::polynomial_ring::{
    coefficient,
    lemma_coefficient_half_period,
    lemma_coefficient_in_range,
    lemma_product_coefficient_commutative,
    product,
    product_term,
};
use crate::core_crypto::algorithms::glwe_phase::lemma_sum_congruent;
use crate::core_crypto::algorithms::slice_algorithms::sum_of_products;
use crate::core_crypto::commons::numeric::{congruent, lemma_congruent_ops, lemma_congruent_torus};
use crate::core_crypto::commons::sums::sum_to;
use vstd::prelude::*;

verus! {

/// The dot product of two sequences made of two parts each is the sum of the dot products
/// of the parts.
pub proof fn lemma_sum_of_products_of_parts(a: Seq<u64>, b: Seq<u64>, c: Seq<u64>, d: Seq<u64>)
    requires
        a.len() == c.len(),
        b.len() == d.len(),
    ensures
        sum_of_products(a + b, c + d) == sum_of_products(a, c) + sum_of_products(b, d),
    decreases b.len(),
{
    if b.len() == 0 {
        assert(a + b =~= a);
        assert(c + d =~= c);
    } else {
        assert((a + b).drop_last() =~= a + b.drop_last());
        assert((c + d).drop_last() =~= c + d.drop_last());
        lemma_sum_of_products_of_parts(a, b.drop_last(), c, d.drop_last());
    }
}

/// The dot product of two sequences is the sum of the products of their scalars.
pub proof fn lemma_sum_of_products_is_sum(a: Seq<u64>, b: Seq<u64>)
    requires
        a.len() == b.len(),
    ensures
        sum_of_products(a, b) == sum_to(|j: int| a[j] * b[j], a.len() as int),
    decreases a.len(),
{
    if a.len() > 0 {
        lemma_sum_of_products_is_sum(a.drop_last(), b.drop_last());
        let all = |j: int| a[j] * b[j];
        let fewer = |j: int| a.drop_last()[j] * b.drop_last()[j];
        assert forall|j: int| 0 <= j < a.len() - 1 implies #[trigger] fewer(j) == all(j) by {}
        crate::core_crypto::commons::sums::lemma_sum_equal(fewer, all, a.len() - 1);
    }
}

/// The dot product of the extracted mask of a polynomial with a key polynomial is the
/// constant coefficient of the product of the two polynomials.
pub proof fn lemma_extracted_mask_polynomial(a: Seq<u64>, s: Seq<u64>)
    requires
        a.len() >= 1,
        s.len() == a.len(),
    ensures
        congruent(
            sum_of_products(extracted_mask_polynomial(a), s),
            product(ints(a), ints(s))[0],
        ),
{
    let n = a.len() as int;
    let extracted = extracted_mask_polynomial(a);
    lemma_sum_of_products_is_sum(extracted, s);
    let scalars = |j: int| extracted[j] * s[j];
    let terms = |j: int| product_term(ints(s), ints(a), 0, j);
    assert forall|j: int| 0 <= j < n implies congruent(#[trigger] scalars(j), terms(j)) by {
        if j == 0 {
            lemma_coefficient_in_range(ints(a), 0);
            assert(extracted[0] * s[0] == s[0] * a[0]) by (nonlinear_arith)
                requires
                    extracted[0] == a[0],
            ;
        } else {
            lemma_coefficient_in_range(ints(a), n - j);
            lemma_coefficient_half_period(ints(a), n - j);
            assert(n - j - n == 0 - j);
            lemma_congruent_torus(-(a[n - j] as int));
            lemma_congruent_ops(extracted[j] as int, -(a[n - j] as int), s[j] as int, s[j] as int);
            assert((-(a[n - j] as int)) * s[j] == s[j] * (-(a[n - j] as int)))
                by (nonlinear_arith);
        }
    }
    lemma_sum_congruent(scalars, terms, n);
    lemma_product_coefficient_commutative(ints(s), ints(a), 0);
}

/// The extracted masks of the first `count` polynomials of a GLWE ciphertext, against the
/// first `count` polynomials of the key.
pub proof fn lemma_extracted_masks(glwe: Seq<u64>, key: Seq<u64>, size: int, dimension: int, count: int)
    requires
        is_glwe_key(key, size, dimension),
        glwe.len() == (dimension + 1) * size,
        0 <= count <= dimension,
    ensures
        congruent(
            sum_of_products(
                concat_polynomials(
                    |c: int| extracted_mask_polynomial(polynomial_of(glwe, c, size)),
                    count,
                ),
                key.take(count * size),
            ),
            key_products(family_of(glwe, size), key, size, count)[0],
        ),
        concat_polynomials(
            |c: int| extracted_mask_polynomial(polynomial_of(glwe, c, size)),
            count,
        ).len() == count * size,
        0 <= count * size <= key.len(),
    decreases count,
{
    let f = |c: int| extracted_mask_polynomial(polynomial_of(glwe, c, size));
    assert forall|c: int| 0 <= c < count implies (#[trigger] f(c)).len() == size by {
        lemma_polynomial_bounds(c, dimension + 1, size);
    }
    lemma_concat_polynomials(f, count, size);
    lemma_key_products_len(family_of(glwe, size), key, size, count);
    if count == 0 {
        assert(count * size == 0) by (nonlinear_arith)
            requires
                count == 0,
        ;
        assert(dimension * size >= 0) by (nonlinear_arith)
            requires
                dimension >= 0,
                size >= 1,
        ;
    } else {
        let c = count - 1;
        lemma_extracted_masks(glwe, key, size, dimension, c);
        lemma_polynomial_bounds(c, dimension, size);
        lemma_polynomial_bounds(c, dimension + 1, size);
        let a = polynomial_of(glwe, c, size);
        let s = polynomial_of(key, c, size);
        assert(key.take(count * size) =~= key.take(c * size) + s);
        lemma_sum_of_products_of_parts(concat_polynomials(f, c), f(c), key.take(c * size), s);
        lemma_extracted_mask_polynomial(a, s);
        lemma_key_products_len(family_of(glwe, size), key, size, c);
        lemma_congruent_ops(
            sum_of_products(concat_polynomials(f, c), key.take(c * size)),
            key_products(family_of(glwe, size), key, size, c)[0],
            sum_of_products(f(c), s),
            product(ints(a), ints(s))[0],
        );
        assert(family_of(glwe, size)(c) == ints(a));
    }
}

/// The phase of the extracted sample is the constant coefficient of the phase of the GLWE
/// ciphertext.
pub proof fn lemma_phase_of_extracted_sample(glwe: Seq<u64>, key: Seq<u64>, shape: BootstrapShape)
    requires
        shape.glwe_size >= 1,
        is_glwe_key(key, shape.polynomial_size, shape.glwe_size - 1),
        glwe.len() == shape.glwe_size * shape.polynomial_size,
    ensures
        congruent(
            lwe_phase(key, sample_extracted(glwe, shape)) as int,
            glwe_phase(glwe, key, shape.polynomial_size, shape.glwe_size - 1)[0],
        ),
        sample_extracted(glwe, shape).len() == key.len() + 1,
{
    let n = shape.polynomial_size;
    let k = shape.glwe_size - 1;
    let f = |c: int| extracted_mask_polynomial(polynomial_of(glwe, c, shape.polynomial_size));
    lemma_extracted_masks(glwe, key, n, k, k);
    let mask = concat_polynomials(f, k);
    let sample = sample_extracted(glwe, shape);
    assert(sample.drop_last() =~= mask);
    assert(key.take(k * n) =~= key);
    lemma_polynomial_bounds(k, k + 1, n);
    let body = glwe[k * n];
    assert(polynomial_of(glwe, k, n)[0] == body);
    let products = key_products(family_of(glwe, n), key, n, k);
    lemma_key_products_len(family_of(glwe, n), key, n, k);
    lemma_congruent_ops(body as int, body as int, sum_of_products(mask, key), products[0]);
    lemma_congruent_torus(body - sum_of_products(mask, key));
    assert(family_of(glwe, n)(k)[0] == body);
}

} // verus!
