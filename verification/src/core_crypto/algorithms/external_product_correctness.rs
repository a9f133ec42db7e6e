//! The phase of an external product: the phase of the accumulator plus, for each row of the
//! GGSW ciphertext, the product of the digits of the row and of the phase of the row.
use crate::core_crypto::algorithms::decomposition::{decomposed_polynomial, signed_digit};
use crate::core_crypto::algorithms::glwe_phase::{
    family_of,
    glwe_phase,
    ints,
    is_family,
    is_glwe_key,
    key_products,
    lemma_negacyclic_product_is_product,
    lemma_phase_congruent,
    lemma_phase_linear,
    lemma_phase_of_multiples,
    lemma_poly_congruent_equivalence,
    lemma_poly_congruent_ops,
    lemma_polynomial_of_len,
    lemma_slice_operations_are_poly_operations,
    phase_of,
    poly_congruent,
    poly_zero,
};
use crate::core_crypto::algorithms::lwe_programmable_bootstrapping::{
    external_product_added,
    external_product_decomposition,
    external_product_polynomial,
    lemma_external_product_polynomial_len,
    lemma_shape_sizes,
    BootstrapShape,
};
use crate::core_crypto::algorithms::polynomial_algorithms::{
    lemma_concat_polynomials,
    lemma_polynomial_bounds,
    negacyclic_product,
    polynomial_of,
};
use crate::core_crypto::algorithms::polynomial_ring::{
    poly_difference,
    poly_sum,
    product,
};
use crate::core_crypto::algorithms::slice_algorithms::slice_sum;
use crate::core_crypto::commons::numeric::{congruent, lemma_congruent_torus};
use vstd::prelude::*;

verus! {

/// The digits that the row of index `row` of a GGSW ciphertext is multiplied by in the
/// external product with a GLWE ciphertext, as a polynomial of signed integers: the digits of
/// the level of the row of the polynomial of the component of the row.
pub open spec fn signed_digits_polynomial(glwe: Seq<u64>, shape: BootstrapShape, row: int) -> Seq<
    int,
> {
    Seq::new(
        shape.polynomial_size as nat,
        |t: int|
            signed_digit(
                glwe[(row % shape.glwe_size) * shape.polynomial_size + t],
                shape.base_log,
                shape.levels,
                (row / shape.glwe_size + 1) as nat,
            ),
    )
}

/// The GLWE ciphertext of the row of index `row` of a GGSW ciphertext.
pub open spec fn ggsw_row(ggsw: Seq<u64>, shape: BootstrapShape, row: int) -> Seq<u64> {
    polynomial_of(ggsw, row, shape.glwe_len())
}

/// The sum, over the first `count` rows of a GGSW ciphertext, of the product of the digits of
/// the row and of the phase of the row.
pub open spec fn row_products(
    ggsw: Seq<u64>,
    glwe: Seq<u64>,
    key: Seq<u64>,
    shape: BootstrapShape,
    count: int,
) -> Seq<int>
    decreases count,
{
    if count <= 0 {
        poly_zero(shape.polynomial_size as nat)
    } else {
        poly_sum(
            row_products(ggsw, glwe, key, shape, count - 1),
            product(
                signed_digits_polynomial(glwe, shape, count - 1),
                glwe_phase(
                    ggsw_row(ggsw, shape, count - 1),
                    key,
                    shape.polynomial_size,
                    shape.glwe_size - 1,
                ),
            ),
        )
    }
}

/// The sum, over the first `count` rows of a GGSW ciphertext, of the product of the digits of
/// the row and of the polynomial of index `index` of the row.
pub open spec fn row_terms(
    ggsw: Seq<u64>,
    glwe: Seq<u64>,
    shape: BootstrapShape,
    index: int,
    count: int,
) -> Seq<int>
    decreases count,
{
    if count <= 0 {
        poly_zero(shape.polynomial_size as nat)
    } else {
        poly_sum(
            row_terms(ggsw, glwe, shape, index, count - 1),
            product(
                signed_digits_polynomial(glwe, shape, count - 1),
                family_of(ggsw_row(ggsw, shape, count - 1), shape.polynomial_size)(index),
            ),
        )
    }
}

/// Whether a shape and buffers of an external product fit each other.
pub open spec fn is_external_product(
    ggsw: Seq<u64>,
    glwe: Seq<u64>,
    key: Seq<u64>,
    shape: BootstrapShape,
) -> bool {
    &&& shape.polynomial_size >= 1
    &&& shape.glwe_size >= 1
    &&& shape.levels >= 1
    &&& is_glwe_key(key, shape.polynomial_size, shape.glwe_size - 1)
    &&& glwe.len() == shape.glwe_len()
    &&& ggsw.len() == shape.ggsw_len()
}

/// The sums of the terms of the rows have the size of the polynomials.
pub proof fn lemma_row_terms_len(
    ggsw: Seq<u64>,
    glwe: Seq<u64>,
    shape: BootstrapShape,
    index: int,
    count: int,
)
    requires
        shape.polynomial_size >= 0,
    ensures
        row_terms(ggsw, glwe, shape, index, count).len() == shape.polynomial_size,
    decreases count,
{
    if count > 0 {
        lemma_row_terms_len(ggsw, glwe, shape, index, count - 1);
    }
}

/// The polynomial of index `index` of the row of index `row` of a GGSW ciphertext is the
/// polynomial of index `row * glwe_size + index` of the ciphertext.
pub proof fn lemma_polynomial_of_row(ggsw: Seq<u64>, shape: BootstrapShape, row: int, index: int)
    requires
        shape.polynomial_size >= 1,
        shape.glwe_size >= 1,
        shape.levels >= 1,
        ggsw.len() == shape.ggsw_len(),
        0 <= row < shape.rows(),
        0 <= index < shape.glwe_size,
    ensures
        polynomial_of(ggsw_row(ggsw, shape, row), index, shape.polynomial_size) == polynomial_of(
            ggsw,
            row * shape.glwe_size + index,
            shape.polynomial_size,
        ),
        polynomial_of(ggsw, row * shape.glwe_size + index, shape.polynomial_size).len()
            == shape.polynomial_size,
        ggsw_row(ggsw, shape, row).len() == shape.glwe_len(),
        0 <= row * shape.glwe_size + index < shape.rows() * shape.glwe_size,
{
    let n = shape.polynomial_size;
    let g = shape.glwe_size;
    lemma_shape_sizes(shape);
    lemma_polynomial_bounds(row, shape.rows(), g * n);
    lemma_polynomial_bounds(index, g, n);
    assert(row * g + index < shape.rows() * g) by (nonlinear_arith)
        requires
            0 <= row < shape.rows(),
            0 <= index < g,
    ;
    assert(0 <= row * g + index) by (nonlinear_arith)
        requires
            0 <= row,
            0 <= index,
            g >= 1,
    ;
    lemma_polynomial_bounds(row * g + index, shape.rows() * g, n);
    assert((row * g + index) * n == row * (g * n) + index * n) by (nonlinear_arith);
    assert(polynomial_of(ggsw_row(ggsw, shape, row), index, n) =~= polynomial_of(
        ggsw,
        row * g + index,
        n,
    ));
}

/// The digits of the row of index `row` in the decomposition of a GLWE ciphertext stand for
/// their polynomial of signed integers.
pub proof fn lemma_decomposition_row(glwe: Seq<u64>, shape: BootstrapShape, row: int)
    requires
        shape.polynomial_size >= 1,
        shape.glwe_size >= 1,
        shape.levels >= 1,
        glwe.len() == shape.glwe_len(),
        0 <= row < shape.rows(),
    ensures
        poly_congruent(
            ints(
                polynomial_of(
                    external_product_decomposition(glwe, shape),
                    row,
                    shape.polynomial_size,
                ),
            ),
            signed_digits_polynomial(glwe, shape, row),
        ),
        polynomial_of(external_product_decomposition(glwe, shape), row, shape.polynomial_size).len()
            == shape.polynomial_size,
{
    reveal(poly_congruent);
    let n = shape.polynomial_size;
    let g = shape.glwe_size;
    let f = |r: int|
        decomposed_polynomial(
            polynomial_of(glwe, r % shape.glwe_size, shape.polynomial_size),
            shape.base_log,
            shape.levels,
            (r / shape.glwe_size + 1) as nat,
        );
    assert forall|r: int| 0 <= r < shape.rows() implies (#[trigger] f(r)).len() == n by {
        vstd::arithmetic::div_mod::lemma_mod_bound(r, g);
        lemma_polynomial_bounds(r % g, g, n);
    }
    lemma_shape_sizes(shape);
    lemma_concat_polynomials(f, shape.rows(), n);
    let digits = polynomial_of(external_product_decomposition(glwe, shape), row, n);
    assert(digits == f(row));
    let exact = signed_digits_polynomial(glwe, shape, row);
    vstd::arithmetic::div_mod::lemma_mod_bound(row, g);
    lemma_polynomial_bounds(row % g, g, n);
    assert forall|t: int| 0 <= t < n implies congruent(#[trigger] ints(digits)[t], exact[t]) by {
        assert(polynomial_of(glwe, row % g, n)[t] == glwe[(row % g) * n + t]);
        lemma_congruent_torus(exact[t]);
    }
}

/// A polynomial of the result of an external product stands for the polynomial of the
/// accumulator plus the terms of the rows.
pub proof fn lemma_external_product_polynomial(
    accumulator: Seq<u64>,
    ggsw: Seq<u64>,
    glwe: Seq<u64>,
    shape: BootstrapShape,
    index: int,
    count: int,
)
    requires
        shape.polynomial_size >= 1,
        shape.glwe_size >= 1,
        shape.levels >= 1,
        glwe.len() == shape.glwe_len(),
        ggsw.len() == shape.ggsw_len(),
        accumulator.len() == shape.polynomial_size,
        0 <= index < shape.glwe_size,
        0 <= count <= shape.rows(),
    ensures
        poly_congruent(
            ints(
                external_product_polynomial(
                    accumulator,
                    ggsw,
                    external_product_decomposition(glwe, shape),
                    shape,
                    index,
                    count,
                ),
            ),
            poly_sum(ints(accumulator), row_terms(ggsw, glwe, shape, index, count)),
        ),
    decreases count,
{
    let n = shape.polynomial_size;
    let decomposition = external_product_decomposition(glwe, shape);
    lemma_row_terms_len(ggsw, glwe, shape, index, count);
    if count == 0 {
        assert(poly_sum(ints(accumulator), poly_zero(n as nat)) =~= ints(accumulator));
        lemma_poly_congruent_equivalence(ints(accumulator), ints(accumulator), ints(accumulator));
    } else {
        let row = count - 1;
        lemma_external_product_polynomial(accumulator, ggsw, glwe, shape, index, row);
        lemma_row_terms_len(ggsw, glwe, shape, index, row);
        let before = external_product_polynomial(
            accumulator,
            ggsw,
            decomposition,
            shape,
            index,
            row,
        );
        lemma_external_product_polynomial_len(
            accumulator,
            ggsw,
            decomposition,
            shape,
            index,
            row,
        );
        let digits = polynomial_of(decomposition, row, n);
        let key_polynomial = polynomial_of(ggsw, row * shape.glwe_size + index, n);
        lemma_decomposition_row(glwe, shape, row);
        lemma_polynomial_of_row(ggsw, shape, row, index);
        lemma_negacyclic_product_is_product(digits, key_polynomial);
        lemma_slice_operations_are_poly_operations(
            before,
            negacyclic_product(digits, key_polynomial),
        );
        let exact_digits = signed_digits_polynomial(glwe, shape, row);
        lemma_poly_congruent_equivalence(
            ints(key_polynomial),
            ints(key_polynomial),
            ints(key_polynomial),
        );
        lemma_poly_congruent_ops(
            ints(digits),
            exact_digits,
            ints(key_polynomial),
            ints(key_polynomial),
            0,
            0,
        );
        lemma_poly_congruent_equivalence(
            ints(negacyclic_product(digits, key_polynomial)),
            product(ints(digits), ints(key_polynomial)),
            product(exact_digits, ints(key_polynomial)),
        );
        let terms_before = row_terms(ggsw, glwe, shape, index, row);
        lemma_poly_congruent_ops(
            ints(before),
            poly_sum(ints(accumulator), terms_before),
            ints(negacyclic_product(digits, key_polynomial)),
            product(exact_digits, ints(key_polynomial)),
            0,
            0,
        );
        let result = external_product_polynomial(
            accumulator,
            ggsw,
            decomposition,
            shape,
            index,
            count,
        );
        assert(result == slice_sum(before, negacyclic_product(digits, key_polynomial)));
        lemma_poly_congruent_equivalence(
            ints(result),
            poly_sum(ints(before), ints(negacyclic_product(digits, key_polynomial))),
            poly_sum(
                poly_sum(ints(accumulator), terms_before),
                product(exact_digits, ints(key_polynomial)),
            ),
        );
        assert(family_of(ggsw_row(ggsw, shape, row), n)(index) == ints(key_polynomial));
        assert(poly_sum(
            poly_sum(ints(accumulator), terms_before),
            product(exact_digits, ints(key_polynomial)),
        ) =~= poly_sum(
            ints(accumulator),
            poly_sum(terms_before, product(exact_digits, ints(key_polynomial))),
        ));
    }
}

/// The phase of the terms of the first `count` rows is the sum of the products of the
/// digits of the rows and of the phases of the rows.
pub proof fn lemma_phase_of_row_terms(
    terms: spec_fn(int) -> Seq<int>,
    ggsw: Seq<u64>,
    glwe: Seq<u64>,
    key: Seq<u64>,
    shape: BootstrapShape,
    count: int,
)
    requires
        is_external_product(ggsw, glwe, key, shape),
        0 <= count <= shape.rows(),
        forall|j: int|
            0 <= j < shape.glwe_size ==> #[trigger] terms(j) == row_terms(
                ggsw,
                glwe,
                shape,
                j,
                count,
            ),
    ensures
        phase_of(terms, key, shape.polynomial_size, shape.glwe_size - 1) == row_products(
            ggsw,
            glwe,
            key,
            shape,
            count,
        ),
    decreases count,
{
    let n = shape.polynomial_size;
    let k = shape.glwe_size - 1;
    if count == 0 {
        assert(terms(k) == poly_zero(n as nat));
        lemma_zero_family_products(terms, key, n, k, k);
        assert(poly_difference(poly_zero(n as nat), poly_zero(n as nat)) =~= poly_zero(n as nat));
    } else {
        let row = count - 1;
        let before = |j: int| row_terms(ggsw, glwe, shape, j, row);
        lemma_phase_of_row_terms(before, ggsw, glwe, key, shape, row);
        let digits = signed_digits_polynomial(glwe, shape, row);
        let row_family = family_of(ggsw_row(ggsw, shape, row), n);
        let added = |j: int| product(digits, row_family(j));
        assert forall|j: int| 0 <= j <= k implies (#[trigger] row_family(j)).len() == n by {
            lemma_polynomial_of_row(ggsw, shape, row, j);
        }
        assert forall|j: int| 0 <= j <= k implies (#[trigger] before(j)).len() == n by {
            lemma_row_terms_len(ggsw, glwe, shape, j, row);
        }
        assert forall|j: int| 0 <= j <= k implies #[trigger] terms(j) == poly_sum(
            before(j),
            added(j),
        ) by {}
        assert(is_family(added, n, k));
        lemma_phase_linear(terms, before, added, key, n, k, 0, 0);
        lemma_phase_of_multiples(added, row_family, key, n, k, false, digits, 0);
    }
}

/// The products with a key of a family of zero polynomials are zero.
pub proof fn lemma_zero_family_products(
    family: spec_fn(int) -> Seq<int>,
    key: Seq<u64>,
    size: int,
    dimension: int,
    count: int,
)
    requires
        is_glwe_key(key, size, dimension),
        0 <= count <= dimension,
        forall|c: int| 0 <= c <= dimension ==> #[trigger] family(c) == poly_zero(size as nat),
    ensures
        key_products(family, key, size, count) == poly_zero(size as nat),
    decreases count,
{
    if count > 0 {
        lemma_zero_family_products(family, key, size, dimension, count - 1);
        let zero = poly_zero(size as nat);
        let s = ints(polynomial_of(key, count - 1, size));
        lemma_polynomial_of_len(key, count - 1, dimension, size);
        assert(family(count - 1) == zero);
        assert forall|t: int| 0 <= t < size implies product(zero, s)[t] == 0 by {
            let terms = |i: int|
                crate::core_crypto::algorithms::polynomial_ring::product_term(zero, s, t, i);
            assert forall|i: int| 0 <= i < size implies #[trigger] terms(i) == 0 by {
                assert(0 * crate::core_crypto::algorithms::polynomial_ring::coefficient(s, t - i)
                    == 0) by (nonlinear_arith);
            }
            crate::core_crypto::commons::sums::lemma_sum_of_zeros(terms, size);
        }
        assert(poly_sum(zero, product(zero, s)) =~= zero);
    }
}

/// The phase of an external product added to an accumulator is the phase of the accumulator
/// plus, for each row of the GGSW ciphertext, the product of the digits of the row and of
/// the phase of the row.
pub proof fn lemma_phase_of_external_product(
    accumulator: Seq<u64>,
    ggsw: Seq<u64>,
    glwe: Seq<u64>,
    key: Seq<u64>,
    shape: BootstrapShape,
)
    requires
        is_external_product(ggsw, glwe, key, shape),
        accumulator.len() == shape.glwe_len(),
    ensures
        poly_congruent(
            glwe_phase(
                external_product_added(accumulator, ggsw, glwe, shape),
                key,
                shape.polynomial_size,
                shape.glwe_size - 1,
            ),
            poly_sum(
                glwe_phase(accumulator, key, shape.polynomial_size, shape.glwe_size - 1),
                row_products(ggsw, glwe, key, shape, shape.rows()),
            ),
        ),
        external_product_added(accumulator, ggsw, glwe, shape).len() == shape.glwe_len(),
{
    let n = shape.polynomial_size;
    let g = shape.glwe_size;
    let k = g - 1;
    let rows = shape.rows();
    lemma_shape_sizes(shape);
    let decomposition = external_product_decomposition(glwe, shape);
    let out = external_product_added(accumulator, ggsw, glwe, shape);
    let polynomials = |j: int|
        external_product_polynomial(
            polynomial_of(accumulator, j, shape.polynomial_size),
            ggsw,
            external_product_decomposition(glwe, shape),
            shape,
            j,
            shape.rows(),
        );
    assert forall|j: int| 0 <= j < g implies (#[trigger] polynomials(j)).len() == n by {
        lemma_polynomial_of_len(accumulator, j, g, n);
        lemma_external_product_polynomial_len(
            polynomial_of(accumulator, j, n),
            ggsw,
            decomposition,
            shape,
            j,
            rows,
        );
    }
    lemma_concat_polynomials(polynomials, g, n);
    let out_family = family_of(out, n);
    let acc_family = family_of(accumulator, n);
    let terms = |j: int| row_terms(ggsw, glwe, shape, j, rows);
    let exact = |j: int| poly_sum(acc_family(j), terms(j));
    assert forall|j: int| 0 <= j <= k implies poly_congruent(
        #[trigger] out_family(j),
        exact(j),
    ) by {
        assert(polynomial_of(out, j, n) == polynomials(j));
        lemma_polynomial_of_len(accumulator, j, g, n);
        lemma_external_product_polynomial(
            polynomial_of(accumulator, j, n),
            ggsw,
            glwe,
            shape,
            j,
            rows,
        );
    }
    assert forall|j: int| 0 <= j <= k implies (#[trigger] out_family(j)).len() == n by {
        assert(polynomial_of(out, j, n) == polynomials(j));
    }
    lemma_phase_congruent(out_family, exact, key, n, k);
    assert forall|j: int| 0 <= j <= k implies (#[trigger] acc_family(j)).len() == n by {
        lemma_polynomial_of_len(accumulator, j, g, n);
    }
    assert forall|j: int| 0 <= j <= k implies (#[trigger] terms(j)).len() == n by {
        lemma_row_terms_len(ggsw, glwe, shape, j, rows);
    }
    lemma_phase_linear(exact, acc_family, terms, key, n, k, 0, 0);
    lemma_phase_of_row_terms(terms, ggsw, glwe, key, shape, rows);
    assert(out.len() == g * n);
}

} // verus!
