//! The phase of a GLWE ciphertext: its body minus the products of its mask polynomials and
//! of the key polynomials, as an integer polynomial that stands for a polynomial on the
//! torus.
use crate::core_crypto::algorithms::polynomial_algorithms::{
    monomial_product,
    negacyclic_partial,
    negacyclic_product,
    polynomial_of,
};
use crate::core_crypto::algorithms::polynomial_ring::{
    coefficient,
    lemma_coefficient_half_period,
    lemma_coefficient_in_range,
    lemma_degree_residues,
    lemma_monomial_multiple_linear,
    lemma_product_associative,
    lemma_product_linear_left,
    lemma_product_linear_right,
    lemma_product_of_monomial_multiple,
    monomial_multiple,
    poly_difference,
    poly_scaled,
    poly_sum,
    product,
    product_term,
};
use crate::core_crypto::algorithms::slice_algorithms::{slice_difference, slice_sum};
use crate::core_crypto::commons::numeric::{
    congruent,
    lemma_congruent_ops,
    lemma_congruent_torus,
    torus,
};
use crate::core_crypto::commons::sums::sum_to;
use vstd::prelude::*;

verus! {

/// The coefficients of a polynomial on the torus, as integers.
pub open spec fn ints(p: Seq<u64>) -> Seq<int> {
    Seq::new(p.len(), |t: int| p[t] as int)
}

/// The zero polynomial.
pub open spec fn poly_zero(size: nat) -> Seq<int> {
    Seq::new(size, |t: int| 0int)
}

/// Whether two integer polynomials stand for the same polynomial on the torus.
#[verifier::opaque]
pub open spec fn poly_congruent(a: Seq<int>, b: Seq<int>) -> bool {
    &&& a.len() == b.len()
    &&& forall|t: int| #![trigger a[t]] #![trigger b[t]] 0 <= t < a.len() ==> congruent(a[t], b[t])
}

/// Sums of functions whose values are congruent are congruent.
pub proof fn lemma_sum_congruent(f: spec_fn(int) -> int, g: spec_fn(int) -> int, count: int)
    requires
        forall|i: int| 0 <= i < count ==> congruent(#[trigger] f(i), g(i)),
    ensures
        congruent(sum_to(f, count), sum_to(g, count)),
    decreases count,
{
    if count > 0 {
        lemma_sum_congruent(f, g, count - 1);
        lemma_congruent_ops(sum_to(f, count - 1), sum_to(g, count - 1), f(count - 1), g(count - 1));
    }
}

/// The coefficients of any degree of congruent polynomials are congruent.
pub proof fn lemma_coefficient_congruent(a: Seq<int>, b: Seq<int>, e: int)
    requires
        a.len() >= 1,
        poly_congruent(a, b),
    ensures
        congruent(coefficient(a, e), coefficient(b, e)),
{
    reveal(poly_congruent);
    lemma_degree_residues(e, a.len() as int);
    let r = e % (a.len() as int);
    assert(congruent(a[r], b[r]));
    lemma_congruent_ops(0, 0, a[r], b[r]);
}

/// Congruence of polynomials is kept by sums, differences, multiples, products and
/// multiples by monomials.
pub proof fn lemma_poly_congruent_ops(
    a: Seq<int>,
    b: Seq<int>,
    c: Seq<int>,
    d: Seq<int>,
    factor: int,
    degree: int,
)
    requires
        a.len() >= 1,
        c.len() == a.len(),
        poly_congruent(a, b),
        poly_congruent(c, d),
    ensures
        poly_congruent(poly_sum(a, c), poly_sum(b, d)),
        poly_congruent(poly_difference(a, c), poly_difference(b, d)),
        poly_congruent(poly_scaled(a, factor), poly_scaled(b, factor)),
        poly_congruent(product(a, c), product(b, d)),
        poly_congruent(monomial_multiple(a, degree), monomial_multiple(b, degree)),
{
    reveal(poly_congruent);
    let n = a.len() as int;
    assert forall|t: int| 0 <= t < n implies congruent(
        #[trigger] poly_sum(a, c)[t],
        poly_sum(b, d)[t],
    ) by {
        lemma_congruent_ops(a[t], b[t], c[t], d[t]);
    }
    assert forall|t: int| 0 <= t < n implies congruent(
        #[trigger] poly_difference(a, c)[t],
        poly_difference(b, d)[t],
    ) by {
        lemma_congruent_ops(a[t], b[t], c[t], d[t]);
    }
    assert forall|t: int| 0 <= t < n implies congruent(
        #[trigger] poly_scaled(a, factor)[t],
        poly_scaled(b, factor)[t],
    ) by {
        lemma_congruent_ops(factor, factor, a[t], b[t]);
    }
    assert forall|t: int| 0 <= t < n implies congruent(
        #[trigger] product(a, c)[t],
        product(b, d)[t],
    ) by {
        let left = |i: int| product_term(a, c, t, i);
        let right = |i: int| product_term(b, d, t, i);
        assert forall|i: int| 0 <= i < n implies congruent(#[trigger] left(i), right(i)) by {
            lemma_coefficient_congruent(c, d, t - i);
            lemma_congruent_ops(a[i], b[i], coefficient(c, t - i), coefficient(d, t - i));
        }
        lemma_sum_congruent(left, right, n);
    }
    assert forall|t: int| 0 <= t < n implies congruent(
        #[trigger] monomial_multiple(a, degree)[t],
        monomial_multiple(b, degree)[t],
    ) by {
        lemma_coefficient_congruent(a, b, t - degree);
    }
}

/// Congruence of polynomials is an equivalence.
pub proof fn lemma_poly_congruent_equivalence(a: Seq<int>, b: Seq<int>, c: Seq<int>)
    ensures
        poly_congruent(a, a),
        poly_congruent(a, b) ==> poly_congruent(b, a),
        poly_congruent(a, b) && poly_congruent(b, c) ==> poly_congruent(a, c),
{
    reveal(poly_congruent);
    if poly_congruent(a, b) {
        assert forall|t: int| 0 <= t < b.len() implies congruent(#[trigger] b[t], a[t]) by {
            assert(congruent(a[t], b[t]));
        }
        if poly_congruent(b, c) {
            assert forall|t: int| 0 <= t < a.len() implies congruent(#[trigger] a[t], c[t]) by {
                assert(congruent(a[t], b[t]));
                assert(congruent(b[t], c[t]));
            }
        }
    }
}

/// The product of two polynomials on the torus stands for the product of their integer
/// polynomials.
pub proof fn lemma_negacyclic_product_is_product(a: Seq<u64>, b: Seq<u64>)
    requires
        a.len() >= 1,
        b.len() == a.len(),
    ensures
        poly_congruent(ints(negacyclic_product(a, b)), product(ints(a), ints(b))),
{
    reveal(poly_congruent);
    let n = a.len() as int;
    assert forall|t: int| 0 <= t < n implies congruent(
        #[trigger] ints(negacyclic_product(a, b))[t],
        product(ints(a), ints(b))[t],
    ) by {
        lemma_negacyclic_partial_is_sum(a, b, t, n);
        lemma_congruent_torus(negacyclic_partial(a, b, t, n));
    }
}

/// The partial sums of a coefficient of a product on the torus are the sums of the terms of
/// the product of the integer polynomials.
pub proof fn lemma_negacyclic_partial_is_sum(a: Seq<u64>, b: Seq<u64>, t: int, upto: int)
    requires
        a.len() >= 1,
        b.len() == a.len(),
        0 <= t < a.len(),
        0 <= upto <= a.len(),
    ensures
        negacyclic_partial(a, b, t, upto) == sum_to(
            |i: int| product_term(ints(a), ints(b), t, i),
            upto,
        ),
    decreases upto,
{
    if upto > 0 {
        lemma_negacyclic_partial_is_sum(a, b, t, upto - 1);
        let i = upto - 1;
        let n = a.len() as int;
        if i <= t {
            lemma_coefficient_in_range(ints(b), t - i);
        } else {
            lemma_coefficient_in_range(ints(b), t - i + n);
            lemma_coefficient_half_period(ints(b), t - i + n);
            assert(a[i] * (-(b[n + t - i] as int)) == -(a[i] * b[n + t - i])) by (nonlinear_arith);
        }
    }
}

/// The multiple of a polynomial on the torus by a monomial stands for the multiple of its
/// integer polynomial.
pub proof fn lemma_monomial_product_is_multiple(p: Seq<u64>, degree: int)
    requires
        p.len() >= 1,
    ensures
        poly_congruent(ints(monomial_product(p, degree)), monomial_multiple(ints(p), degree)),
{
    reveal(poly_congruent);
    let n = p.len() as int;
    assert forall|t: int| 0 <= t < n implies congruent(
        #[trigger] ints(monomial_product(p, degree))[t],
        monomial_multiple(ints(p), degree)[t],
    ) by {
        lemma_degree_residues(t - degree, n);
        let source = (t - degree) % (2 * n);
        if source >= n {
            lemma_congruent_torus(-(p[source - n] as int));
        }
    }
}

/// The sum and the difference of two polynomials on the torus stand for the sum and the
/// difference of their integer polynomials.
pub proof fn lemma_slice_operations_are_poly_operations(a: Seq<u64>, b: Seq<u64>)
    requires
        b.len() == a.len(),
    ensures
        poly_congruent(ints(slice_sum(a, b)), poly_sum(ints(a), ints(b))),
        poly_congruent(ints(slice_difference(a, b)), poly_difference(ints(a), ints(b))),
{
    reveal(poly_congruent);
    assert forall|t: int| 0 <= t < a.len() implies congruent(
        #[trigger] ints(slice_sum(a, b))[t],
        poly_sum(ints(a), ints(b))[t],
    ) by {
        lemma_congruent_torus(a[t] + b[t]);
    }
    assert forall|t: int| 0 <= t < a.len() implies congruent(
        #[trigger] ints(slice_difference(a, b))[t],
        poly_difference(ints(a), ints(b))[t],
    ) by {
        lemma_congruent_torus(a[t] - b[t]);
    }
}

/// The coefficients of congruent polynomials are congruent, and the polynomials have one
/// size.
pub proof fn lemma_poly_congruent_at(a: Seq<int>, b: Seq<int>, t: int)
    requires
        poly_congruent(a, b),
    ensures
        a.len() == b.len(),
        0 <= t < a.len() ==> congruent(a[t], b[t]),
{
    reveal(poly_congruent);
}

/// The sum of the products of the first `count` polynomials of a family and of the
/// polynomials of a key.
pub open spec fn key_products(
    family: spec_fn(int) -> Seq<int>,
    key: Seq<u64>,
    size: int,
    count: int,
) -> Seq<int>
    decreases count,
{
    if count <= 0 {
        poly_zero(size as nat)
    } else {
        poly_sum(
            key_products(family, key, size, count - 1),
            product(family(count - 1), ints(polynomial_of(key, count - 1, size))),
        )
    }
}

/// The phase of a family of `dimension + 1` polynomials: the last one minus the products of
/// the others and of the polynomials of a key.
pub open spec fn phase_of(
    family: spec_fn(int) -> Seq<int>,
    key: Seq<u64>,
    size: int,
    dimension: int,
) -> Seq<int> {
    poly_difference(family(dimension), key_products(family, key, size, dimension))
}

/// The polynomials of a GLWE ciphertext, as integer polynomials.
pub open spec fn family_of(glwe: Seq<u64>, size: int) -> spec_fn(int) -> Seq<int> {
    |c: int| ints(polynomial_of(glwe, c, size))
}

/// The phase of a GLWE ciphertext under a key.
pub open spec fn glwe_phase(glwe: Seq<u64>, key: Seq<u64>, size: int, dimension: int) -> Seq<int> {
    phase_of(family_of(glwe, size), key, size, dimension)
}

/// Whether a family holds `dimension + 1` polynomials of `size` coefficients.
pub open spec fn is_family(family: spec_fn(int) -> Seq<int>, size: int, dimension: int) -> bool {
    forall|c: int| 0 <= c <= dimension ==> (#[trigger] family(c)).len() == size
}

/// Whether a key holds `dimension` polynomials of `size` coefficients.
pub open spec fn is_glwe_key(key: Seq<u64>, size: int, dimension: int) -> bool {
    size >= 1 && dimension >= 0 && key.len() == dimension * size
}

/// The polynomials of a buffer of `count` polynomials have `size` coefficients.
pub proof fn lemma_polynomial_of_len(buffer: Seq<u64>, index: int, count: int, size: int)
    requires
        0 <= index < count,
        size >= 0,
        buffer.len() == count * size,
    ensures
        polynomial_of(buffer, index, size).len() == size,
{
    crate::core_crypto::algorithms::polynomial_algorithms::lemma_polynomial_bounds(
        index,
        count,
        size,
    );
}

/// The products with a key have the size of the polynomials.
pub proof fn lemma_key_products_len(
    family: spec_fn(int) -> Seq<int>,
    key: Seq<u64>,
    size: int,
    count: int,
)
    requires
        size >= 0,
    ensures
        key_products(family, key, size, count).len() == size,
    decreases count,
{
    if count > 0 {
        lemma_key_products_len(family, key, size, count - 1);
    }
}

/// The products with a key of congruent families are congruent.
pub proof fn lemma_key_products_congruent(
    f: spec_fn(int) -> Seq<int>,
    g: spec_fn(int) -> Seq<int>,
    key: Seq<u64>,
    size: int,
    dimension: int,
    count: int,
)
    requires
        is_glwe_key(key, size, dimension),
        0 <= count <= dimension,
        is_family(f, size, dimension),
        forall|c: int| 0 <= c <= dimension ==> poly_congruent(#[trigger] f(c), g(c)),
    ensures
        poly_congruent(key_products(f, key, size, count), key_products(g, key, size, count)),
    decreases count,
{
    if count > 0 {
        lemma_key_products_congruent(f, g, key, size, dimension, count - 1);
        lemma_key_products_len(f, key, size, count - 1);
        let s = ints(polynomial_of(key, count - 1, size));
        lemma_polynomial_of_len(key, count - 1, dimension, size);
        lemma_poly_congruent_equivalence(s, s, s);
        assert(poly_congruent(f(count - 1), g(count - 1)));
        lemma_poly_congruent_ops(f(count - 1), g(count - 1), s, s, 0, 0);
        lemma_poly_congruent_ops(
            key_products(f, key, size, count - 1),
            key_products(g, key, size, count - 1),
            product(f(count - 1), s),
            product(g(count - 1), s),
            0,
            0,
        );
    } else {
        lemma_poly_congruent_equivalence(
            poly_zero(size as nat),
            poly_zero(size as nat),
            poly_zero(size as nat),
        );
    }
}

/// The phases of congruent families are congruent.
pub proof fn lemma_phase_congruent(
    f: spec_fn(int) -> Seq<int>,
    g: spec_fn(int) -> Seq<int>,
    key: Seq<u64>,
    size: int,
    dimension: int,
)
    requires
        is_glwe_key(key, size, dimension),
        is_family(f, size, dimension),
        forall|c: int| 0 <= c <= dimension ==> poly_congruent(#[trigger] f(c), g(c)),
    ensures
        poly_congruent(phase_of(f, key, size, dimension), phase_of(g, key, size, dimension)),
{
    lemma_key_products_congruent(f, g, key, size, dimension, dimension);
    lemma_key_products_len(f, key, size, dimension);
    assert(poly_congruent(f(dimension), g(dimension)));
    lemma_poly_congruent_ops(
        f(dimension),
        g(dimension),
        key_products(f, key, size, dimension),
        key_products(g, key, size, dimension),
        0,
        0,
    );
}

/// The products with a key of a family that is the sum, the difference or the multiple of
/// others.
pub proof fn lemma_key_products_linear(
    h: spec_fn(int) -> Seq<int>,
    f: spec_fn(int) -> Seq<int>,
    g: spec_fn(int) -> Seq<int>,
    key: Seq<u64>,
    size: int,
    dimension: int,
    count: int,
    kind: int,
    factor: int,
)
    requires
        is_glwe_key(key, size, dimension),
        0 <= count <= dimension,
        is_family(f, size, dimension),
        is_family(g, size, dimension),
        kind == 0 ==> forall|c: int| 0 <= c <= dimension ==> #[trigger] h(c) == poly_sum(f(c), g(c)),
        kind == 1 ==> forall|c: int|
            0 <= c <= dimension ==> #[trigger] h(c) == poly_difference(f(c), g(c)),
        kind == 2 ==> forall|c: int|
            0 <= c <= dimension ==> #[trigger] h(c) == poly_scaled(f(c), factor),
        0 <= kind <= 2,
    ensures
        kind == 0 ==> key_products(h, key, size, count) == poly_sum(
            key_products(f, key, size, count),
            key_products(g, key, size, count),
        ),
        kind == 1 ==> key_products(h, key, size, count) == poly_difference(
            key_products(f, key, size, count),
            key_products(g, key, size, count),
        ),
        kind == 2 ==> key_products(h, key, size, count) == poly_scaled(
            key_products(f, key, size, count),
            factor,
        ),
    decreases count,
{
    lemma_key_products_len(f, key, size, count);
    lemma_key_products_len(g, key, size, count);
    lemma_key_products_len(h, key, size, count);
    if count > 0 {
        lemma_key_products_linear(h, f, g, key, size, dimension, count - 1, kind, factor);
        lemma_key_products_len(f, key, size, count - 1);
        lemma_key_products_len(g, key, size, count - 1);
        let s = ints(polynomial_of(key, count - 1, size));
        lemma_polynomial_of_len(key, count - 1, dimension, size);
        assert(f(count - 1).len() == size);
        assert(g(count - 1).len() == size);
        lemma_product_linear_left(f(count - 1), g(count - 1), s, factor);
        let pf = key_products(f, key, size, count - 1);
        let pg = key_products(g, key, size, count - 1);
        let xf = product(f(count - 1), s);
        let xg = product(g(count - 1), s);
        if kind == 0 {
            assert(h(count - 1) == poly_sum(f(count - 1), g(count - 1)));
            assert(poly_sum(poly_sum(pf, pg), poly_sum(xf, xg)) =~= poly_sum(
                poly_sum(pf, xf),
                poly_sum(pg, xg),
            ));
        } else if kind == 1 {
            assert(h(count - 1) == poly_difference(f(count - 1), g(count - 1)));
            assert(poly_sum(poly_difference(pf, pg), poly_difference(xf, xg)) =~= poly_difference(
                poly_sum(pf, xf),
                poly_sum(pg, xg),
            ));
        } else {
            assert(h(count - 1) == poly_scaled(f(count - 1), factor));
            assert forall|t: int| 0 <= t < size implies poly_sum(
                poly_scaled(pf, factor),
                poly_scaled(xf, factor),
            )[t] == poly_scaled(poly_sum(pf, xf), factor)[t] by {
                assert(factor * pf[t] + factor * xf[t] == factor * (pf[t] + xf[t]))
                    by (nonlinear_arith);
            }
            assert(poly_sum(poly_scaled(pf, factor), poly_scaled(xf, factor)) =~= poly_scaled(
                poly_sum(pf, xf),
                factor,
            ));
        }
    } else {
        let zero = poly_zero(size as nat);
        assert(poly_sum(zero, zero) =~= zero);
        assert(poly_difference(zero, zero) =~= zero);
        assert forall|t: int| 0 <= t < size implies poly_scaled(zero, factor)[t] == zero[t] by {
            assert(factor * 0 == 0) by (nonlinear_arith);
        }
        assert(poly_scaled(zero, factor) =~= zero);
    }
}

/// The phase is linear: the phase of a family that is the sum, the difference or the
/// multiple of others is the sum, the difference or the multiple of their phases.
pub proof fn lemma_phase_linear(
    h: spec_fn(int) -> Seq<int>,
    f: spec_fn(int) -> Seq<int>,
    g: spec_fn(int) -> Seq<int>,
    key: Seq<u64>,
    size: int,
    dimension: int,
    kind: int,
    factor: int,
)
    requires
        is_glwe_key(key, size, dimension),
        is_family(f, size, dimension),
        is_family(g, size, dimension),
        kind == 0 ==> forall|c: int| 0 <= c <= dimension ==> #[trigger] h(c) == poly_sum(f(c), g(c)),
        kind == 1 ==> forall|c: int|
            0 <= c <= dimension ==> #[trigger] h(c) == poly_difference(f(c), g(c)),
        kind == 2 ==> forall|c: int|
            0 <= c <= dimension ==> #[trigger] h(c) == poly_scaled(f(c), factor),
        0 <= kind <= 2,
    ensures
        kind == 0 ==> phase_of(h, key, size, dimension) == poly_sum(
            phase_of(f, key, size, dimension),
            phase_of(g, key, size, dimension),
        ),
        kind == 1 ==> phase_of(h, key, size, dimension) == poly_difference(
            phase_of(f, key, size, dimension),
            phase_of(g, key, size, dimension),
        ),
        kind == 2 ==> phase_of(h, key, size, dimension) == poly_scaled(
            phase_of(f, key, size, dimension),
            factor,
        ),
{
    lemma_key_products_linear(h, f, g, key, size, dimension, dimension, kind, factor);
    lemma_key_products_len(f, key, size, dimension);
    lemma_key_products_len(g, key, size, dimension);
    let pf = key_products(f, key, size, dimension);
    let pg = key_products(g, key, size, dimension);
    let bf = f(dimension);
    let bg = g(dimension);
    assert(bf.len() == size);
    assert(bg.len() == size);
    if kind == 0 {
        assert(h(dimension) == poly_sum(bf, bg));
        assert(poly_difference(poly_sum(bf, bg), poly_sum(pf, pg)) =~= poly_sum(
            poly_difference(bf, pf),
            poly_difference(bg, pg),
        ));
    } else if kind == 1 {
        assert(h(dimension) == poly_difference(bf, bg));
        assert(poly_difference(poly_difference(bf, bg), poly_difference(pf, pg))
            =~= poly_difference(poly_difference(bf, pf), poly_difference(bg, pg)));
    } else {
        assert(h(dimension) == poly_scaled(bf, factor));
        assert forall|t: int| 0 <= t < size implies poly_difference(
            poly_scaled(bf, factor),
            poly_scaled(pf, factor),
        )[t] == poly_scaled(poly_difference(bf, pf), factor)[t] by {
            assert(factor * bf[t] - factor * pf[t] == factor * (bf[t] - pf[t]))
                by (nonlinear_arith);
        }
        assert(poly_difference(poly_scaled(bf, factor), poly_scaled(pf, factor)) =~= poly_scaled(
            poly_difference(bf, pf),
            factor,
        ));
    }
}

/// The products with a key of the multiples of a family by a polynomial, or by a monomial.
pub proof fn lemma_key_products_of_multiples(
    h: spec_fn(int) -> Seq<int>,
    f: spec_fn(int) -> Seq<int>,
    key: Seq<u64>,
    size: int,
    dimension: int,
    count: int,
    by_monomial: bool,
    multiplier: Seq<int>,
    degree: int,
)
    requires
        is_glwe_key(key, size, dimension),
        0 <= count <= dimension,
        is_family(f, size, dimension),
        multiplier.len() == size,
        by_monomial ==> forall|c: int|
            0 <= c <= dimension ==> #[trigger] h(c) == monomial_multiple(f(c), degree),
        !by_monomial ==> forall|c: int|
            0 <= c <= dimension ==> #[trigger] h(c) == product(multiplier, f(c)),
    ensures
        by_monomial ==> key_products(h, key, size, count) == monomial_multiple(
            key_products(f, key, size, count),
            degree,
        ),
        !by_monomial ==> key_products(h, key, size, count) == product(
            multiplier,
            key_products(f, key, size, count),
        ),
    decreases count,
{
    lemma_key_products_len(f, key, size, count);
    if count > 0 {
        lemma_key_products_of_multiples(
            h,
            f,
            key,
            size,
            dimension,
            count - 1,
            by_monomial,
            multiplier,
            degree,
        );
        lemma_key_products_len(f, key, size, count - 1);
        let s = ints(polynomial_of(key, count - 1, size));
        lemma_polynomial_of_len(key, count - 1, dimension, size);
        let before = key_products(f, key, size, count - 1);
        let x = f(count - 1);
        assert(x.len() == size);
        if by_monomial {
            assert(h(count - 1) == monomial_multiple(x, degree));
            lemma_product_of_monomial_multiple(x, s, degree);
            lemma_monomial_multiple_linear(before, product(x, s), 0, degree);
        } else {
            assert(h(count - 1) == product(multiplier, x));
            lemma_product_associative(multiplier, x, s);
            lemma_product_linear_right(multiplier, before, product(x, s), 0);
        }
    } else {
        let zero = poly_zero(size as nat);
        if by_monomial {
            assert forall|t: int| 0 <= t < size implies monomial_multiple(zero, degree)[t]
                == zero[t] by {
                lemma_degree_residues(t - degree, size);
            }
            assert(monomial_multiple(zero, degree) =~= zero);
        } else {
            assert forall|t: int| 0 <= t < size implies product(multiplier, zero)[t]
                == zero[t] by {
                let terms = |i: int| product_term(multiplier, zero, t, i);
                assert forall|i: int| 0 <= i < size implies #[trigger] terms(i) == 0 by {
                    lemma_degree_residues(t - i, size);
                    assert(multiplier[i] * 0 == 0) by (nonlinear_arith);
                    assert(multiplier[i] * (-0) == 0) by (nonlinear_arith);
                }
                crate::core_crypto::commons::sums::lemma_sum_of_zeros(terms, size);
            }
            assert(product(multiplier, zero) =~= zero);
        }
    }
}

/// The phase of the multiples of a family by a polynomial, or by a monomial, is the
/// multiple of the phase.
pub proof fn lemma_phase_of_multiples(
    h: spec_fn(int) -> Seq<int>,
    f: spec_fn(int) -> Seq<int>,
    key: Seq<u64>,
    size: int,
    dimension: int,
    by_monomial: bool,
    multiplier: Seq<int>,
    degree: int,
)
    requires
        is_glwe_key(key, size, dimension),
        is_family(f, size, dimension),
        multiplier.len() == size,
        by_monomial ==> forall|c: int|
            0 <= c <= dimension ==> #[trigger] h(c) == monomial_multiple(f(c), degree),
        !by_monomial ==> forall|c: int|
            0 <= c <= dimension ==> #[trigger] h(c) == product(multiplier, f(c)),
    ensures
        by_monomial ==> phase_of(h, key, size, dimension) == monomial_multiple(
            phase_of(f, key, size, dimension),
            degree,
        ),
        !by_monomial ==> phase_of(h, key, size, dimension) == product(
            multiplier,
            phase_of(f, key, size, dimension),
        ),
{
    lemma_key_products_of_multiples(
        h,
        f,
        key,
        size,
        dimension,
        dimension,
        by_monomial,
        multiplier,
        degree,
    );
    lemma_key_products_len(f, key, size, dimension);
    let body = f(dimension);
    assert(body.len() == size);
    let products = key_products(f, key, size, dimension);
    if by_monomial {
        assert(h(dimension) == monomial_multiple(body, degree));
        lemma_monomial_multiple_linear(body, products, 0, degree);
    } else {
        assert(h(dimension) == product(multiplier, body));
        lemma_product_linear_right(multiplier, body, products, 0);
    }
}

} // verus!
