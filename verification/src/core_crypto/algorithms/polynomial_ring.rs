//! The ring of integer polynomials modulo `X^N + 1`.
//!
//! A polynomial is the sequence of its `N` coefficients. The laws of the ring are stated on
//! integers; polynomials on the torus are their reductions.
use crate::core_crypto::commons::sums::{
    column_sum,
    lemma_sum_equal,
    lemma_sum_is_column_sum,
    lemma_sum_is_row_sum,
    lemma_sum_of_columns,
    lemma_sum_of_rows,
    lemma_sum_of_scaled,
    lemma_sum_over_period,
    lemma_sum_swap,
    row_sum,
    sum_to,
};
use vstd::prelude::*;

verus! {

/// The coefficient of degree `e` of a polynomial, for any integer `e`: degrees are taken
/// modulo `2N`, and those in `[N, 2N)` come with the opposite sign, since `X^N` is `-1`.
pub open spec fn coefficient(p: Seq<int>, e: int) -> int {
    let n = p.len() as int;
    if e % (2 * n) < n {
        p[e % n]
    } else {
        -p[e % n]
    }
}

/// The term of index `i` of the coefficient of degree `e` of a product.
pub open spec fn product_term(a: Seq<int>, b: Seq<int>, e: int, i: int) -> int {
    a[i] * coefficient(b, e - i)
}

/// The coefficient of degree `e` of the product of two polynomials, for any integer `e`.
pub open spec fn product_coefficient(a: Seq<int>, b: Seq<int>, e: int) -> int {
    sum_to(|i: int| product_term(a, b, e, i), a.len() as int)
}

/// The product of two polynomials.
pub open spec fn product(a: Seq<int>, b: Seq<int>) -> Seq<int> {
    Seq::new(a.len(), |t: int| product_coefficient(a, b, t))
}

/// The product of a polynomial and the monomial `X^degree`, for any integer `degree`.
pub open spec fn monomial_multiple(p: Seq<int>, degree: int) -> Seq<int> {
    Seq::new(p.len(), |t: int| coefficient(p, t - degree))
}

/// The sum of two polynomials.
pub open spec fn poly_sum(a: Seq<int>, b: Seq<int>) -> Seq<int> {
    Seq::new(a.len(), |t: int| a[t] + b[t])
}

/// The difference of two polynomials.
pub open spec fn poly_difference(a: Seq<int>, b: Seq<int>) -> Seq<int> {
    Seq::new(a.len(), |t: int| a[t] - b[t])
}

/// The product of a polynomial and an integer.
pub open spec fn poly_scaled(a: Seq<int>, factor: int) -> Seq<int> {
    Seq::new(a.len(), |t: int| factor * a[t])
}

/// The constant polynomial `value`.
pub open spec fn poly_constant(value: int, size: nat) -> Seq<int> {
    Seq::new(
        size,
        |t: int|
            if t == 0 {
                value
            } else {
                0
            },
    )
}

/// Whether every coefficient of a polynomial is within `bound` of zero.
pub open spec fn is_bounded(p: Seq<int>, bound: int) -> bool {
    forall|t: int| 0 <= t < p.len() ==> -bound <= #[trigger] p[t] <= bound
}

/// The residues of a degree modulo `N` and modulo `2N`.
pub proof fn lemma_degree_residues(e: int, n: int)
    requires
        n >= 1,
    ensures
        0 <= e % n < n,
        0 <= e % (2 * n) < 2 * n,
        e % (2 * n) < n ==> e % n == e % (2 * n),
        e % (2 * n) >= n ==> e % n == e % (2 * n) - n,
{
    vstd::arithmetic::div_mod::lemma_mod_bound(e, n);
    vstd::arithmetic::div_mod::lemma_mod_bound(e, 2 * n);
    vstd::arithmetic::div_mod::lemma_fundamental_div_mod(e, 2 * n);
    let q = e / (2 * n);
    let m = e % (2 * n);
    if m < n {
        assert(e == (2 * q) * n + m) by (nonlinear_arith)
            requires
                e == (2 * n) * q + m,
        ;
        vstd::arithmetic::div_mod::lemma_fundamental_div_mod_converse(e, n, 2 * q, m);
    } else {
        assert(e == (2 * q + 1) * n + (m - n)) by (nonlinear_arith)
            requires
                e == (2 * n) * q + m,
        ;
        vstd::arithmetic::div_mod::lemma_fundamental_div_mod_converse(e, n, 2 * q + 1, m - n);
    }
}

/// A degree in `[0, N)` has the coefficient of the sequence.
pub proof fn lemma_coefficient_in_range(p: Seq<int>, e: int)
    requires
        0 <= e < p.len(),
    ensures
        coefficient(p, e) == p[e],
{
    let n = p.len() as int;
    vstd::arithmetic::div_mod::lemma_small_mod(e as nat, (2 * n) as nat);
    vstd::arithmetic::div_mod::lemma_small_mod(e as nat, n as nat);
}

/// `N` more in the degree is the opposite coefficient.
pub proof fn lemma_coefficient_half_period(p: Seq<int>, e: int)
    requires
        p.len() >= 1,
    ensures
        coefficient(p, e + p.len()) == -coefficient(p, e),
        coefficient(p, e - p.len()) == -coefficient(p, e),
{
    let n = p.len() as int;
    lemma_degree_residues(e, n);
    lemma_degree_residues(e + n, n);
    lemma_degree_residues(e - n, n);
    let m = e % (2 * n);
    vstd::arithmetic::div_mod::lemma_fundamental_div_mod(e, 2 * n);
    let q = e / (2 * n);
    if m < n {
        assert(e - n == (q - 1) * (2 * n) + (m + n)) by (nonlinear_arith)
            requires
                e == (2 * n) * q + m,
        ;
        assert(e + n == q * (2 * n) + (m + n)) by (nonlinear_arith)
            requires
                e == (2 * n) * q + m,
        ;
        vstd::arithmetic::div_mod::lemma_fundamental_div_mod_converse(e + n, 2 * n, q, m + n);
        vstd::arithmetic::div_mod::lemma_fundamental_div_mod_converse(e - n, 2 * n, q - 1, m + n);
    } else {
        assert(e + n == (q + 1) * (2 * n) + (m - n)) by (nonlinear_arith)
            requires
                e == (2 * n) * q + m,
        ;
        assert(e - n == q * (2 * n) + (m - n)) by (nonlinear_arith)
            requires
                e == (2 * n) * q + m,
        ;
        vstd::arithmetic::div_mod::lemma_fundamental_div_mod_converse(
            e + n,
            2 * n,
            q + 1,
            m - n,
        );
        vstd::arithmetic::div_mod::lemma_fundamental_div_mod_converse(e - n, 2 * n, q, m - n);
    }
}

/// The coefficients have the period `2N` in the degree.
pub proof fn lemma_coefficient_period(p: Seq<int>, e: int, k: int)
    requires
        p.len() >= 1,
    ensures
        coefficient(p, e + k * (2 * p.len())) == coefficient(p, e),
{
    let n = p.len() as int;
    vstd::arithmetic::div_mod::lemma_mod_multiples_vanish(k, e, 2 * n);
    vstd::arithmetic::div_mod::lemma_mod_multiples_vanish(2 * k, e, n);
    assert(n * (2 * k) + e == e + k * (2 * n)) by (nonlinear_arith);
    assert((2 * n) * k + e == e + k * (2 * n)) by (nonlinear_arith);
}

/// A coefficient of any degree of a bounded polynomial is within the bound.
pub proof fn lemma_coefficient_bounded(p: Seq<int>, e: int, bound: int)
    requires
        p.len() >= 1,
        is_bounded(p, bound),
    ensures
        -bound <= coefficient(p, e) <= bound,
{
    lemma_degree_residues(e, p.len() as int);
    assert(-bound <= p[e % (p.len() as int)] <= bound);
}

/// The coefficients of any degree of a multiple by a monomial are those of the polynomial,
/// with the degree moved.
pub proof fn lemma_coefficient_of_monomial_multiple(p: Seq<int>, degree: int, e: int)
    requires
        p.len() >= 1,
    ensures
        coefficient(monomial_multiple(p, degree), e) == coefficient(p, e - degree),
{
    let n = p.len() as int;
    let multiple = monomial_multiple(p, degree);
    lemma_degree_residues(e, n);
    let m = e % (2 * n);
    let r = e % n;
    vstd::arithmetic::div_mod::lemma_fundamental_div_mod(e, 2 * n);
    let q = e / (2 * n);
    assert(multiple[r] == coefficient(p, r - degree));
    if m < n {
        lemma_coefficient_period(p, r - degree, q);
        assert(r - degree + q * (2 * n) == e - degree) by (nonlinear_arith)
            requires
                e == (2 * n) * q + m,
                r == m,
        ;
    } else {
        lemma_coefficient_period(p, r - degree + n, q);
        lemma_coefficient_half_period(p, r - degree);
        assert(r - degree + n + q * (2 * n) == e - degree) by (nonlinear_arith)
            requires
                e == (2 * n) * q + m,
                r == m - n,
        ;
    }
}

/// Multiplying by two monomials is multiplying by their product.
pub proof fn lemma_monomial_multiple_twice(p: Seq<int>, first: int, second: int)
    requires
        p.len() >= 1,
    ensures
        monomial_multiple(monomial_multiple(p, first), second) == monomial_multiple(
            p,
            first + second,
        ),
{
    let twice = monomial_multiple(monomial_multiple(p, first), second);
    let once = monomial_multiple(p, first + second);
    assert forall|t: int| 0 <= t < p.len() implies twice[t] == once[t] by {
        lemma_coefficient_of_monomial_multiple(p, first, t - second);
    }
    assert(twice =~= once);
}

/// Multiplying by the monomial of degree zero changes nothing.
pub proof fn lemma_monomial_multiple_by_one(p: Seq<int>)
    requires
        p.len() >= 1,
    ensures
        monomial_multiple(p, 0) == p,
{
    assert forall|t: int| 0 <= t < p.len() implies monomial_multiple(p, 0)[t] == p[t] by {
        lemma_coefficient_in_range(p, t);
    }
    assert(monomial_multiple(p, 0) =~= p);
}

/// A multiple by a monomial of a bounded polynomial is bounded.
pub proof fn lemma_monomial_multiple_bounded(p: Seq<int>, degree: int, bound: int)
    requires
        p.len() >= 1,
        is_bounded(p, bound),
    ensures
        is_bounded(monomial_multiple(p, degree), bound),
{
    assert forall|t: int| 0 <= t < p.len() implies -bound <= #[trigger] monomial_multiple(
        p,
        degree,
    )[t] <= bound by {
        lemma_coefficient_bounded(p, t - degree, bound);
    }
}

/// `N` more in the degree is the opposite coefficient of a product.
pub proof fn lemma_product_coefficient_half_period(a: Seq<int>, b: Seq<int>, e: int)
    requires
        a.len() >= 1,
        b.len() == a.len(),
    ensures
        product_coefficient(a, b, e + a.len()) == -product_coefficient(a, b, e),
{
    let n = a.len() as int;
    let here = |i: int| product_term(a, b, e, i);
    let there = |i: int| product_term(a, b, e + n, i);
    assert forall|i: int| 0 <= i < n implies #[trigger] there(i) == (-1) * here(i) by {
        lemma_coefficient_half_period(b, e - i);
        assert(a[i] * (-coefficient(b, e - i)) == (-1) * (a[i] * coefficient(b, e - i)))
            by (nonlinear_arith);
    }
    lemma_sum_of_scaled(there, here, -1, n);
}

/// The coefficients of a product have the period `2N` in the degree.
pub proof fn lemma_product_coefficient_period(a: Seq<int>, b: Seq<int>, e: int, k: int)
    requires
        a.len() >= 1,
        b.len() == a.len(),
    ensures
        product_coefficient(a, b, e + k * (2 * a.len())) == product_coefficient(a, b, e),
{
    let n = a.len() as int;
    let here = |i: int| product_term(a, b, e, i);
    let there = |i: int| product_term(a, b, e + k * (2 * n), i);
    assert forall|i: int| 0 <= i < n implies #[trigger] there(i) == here(i) by {
        lemma_coefficient_period(b, e - i, k);
    }
    lemma_sum_equal(there, here, n);
}

/// The coefficient of any degree of a product is the sum of its terms for that degree.
pub proof fn lemma_coefficient_of_product(a: Seq<int>, b: Seq<int>, e: int)
    requires
        a.len() >= 1,
        b.len() == a.len(),
    ensures
        coefficient(product(a, b), e) == product_coefficient(a, b, e),
{
    let n = a.len() as int;
    lemma_degree_residues(e, n);
    let m = e % (2 * n);
    let r = e % n;
    vstd::arithmetic::div_mod::lemma_fundamental_div_mod(e, 2 * n);
    let q = e / (2 * n);
    assert(product(a, b)[r] == product_coefficient(a, b, r));
    if m < n {
        lemma_product_coefficient_period(a, b, r, q);
        assert(r + q * (2 * n) == e) by (nonlinear_arith)
            requires
                e == (2 * n) * q + m,
                r == m,
        ;
    } else {
        lemma_product_coefficient_period(a, b, r + n, q);
        lemma_product_coefficient_half_period(a, b, r);
        assert(r + n + q * (2 * n) == e) by (nonlinear_arith)
            requires
                e == (2 * n) * q + m,
                r == m - n,
        ;
    }
}

/// The sum over one period of the products of the coefficients of two polynomials, whose
/// degrees add up to `t - j`, can start at any degree.
pub proof fn lemma_product_coefficient_moved(a: Seq<int>, b: Seq<int>, j: int, t: int)
    requires
        a.len() >= 1,
        b.len() == a.len(),
    ensures
        sum_to(|i: int| coefficient(a, i - j) * coefficient(b, t - i), a.len() as int)
            == product_coefficient(a, b, t - j),
{
    let n = a.len() as int;
    let f = |i: int| coefficient(a, i - j) * coefficient(b, t - i);
    let shifted = |i: int| product_term(a, b, t - j, i);
    assert forall|i: int| #[trigger] f(i + n) == f(i) by {
        lemma_coefficient_half_period(a, i - j);
        lemma_coefficient_half_period(b, t - i);
        assert(i + n - j == (i - j) + n);
        assert(t - (i + n) == (t - i) - n);
        assert((-coefficient(a, i - j)) * (-coefficient(b, t - i)) == coefficient(a, i - j)
            * coefficient(b, t - i)) by (nonlinear_arith);
    }
    assert forall|i: int| 0 <= i < n implies #[trigger] shifted(i) == f(j + i) by {
        lemma_coefficient_in_range(a, i);
        assert(j + i - j == i);
        assert(t - (j + i) == t - j - i);
    }
    lemma_sum_over_period(shifted, f, n, j);
}

/// Multiplying by a monomial commutes with the product: `(X^d * a) * b = X^d * (a * b)`.
pub proof fn lemma_product_of_monomial_multiple(a: Seq<int>, b: Seq<int>, degree: int)
    requires
        a.len() >= 1,
        b.len() == a.len(),
    ensures
        product(monomial_multiple(a, degree), b) == monomial_multiple(product(a, b), degree),
{
    let n = a.len() as int;
    let left = product(monomial_multiple(a, degree), b);
    let right = monomial_multiple(product(a, b), degree);
    assert forall|t: int| 0 <= t < n implies left[t] == right[t] by {
        let terms = |i: int| product_term(monomial_multiple(a, degree), b, t, i);
        let moved = |i: int| coefficient(a, i - degree) * coefficient(b, t - i);
        assert forall|i: int| 0 <= i < n implies #[trigger] terms(i) == moved(i) by {}
        lemma_sum_equal(terms, moved, n);
        lemma_product_coefficient_moved(a, b, degree, t);
        lemma_coefficient_of_product(a, b, t - degree);
    }
    assert(left =~= right);
}

/// The product is associative: `(d * a) * s = d * (a * s)`.
pub proof fn lemma_product_associative(d: Seq<int>, a: Seq<int>, s: Seq<int>)
    requires
        d.len() >= 1,
        a.len() == d.len(),
        s.len() == d.len(),
    ensures
        product(product(d, a), s) == product(d, product(a, s)),
{
    let n = d.len() as int;
    let left = product(product(d, a), s);
    let right = product(d, product(a, s));
    assert forall|t: int| 0 <= t < n implies left[t] == right[t] by {
        // the table of the terms: row `i` for the degree of `d * a`, column `j` for the one
        // of `d`
        let g = |i: int, j: int| (d[j] * coefficient(a, i - j)) * coefficient(s, t - i);
        let by_rows = |i: int| product_term(product(d, a), s, t, i);
        let by_columns = |j: int| product_term(d, product(a, s), t, j);
        assert forall|i: int| 0 <= i < n implies #[trigger] by_rows(i) == row_sum(g, i, n) by {
            let inner = |j: int| product_term(d, a, i, j);
            let scaled = |j: int| g(i, j);
            assert forall|j: int| 0 <= j < n implies #[trigger] scaled(j) == coefficient(
                s,
                t - i,
            ) * inner(j) by {
                assert((d[j] * coefficient(a, i - j)) * coefficient(s, t - i) == coefficient(
                    s,
                    t - i,
                ) * (d[j] * coefficient(a, i - j))) by (nonlinear_arith);
            }
            lemma_sum_of_scaled(scaled, inner, coefficient(s, t - i), n);
            lemma_sum_is_row_sum(scaled, g, i, n);
            let value = product(d, a)[i];
            let total = sum_to(inner, n);
            let factor = coefficient(s, t - i);
            assert(value == total);
            assert(value * factor == factor * total) by (nonlinear_arith)
                requires
                    value == total,
            ;
        }
        assert forall|j: int| 0 <= j < n implies #[trigger] by_columns(j) == column_sum(
            g,
            j,
            n,
        ) by {
            let moved = |i: int| coefficient(a, i - j) * coefficient(s, t - i);
            let scaled = |i: int| g(i, j);
            assert forall|i: int| 0 <= i < n implies #[trigger] scaled(i) == d[j] * moved(i) by {
                assert((d[j] * coefficient(a, i - j)) * coefficient(s, t - i) == d[j] * (
                coefficient(a, i - j) * coefficient(s, t - i))) by (nonlinear_arith);
            }
            lemma_sum_of_scaled(scaled, moved, d[j], n);
            lemma_sum_is_column_sum(scaled, g, j, n);
            lemma_product_coefficient_moved(a, s, j, t);
            lemma_coefficient_of_product(a, s, t - j);
        }
        lemma_sum_of_rows(by_rows, g, n, n);
        lemma_sum_of_columns(by_columns, g, n, n);
        lemma_sum_swap(g, n, n);
    }
    assert(left =~= right);
}


/// The product is commutative.
pub proof fn lemma_product_commutative(a: Seq<int>, b: Seq<int>)
    requires
        a.len() >= 1,
        b.len() == a.len(),
    ensures
        product(a, b) == product(b, a),
{
    let n = a.len() as int;
    assert forall|t: int| 0 <= t < n implies product(a, b)[t] == product(b, a)[t] by {
        lemma_product_coefficient_commutative(a, b, t);
    }
    assert(product(a, b) =~= product(b, a));
}

/// The coefficients of a product do not depend on the order of the factors.
pub proof fn lemma_product_coefficient_commutative(a: Seq<int>, b: Seq<int>, t: int)
    requires
        a.len() >= 1,
        b.len() == a.len(),
    ensures
        product_coefficient(a, b, t) == product_coefficient(b, a, t),
{
    let n = a.len() as int;
    // f(i) = a_i * b_(t - i), with coefficients of any degree, has the period N
    let f = |i: int| coefficient(a, i) * coefficient(b, t - i);
    assert forall|i: int| #[trigger] f(i + n) == f(i) by {
        lemma_coefficient_half_period(a, i);
        lemma_coefficient_half_period(b, t - i);
        assert(t - (i + n) == (t - i) - n);
        assert((-coefficient(a, i)) * (-coefficient(b, t - i)) == coefficient(a, i)
            * coefficient(b, t - i)) by (nonlinear_arith);
    }
    let left = |i: int| product_term(a, b, t, i);
    assert forall|i: int| 0 <= i < n implies #[trigger] left(i) == f(i) by {
        lemma_coefficient_in_range(a, i);
    }
    lemma_sum_equal(left, f, n);
    // the terms of the other order are f(t - j): the values of f on the window that ends
    // at t, read from its last index down
    let right = |j: int| product_term(b, a, t, j);
    let window = |i: int| f(t - n + 1 + i);
    assert forall|j: int| 0 <= j < n implies #[trigger] right(j) == window(n - 1 - j) by {
        lemma_coefficient_in_range(b, j);
        assert(t - n + 1 + (n - 1 - j) == t - j);
        assert(t - (t - j) == j);
        assert(coefficient(a, t - j) * coefficient(b, j) == coefficient(b, j) * coefficient(
            a,
            t - j,
        )) by (nonlinear_arith);
    }
    crate::core_crypto::commons::sums::lemma_sum_reversed(right, window, n);
    lemma_sum_over_period(window, f, n, t - n + 1);
}

/// The coefficients of any degree of a sum, of a difference and of a multiple.
pub proof fn lemma_coefficient_linear(a: Seq<int>, b: Seq<int>, factor: int, e: int)
    requires
        a.len() >= 1,
        b.len() == a.len(),
    ensures
        coefficient(poly_sum(a, b), e) == coefficient(a, e) + coefficient(b, e),
        coefficient(poly_difference(a, b), e) == coefficient(a, e) - coefficient(b, e),
        coefficient(poly_scaled(a, factor), e) == factor * coefficient(a, e),
{
    lemma_degree_residues(e, a.len() as int);
    let r = e % (a.len() as int);
    assert(poly_sum(a, b)[r] == a[r] + b[r]);
    assert(poly_difference(a, b)[r] == a[r] - b[r]);
    assert(poly_scaled(a, factor)[r] == factor * a[r]);
    assert(-(factor * a[r]) == factor * (-a[r])) by (nonlinear_arith);
}

/// The product distributes over sums and differences and commutes with multiples, in its
/// second factor.
pub proof fn lemma_product_linear_right(a: Seq<int>, b: Seq<int>, c: Seq<int>, factor: int)
    requires
        a.len() >= 1,
        b.len() == a.len(),
        c.len() == a.len(),
    ensures
        product(a, poly_sum(b, c)) == poly_sum(product(a, b), product(a, c)),
        product(a, poly_difference(b, c)) == poly_difference(product(a, b), product(a, c)),
        product(a, poly_scaled(b, factor)) == poly_scaled(product(a, b), factor),
{
    let n = a.len() as int;
    assert forall|t: int| 0 <= t < n implies product(a, poly_sum(b, c))[t] == product(a, b)[t]
        + product(a, c)[t] && product(a, poly_difference(b, c))[t] == product(a, b)[t] - product(
        a,
        c,
    )[t] && product(a, poly_scaled(b, factor))[t] == factor * product(a, b)[t] by {
        let with_b = |i: int| product_term(a, b, t, i);
        let with_c = |i: int| product_term(a, c, t, i);
        let with_sum = |i: int| product_term(a, poly_sum(b, c), t, i);
        let with_difference = |i: int| product_term(a, poly_difference(b, c), t, i);
        let with_scaled = |i: int| product_term(a, poly_scaled(b, factor), t, i);
        assert forall|i: int| 0 <= i < n implies #[trigger] with_sum(i) == with_b(i) + with_c(
            i,
        ) by {
            lemma_coefficient_linear(b, c, factor, t - i);
            let x = a[i];
            let y = coefficient(b, t - i);
            let z = coefficient(c, t - i);
            assert(x * (y + z) == x * y + x * z) by (nonlinear_arith);
        }
        assert forall|i: int| 0 <= i < n implies #[trigger] with_difference(i) == with_b(i)
            - with_c(i) by {
            lemma_coefficient_linear(b, c, factor, t - i);
            let x = a[i];
            let y = coefficient(b, t - i);
            let z = coefficient(c, t - i);
            assert(x * (y - z) == x * y - x * z) by (nonlinear_arith);
        }
        assert forall|i: int| 0 <= i < n implies #[trigger] with_scaled(i) == factor * with_b(
            i,
        ) by {
            lemma_coefficient_linear(b, c, factor, t - i);
            let x = a[i];
            let y = coefficient(b, t - i);
            assert(x * (factor * y) == factor * (x * y)) by (nonlinear_arith);
        }
        crate::core_crypto::commons::sums::lemma_sum_of_sum(with_sum, with_b, with_c, n);
        crate::core_crypto::commons::sums::lemma_sum_of_difference(
            with_difference,
            with_b,
            with_c,
            n,
        );
        lemma_sum_of_scaled(with_scaled, with_b, factor, n);
    }
    assert(product(a, poly_sum(b, c)) =~= poly_sum(product(a, b), product(a, c)));
    assert(product(a, poly_difference(b, c)) =~= poly_difference(product(a, b), product(a, c)));
    assert(product(a, poly_scaled(b, factor)) =~= poly_scaled(product(a, b), factor));
}

/// The product distributes over sums and differences and commutes with multiples, in its
/// first factor.
pub proof fn lemma_product_linear_left(a: Seq<int>, b: Seq<int>, c: Seq<int>, factor: int)
    requires
        a.len() >= 1,
        b.len() == a.len(),
        c.len() == a.len(),
    ensures
        product(poly_sum(a, b), c) == poly_sum(product(a, c), product(b, c)),
        product(poly_difference(a, b), c) == poly_difference(product(a, c), product(b, c)),
        product(poly_scaled(a, factor), c) == poly_scaled(product(a, c), factor),
{
    lemma_product_linear_right(c, a, b, factor);
    lemma_product_commutative(poly_sum(a, b), c);
    lemma_product_commutative(poly_difference(a, b), c);
    lemma_product_commutative(poly_scaled(a, factor), c);
    lemma_product_commutative(a, c);
    lemma_product_commutative(b, c);
}

/// The product with a constant polynomial is the multiple by the constant.
pub proof fn lemma_product_with_constant(a: Seq<int>, value: int)
    requires
        a.len() >= 1,
    ensures
        product(a, poly_constant(value, a.len())) == poly_scaled(a, value),
{
    let n = a.len() as int;
    let constant = poly_constant(value, a.len());
    assert forall|t: int| 0 <= t < n implies product(a, constant)[t] == value * a[t] by {
        let terms = |i: int| product_term(a, constant, t, i);
        assert forall|i: int| 0 <= i < n && i != t implies #[trigger] terms(i) == 0 by {
            lemma_degree_residues(t - i, n);
            if i < t {
                vstd::arithmetic::div_mod::lemma_small_mod((t - i) as nat, n as nat);
            } else {
                vstd::arithmetic::div_mod::lemma_fundamental_div_mod_converse(
                    t - i,
                    n,
                    -1,
                    t - i + n,
                );
            }
            assert(constant[(t - i) % n] == 0);
            assert(a[i] * 0 == 0) by (nonlinear_arith);
            assert(a[i] * (-0) == 0) by (nonlinear_arith);
        }
        crate::core_crypto::commons::sums::lemma_sum_of_single(terms, n, t);
        lemma_coefficient_in_range(constant, 0);
        assert(a[t] * value == value * a[t]) by (nonlinear_arith);
    }
    assert(product(a, constant) =~= poly_scaled(a, value));
}

/// The coefficients of the product of two bounded polynomials are within `N` times the
/// product of the bounds.
pub proof fn lemma_product_bounded(a: Seq<int>, b: Seq<int>, bound_a: int, bound_b: int)
    requires
        a.len() >= 1,
        b.len() == a.len(),
        is_bounded(a, bound_a),
        is_bounded(b, bound_b),
        bound_a >= 0,
        bound_b >= 0,
    ensures
        is_bounded(product(a, b), a.len() * (bound_a * bound_b)),
{
    let n = a.len() as int;
    assert forall|t: int| 0 <= t < n implies -(n * (bound_a * bound_b)) <= #[trigger] product(
        a,
        b,
    )[t] <= n * (bound_a * bound_b) by {
        let terms = |i: int| product_term(a, b, t, i);
        assert forall|i: int| 0 <= i < n implies -(bound_a * bound_b) <= #[trigger] terms(i)
            <= bound_a * bound_b by {
            lemma_coefficient_bounded(b, t - i, bound_b);
            let x = a[i];
            let y = coefficient(b, t - i);
            assert(-(bound_a * bound_b) <= x * y <= bound_a * bound_b) by (nonlinear_arith)
                requires
                    -bound_a <= x <= bound_a,
                    -bound_b <= y <= bound_b,
                    bound_a >= 0,
                    bound_b >= 0,
            ;
        }
        crate::core_crypto::commons::sums::lemma_sum_bound(terms, n, bound_a * bound_b);
    }
}

/// Multiplying by a monomial distributes over sums and differences and commutes with
/// multiples.
pub proof fn lemma_monomial_multiple_linear(a: Seq<int>, b: Seq<int>, factor: int, degree: int)
    requires
        a.len() >= 1,
        b.len() == a.len(),
    ensures
        monomial_multiple(poly_sum(a, b), degree) == poly_sum(
            monomial_multiple(a, degree),
            monomial_multiple(b, degree),
        ),
        monomial_multiple(poly_difference(a, b), degree) == poly_difference(
            monomial_multiple(a, degree),
            monomial_multiple(b, degree),
        ),
        monomial_multiple(poly_scaled(a, factor), degree) == poly_scaled(
            monomial_multiple(a, degree),
            factor,
        ),
{
    assert forall|t: int| 0 <= t < a.len() implies monomial_multiple(poly_sum(a, b), degree)[t]
        == monomial_multiple(a, degree)[t] + monomial_multiple(b, degree)[t] && monomial_multiple(
        poly_difference(a, b),
        degree,
    )[t] == monomial_multiple(a, degree)[t] - monomial_multiple(b, degree)[t]
        && monomial_multiple(poly_scaled(a, factor), degree)[t] == factor * monomial_multiple(
        a,
        degree,
    )[t] by {
        lemma_coefficient_linear(a, b, factor, t - degree);
    }
    assert(monomial_multiple(poly_sum(a, b), degree) =~= poly_sum(
        monomial_multiple(a, degree),
        monomial_multiple(b, degree),
    ));
    assert(monomial_multiple(poly_difference(a, b), degree) =~= poly_difference(
        monomial_multiple(a, degree),
        monomial_multiple(b, degree),
    ));
    assert(monomial_multiple(poly_scaled(a, factor), degree) =~= poly_scaled(
        monomial_multiple(a, degree),
        factor,
    ));
}

} // verus!
