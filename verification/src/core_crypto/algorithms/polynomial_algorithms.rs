//! Polynomials modulo `X^N + 1` with coefficients on the torus, and lists of them in one
//! buffer.
use crate::core_crypto::algorithms::slice_algorithms::slice_sum;
use crate::core_crypto::commons::numeric::{lemma_torus_absorbs, lemma_wrapping_is_torus, torus};
use vstd::prelude::*;

verus! {

/// The polynomial of index `index` in a buffer of polynomials of `size` coefficients each.
pub open spec fn polynomial_of(buffer: Seq<u64>, index: int, size: int) -> Seq<u64> {
    buffer.subrange(index * size, (index + 1) * size)
}

/// The buffer that holds, one after the other, the polynomials `f(0)`, ..., `f(count - 1)`.
pub open spec fn concat_polynomials(f: spec_fn(int) -> Seq<u64>, count: int) -> Seq<u64>
    decreases count,
{
    if count <= 0 {
        Seq::empty()
    } else {
        concat_polynomials(f, count - 1) + f(count - 1)
    }
}

/// A buffer made of polynomials of one size has them at their indices.
pub proof fn lemma_concat_polynomials(f: spec_fn(int) -> Seq<u64>, count: int, size: int)
    requires
        count >= 0,
        size >= 0,
        forall|i: int| 0 <= i < count ==> (#[trigger] f(i)).len() == size,
    ensures
        concat_polynomials(f, count).len() == count * size,
        forall|i: int|
            0 <= i < count ==> #[trigger] polynomial_of(concat_polynomials(f, count), i, size)
                == f(i),
    decreases count,
{
    if count > 0 {
        lemma_concat_polynomials(f, count - 1, size);
        let before = concat_polynomials(f, count - 1);
        let all = concat_polynomials(f, count);
        assert((count - 1) * size + size == count * size) by (nonlinear_arith);
        assert forall|i: int| 0 <= i < count implies #[trigger] polynomial_of(all, i, size) == f(
            i,
        ) by {
            assert((i + 1) * size == i * size + size) by (nonlinear_arith);
            assert(0 <= i * size) by (nonlinear_arith)
                requires
                    i >= 0,
                    size >= 0,
            ;
            if i < count - 1 {
                assert((i + 1) * size <= (count - 1) * size) by (nonlinear_arith)
                    requires
                        i + 1 <= count - 1,
                        size >= 0,
                ;
                assert(polynomial_of(before, i, size) == f(i));
                assert(polynomial_of(all, i, size) =~= polynomial_of(before, i, size));
            } else {
                assert(polynomial_of(all, i, size) =~= f(i));
            }
        }
    } else {
        assert(count * size == 0) by (nonlinear_arith)
            requires
                count == 0,
        ;
    }
}

/// The bounds of the polynomial of index `index` in a buffer that holds more than `index`
/// polynomials.
pub proof fn lemma_polynomial_bounds(index: int, count: int, size: int)
    requires
        0 <= index < count,
        size >= 0,
    ensures
        0 <= index * size <= (index + 1) * size <= count * size,
        (index + 1) * size == index * size + size,
{
    assert(0 <= index * size) by (nonlinear_arith)
        requires
            index >= 0,
            size >= 0,
    ;
    assert((index + 1) * size == index * size + size) by (nonlinear_arith);
    assert((index + 1) * size <= count * size) by (nonlinear_arith)
        requires
            index + 1 <= count,
            size >= 0,
    ;
}

/// The term of index `i` in the coefficient of degree `t` of the product of `a` and `b`
/// modulo `X^N + 1`: degrees that reach `N` wrap around with the opposite sign.
pub open spec fn negacyclic_term(a: Seq<u64>, b: Seq<u64>, t: int, i: int) -> int {
    if i <= t {
        a[i] * b[t - i]
    } else {
        -(a[i] * b[a.len() + t - i])
    }
}

/// The sum of the first `upto` terms of the coefficient of degree `t`.
pub open spec fn negacyclic_partial(a: Seq<u64>, b: Seq<u64>, t: int, upto: int) -> int
    decreases upto,
{
    if upto <= 0 {
        0
    } else {
        negacyclic_partial(a, b, t, upto - 1) + negacyclic_term(a, b, t, upto - 1)
    }
}

/// The product of two polynomials modulo `X^N + 1`, with coefficients on the torus.
pub open spec fn negacyclic_product(a: Seq<u64>, b: Seq<u64>) -> Seq<u64> {
    Seq::new(a.len(), |t: int| torus(negacyclic_partial(a, b, t, a.len() as int)))
}

/// The product of the polynomial `p` and the monomial `X^degree` modulo `X^N + 1`.
pub open spec fn monomial_product(p: Seq<u64>, degree: int) -> Seq<u64> {
    Seq::new(
        p.len(),
        |t: int|
            {
                let source = (t - degree) % (2 * p.len() as int);
                if source < p.len() {
                    p[source]
                } else {
                    torus(-p[source - p.len()])
                }
            },
    )
}

/// Every polynomial of a buffer multiplied by the monomial `X^degree`.
pub open spec fn monomial_product_of_each(buffer: Seq<u64>, size: int, degree: int, count: int) -> Seq<
    u64,
> {
    concat_polynomials(|j: int| monomial_product(polynomial_of(buffer, j, size), degree), count)
}

/// Borrow the polynomial of index `index` of a buffer.
pub fn polynomial(buffer: &[u64], index: usize, size: usize) -> (p: &[u64])
    requires
        (index + 1) * size <= buffer@.len(),
    ensures
        p@ == polynomial_of(buffer@, index as int, size as int),
        p@.len() == size,
{
    proof {
        lemma_polynomial_bounds(index as int, index + 1, size as int);
    }
    let len = buffer.len();
    assert((index + 1) * size <= len);
    let start = index * size;
    vstd::slice::slice_subrange(buffer, start, start + size)
}

/// Adding a product to a reduced sum with wrapping gives the reduced sum with the product,
/// and likewise for subtracting it.
pub proof fn lemma_accumulate_product(acc: u64, partial: int, x: u64, y: u64)
    requires
        acc == torus(partial),
    ensures
        vstd::wrapping::u64_specs::wrapping_add(
            acc,
            vstd::wrapping::u64_specs::wrapping_mul(x, y),
        ) == torus(partial + x * y),
        vstd::wrapping::u64_specs::wrapping_sub(
            acc,
            vstd::wrapping::u64_specs::wrapping_mul(x, y),
        ) == torus(partial - x * y),
{
    let product = vstd::wrapping::u64_specs::wrapping_mul(x, y);
    lemma_wrapping_is_torus(x, y);
    lemma_wrapping_is_torus(acc, product);
    lemma_torus_absorbs(partial, x * y);
    lemma_torus_absorbs(partial, product as int);
}

/// Add the product of `lhs` and `rhs` modulo `X^N + 1` to `output`.
pub fn polynomial_wrapping_add_mul_assign(output: &mut [u64], lhs: &[u64], rhs: &[u64])
    requires
        old(output)@.len() == lhs@.len(),
        lhs@.len() == rhs@.len(),
    ensures
        final(output)@ == slice_sum(old(output)@, negacyclic_product(lhs@, rhs@)),
{
    let n = output.len();
    let mut t: usize = 0;
    while t < n
        invariant
            n == output@.len(),
            n == old(output)@.len(),
            n == lhs@.len(),
            n == rhs@.len(),
            t <= n,
            forall|j: int|
                0 <= j < t ==> output@[j] == slice_sum(
                    old(output)@,
                    negacyclic_product(lhs@, rhs@),
                )[j],
            forall|j: int| t <= j < n ==> output@[j] == old(output)@[j],
        decreases n - t,
    {
        let mut acc: u64 = 0;
        let mut i: usize = 0;
        while i < n
            invariant
                n == lhs@.len(),
                n == rhs@.len(),
                t < n,
                i <= n,
                acc == torus(negacyclic_partial(lhs@, rhs@, t as int, i as int)),
            decreases n - i,
        {
            proof {
                let partial = negacyclic_partial(lhs@, rhs@, t as int, i as int);
                if i <= t {
                    lemma_accumulate_product(acc, partial, lhs@[i as int], rhs@[t - i]);
                } else {
                    lemma_accumulate_product(acc, partial, lhs@[i as int], rhs@[n + t - i]);
                }
            }
            if i <= t {
                acc = acc.wrapping_add(lhs[i].wrapping_mul(rhs[t - i]));
            } else {
                acc = acc.wrapping_sub(lhs[i].wrapping_mul(rhs[n - i + t]));
            }
            i += 1;
        }
        proof {
            lemma_wrapping_is_torus(output@[t as int], acc);
        }
        let value = output[t].wrapping_add(acc);
        output[t] = value;
        t += 1;
    }
    assert(output@ =~= slice_sum(old(output)@, negacyclic_product(lhs@, rhs@)));
}

/// Append to `output` the product of `input` and the monomial `X^degree` modulo `X^N + 1`.
pub fn append_monomial_product(output: &mut Vec<u64>, input: &[u64], degree: usize)
    requires
        degree < 2 * input@.len(),
        2 * input@.len() <= usize::MAX,
    ensures
        final(output)@ == old(output)@ + monomial_product(input@, degree as int),
{
    let n = input.len();
    let mut t: usize = 0;
    while t < n
        invariant
            n == input@.len(),
            2 * n <= usize::MAX,
            degree < 2 * n,
            t <= n,
            output@.len() == old(output)@.len() + t,
            forall|j: int| 0 <= j < old(output)@.len() ==> output@[j] == old(output)@[j],
            forall|j: int|
                0 <= j < t ==> output@[old(output)@.len() + j] == monomial_product(
                    input@,
                    degree as int,
                )[j],
        decreases n - t,
    {
        let source = if t >= degree {
            t - degree
        } else {
            2 * n - (degree - t)
        };
        proof {
            vstd::arithmetic::div_mod::lemma_fundamental_div_mod_converse(
                t - degree,
                2 * n,
                if t >= degree {
                    0
                } else {
                    -1
                },
                source as int,
            );
            if source >= n {
                lemma_wrapping_is_torus(0, input@[source - n]);
            }
        }
        let value = if source < n {
            input[source]
        } else {
            0u64.wrapping_sub(input[source - n])
        };
        output.push(value);
        t += 1;
    }
    assert(output@ =~= old(output)@ + monomial_product(input@, degree as int));
}

/// Multiply each of the `count` polynomials of `input` by the monomial `X^degree`.
pub fn monomial_product_of_polynomials(input: &[u64], size: usize, degree: usize, count: usize) -> (output:
    Vec<u64>)
    requires
        input@.len() == count * size,
        degree < 2 * size,
        2 * size <= usize::MAX,
    ensures
        output@ == monomial_product_of_each(input@, size as int, degree as int, count as int),
        output@.len() == count * size,
{
    let ghost f = |j: int| monomial_product(polynomial_of(input@, j, size as int), degree as int);
    let mut output: Vec<u64> = Vec::new();
    let mut j: usize = 0;
    while j < count
        invariant
            input@.len() == count * size,
            degree < 2 * size,
            2 * size <= usize::MAX,
            j <= count,
            f == |j: int| monomial_product(polynomial_of(input@, j, size as int), degree as int),
            output@ == concat_polynomials(f, j as int),
        decreases count - j,
    {
        proof {
            lemma_polynomial_bounds(j as int, count as int, size as int);
        }
        let p = polynomial(input, j, size);
        append_monomial_product(&mut output, p, degree);
        j += 1;
    }
    proof {
        assert forall|i: int| 0 <= i < count implies (#[trigger] f(i)).len() == size by {
            lemma_polynomial_bounds(i, count as int, size as int);
        }
        lemma_concat_polynomials(f, count as int, size as int);
    }
    output
}

} // verus!
