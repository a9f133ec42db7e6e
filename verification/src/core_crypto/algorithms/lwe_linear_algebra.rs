//! The phase of an LWE ciphertext is linear in the ciphertext.
use crate::core_crypto::algorithms::lwe_encryption::lwe_phase;
use crate::core_crypto::algorithms::slice_algorithms::{
    slice_difference_scaled,
    slice_scaled,
    slice_sum,
    sum_of_products,
};
use crate::core_crypto::commons::numeric::{
    congruent,
    lemma_congruent_ops,
    lemma_congruent_torus,
    torus,
};
use vstd::prelude::*;

verus! {

/// The dot product with a key of an element-wise sum is the sum of the dot products, on the
/// torus.
pub proof fn lemma_sum_of_products_of_sum(a: Seq<u64>, b: Seq<u64>, key: Seq<u64>)
    requires
        a.len() == key.len(),
        b.len() == key.len(),
    ensures
        congruent(
            sum_of_products(slice_sum(a, b), key),
            sum_of_products(a, key) + sum_of_products(b, key),
        ),
    decreases key.len(),
{
    if key.len() > 0 {
        lemma_sum_of_products_of_sum(a.drop_last(), b.drop_last(), key.drop_last());
        assert(slice_sum(a, b).drop_last() =~= slice_sum(a.drop_last(), b.drop_last()));
        let last = slice_sum(a, b).last();
        lemma_congruent_torus(a.last() + b.last());
        lemma_congruent_ops(last as int, a.last() + b.last(), key.last() as int, key.last() as int);
        lemma_congruent_ops(
            sum_of_products(slice_sum(a.drop_last(), b.drop_last()), key.drop_last()),
            sum_of_products(a.drop_last(), key.drop_last()) + sum_of_products(
                b.drop_last(),
                key.drop_last(),
            ),
            last * key.last(),
            (a.last() + b.last()) * key.last(),
        );
        assert((a.last() + b.last()) * key.last() == a.last() * key.last() + b.last()
            * key.last()) by (nonlinear_arith);
    }
}

/// The dot product with a key of `a - b * scalar` is the dot product of `a` minus `scalar`
/// times the one of `b`, on the torus.
pub proof fn lemma_sum_of_products_of_difference_scaled(
    a: Seq<u64>,
    b: Seq<u64>,
    scalar: u64,
    key: Seq<u64>,
)
    requires
        a.len() == key.len(),
        b.len() == key.len(),
    ensures
        congruent(
            sum_of_products(slice_difference_scaled(a, b, scalar), key),
            sum_of_products(a, key) - scalar * sum_of_products(b, key),
        ),
    decreases key.len(),
{
    if key.len() > 0 {
        lemma_sum_of_products_of_difference_scaled(
            a.drop_last(),
            b.drop_last(),
            scalar,
            key.drop_last(),
        );
        let all = slice_difference_scaled(a, b, scalar);
        assert(all.drop_last() =~= slice_difference_scaled(a.drop_last(), b.drop_last(), scalar));
        let last = all.last();
        lemma_congruent_torus(b.last() * scalar);
        lemma_congruent_ops(
            a.last() as int,
            a.last() as int,
            torus(b.last() * scalar) as int,
            b.last() * scalar,
        );
        lemma_congruent_torus(a.last() - torus(b.last() * scalar));
        lemma_congruent_ops(
            last as int,
            a.last() - b.last() * scalar,
            key.last() as int,
            key.last() as int,
        );
        let sa = sum_of_products(a.drop_last(), key.drop_last());
        let sb = sum_of_products(b.drop_last(), key.drop_last());
        lemma_congruent_ops(
            sum_of_products(all.drop_last(), key.drop_last()),
            sa - scalar * sb,
            last * key.last(),
            (a.last() - b.last() * scalar) * key.last(),
        );
        assert(sa - scalar * sb + (a.last() - b.last() * scalar) * key.last() == (sa + a.last()
            * key.last()) - scalar * (sb + b.last() * key.last())) by (nonlinear_arith);
    }
}

/// The dot product with a key of `a * scalar` is `scalar` times the dot product of `a`, on
/// the torus.
pub proof fn lemma_sum_of_products_of_scaled(a: Seq<u64>, scalar: u64, key: Seq<u64>)
    requires
        a.len() == key.len(),
    ensures
        congruent(sum_of_products(slice_scaled(a, scalar), key), scalar * sum_of_products(a, key)),
    decreases key.len(),
{
    if key.len() > 0 {
        lemma_sum_of_products_of_scaled(a.drop_last(), scalar, key.drop_last());
        let all = slice_scaled(a, scalar);
        assert(all.drop_last() =~= slice_scaled(a.drop_last(), scalar));
        let last = all.last();
        lemma_congruent_torus(a.last() * scalar);
        lemma_congruent_ops(last as int, a.last() * scalar, key.last() as int, key.last() as int);
        let sa = sum_of_products(a.drop_last(), key.drop_last());
        lemma_congruent_ops(
            sum_of_products(all.drop_last(), key.drop_last()),
            scalar * sa,
            last * key.last(),
            (a.last() * scalar) * key.last(),
        );
        assert(scalar * sa + (a.last() * scalar) * key.last() == scalar * (sa + a.last()
            * key.last())) by (nonlinear_arith);
    }
}

/// The phase of a sum of ciphertexts is the sum of their phases.
pub proof fn lemma_phase_of_sum(key: Seq<u64>, a: Seq<u64>, b: Seq<u64>)
    requires
        a.len() == key.len() + 1,
        b.len() == key.len() + 1,
    ensures
        lwe_phase(key, slice_sum(a, b)) == torus(lwe_phase(key, a) + lwe_phase(key, b)),
{
    let sum = slice_sum(a, b);
    assert(sum.drop_last() =~= slice_sum(a.drop_last(), b.drop_last()));
    lemma_sum_of_products_of_sum(a.drop_last(), b.drop_last(), key);
    let sa = sum_of_products(a.drop_last(), key);
    let sb = sum_of_products(b.drop_last(), key);
    lemma_congruent_torus(a.last() + b.last());
    lemma_congruent_ops(
        sum.last() as int,
        a.last() + b.last(),
        sum_of_products(sum.drop_last(), key),
        sa + sb,
    );
    lemma_congruent_torus(a.last() - sa);
    lemma_congruent_torus(b.last() - sb);
    lemma_congruent_ops(
        lwe_phase(key, a) as int,
        a.last() - sa,
        lwe_phase(key, b) as int,
        b.last() - sb,
    );
    assert(a.last() + b.last() - (sa + sb) == (a.last() - sa) + (b.last() - sb));
}

/// The phase of `a - b * scalar` is the phase of `a` minus `scalar` times the phase of `b`.
pub proof fn lemma_phase_of_difference_scaled(key: Seq<u64>, a: Seq<u64>, b: Seq<u64>, scalar: u64)
    requires
        a.len() == key.len() + 1,
        b.len() == key.len() + 1,
    ensures
        lwe_phase(key, slice_difference_scaled(a, b, scalar)) == torus(
            lwe_phase(key, a) - scalar * lwe_phase(key, b),
        ),
{
    let all = slice_difference_scaled(a, b, scalar);
    assert(all.drop_last() =~= slice_difference_scaled(a.drop_last(), b.drop_last(), scalar));
    lemma_sum_of_products_of_difference_scaled(a.drop_last(), b.drop_last(), scalar, key);
    let sa = sum_of_products(a.drop_last(), key);
    let sb = sum_of_products(b.drop_last(), key);
    lemma_congruent_torus(b.last() * scalar);
    lemma_congruent_ops(
        a.last() as int,
        a.last() as int,
        torus(b.last() * scalar) as int,
        b.last() * scalar,
    );
    lemma_congruent_torus(a.last() - torus(b.last() * scalar));
    lemma_congruent_ops(
        all.last() as int,
        a.last() - b.last() * scalar,
        sum_of_products(all.drop_last(), key),
        sa - scalar * sb,
    );
    lemma_congruent_torus(a.last() - sa);
    lemma_congruent_torus(b.last() - sb);
    lemma_congruent_ops(scalar as int, scalar as int, lwe_phase(key, b) as int, b.last() - sb);
    lemma_congruent_ops(
        lwe_phase(key, a) as int,
        a.last() - sa,
        scalar * lwe_phase(key, b),
        scalar * (b.last() - sb),
    );
    assert(a.last() - b.last() * scalar - (sa - scalar * sb) == (a.last() - sa) - scalar * (
    b.last() - sb)) by (nonlinear_arith);
}

/// The phase of `a * scalar` is `scalar` times the phase of `a`.
pub proof fn lemma_phase_of_scaled(key: Seq<u64>, a: Seq<u64>, scalar: u64)
    requires
        a.len() == key.len() + 1,
    ensures
        lwe_phase(key, slice_scaled(a, scalar)) == torus(scalar * lwe_phase(key, a)),
{
    let all = slice_scaled(a, scalar);
    assert(all.drop_last() =~= slice_scaled(a.drop_last(), scalar));
    lemma_sum_of_products_of_scaled(a.drop_last(), scalar, key);
    let sa = sum_of_products(a.drop_last(), key);
    lemma_congruent_torus(a.last() * scalar);
    lemma_congruent_ops(
        all.last() as int,
        a.last() * scalar,
        sum_of_products(all.drop_last(), key),
        scalar * sa,
    );
    lemma_congruent_torus(a.last() - sa);
    lemma_congruent_ops(scalar as int, scalar as int, lwe_phase(key, a) as int, a.last() - sa);
    assert(a.last() * scalar - scalar * sa == scalar * (a.last() - sa)) by (nonlinear_arith);
}

} // verus!
