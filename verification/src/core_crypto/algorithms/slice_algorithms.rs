//! Wrapping arithmetic on flat slices of unsigned integers.
use crate::core_crypto::commons::numeric::{lemma_of_int_congruent, UnsignedInteger};
use vstd::prelude::*;

verus! {

/// The integer `lhs[0] * rhs[0] + ... + lhs[n-1] * rhs[n-1]`, over the representatives.
pub open spec fn sum_of_products<S: UnsignedInteger>(lhs: Seq<S>, rhs: Seq<S>) -> int
    decreases lhs.len(),
{
    if lhs.len() == 0 || rhs.len() != lhs.len() {
        0
    } else {
        sum_of_products(lhs.drop_last(), rhs.drop_last()) + lhs.last().to_int()
            * rhs.last().to_int()
    }
}

/// One step of the dot product under a custom modulus: the product is wrapped, reduced by
/// `modulus`, added to the accumulator with wrapping, and the sum is reduced again.
pub open spec fn custom_modulus_step<S: UnsignedInteger>(
    acc: S,
    left: S,
    right: S,
    modulus: S,
) -> S {
    let product = S::of_int(S::of_int(left.to_int() * right.to_int()).to_int() % modulus.to_int());
    S::of_int(S::of_int(acc.to_int() + product.to_int()).to_int() % modulus.to_int())
}

/// The dot product under a custom modulus, as the left fold of [`custom_modulus_step`].
pub open spec fn dot_product_custom_modulus<S: UnsignedInteger>(
    lhs: Seq<S>,
    rhs: Seq<S>,
    modulus: S,
) -> S
    decreases lhs.len(),
{
    if lhs.len() == 0 || rhs.len() != lhs.len() {
        S::of_int(0)
    } else {
        custom_modulus_step(
            dot_product_custom_modulus(lhs.drop_last(), rhs.drop_last(), modulus),
            lhs.last(),
            rhs.last(),
            modulus,
        )
    }
}

/// Element-wise sum modulo `2^width`.
pub open spec fn slice_sum<S: UnsignedInteger>(lhs: Seq<S>, rhs: Seq<S>) -> Seq<S> {
    Seq::new(lhs.len(), |i: int| S::of_int(lhs[i].to_int() + rhs[i].to_int()))
}

/// Element-wise difference modulo `2^width`.
pub open spec fn slice_difference<S: UnsignedInteger>(lhs: Seq<S>, rhs: Seq<S>) -> Seq<S> {
    Seq::new(lhs.len(), |i: int| S::of_int(lhs[i].to_int() - rhs[i].to_int()))
}

/// `lhs + rhs * scalar`, element-wise modulo `2^width`.
pub open spec fn slice_sum_scaled<S: UnsignedInteger>(lhs: Seq<S>, rhs: Seq<S>, scalar: S) -> Seq<
    S,
> {
    Seq::new(
        lhs.len(),
        |i: int| S::of_int(lhs[i].to_int() + S::of_int(rhs[i].to_int() * scalar.to_int()).to_int()),
    )
}

/// `lhs - rhs * scalar`, element-wise modulo `2^width`.
pub open spec fn slice_difference_scaled<S: UnsignedInteger>(
    lhs: Seq<S>,
    rhs: Seq<S>,
    scalar: S,
) -> Seq<S> {
    Seq::new(
        lhs.len(),
        |i: int| S::of_int(lhs[i].to_int() - S::of_int(rhs[i].to_int() * scalar.to_int()).to_int()),
    )
}

/// One element of `lhs - rhs * scalar` under a custom modulus: the product is wrapped and
/// reduced by `modulus`, subtracted with wrapping, and the difference is reduced again.
pub open spec fn custom_modulus_sub_scaled<S: UnsignedInteger>(
    left: S,
    right: S,
    scalar: S,
    modulus: S,
) -> S {
    let product = S::of_int(
        S::of_int(right.to_int() * scalar.to_int()).to_int() % modulus.to_int(),
    );
    S::of_int(S::of_int(left.to_int() - product.to_int()).to_int() % modulus.to_int())
}

/// `lhs - rhs * scalar` under a custom modulus, element-wise.
pub open spec fn slice_difference_scaled_custom_modulus<S: UnsignedInteger>(
    lhs: Seq<S>,
    rhs: Seq<S>,
    scalar: S,
    modulus: S,
) -> Seq<S> {
    Seq::new(lhs.len(), |i: int| custom_modulus_sub_scaled(lhs[i], rhs[i], scalar, modulus))
}

/// Element-wise opposite modulo `2^width`.
pub open spec fn slice_opposite<S: UnsignedInteger>(slice: Seq<S>) -> Seq<S> {
    Seq::new(slice.len(), |i: int| S::of_int(-slice[i].to_int()))
}

/// The opposite of `x` modulo `modulus`, as a canonical residue in `[0, modulus)`.
pub open spec fn custom_modulus_opposite<S: UnsignedInteger>(x: S, modulus: S) -> S {
    S::of_int((modulus.to_int() - x.to_int() % modulus.to_int()) % modulus.to_int())
}

/// Element-wise opposite modulo `modulus`.
pub open spec fn slice_opposite_custom_modulus<S: UnsignedInteger>(slice: Seq<S>, modulus: S) -> Seq<
    S,
> {
    Seq::new(slice.len(), |i: int| custom_modulus_opposite(slice[i], modulus))
}

/// Element-wise product with `scalar` modulo `2^width`.
pub open spec fn slice_scaled<S: UnsignedInteger>(slice: Seq<S>, scalar: S) -> Seq<S> {
    Seq::new(slice.len(), |i: int| S::of_int(slice[i].to_int() * scalar.to_int()))
}

/// Element-wise remainder of the division by `modulus`.
pub open spec fn slice_remainder<S: UnsignedInteger>(slice: Seq<S>, modulus: S) -> Seq<S> {
    Seq::new(slice.len(), |i: int| S::of_int(slice[i].to_int() % modulus.to_int()))
}

/// Compute the dot product of two slices of unsigned integers, modulo `2^width`.
pub fn slice_wrapping_dot_product<Scalar>(lhs: &[Scalar], rhs: &[Scalar]) -> (result: Scalar) where
    Scalar: UnsignedInteger,

    requires
        lhs@.len() == rhs@.len(),
    ensures
        result == Scalar::of_int(sum_of_products(lhs@, rhs@)),
{
    let n = lhs.len();
    let mut acc = Scalar::zero();
    let mut i: usize = 0;
    assert(lhs@.take(0).len() == 0);
    while i < n
        invariant
            n == lhs@.len(),
            n == rhs@.len(),
            i <= n,
            acc == Scalar::of_int(sum_of_products(lhs@.take(i as int), rhs@.take(i as int))),
        decreases n - i,
    {
        let product = lhs[i].wrapping_mul(rhs[i]);
        let next = acc.wrapping_add(product);
        proof {
            let before = sum_of_products(lhs@.take(i as int), rhs@.take(i as int));
            let p = lhs@[i as int].to_int() * rhs@[i as int].to_int();
            let m = Scalar::modulus();
            Scalar::lemma_modulus();
            Scalar::lemma_to_of(before);
            Scalar::lemma_to_of(p);
            vstd::arithmetic::div_mod::lemma_add_mod_noop(before, p, m);
            lemma_of_int_congruent::<Scalar>(acc.to_int() + product.to_int(), before + p);
            assert(lhs@.take(i + 1).drop_last() =~= lhs@.take(i as int));
            assert(rhs@.take(i + 1).drop_last() =~= rhs@.take(i as int));
        }
        acc = next;
        i += 1;
    }
    assert(lhs@.take(n as int) =~= lhs@);
    assert(rhs@.take(n as int) =~= rhs@);
    acc
}

/// Compute the dot product of two slices under a custom modulus: every product and every
/// partial sum is reduced by `modulus` after wrapping.
///
/// This is meant for values that were cast to a wider type, so that no product wraps.
pub fn slice_wrapping_dot_product_custom_modulus<Scalar>(
    lhs: &[Scalar],
    rhs: &[Scalar],
    modulus: Scalar,
) -> (result: Scalar) where Scalar: UnsignedInteger
    requires
        lhs@.len() == rhs@.len(),
        modulus.to_int() != 0,
    ensures
        result == dot_product_custom_modulus(lhs@, rhs@, modulus),
{
    let n = lhs.len();
    let mut acc = Scalar::zero();
    let mut i: usize = 0;
    assert(lhs@.take(0).len() == 0);
    while i < n
        invariant
            n == lhs@.len(),
            n == rhs@.len(),
            i <= n,
            modulus.to_int() != 0,
            acc == dot_product_custom_modulus(lhs@.take(i as int), rhs@.take(i as int), modulus),
        decreases n - i,
    {
        let product = lhs[i].wrapping_mul(rhs[i]).wrapping_rem(modulus);
        let next = acc.wrapping_add(product).wrapping_rem(modulus);
        proof {
            assert(lhs@.take(i + 1).drop_last() =~= lhs@.take(i as int));
            assert(rhs@.take(i + 1).drop_last() =~= rhs@.take(i as int));
        }
        acc = next;
        i += 1;
    }
    assert(lhs@.take(n as int) =~= lhs@);
    assert(rhs@.take(n as int) =~= rhs@);
    acc
}

/// Add two slices element-wise into `output`, modulo `2^width`.
pub fn slice_wrapping_add<Scalar>(output: &mut [Scalar], lhs: &[Scalar], rhs: &[Scalar]) where
    Scalar: UnsignedInteger,

    requires
        lhs@.len() == rhs@.len(),
        old(output)@.len() == lhs@.len(),
    ensures
        final(output)@ == slice_sum(lhs@, rhs@),
{
    let n = output.len();
    let mut i: usize = 0;
    while i < n
        invariant
            n == lhs@.len(),
            n == rhs@.len(),
            n == output@.len(),
            i <= n,
            forall|j: int| 0 <= j < i ==> output@[j] == slice_sum(lhs@, rhs@)[j],
        decreases n - i,
    {
        let value = lhs[i].wrapping_add(rhs[i]);
        output[i] = value;
        i += 1;
    }
    assert(output@ =~= slice_sum(lhs@, rhs@));
}

/// Add `rhs` to `lhs` element-wise and in place, modulo `2^width`.
pub fn slice_wrapping_add_assign<Scalar>(lhs: &mut [Scalar], rhs: &[Scalar]) where
    Scalar: UnsignedInteger,

    requires
        old(lhs)@.len() == rhs@.len(),
    ensures
        final(lhs)@ == slice_sum(old(lhs)@, rhs@),
{
    let n = lhs.len();
    let mut i: usize = 0;
    while i < n
        invariant
            n == rhs@.len(),
            n == lhs@.len(),
            n == old(lhs)@.len(),
            i <= n,
            forall|j: int| 0 <= j < i ==> lhs@[j] == slice_sum(old(lhs)@, rhs@)[j],
            forall|j: int| i <= j < n ==> lhs@[j] == old(lhs)@[j],
        decreases n - i,
    {
        let value = lhs[i].wrapping_add(rhs[i]);
        lhs[i] = value;
        i += 1;
    }
    assert(lhs@ =~= slice_sum(old(lhs)@, rhs@));
}

/// Add `rhs * scalar` to `lhs` element-wise and in place, modulo `2^width`.
pub fn slice_wrapping_add_scalar_mul_assign<Scalar>(
    lhs: &mut [Scalar],
    rhs: &[Scalar],
    scalar: Scalar,
) where Scalar: UnsignedInteger
    requires
        old(lhs)@.len() == rhs@.len(),
    ensures
        final(lhs)@ == slice_sum_scaled(old(lhs)@, rhs@, scalar),
{
    let n = lhs.len();
    let mut i: usize = 0;
    while i < n
        invariant
            n == rhs@.len(),
            n == lhs@.len(),
            n == old(lhs)@.len(),
            i <= n,
            forall|j: int| 0 <= j < i ==> lhs@[j] == slice_sum_scaled(old(lhs)@, rhs@, scalar)[j],
            forall|j: int| i <= j < n ==> lhs@[j] == old(lhs)@[j],
        decreases n - i,
    {
        let value = lhs[i].wrapping_add(rhs[i].wrapping_mul(scalar));
        lhs[i] = value;
        i += 1;
    }
    assert(lhs@ =~= slice_sum_scaled(old(lhs)@, rhs@, scalar));
}

/// Subtract `rhs` from `lhs` element-wise into `output`, modulo `2^width`.
pub fn slice_wrapping_sub<Scalar>(output: &mut [Scalar], lhs: &[Scalar], rhs: &[Scalar]) where
    Scalar: UnsignedInteger,

    requires
        lhs@.len() == rhs@.len(),
        old(output)@.len() == lhs@.len(),
    ensures
        final(output)@ == slice_difference(lhs@, rhs@),
{
    let n = output.len();
    let mut i: usize = 0;
    while i < n
        invariant
            n == lhs@.len(),
            n == rhs@.len(),
            n == output@.len(),
            i <= n,
            forall|j: int| 0 <= j < i ==> output@[j] == slice_difference(lhs@, rhs@)[j],
        decreases n - i,
    {
        let value = lhs[i].wrapping_sub(rhs[i]);
        output[i] = value;
        i += 1;
    }
    assert(output@ =~= slice_difference(lhs@, rhs@));
}

/// Subtract `rhs` from `lhs` element-wise and in place, modulo `2^width`.
pub fn slice_wrapping_sub_assign<Scalar>(lhs: &mut [Scalar], rhs: &[Scalar]) where
    Scalar: UnsignedInteger,

    requires
        old(lhs)@.len() == rhs@.len(),
    ensures
        final(lhs)@ == slice_difference(old(lhs)@, rhs@),
{
    let n = lhs.len();
    let mut i: usize = 0;
    while i < n
        invariant
            n == rhs@.len(),
            n == lhs@.len(),
            n == old(lhs)@.len(),
            i <= n,
            forall|j: int| 0 <= j < i ==> lhs@[j] == slice_difference(old(lhs)@, rhs@)[j],
            forall|j: int| i <= j < n ==> lhs@[j] == old(lhs)@[j],
        decreases n - i,
    {
        let value = lhs[i].wrapping_sub(rhs[i]);
        lhs[i] = value;
        i += 1;
    }
    assert(lhs@ =~= slice_difference(old(lhs)@, rhs@));
}

/// Subtract `rhs * scalar` from `lhs` element-wise and in place, modulo `2^width`.
pub fn slice_wrapping_sub_scalar_mul_assign<Scalar>(
    lhs: &mut [Scalar],
    rhs: &[Scalar],
    scalar: Scalar,
) where Scalar: UnsignedInteger
    requires
        old(lhs)@.len() == rhs@.len(),
    ensures
        final(lhs)@ == slice_difference_scaled(old(lhs)@, rhs@, scalar),
{
    let n = lhs.len();
    let mut i: usize = 0;
    while i < n
        invariant
            n == rhs@.len(),
            n == lhs@.len(),
            n == old(lhs)@.len(),
            i <= n,
            forall|j: int|
                0 <= j < i ==> lhs@[j] == slice_difference_scaled(old(lhs)@, rhs@, scalar)[j],
            forall|j: int| i <= j < n ==> lhs@[j] == old(lhs)@[j],
        decreases n - i,
    {
        let value = lhs[i].wrapping_sub(rhs[i].wrapping_mul(scalar));
        lhs[i] = value;
        i += 1;
    }
    assert(lhs@ =~= slice_difference_scaled(old(lhs)@, rhs@, scalar));
}

/// Subtract `rhs * scalar` from `lhs` element-wise and in place under a custom modulus: the
/// product and the difference are each reduced by `modulus` after wrapping.
///
/// This is meant for values that were cast to a wider type, so that no product wraps.
pub fn slice_wrapping_sub_scalar_mul_assign_custom_modulus<Scalar>(
    lhs: &mut [Scalar],
    rhs: &[Scalar],
    scalar: Scalar,
    modulus: Scalar,
) where Scalar: UnsignedInteger
    requires
        old(lhs)@.len() == rhs@.len(),
        modulus.to_int() != 0,
    ensures
        final(lhs)@ == slice_difference_scaled_custom_modulus(old(lhs)@, rhs@, scalar, modulus),
{
    let n = lhs.len();
    let mut i: usize = 0;
    while i < n
        invariant
            n == rhs@.len(),
            n == lhs@.len(),
            n == old(lhs)@.len(),
            i <= n,
            modulus.to_int() != 0,
            forall|j: int|
                0 <= j < i ==> lhs@[j] == slice_difference_scaled_custom_modulus(
                    old(lhs)@,
                    rhs@,
                    scalar,
                    modulus,
                )[j],
            forall|j: int| i <= j < n ==> lhs@[j] == old(lhs)@[j],
        decreases n - i,
    {
        let product = rhs[i].wrapping_mul(scalar).wrapping_rem(modulus);
        let value = lhs[i].wrapping_sub(product).wrapping_rem(modulus);
        lhs[i] = value;
        i += 1;
    }
    assert(lhs@ =~= slice_difference_scaled_custom_modulus(old(lhs)@, rhs@, scalar, modulus));
}

/// Replace every element by its opposite modulo `2^width`.
pub fn slice_wrapping_opposite_assign_native_mod<Scalar>(slice: &mut [Scalar]) where
    Scalar: UnsignedInteger,

    ensures
        final(slice)@ == slice_opposite(old(slice)@),
{
    let n = slice.len();
    let mut i: usize = 0;
    while i < n
        invariant
            n == slice@.len(),
            n == old(slice)@.len(),
            i <= n,
            forall|j: int| 0 <= j < i ==> slice@[j] == slice_opposite(old(slice)@)[j],
            forall|j: int| i <= j < n ==> slice@[j] == old(slice)@[j],
        decreases n - i,
    {
        let value = slice[i].wrapping_neg();
        slice[i] = value;
        i += 1;
    }
    assert(slice@ =~= slice_opposite(old(slice)@));
}

/// Replace every element by its opposite modulo `modulus`, as a residue in `[0, modulus)`.
pub fn slice_wrapping_opposite_assign_custom_mod<Scalar>(slice: &mut [Scalar], modulus: Scalar) where
    Scalar: UnsignedInteger,

    requires
        modulus.to_int() != 0,
    ensures
        final(slice)@ == slice_opposite_custom_modulus(old(slice)@, modulus),
{
    let n = slice.len();
    let mut i: usize = 0;
    while i < n
        invariant
            n == slice@.len(),
            n == old(slice)@.len(),
            i <= n,
            modulus.to_int() != 0,
            forall|j: int|
                0 <= j < i ==> slice@[j] == slice_opposite_custom_modulus(old(slice)@, modulus)[j],
            forall|j: int| i <= j < n ==> slice@[j] == old(slice)@[j],
        decreases n - i,
    {
        let reduced = slice[i].wrapping_rem(modulus);
        let value = modulus.wrapping_sub(reduced).wrapping_rem(modulus);
        proof {
            let q = modulus.to_int();
            let x = slice@[i as int].to_int();
            crate::core_crypto::commons::numeric::lemma_to_int_range(modulus);
            crate::core_crypto::commons::numeric::lemma_to_int_range(slice@[i as int]);
            vstd::arithmetic::div_mod::lemma_mod_bound(x, q);
            crate::core_crypto::commons::numeric::lemma_of_int_small::<Scalar>(x % q);
            crate::core_crypto::commons::numeric::lemma_of_int_small::<Scalar>(q - x % q);
        }
        slice[i] = value;
        i += 1;
    }
    assert(slice@ =~= slice_opposite_custom_modulus(old(slice)@, modulus));
}

/// Multiply every element by `rhs` in place, modulo `2^width`.
pub fn slice_wrapping_scalar_mul_assign<Scalar>(lhs: &mut [Scalar], rhs: Scalar) where
    Scalar: UnsignedInteger,

    ensures
        final(lhs)@ == slice_scaled(old(lhs)@, rhs),
{
    let n = lhs.len();
    let mut i: usize = 0;
    while i < n
        invariant
            n == lhs@.len(),
            n == old(lhs)@.len(),
            i <= n,
            forall|j: int| 0 <= j < i ==> lhs@[j] == slice_scaled(old(lhs)@, rhs)[j],
            forall|j: int| i <= j < n ==> lhs@[j] == old(lhs)@[j],
        decreases n - i,
    {
        let value = lhs[i].wrapping_mul(rhs);
        lhs[i] = value;
        i += 1;
    }
    assert(lhs@ =~= slice_scaled(old(lhs)@, rhs));
}

/// Replace every element by its remainder in the division by `modulus`.
pub fn slice_wrapping_rem_assign<Scalar>(slice: &mut [Scalar], modulus: Scalar) where
    Scalar: UnsignedInteger,

    requires
        modulus.to_int() != 0,
    ensures
        final(slice)@ == slice_remainder(old(slice)@, modulus),
{
    let n = slice.len();
    let mut i: usize = 0;
    while i < n
        invariant
            n == slice@.len(),
            n == old(slice)@.len(),
            i <= n,
            modulus.to_int() != 0,
            forall|j: int| 0 <= j < i ==> slice@[j] == slice_remainder(old(slice)@, modulus)[j],
            forall|j: int| i <= j < n ==> slice@[j] == old(slice)@[j],
        decreases n - i,
    {
        let value = slice[i].wrapping_rem(modulus);
        slice[i] = value;
        i += 1;
    }
    assert(slice@ =~= slice_remainder(old(slice)@, modulus));
}

} // verus!
