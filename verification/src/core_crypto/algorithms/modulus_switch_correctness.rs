//! The modulus switch of a ciphertext keeps its phase, in units of `2^64 / 2N`, up to half a
//! unit for the body and for each scalar of the mask whose key bit is one.
use crate::core_crypto::algorithms::blind_rotation_correctness::rotation_of;
use crate::core_crypto::algorithms::lwe_encryption::lwe_phase;
use crate::core_crypto::algorithms::lwe_programmable_bootstrapping::modulus_switched;
use crate::core_crypto::algorithms::slice_algorithms::sum_of_products;
use crate::core_crypto::commons::numeric::{
    congruent,
    lemma_congruent_multiple,
    lemma_congruent_ops,
    lemma_congruent_torus,
    torus,
};
use crate::core_crypto::entities::lwe_secret_key::is_binary;
use vstd::prelude::*;

verus! {

/// The unit of the modulus switch for polynomials of `polynomial_size` coefficients:
/// `2^64 / (2 * polynomial_size)`.
pub open spec fn switch_unit(polynomial_size: int) -> int {
    0x8000_0000_0000_0000int / polynomial_size
}

/// Whether a polynomial size is a power of two for which the modulus switch has a unit of
/// at least two.
pub open spec fn is_switch_size(polynomial_size: int) -> bool {
    &&& 1 <= polynomial_size <= 0x4000_0000
    &&& 0x8000_0000_0000_0000int % polynomial_size == 0
}

/// The multiple of the unit that a torus element is rounded to, before it is reduced modulo
/// `2 * polynomial_size`.
pub open spec fn switch_rounded(x: u64, polynomial_size: int) -> int {
    let unit = switch_unit(polynomial_size);
    let quotient = x as int / unit;
    let remainder = x as int % unit;
    if remainder * 2 > unit || (remainder * 2 == unit && quotient % 2 == 1) {
        quotient + 1
    } else {
        quotient
    }
}

/// What the modulus switch of a torus element rounds away: the element minus the multiple
/// of the unit that it is rounded to.
pub open spec fn switch_remainder(x: u64, polynomial_size: int) -> int {
    x - switch_rounded(x, polynomial_size) * switch_unit(polynomial_size)
}

/// The unit of the modulus switch times `2 * polynomial_size` is `2^64`, and the unit is
/// even.
pub proof fn lemma_switch_unit(polynomial_size: int)
    requires
        is_switch_size(polynomial_size),
    ensures
        switch_unit(polynomial_size) * polynomial_size == 0x8000_0000_0000_0000,
        switch_unit(polynomial_size) * (2 * polynomial_size) == 0x1_0000_0000_0000_0000,
        switch_unit(polynomial_size) >= 0x2_0000_0000,
        switch_unit(polynomial_size) % 2 == 0,
{
    let n = polynomial_size;
    let d = switch_unit(n);
    vstd::arithmetic::div_mod::lemma_fundamental_div_mod(0x8000_0000_0000_0000int, n);
    assert(d * n == n * d) by (nonlinear_arith);
    assert(d * (2 * n) == 2 * (d * n)) by (nonlinear_arith);
    vstd::arithmetic::div_mod::lemma_div_is_ordered_by_denominator(
        0x8000_0000_0000_0000int,
        n,
        0x4000_0000,
    );
    assert(0x8000_0000_0000_0000int / 0x4000_0000 == 0x2_0000_0000);
    // the unit is even: an odd divisor of a power of two is one
    if d % 2 != 0 {
        vstd::arithmetic::power2::lemma2_to64_rest();
        lemma_power_of_two_divisor(n, d, 0x8000_0000_0000_0000, 63);
    }
}

/// If `d * n` is `2^exponent` and `d` is odd, then `d` is one.
proof fn lemma_power_of_two_divisor(n: int, d: int, power: int, exponent: nat)
    requires
        n >= 1,
        d >= 1,
        d * n == power,
        power == vstd::arithmetic::power2::pow2(exponent),
        d % 2 == 1,
    ensures
        d == 1,
    decreases exponent,
{
    if exponent == 0 {
        vstd::arithmetic::power2::lemma2_to64();
        assert(d == 1) by (nonlinear_arith)
            requires
                d * n == 1,
                d >= 1,
                n >= 1,
        ;
    } else {
        vstd::arithmetic::power2::lemma_pow2_unfold(exponent);
        let half = vstd::arithmetic::power2::pow2((exponent - 1) as nat) as int;
        // d is odd and d * n is even: n is even
        vstd::arithmetic::div_mod::lemma_fundamental_div_mod(n, 2);
        vstd::arithmetic::div_mod::lemma_fundamental_div_mod(d, 2);
        let m = n / 2;
        let h = d / 2;
        if n % 2 == 1 {
            assert(d * n == 2 * (2 * h * m + h + m) + 1) by (nonlinear_arith)
                requires
                    d == 2 * h + 1,
                    n == 2 * m + 1,
            ;
            assert(false);
        }
        assert(d * m == half) by (nonlinear_arith)
            requires
                d * n == 2 * half,
                n == 2 * m,
        ;
        assert(m >= 1);
        lemma_power_of_two_divisor(m, d, half, (exponent - 1) as nat);
    }
}

/// The modulus switch of a torus element, in units, is the element minus what is rounded
/// away, on the torus; and what is rounded away is at most half a unit.
pub proof fn lemma_modulus_switched(x: u64, polynomial_size: int)
    requires
        is_switch_size(polynomial_size),
    ensures
        congruent(
            modulus_switched(x, polynomial_size) * switch_unit(polynomial_size),
            x - switch_remainder(x, polynomial_size),
        ),
        -(switch_unit(polynomial_size) / 2) <= switch_remainder(x, polynomial_size)
            <= switch_unit(polynomial_size) / 2,
        0 <= modulus_switched(x, polynomial_size) < 2 * polynomial_size,
{
    let n = polynomial_size;
    let d = switch_unit(n);
    lemma_switch_unit(n);
    let rounded = switch_rounded(x, n);
    vstd::arithmetic::div_mod::lemma_fundamental_div_mod(x as int, d);
    vstd::arithmetic::div_mod::lemma_mod_bound(x as int, d);
    vstd::arithmetic::div_mod::lemma_fundamental_div_mod(rounded, 2 * n);
    vstd::arithmetic::div_mod::lemma_mod_bound(rounded, 2 * n);
    let t = rounded / (2 * n);
    let switched = modulus_switched(x, n);
    assert(switched == rounded % (2 * n));
    assert(switched * d == rounded * d + (-t) * 0x1_0000_0000_0000_0000) by (nonlinear_arith)
        requires
            rounded == (2 * n) * t + switched,
            d * (2 * n) == 0x1_0000_0000_0000_0000,
    ;
    lemma_congruent_multiple(rounded * d, -t);
    let q = x as int / d;
    let r = x as int % d;
    assert(q * d == d * q) by (nonlinear_arith);
    assert((q + 1) * d == d * q + d) by (nonlinear_arith);
    vstd::arithmetic::div_mod::lemma_fundamental_div_mod(d, 2);
}

/// What the modulus switch of the first `count` scalars of a mask rounds away, for the
/// bits of the key that are one.
pub open spec fn mask_remainders(
    input: Seq<u64>,
    key: Seq<u64>,
    polynomial_size: int,
    count: int,
) -> int
    decreases count,
{
    if count <= 0 {
        0
    } else {
        mask_remainders(input, key, polynomial_size, count - 1) + key[count - 1]
            * switch_remainder(input[count - 1], polynomial_size)
    }
}

/// The error of the modulus switch of a ciphertext: what is rounded away of the body, minus
/// what is rounded away of the scalars of the mask for the bits of the key that are one.
pub open spec fn modulus_switch_error(input: Seq<u64>, key: Seq<u64>, polynomial_size: int) -> int {
    switch_remainder(input.last(), polynomial_size) - mask_remainders(
        input,
        key,
        polynomial_size,
        key.len() as int,
    )
}

/// The switched scalars of the first `count` scalars of a mask, for the bits of the key that
/// are one, are the dot product of the mask and of the key on them, minus what is rounded
/// away, in units.
pub proof fn lemma_switched_mask(input: Seq<u64>, key: Seq<u64>, polynomial_size: int, count: int)
    requires
        is_switch_size(polynomial_size),
        is_binary(key),
        input.len() == key.len() + 1,
        0 <= count <= key.len(),
    ensures
        congruent(
            (rotation_of(input, key, polynomial_size, count) - rotation_of(
                input,
                key,
                polynomial_size,
                0,
            )) * switch_unit(polynomial_size),
            sum_of_products(input.take(count), key.take(count)) - mask_remainders(
                input,
                key,
                polynomial_size,
                count,
            ),
        ),
        -(count * (switch_unit(polynomial_size) / 2)) <= mask_remainders(
            input,
            key,
            polynomial_size,
            count,
        ) <= count * (switch_unit(polynomial_size) / 2),
    decreases count,
{
    let n = polynomial_size;
    let d = switch_unit(n);
    let half = d / 2;
    if count == 0 {
        assert(0 * d == 0) by (nonlinear_arith);
        assert(count * half == 0) by (nonlinear_arith)
            requires
                count == 0,
        ;
    } else {
        let i = count - 1;
        lemma_switched_mask(input, key, n, i);
        lemma_modulus_switched(input[i], n);
        let bit = key[i] as int;
        let switched = modulus_switched(input[i], n);
        let remainder = switch_remainder(input[i], n);
        let before = rotation_of(input, key, n, i) - rotation_of(input, key, n, 0);
        lemma_congruent_ops(bit, bit, switched * d, input[i] - remainder);
        lemma_congruent_ops(
            before * d,
            sum_of_products(input.take(i), key.take(i)) - mask_remainders(input, key, n, i),
            bit * (switched * d),
            bit * (input[i] - remainder),
        );
        assert(input.take(count).drop_last() =~= input.take(i));
        assert(key.take(count).drop_last() =~= key.take(i));
        assert((before + bit * switched) * d == before * d + bit * (switched * d))
            by (nonlinear_arith);
        assert(bit * (input[i] - remainder) == input[i] * bit - bit * remainder)
            by (nonlinear_arith);
        assert(-half <= bit * remainder <= half) by (nonlinear_arith)
            requires
                0 <= bit <= 1,
                -half <= remainder <= half,
        ;
        assert(count * half == i * half + half) by (nonlinear_arith)
            requires
                i == count - 1,
        ;
    }
}

/// The rotation of a blind rotation, with the opposite sign and in units, is the phase of
/// the input minus the error of the modulus switch, on the torus; and this error is at most
/// half a unit for the body and for each scalar of the mask.
pub proof fn lemma_rotation_is_phase(input: Seq<u64>, key: Seq<u64>, polynomial_size: int)
    requires
        is_switch_size(polynomial_size),
        is_binary(key),
        input.len() == key.len() + 1,
    ensures
        congruent(
            -rotation_of(input, key, polynomial_size, key.len() as int) * switch_unit(
                polynomial_size,
            ),
            lwe_phase(key, input) - modulus_switch_error(input, key, polynomial_size),
        ),
        -((key.len() + 1) * (switch_unit(polynomial_size) / 2)) <= modulus_switch_error(
            input,
            key,
            polynomial_size,
        ) <= (key.len() + 1) * (switch_unit(polynomial_size) / 2),
{
    let n = polynomial_size;
    let d = switch_unit(n);
    let half = d / 2;
    let count = key.len() as int;
    lemma_switch_unit(n);
    lemma_switched_mask(input, key, n, count);
    lemma_modulus_switched(input.last(), n);
    assert(input.take(count) =~= input.drop_last());
    assert(key.take(count) =~= key);
    let body = modulus_switched(input.last(), n);
    let first = rotation_of(input, key, n, 0);
    // the first rotation is minus the switched body, modulo 2N
    vstd::arithmetic::div_mod::lemma_fundamental_div_mod(2 * n - body, 2 * n);
    let t = (2 * n - body) / (2 * n);
    assert(first == 2 * n - body - (2 * n) * t);
    assert((-first) * d == body * d + (t - 1) * 0x1_0000_0000_0000_0000) by (nonlinear_arith)
        requires
            first == 2 * n - body - (2 * n) * t,
            d * (2 * n) == 0x1_0000_0000_0000_0000,
    ;
    lemma_congruent_multiple(body * d, t - 1);
    let total = rotation_of(input, key, n, count);
    let products = sum_of_products(input.drop_last(), key);
    let remainders = mask_remainders(input, key, n, count);
    let body_remainder = switch_remainder(input.last(), n);
    // -total * d == (-first) * d - (total - first) * d
    lemma_congruent_ops(
        (-first) * d,
        input.last() - body_remainder,
        (total - first) * d,
        products - remainders,
    );
    assert((-total) * d == (-first) * d - (total - first) * d) by (nonlinear_arith);
    lemma_congruent_torus(input.last() - products);
    lemma_congruent_ops(
        lwe_phase(key, input) as int,
        input.last() - products,
        modulus_switch_error(input, key, n),
        modulus_switch_error(input, key, n),
    );
    assert((count + 1) * half == count * half + half) by (nonlinear_arith);
}

} // verus!
