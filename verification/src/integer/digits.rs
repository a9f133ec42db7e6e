//! Integers as sequences of digits, and what the propagation of carries does to them.
use crate::core_crypto::commons::numeric::{lemma_congruent_ops, lemma_congruent_torus, torus};
use crate::integer::client_key::{radix_digit, radix_rest, radix_value, radix_weight};
use vstd::prelude::*;

verus! {

/// The weight of the digit of index `index`, as an integer: `base^index`.
pub open spec fn radix_power(base: int, index: int) -> int
    decreases index,
{
    if index <= 0 {
        1
    } else {
        radix_power(base, index - 1) * base
    }
}

/// The integer that the first `count` values stand for, each with the weight of its index.
/// The values need not be digits: a value may hold a carry.
pub open spec fn radix_sum(values: Seq<int>, base: int, count: int) -> int
    decreases count,
{
    if count <= 0 {
        0
    } else {
        radix_sum(values, base, count - 1) + values[count - 1] * radix_power(base, count - 1)
    }
}

/// The first `count` digits of `message` in base `base`, the least significant first.
pub open spec fn digits_of(message: u64, base: int, count: int) -> Seq<int> {
    Seq::new(count as nat, |i: int| radix_digit(message, base, i) as int)
}

/// The values after the carry of the value of index `index` is propagated: the value is
/// reduced by the base, and its quotient by the base is added to the next value, if there
/// is one.
pub open spec fn carried(values: Seq<int>, base: int, index: int) -> Seq<int> {
    let replaced = values.update(index, values[index] % base);
    if index < values.len() - 1 {
        replaced.update(index + 1, values[index + 1] + values[index] / base)
    } else {
        replaced
    }
}

/// The values after the carries of the first `count` values are propagated, from the least
/// significant up.
pub open spec fn fully_carried(values: Seq<int>, base: int, count: int) -> Seq<int>
    decreases count,
{
    if count <= 0 {
        values
    } else {
        carried(fully_carried(values, base, count - 1), base, count - 1)
    }
}

/// The weights are positive.
pub proof fn lemma_radix_power_positive(base: int, index: int)
    requires
        base >= 1,
    ensures
        radix_power(base, index) >= 1,
    decreases index,
{
    if index > 0 {
        lemma_radix_power_positive(base, index - 1);
        assert(radix_power(base, index - 1) * base >= 1) by (nonlinear_arith)
            requires
                radix_power(base, index - 1) >= 1,
                base >= 1,
        ;
    }
}

/// The weight on the torus is the weight reduced modulo `2^64`.
pub proof fn lemma_radix_weight_is_power(base: int, index: int)
    ensures
        radix_weight(base, index) == torus(radix_power(base, index)),
    decreases index,
{
    if index > 0 {
        lemma_radix_weight_is_power(base, index - 1);
        lemma_congruent_torus(radix_power(base, index - 1));
        lemma_congruent_ops(
            radix_weight(base, index - 1) as int,
            radix_power(base, index - 1),
            base,
            base,
        );
    }
}

/// The sum of values depends on the first `count` values only.
pub proof fn lemma_radix_sum_equal(a: Seq<int>, b: Seq<int>, base: int, count: int)
    requires
        forall|i: int| 0 <= i < count ==> #[trigger] a[i] == b[i],
    ensures
        radix_sum(a, base, count) == radix_sum(b, base, count),
    decreases count,
{
    if count > 0 {
        lemma_radix_sum_equal(a, b, base, count - 1);
    }
}

/// The integer that `u64` values stand for modulo `2^64` is their sum reduced.
pub proof fn lemma_radix_value_is_sum(values: Seq<u64>, base: int, count: int)
    requires
        count <= values.len(),
    ensures
        radix_value(values, base, count) == torus(
            radix_sum(Seq::new(values.len(), |i: int| values[i] as int), base, count),
        ),
    decreases count,
{
    let ints = Seq::new(values.len(), |i: int| values[i] as int);
    if count > 0 {
        lemma_radix_value_is_sum(values, base, count - 1);
        lemma_radix_weight_is_power(base, count - 1);
        lemma_congruent_torus(radix_sum(ints, base, count - 1));
        lemma_congruent_torus(radix_power(base, count - 1));
        assert(ints[count - 1] == values[count - 1]);
        lemma_congruent_ops(
            values[count - 1] as int,
            ints[count - 1],
            radix_weight(base, count - 1) as int,
            radix_power(base, count - 1),
        );
        lemma_congruent_ops(
            radix_value(values, base, count - 1) as int,
            radix_sum(ints, base, count - 1),
            values[count - 1] * radix_weight(base, count - 1),
            ints[count - 1] * radix_power(base, count - 1),
        );
    }
}

/// Values that are digits stand for an integer below the weight of the first digit that
/// they do not have.
pub proof fn lemma_radix_sum_of_digits(values: Seq<int>, base: int, count: int)
    requires
        base >= 1,
        forall|i: int| 0 <= i < count ==> 0 <= #[trigger] values[i] < base,
    ensures
        0 <= radix_sum(values, base, count) < radix_power(base, count) || count <= 0,
        count <= 0 ==> radix_sum(values, base, count) == 0,
    decreases count,
{
    if count > 0 {
        lemma_radix_sum_of_digits(values, base, count - 1);
        lemma_radix_power_positive(base, count - 1);
        let p = radix_power(base, count - 1);
        let v = values[count - 1];
        assert(0 <= v * p <= (base - 1) * p) by (nonlinear_arith)
            requires
                0 <= v <= base - 1,
                p >= 1,
        ;
        assert((base - 1) * p + p == p * base) by (nonlinear_arith);
    }
}

/// An integer is the sum of its first digits, plus what is left above them times the weight
/// of the first digit that is left out. So the first digits stand for the integer reduced
/// by that weight.
pub proof fn lemma_digits_recompose(message: u64, base: int, count: int)
    requires
        base >= 1,
        count >= 0,
    ensures
        radix_sum(digits_of(message, base, count), base, count) + radix_rest(message, base, count)
            * radix_power(base, count) == message,
        radix_rest(message, base, count) >= 0,
        radix_sum(digits_of(message, base, count), base, count) == message as int % radix_power(
            base,
            count,
        ),
        forall|i: int|
            0 <= i < count ==> 0 <= #[trigger] digits_of(message, base, count)[i] < base,
    decreases count,
{
    let digits = digits_of(message, base, count);
    lemma_rest_bounds(message, base, count);
    assert forall|i: int| 0 <= i < count implies 0 <= #[trigger] digits[i] < base by {
        lemma_rest_bounds(message, base, i);
        vstd::arithmetic::div_mod::lemma_mod_bound(radix_rest(message, base, i), base);
        vstd::arithmetic::div_mod::lemma_mod_decreases(
            radix_rest(message, base, i) as nat,
            base as nat,
        );
    }
    lemma_radix_power_positive(base, count);
    if count > 0 {
        lemma_digits_recompose(message, base, count - 1);
        lemma_radix_sum_equal(digits, digits_of(message, base, count - 1), base, count - 1);
        let rest = radix_rest(message, base, count - 1);
        let p = radix_power(base, count - 1);
        lemma_rest_bounds(message, base, count - 1);
        vstd::arithmetic::div_mod::lemma_fundamental_div_mod(rest, base);
        vstd::arithmetic::div_mod::lemma_mod_decreases(rest as nat, base as nat);
        assert(digits[count - 1] == rest % base);
        assert(rest * p == (rest % base) * p + (rest / base) * (p * base)) by (nonlinear_arith)
            requires
                rest == base * (rest / base) + rest % base,
        ;
    }
    lemma_radix_sum_of_digits(digits, base, count);
    let sum = radix_sum(digits, base, count);
    let weight = radix_power(base, count);
    let rest = radix_rest(message, base, count);
    if count > 0 {
        vstd::arithmetic::div_mod::lemma_fundamental_div_mod_converse(
            message as int,
            weight,
            rest,
            sum,
        );
    } else {
        assert(weight == 1);
    }
}

/// What is left of an integer above its first digits is between zero and the integer.
pub proof fn lemma_rest_bounds(message: u64, base: int, count: int)
    requires
        base >= 1,
    ensures
        0 <= radix_rest(message, base, count) <= message,
    decreases count,
{
    if count > 0 {
        lemma_rest_bounds(message, base, count - 1);
        let rest = radix_rest(message, base, count - 1);
        vstd::arithmetic::div_mod::lemma_div_pos_is_pos(rest, base);
        vstd::arithmetic::div_mod::lemma_div_is_ordered_by_denominator(rest, 1, base);
    }
}

/// Replacing one value changes the sum by the difference of the two values, times the
/// weight of the value.
pub proof fn lemma_radix_sum_update(
    values: Seq<int>,
    base: int,
    count: int,
    index: int,
    value: int,
)
    requires
        0 <= index < values.len(),
        count <= values.len(),
    ensures
        radix_sum(values.update(index, value), base, count) == radix_sum(values, base, count) + (
        if index < count {
            (value - values[index]) * radix_power(base, index)
        } else {
            0
        }),
    decreases count,
{
    if count > 0 {
        lemma_radix_sum_update(values, base, count - 1, index, value);
        let p = radix_power(base, count - 1);
        if index == count - 1 {
            assert(value * p == values[index] * p + (value - values[index]) * p)
                by (nonlinear_arith);
        }
    }
}

/// Propagating a carry keeps the integer that the values stand for, but for the carry of
/// the last value, which leaves: it weighs as much as the first digit that the values do
/// not have.
pub proof fn lemma_carried_sum(values: Seq<int>, base: int, index: int)
    requires
        base >= 1,
        0 <= index < values.len(),
    ensures
        carried(values, base, index).len() == values.len(),
        radix_sum(carried(values, base, index), base, values.len() as int) == radix_sum(
            values,
            base,
            values.len() as int,
        ) - (if index == values.len() - 1 {
            (values[index] / base) * radix_power(base, values.len() as int)
        } else {
            0
        }),
{
    let len = values.len() as int;
    let v = values[index];
    let replaced = values.update(index, v % base);
    let p = radix_power(base, index);
    lemma_radix_sum_update(values, base, len, index, v % base);
    vstd::arithmetic::div_mod::lemma_fundamental_div_mod(v, base);
    assert((v % base - v) * p == -((v / base) * (p * base))) by (nonlinear_arith)
        requires
            v == base * (v / base) + v % base,
    ;
    assert(radix_power(base, index + 1) == p * base);
    if index < len - 1 {
        lemma_radix_sum_update(replaced, base, len, index + 1, values[index + 1] + v / base);
        assert(replaced[index + 1] == values[index + 1]);
    }
}

/// After the carries of the first `count` values are propagated, the first `count` values
/// are digits, the values above the next one are as before, no value is negative, and the
/// values stand for the same integer modulo the weight of the first digit that they do not
/// have.
pub proof fn lemma_fully_carried(values: Seq<int>, base: int, count: int)
    requires
        base >= 1,
        0 <= count <= values.len(),
        forall|i: int| 0 <= i < values.len() ==> #[trigger] values[i] >= 0,
    ensures
        fully_carried(values, base, count).len() == values.len(),
        forall|i: int| 0 <= i < count ==> 0 <= #[trigger] fully_carried(values, base, count)[i] < base,
        forall|i: int|
            0 <= i < values.len() ==> #[trigger] fully_carried(values, base, count)[i] >= 0,
        forall|i: int|
            count < i < values.len() ==> #[trigger] fully_carried(values, base, count)[i]
                == values[i],
        radix_sum(fully_carried(values, base, count), base, values.len() as int) % radix_power(
            base,
            values.len() as int,
        ) == radix_sum(values, base, values.len() as int) % radix_power(
            base,
            values.len() as int,
        ),
    decreases count,
{
    if count > 0 {
        lemma_fully_carried(values, base, count - 1);
        let before = fully_carried(values, base, count - 1);
        let after = carried(before, base, count - 1);
        let len = values.len() as int;
        let v = before[count - 1];
        lemma_carried_sum(before, base, count - 1);
        vstd::arithmetic::div_mod::lemma_mod_bound(v, base);
        vstd::arithmetic::div_mod::lemma_div_pos_is_pos(v, base);
        assert forall|i: int| 0 <= i < count implies 0 <= #[trigger] after[i] < base by {
            if i < count - 1 {
                assert(after[i] == before[i]);
            }
        }
        assert forall|i: int| 0 <= i < len implies #[trigger] after[i] >= 0 by {
            if i != count - 1 && i != count {
                assert(after[i] == before[i]);
            }
        }
        assert forall|i: int| count < i < len implies #[trigger] after[i] == values[i] by {
            assert(after[i] == before[i]);
        }
        let weight = radix_power(base, len);
        lemma_radix_power_positive(base, len);
        if count == len {
            vstd::arithmetic::div_mod::lemma_mod_multiples_vanish(
                -(v / base),
                radix_sum(before, base, len),
                weight,
            );
            assert(weight * (-(v / base)) + radix_sum(before, base, len) == radix_sum(
                before,
                base,
                len,
            ) - (v / base) * weight) by (nonlinear_arith);
        }
    }
}

/// After all the carries are propagated the values are the digits of the integer that the
/// values stood for, reduced by the weight of the first digit that they do not have.
pub proof fn lemma_fully_carried_sum(values: Seq<int>, base: int)
    requires
        base >= 1,
        values.len() >= 1,
        forall|i: int| 0 <= i < values.len() ==> #[trigger] values[i] >= 0,
    ensures
        forall|i: int|
            0 <= i < values.len() ==> 0 <= #[trigger] fully_carried(
                values,
                base,
                values.len() as int,
            )[i] < base,
        radix_sum(
            fully_carried(values, base, values.len() as int),
            base,
            values.len() as int,
        ) == radix_sum(values, base, values.len() as int) % radix_power(
            base,
            values.len() as int,
        ),
{
    let len = values.len() as int;
    let after = fully_carried(values, base, len);
    lemma_fully_carried(values, base, len);
    lemma_radix_sum_of_digits(after, base, len);
    vstd::arithmetic::div_mod::lemma_small_mod(
        radix_sum(after, base, len) as nat,
        radix_power(base, len) as nat,
    );
}

/// The sum of values added one by one is the sum of the sums.
pub proof fn lemma_radix_sum_of_sums(a: Seq<int>, b: Seq<int>, base: int, count: int)
    requires
        a.len() == b.len(),
        count <= a.len(),
    ensures
        radix_sum(Seq::new(a.len(), |i: int| a[i] + b[i]), base, count) == radix_sum(
            a,
            base,
            count,
        ) + radix_sum(b, base, count),
    decreases count,
{
    if count > 0 {
        lemma_radix_sum_of_sums(a, b, base, count - 1);
        let p = radix_power(base, count - 1);
        assert((a[count - 1] + b[count - 1]) * p == a[count - 1] * p + b[count - 1] * p)
            by (nonlinear_arith);
    }
}

} // verus!
