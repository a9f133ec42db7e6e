//! The degree of a ciphertext bounds what the ciphertext encodes: what each operation does
//! to the degree, and why the new degree is a bound again.
use crate::shortint::engine::lemma_max_value_at_most;
use crate::shortint::ciphertext::CiphertextView;
use crate::shortint::engine::{lemma_max_value_bounds, max_value, message_table};
use crate::shortint::server_key::bitwise_op::{bitwise_table, BitwiseOperation};
use crate::shortint::server_key::{carry_table, ServerKey};
use vstd::prelude::*;

verus! {

/// After a table is applied to a ciphertext, the degree of the result is at least the value
/// of the table on every input: whatever integer the ciphertext encoded below the product
/// of the moduli, the degree bounds the integer that the result encodes.
pub proof fn lemma_degree_bounds_table(
    server_key: ServerKey,
    ct: CiphertextView,
    values: Seq<u64>,
    input: int,
)
    requires
        0 <= input < values.len(),
        max_value(values) <= usize::MAX,
    ensures
        values[input] <= server_key.table_applied(ct, values).degree.0,
{
    lemma_max_value_bounds(values);
}

/// The degree of a sum bounds the sum of what the degrees of the operands bound.
pub proof fn lemma_degree_bounds_sum(left: CiphertextView, right: CiphertextView, x: int, y: int)
    requires
        0 <= x <= left.degree.0,
        0 <= y <= right.degree.0,
        left.degree.0 + right.degree.0 <= usize::MAX,
    ensures
        x + y <= ServerKey::added(left, right).degree.0,
{
}

/// The degree of a product by a scalar bounds the product of what the degree of the operand
/// bounds.
pub proof fn lemma_degree_bounds_scalar_product(ct: CiphertextView, scalar: u8, x: int)
    requires
        0 <= x <= ct.degree.0,
        ct.degree.0 * scalar <= usize::MAX,
    ensures
        x * scalar <= ServerKey::scalar_multiplied(ct, scalar).degree.0,
{
    assert(x * scalar <= ct.degree.0 * scalar) by (nonlinear_arith)
        requires
            0 <= x <= ct.degree.0,
            scalar >= 0,
    ;
}

/// The largest message is the largest value of the table that keeps the message.
pub proof fn lemma_message_table_max(message_modulus: int, count: int)
    requires
        1 <= message_modulus <= count,
        count <= 0x8000_0000_0000_0000,
    ensures
        max_value(message_table(message_modulus, count)) == message_modulus - 1,
{
    let table = message_table(message_modulus, count);
    let bound = (message_modulus - 1) as u64;
    assert forall|i: int| 0 <= i < table.len() implies table[i] <= bound by {
        vstd::arithmetic::div_mod::lemma_mod_bound(i, message_modulus);
    }
    lemma_max_value_at_most(table, bound);
    lemma_max_value_bounds(table);
    vstd::arithmetic::div_mod::lemma_small_mod((message_modulus - 1) as nat, message_modulus as nat);
    assert(table[message_modulus - 1] == bound);
}

/// A ciphertext whose carry was cleared has an empty carry: its degree is the largest
/// message.
pub proof fn lemma_cleared_carry_is_empty(server_key: ServerKey, ct: CiphertextView)
    requires
        server_key.wf(),
    ensures
        server_key.message_extracted(ct).degree.0 == server_key.message_modulus.0 - 1,
        server_key.message_extracted(ct).message_modulus == ct.message_modulus,
        server_key.message_extracted(ct).carry_modulus == ct.carry_modulus,
        ct.message_modulus == server_key.message_modulus ==> server_key.message_extracted(
            ct,
        ).carry_is_empty(),
{
    crate::shortint::parameters::lemma_modulus_sup_positive(
        server_key.message_modulus.0 as int,
        server_key.carry_modulus.0 as int,
    );
    lemma_message_table_max(server_key.message_modulus.0 as int, server_key.modulus_sup());
}

/// The bitwise AND of two integers is at most the first.
pub proof fn lemma_and_at_most(x: u64, y: u64)
    ensures
        x & y <= x,
{
    assert(x & y <= x) by (bit_vector);
}

/// The bitwise OR and XOR of two integers below a power of two are below it.
pub proof fn lemma_or_xor_below_power_of_two(x: u64, y: u64, bits: u64)
    requires
        bits < 64,
        x < (1u64 << bits),
        y < (1u64 << bits),
    ensures
        x | y < (1u64 << bits),
        x ^ y < (1u64 << bits),
{
    assert(x | y < (1u64 << bits)) by (bit_vector)
        requires
            bits < 64,
            x < (1u64 << bits),
            y < (1u64 << bits),
    ;
    assert(x ^ y < (1u64 << bits)) by (bit_vector)
        requires
            bits < 64,
            x < (1u64 << bits),
            y < (1u64 << bits),
    ;
}

/// For a message modulus that is a power of two, the reduction of a bitwise operation on two
/// messages changes nothing: the operation on two messages is a message.
pub proof fn lemma_reduction_keeps_bits(operation: BitwiseOperation, x: u64, y: u64, bits: u64)
    requires
        bits < 64,
        x < (1u64 << bits),
        y < (1u64 << bits),
    ensures
        operation.apply_modulo(x, y, (1u64 << bits) as int) == operation.apply(x, y),
{
    lemma_or_xor_below_power_of_two(x, y, bits);
    lemma_and_at_most(x, y);
    vstd::arithmetic::div_mod::lemma_small_mod(
        operation.apply(x, y) as nat,
        (1u64 << bits) as nat,
    );
}

/// The bitwise AND of two messages needs no reduction, whatever the message modulus.
pub proof fn lemma_bitand_needs_no_reduction(x: u64, y: u64, message_modulus: int)
    requires
        x < message_modulus,
    ensures
        BitwiseOperation::And.apply_modulo(x, y, message_modulus) == x & y,
{
    lemma_and_at_most(x, y);
    vstd::arithmetic::div_mod::lemma_small_mod((x & y) as nat, message_modulus as nat);
}

/// The result of a bitwise operation has an empty carry, whatever the operands and the
/// message modulus: no value of the table reaches the message modulus.
pub proof fn lemma_bitwise_degree(
    server_key: ServerKey,
    operation: BitwiseOperation,
    left: CiphertextView,
    right: CiphertextView,
)
    requires
        server_key.wf(),
        left.message_modulus == server_key.message_modulus,
    ensures
        server_key.unchecked_bitwise(operation, left, right).degree.0
            <= server_key.message_modulus.0 - 1,
        server_key.unchecked_bitwise(operation, left, right).carry_is_empty(),
{
    let m = server_key.message_modulus.0 as int;
    let table = bitwise_table(operation, m, server_key.modulus_sup());
    let bound = (m - 1) as u64;
    assert forall|i: int| 0 <= i < table.len() implies table[i] <= bound by {
        let x = ((i / m) % m) as u64;
        let y = ((i % m) % m) as u64;
        vstd::arithmetic::div_mod::lemma_mod_bound(operation.apply(x, y) as int, m);
    }
    lemma_max_value_at_most(table, bound);
}

/// The result of a default bitwise operation has an empty carry, whatever the degrees of
/// the operands and the message modulus: its degree is at most the largest message.
pub proof fn lemma_default_bitwise_carry_is_empty(
    server_key: ServerKey,
    operation: BitwiseOperation,
    left: CiphertextView,
    right: CiphertextView,
)
    requires
        server_key.wf(),
        left.message_modulus == server_key.message_modulus,
    ensures
        server_key.default_bitwise(operation, left, right).degree.0
            <= server_key.message_modulus.0 - 1,
        server_key.default_bitwise(operation, left, right).carry_is_empty(),
{
    lemma_cleared_carry_is_empty(server_key, left);
    lemma_bitwise_degree(
        server_key,
        operation,
        server_key.default_operand(left),
        server_key.default_operand(right),
    );
}

/// A second smart operation on the result and on the right operand of a first one gives a
/// result with the bookkeeping of the first: the same degree, moduli and order.
pub proof fn lemma_smart_bitwise_keeps_bookkeeping(
    server_key: ServerKey,
    operation: BitwiseOperation,
    left: CiphertextView,
    right: CiphertextView,
)
    requires
        server_key.wf(),
    ensures
        ({
            let first = server_key.smart_bitwise(operation, left, right);
            let right_after = server_key.smart_operand(right, left, right);
            let second = server_key.smart_bitwise(operation, first, right_after);
            &&& second.degree == first.degree
            &&& second.message_modulus == first.message_modulus
            &&& second.carry_modulus == first.carry_modulus
            &&& second.pbs_order == first.pbs_order
        }),
{
    let first = server_key.smart_bitwise(operation, left, right);
    let right_after = server_key.smart_operand(right, left, right);
    lemma_cleared_carry_is_empty(server_key, right_after);
    lemma_cleared_carry_is_empty(server_key, first);
}

/// The degree of an extracted carry is the largest carry.
pub proof fn lemma_carry_table_max(message_modulus: int, count: int)
    requires
        1 <= message_modulus,
        1 <= count <= 0x8000_0000_0000_0000,
    ensures
        max_value(carry_table(message_modulus, count)) == (count - 1) / message_modulus,
{
    let table = carry_table(message_modulus, count);
    let bound = ((count - 1) / message_modulus) as u64;
    vstd::arithmetic::div_mod::lemma_div_pos_is_pos(count - 1, message_modulus);
    vstd::arithmetic::div_mod::lemma_div_is_ordered_by_denominator(count - 1, 1, message_modulus);
    assert forall|i: int| 0 <= i < table.len() implies table[i] <= bound by {
        vstd::arithmetic::div_mod::lemma_div_is_ordered(i, count - 1, message_modulus);
        vstd::arithmetic::div_mod::lemma_div_is_ordered_by_denominator(i, 1, message_modulus);
        vstd::arithmetic::div_mod::lemma_div_pos_is_pos(i, message_modulus);
    }
    lemma_max_value_at_most(table, bound);
    lemma_max_value_bounds(table);
    assert(table[count - 1] == bound);
}

} // verus!
