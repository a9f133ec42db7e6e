//! Key switching of LWE ciphertexts.
use crate::core_crypto::algorithms::decomposition::{decomposition_digit, SignedDecomposer};
use crate::core_crypto::algorithms::polynomial_algorithms::{
    lemma_polynomial_bounds,
    polynomial,
    polynomial_of,
};
use crate::core_crypto::algorithms::slice_algorithms::{
    slice_difference_scaled,
    slice_wrapping_sub_scalar_mul_assign,
};
use crate::core_crypto::commons::numeric::filled_vec;
use vstd::prelude::*;

verus! {

/// The ciphertext that a key switch starts from: a zero mask and the body of the input.
pub open spec fn keyswitch_start(input: Seq<u64>, output_size: int) -> Seq<u64> {
    Seq::new(
        output_size as nat,
        |j: int|
            if j == output_size - 1 {
                input.last()
            } else {
                0u64
            },
    )
}

/// The ciphertext of a key switch after the first `rows` rows of the key: for each row, the
/// row times the digit of its level of the mask scalar of its bit is subtracted.
pub open spec fn keyswitch_partial(
    key: Seq<u64>,
    input: Seq<u64>,
    output_size: int,
    base_log: nat,
    levels: nat,
    rows: int,
) -> Seq<u64>
    decreases rows,
{
    if rows <= 0 {
        keyswitch_start(input, output_size)
    } else {
        slice_difference_scaled(
            keyswitch_partial(key, input, output_size, base_log, levels, rows - 1),
            polynomial_of(key, rows - 1, output_size),
            decomposition_digit(
                input[(rows - 1) / (levels as int)],
                base_log,
                levels,
                ((rows - 1) % (levels as int) + 1) as nat,
            ),
        )
    }
}

/// The key switch of `input` by the key `key`, whose rows have `output_size` scalars.
pub open spec fn keyswitched(
    key: Seq<u64>,
    input: Seq<u64>,
    output_size: int,
    base_log: nat,
    levels: nat,
) -> Seq<u64> {
    keyswitch_partial(key, input, output_size, base_log, levels, (input.len() - 1) * levels)
}

/// A key switch keeps the size of the rows of the key.
pub proof fn lemma_keyswitch_partial_len(
    key: Seq<u64>,
    input: Seq<u64>,
    output_size: int,
    base_log: nat,
    levels: nat,
    rows: int,
)
    requires
        output_size >= 0,
    ensures
        keyswitch_partial(key, input, output_size, base_log, levels, rows).len() == output_size,
    decreases rows,
{
    if rows > 0 {
        lemma_keyswitch_partial_len(key, input, output_size, base_log, levels, rows - 1);
    }
}

/// Switch the key of `input`: give the ciphertext of the same plaintext under the output key
/// of the key switching key `key`.
pub fn keyswitch_lwe_ciphertext(
    key: &[u64],
    input: &[u64],
    output_size: usize,
    decomposer: &SignedDecomposer,
) -> (output: Vec<u64>)
    requires
        decomposer.wf(),
        input@.len() >= 1,
        output_size >= 1,
        key@.len() == (input@.len() - 1) * decomposer.level_count * output_size,
    ensures
        output@ == keyswitched(
            key@,
            input@,
            output_size as int,
            decomposer.base_log as nat,
            decomposer.level_count as nat,
        ),
        output@.len() == output_size,
{
    let input_dimension = input.len() - 1;
    let levels = decomposer.level_count;
    let key_len = key.len();
    proof {
        assert(input_dimension * levels <= input_dimension * levels * output_size)
            by (nonlinear_arith)
            requires
                output_size >= 1,
                input_dimension * levels >= 0,
        ;
    }
    let rows = input_dimension * levels;
    let mut output = filled_vec(0, output_size);
    output[output_size - 1] = input[input_dimension];
    assert(output@ =~= keyswitch_start(input@, output_size as int));
    let mut row: usize = 0;
    while row < rows
        invariant
            decomposer.wf(),
            levels == decomposer.level_count,
            input_dimension == input@.len() - 1,
            output_size >= 1,
            key@.len() == rows * output_size,
            rows == input_dimension * levels,
            row <= rows,
            output@.len() == output_size,
            output@ == keyswitch_partial(
                key@,
                input@,
                output_size as int,
                decomposer.base_log as nat,
                levels as nat,
                row as int,
            ),
        decreases rows - row,
    {
        proof {
            assert(input_dimension * levels == levels * input_dimension) by (nonlinear_arith);
            vstd::arithmetic::div_mod::lemma_multiply_divide_lt(
                row as int,
                levels as int,
                input_dimension as int,
            );
            lemma_polynomial_bounds(row as int, rows as int, output_size as int);
        }
        let digit = decomposer.digit(input[row / levels], row % levels + 1);
        let key_row = polynomial(key, row, output_size);
        slice_wrapping_sub_scalar_mul_assign::<u64>(output.as_mut_slice(), key_row, digit);
        row += 1;
    }
    output
}

} // verus!
