//! A key switch keeps the phase of a ciphertext, up to an error that the gadget and the
//! noise of the key bound.
use crate::core_crypto::algorithms::decomposition::{
    is_valid_gadget,
    lemma_recomposition,
    lemma_rounding_error_range,
    lemma_signed_digit_range,
    recomposed,
    rounding_error,
    signed_digit,
};
use crate::core_crypto::algorithms::lwe_encryption::{lemma_phase_of_encryption, lwe_phase};
use crate::core_crypto::algorithms::lwe_keyswitch::{
    keyswitch_partial,
    keyswitch_start,
    keyswitched,
    lemma_keyswitch_partial_len,
};
use crate::core_crypto::algorithms::lwe_keyswitch_key_generation::{
    generator_of_keyswitch_row,
    keyswitch_key,
    keyswitch_row,
    KeyswitchShape,
};
use crate::core_crypto::algorithms::lwe_linear_algebra::lemma_phase_of_difference_scaled;
use crate::core_crypto::algorithms::polynomial_algorithms::{
    lemma_concat_polynomials,
    polynomial_of,
};
use crate::core_crypto::algorithms::slice_algorithms::sum_of_products;
use crate::core_crypto::commons::generators::{
    lemma_noise_bounded,
    noise_draw,
    EncryptionRandomGenerator,
};
use crate::core_crypto::commons::numeric::{
    congruent,
    lemma_congruent_ops,
    lemma_congruent_torus,
    torus,
};
use crate::core_crypto::entities::lwe_secret_key::is_binary;
use vstd::arithmetic::power2::pow2;
use vstd::prelude::*;

verus! {

/// The digit that the row of index `row` of a key switch is multiplied by: the digit of the
/// level of the row of the mask scalar of the bit of the row.
pub open spec fn row_digit(input: Seq<u64>, shape: KeyswitchShape, row: int) -> int {
    signed_digit(
        input[row / (shape.levels as int)],
        shape.base_log,
        shape.levels,
        (row % (shape.levels as int) + 1) as nat,
    )
}

/// The noise of the row of index `row` of the key switching key that a generator gives, as
/// a signed integer.
pub open spec fn row_noise(
    generator: EncryptionRandomGenerator,
    shape: KeyswitchShape,
    output_dimension: int,
    row: int,
) -> int {
    noise_draw(
        generator_of_keyswitch_row(generator, output_dimension, row).noise.advanced(0),
        shape.std,
    )
}

/// The sum, over the first `rows` rows, of the digit of the row times its noise.
pub open spec fn keyswitch_noise(
    generator: EncryptionRandomGenerator,
    shape: KeyswitchShape,
    input: Seq<u64>,
    output_dimension: int,
    rows: int,
) -> int
    decreases rows,
{
    if rows <= 0 {
        0
    } else {
        keyswitch_noise(generator, shape, input, output_dimension, rows - 1) + row_digit(
            input,
            shape,
            rows - 1,
        ) * row_noise(generator, shape, output_dimension, rows - 1)
    }
}

/// The sum, over the first `rows` rows, of the digit of the row times the bit of the input
/// key and the weight of the level that the row encrypts.
pub open spec fn keyswitch_signal(
    shape: KeyswitchShape,
    input: Seq<u64>,
    input_key: Seq<u64>,
    rows: int,
) -> int
    decreases rows,
{
    if rows <= 0 {
        0
    } else {
        keyswitch_signal(shape, input, input_key, rows - 1) + row_digit(input, shape, rows - 1) * (
        input_key[(rows - 1) / (shape.levels as int)] * pow2(
            (64 - shape.base_log * ((rows - 1) % (shape.levels as int) + 1)) as nat,
        ))
    }
}

/// The sum, over the first `count` scalars of the mask, of the bit of the input key times
/// what the decomposition of the scalar rounds away.
pub open spec fn keyswitch_rounding(
    shape: KeyswitchShape,
    input: Seq<u64>,
    input_key: Seq<u64>,
    count: int,
) -> int
    decreases count,
{
    if count <= 0 {
        0
    } else {
        keyswitch_rounding(shape, input, input_key, count - 1) + input_key[count - 1]
            * rounding_error(input[count - 1], shape.base_log, shape.levels)
    }
}

/// The error that a key switch adds to the phase of a ciphertext: what the decompositions
/// round away for the bits of the input key that are one, and the noise of the rows of the
/// key, each times its digit, with the opposite sign.
pub open spec fn keyswitch_error(
    generator: EncryptionRandomGenerator,
    shape: KeyswitchShape,
    input: Seq<u64>,
    input_key: Seq<u64>,
    output_dimension: int,
) -> int {
    -(keyswitch_rounding(shape, input, input_key, input_key.len() as int) + keyswitch_noise(
        generator,
        shape,
        input,
        output_dimension,
        (input_key.len() * shape.levels) as int,
    ))
}

/// The bound of the error of a key switch: half a rounding unit for each bit of the input
/// key, and three standard deviations times half the base for each row.
pub open spec fn keyswitch_error_bound(shape: KeyswitchShape, input_dimension: int) -> int {
    input_dimension * (pow2((64 - shape.base_log * shape.levels) as nat) / 2) + (input_dimension
        * shape.levels) * ((pow2(shape.base_log) / 2) * (3 * shape.std.0))
}

/// The dot product of a zero mask with any key is zero.
pub proof fn lemma_sum_of_products_of_zeros(mask: Seq<u64>, key: Seq<u64>)
    requires
        forall|i: int| 0 <= i < mask.len() ==> mask[i] == 0,
    ensures
        sum_of_products(mask, key) == 0,
    decreases mask.len(),
{
    if mask.len() > 0 && key.len() == mask.len() {
        assert forall|i: int| 0 <= i < mask.drop_last().len() implies mask.drop_last()[i]
            == 0 by {
            assert(mask.drop_last()[i] == mask[i]);
        }
        lemma_sum_of_products_of_zeros(mask.drop_last(), key.drop_last());
        assert(mask.last() * key.last() == 0) by (nonlinear_arith)
            requires
                mask.last() == 0,
        ;
    }
}

/// The noise of the rows, each times its digit, stays within three standard deviations
/// times half the base for each row.
pub proof fn lemma_keyswitch_noise_bound(
    generator: EncryptionRandomGenerator,
    shape: KeyswitchShape,
    input: Seq<u64>,
    output_dimension: int,
    rows: int,
)
    requires
        is_valid_gadget(shape.base_log as int, shape.levels as int),
        shape.std.0 <= 0x7fff_ffff_ffff_ffff,
        rows >= 0,
    ensures
        -(rows * ((pow2(shape.base_log) / 2) * (3 * shape.std.0))) <= keyswitch_noise(
            generator,
            shape,
            input,
            output_dimension,
            rows,
        ) <= rows * ((pow2(shape.base_log) / 2) * (3 * shape.std.0)),
    decreases rows,
{
    let unit = (pow2(shape.base_log) / 2) * (3 * shape.std.0);
    if rows > 0 {
        lemma_keyswitch_noise_bound(generator, shape, input, output_dimension, rows - 1);
        let row = rows - 1;
        vstd::arithmetic::div_mod::lemma_mod_bound(row, shape.levels as int);
        lemma_signed_digit_range(
            input[row / (shape.levels as int)],
            shape.base_log,
            shape.levels,
            (row % (shape.levels as int) + 1) as nat,
        );
        lemma_noise_bounded(
            generator_of_keyswitch_row(generator, output_dimension, row).noise.advanced(0),
            shape.std,
        );
        let d = row_digit(input, shape, row);
        let e = row_noise(generator, shape, output_dimension, row);
        let half = pow2(shape.base_log) as int / 2;
        let bound = 3 * shape.std.0;
        assert(-(half * bound) <= d * e <= half * bound) by (nonlinear_arith)
            requires
                -half <= d <= half,
                -bound <= e <= bound,
                half >= 0,
                bound >= 0,
        ;
        assert(rows * unit == (rows - 1) * unit + unit) by (nonlinear_arith);
    } else {
        assert(rows * unit == 0) by (nonlinear_arith)
            requires
                rows == 0,
        ;
    }
}

/// What the decompositions round away, for the bits of a binary key, stays within half a
/// rounding unit for each bit.
pub proof fn lemma_keyswitch_rounding_bound(
    shape: KeyswitchShape,
    input: Seq<u64>,
    input_key: Seq<u64>,
    count: int,
)
    requires
        is_valid_gadget(shape.base_log as int, shape.levels as int),
        is_binary(input_key),
        0 <= count <= input_key.len(),
    ensures
        -(count * (pow2((64 - shape.base_log * shape.levels) as nat) / 2)) <= keyswitch_rounding(
            shape,
            input,
            input_key,
            count,
        ) <= count * (pow2((64 - shape.base_log * shape.levels) as nat) / 2),
    decreases count,
{
    let unit = pow2((64 - shape.base_log * shape.levels) as nat) as int / 2;
    if count > 0 {
        lemma_keyswitch_rounding_bound(shape, input, input_key, count - 1);
        lemma_rounding_error_range(input[count - 1], shape.base_log, shape.levels);
        let bit = input_key[count - 1];
        let e = rounding_error(input[count - 1], shape.base_log, shape.levels);
        assert(-unit <= bit * e <= unit) by (nonlinear_arith)
            requires
                0 <= bit <= 1,
                -unit <= e <= unit,
        ;
        assert(count * unit == (count - 1) * unit + unit) by (nonlinear_arith);
    } else {
        assert(count * unit == 0) by (nonlinear_arith)
            requires
                count == 0,
        ;
    }
}

/// The rows of a key switching key with its masks are its ciphertexts.
pub proof fn lemma_keyswitch_key_rows(
    generator: EncryptionRandomGenerator,
    shape: KeyswitchShape,
    input_key: Seq<u64>,
    output_key: Seq<u64>,
    row: int,
)
    requires
        0 <= row < input_key.len() * shape.levels,
    ensures
        polynomial_of(
            keyswitch_key(generator, shape, input_key, output_key, true),
            row,
            (output_key.len() + 1) as int,
        ) == keyswitch_row(generator, shape, input_key, output_key, true, row),
        keyswitch_row(generator, shape, input_key, output_key, true, row).len() == output_key.len()
            + 1,
{
    let f = |row: int| keyswitch_row(generator, shape, input_key, output_key, true, row);
    assert forall|r: int| 0 <= r < input_key.len() * shape.levels implies (#[trigger] f(r)).len()
        == output_key.len() + 1 by {}
    lemma_concat_polynomials(
        f,
        (input_key.len() * shape.levels) as int,
        (output_key.len() + 1) as int,
    );
    assert(f(row) == keyswitch_row(generator, shape, input_key, output_key, true, row));
}

/// After the first `rows` rows of a key switch, the phase under the output key is the body
/// of the input minus the signal and the noise of the rows.
pub proof fn lemma_keyswitch_partial_phase(
    generator: EncryptionRandomGenerator,
    shape: KeyswitchShape,
    input_key: Seq<u64>,
    output_key: Seq<u64>,
    input: Seq<u64>,
    rows: int,
)
    requires
        is_valid_gadget(shape.base_log as int, shape.levels as int),
        input.len() == input_key.len() + 1,
        0 <= rows <= input_key.len() * shape.levels,
    ensures
        congruent(
            lwe_phase(
                output_key,
                keyswitch_partial(
                    keyswitch_key(generator, shape, input_key, output_key, true),
                    input,
                    (output_key.len() + 1) as int,
                    shape.base_log,
                    shape.levels,
                    rows,
                ),
            ) as int,
            input.last() - (keyswitch_signal(shape, input, input_key, rows) + keyswitch_noise(
                generator,
                shape,
                input,
                output_key.len() as int,
                rows,
            )),
        ),
    decreases rows,
{
    let key = keyswitch_key(generator, shape, input_key, output_key, true);
    let size = (output_key.len() + 1) as int;
    if rows == 0 {
        let start = keyswitch_start(input, size);
        lemma_sum_of_products_of_zeros(start.drop_last(), output_key);
        lemma_congruent_torus(start.last() - 0);
    } else {
        let row = rows - 1;
        lemma_keyswitch_partial_phase(generator, shape, input_key, output_key, input, row);
        lemma_keyswitch_key_rows(generator, shape, input_key, output_key, row);
        let before = keyswitch_partial(key, input, size, shape.base_log, shape.levels, row);
        lemma_keyswitch_partial_len(key, input, size, shape.base_log, shape.levels, row);
        let key_row = polynomial_of(key, row, size);
        let levels = shape.levels as int;
        vstd::arithmetic::div_mod::lemma_mod_bound(row, levels);
        let level = (row % levels + 1) as nat;
        let sd = row_digit(input, shape, row);
        let digit = torus(sd);
        lemma_phase_of_difference_scaled(output_key, before, key_row, digit);
        // the phase of the row
        let weight = crate::core_crypto::algorithms::decomposition::gadget_weight(
            shape.base_log,
            level,
        );
        let bit = input_key[row / levels];
        let row_generator = generator_of_keyswitch_row(generator, output_key.len() as int, row);
        let plaintext = torus(bit * weight);
        let noise = row_generator.noise_at(0, shape.std);
        lemma_phase_of_encryption(
            output_key,
            row_generator.mask.words(output_key.len()),
            plaintext,
            noise,
        );
        let draw = row_noise(generator, shape, output_key.len() as int, row);
        crate::core_crypto::algorithms::decomposition::lemma_gadget_exponents(
            shape.base_log as int,
            shape.levels as int,
            level as int,
        );
        vstd::bits::lemma_u64_pow2_no_overflow((64 - shape.base_log * level) as nat);
        let w = pow2((64 - shape.base_log * level) as nat) as int;
        assert(weight == w);
        // phase(row) is congruent to bit * w + draw
        lemma_congruent_torus(bit * weight);
        lemma_congruent_torus(draw);
        lemma_congruent_ops(plaintext as int, bit * w, noise as int, draw);
        lemma_congruent_torus(plaintext + noise);
        let row_phase = lwe_phase(output_key, key_row);
        assert(congruent(row_phase as int, bit * w + draw));
        lemma_congruent_torus(sd);
        lemma_congruent_ops(digit as int, sd, row_phase as int, bit * w + draw);
        let before_phase = lwe_phase(output_key, before);
        let before_sum = keyswitch_signal(shape, input, input_key, row) + keyswitch_noise(
            generator,
            shape,
            input,
            output_key.len() as int,
            row,
        );
        lemma_congruent_ops(
            before_phase as int,
            input.last() - before_sum,
            digit * row_phase,
            sd * (bit * w + draw),
        );
        lemma_congruent_torus(before_phase - digit * row_phase);
        assert(sd * (bit * w + draw) == sd * (bit * w) + sd * draw) by (nonlinear_arith);
    }
}

/// The signal of the rows of the first `count` bits of the input key, then of the first
/// `level` levels of the next, groups by bit: each bit comes with the recomposition of its
/// mask scalar.
pub proof fn lemma_keyswitch_signal_groups(
    shape: KeyswitchShape,
    input: Seq<u64>,
    input_key: Seq<u64>,
    count: int,
    level: int,
)
    requires
        is_valid_gadget(shape.base_log as int, shape.levels as int),
        0 <= count,
        0 <= level <= shape.levels,
    ensures
        keyswitch_signal(shape, input, input_key, count * shape.levels + level)
            == keyswitch_grouped(shape, input, input_key, count) + input_key[count] * recomposed(
            input[count],
            shape.base_log,
            shape.levels,
            level as nat,
        ),
    decreases count, level,
{
    let levels = shape.levels as int;
    if level == 0 {
        if count == 0 {
            assert(count * levels + level == 0) by (nonlinear_arith)
                requires
                    count == 0,
                    level == 0,
            ;
            assert(input_key[count] * 0 == 0) by (nonlinear_arith);
        } else {
            lemma_keyswitch_signal_groups(shape, input, input_key, count - 1, levels);
            assert((count - 1) * levels + levels == count * levels + 0) by (nonlinear_arith);
            assert(input_key[count] * 0 == 0) by (nonlinear_arith);
        }
    } else {
        lemma_keyswitch_signal_groups(shape, input, input_key, count, level - 1);
        let row = count * levels + level - 1;
        assert(row == levels * count + (level - 1)) by (nonlinear_arith)
            requires
                row == count * levels + level - 1,
        ;
        vstd::arithmetic::div_mod::lemma_fundamental_div_mod_converse(
            row,
            levels,
            count,
            level - 1,
        );
        let sd = signed_digit(input[count], shape.base_log, shape.levels, level as nat);
        let w = pow2((64 - shape.base_log * level) as nat) as int;
        let bit = input_key[count];
        assert(row_digit(input, shape, row) == sd);
        assert(recomposed(input[count], shape.base_log, shape.levels, level as nat) == recomposed(
            input[count],
            shape.base_log,
            shape.levels,
            (level - 1) as nat,
        ) + sd * w);
        assert(sd * (bit * w) == bit * (sd * w)) by (nonlinear_arith);
        let before = recomposed(input[count], shape.base_log, shape.levels, (level - 1) as nat);
        assert(bit * before + bit * (sd * w) == bit * (before + sd * w)) by (nonlinear_arith);
    }
}

/// The sum, over the first `count` bits of the input key, of the bit times the recomposition
/// of its mask scalar.
pub open spec fn keyswitch_grouped(
    shape: KeyswitchShape,
    input: Seq<u64>,
    input_key: Seq<u64>,
    count: int,
) -> int
    decreases count,
{
    if count <= 0 {
        0
    } else {
        keyswitch_grouped(shape, input, input_key, count - 1) + input_key[count - 1] * recomposed(
            input[count - 1],
            shape.base_log,
            shape.levels,
            shape.levels,
        )
    }
}

/// The grouped signal of the first `count` bits is the dot product of the mask and of the
/// key on them, plus what the decompositions round away.
pub proof fn lemma_keyswitch_grouped(
    shape: KeyswitchShape,
    input: Seq<u64>,
    input_key: Seq<u64>,
    count: int,
)
    requires
        is_valid_gadget(shape.base_log as int, shape.levels as int),
        input.len() == input_key.len() + 1,
        0 <= count <= input_key.len(),
    ensures
        congruent(
            keyswitch_grouped(shape, input, input_key, count),
            sum_of_products(input.take(count), input_key.take(count)) + keyswitch_rounding(
                shape,
                input,
                input_key,
                count,
            ),
        ),
    decreases count,
{
    if count > 0 {
        lemma_keyswitch_grouped(shape, input, input_key, count - 1);
        let a = input[count - 1];
        let bit = input_key[count - 1];
        lemma_recomposition(a, shape.base_log, shape.levels);
        let e = rounding_error(a, shape.base_log, shape.levels);
        lemma_congruent_ops(
            bit as int,
            bit as int,
            recomposed(a, shape.base_log, shape.levels, shape.levels),
            a + e,
        );
        lemma_congruent_ops(
            keyswitch_grouped(shape, input, input_key, count - 1),
            sum_of_products(input.take(count - 1), input_key.take(count - 1)) + keyswitch_rounding(
                shape,
                input,
                input_key,
                count - 1,
            ),
            bit * recomposed(a, shape.base_log, shape.levels, shape.levels),
            bit * (a + e),
        );
        assert(input.take(count).drop_last() =~= input.take(count - 1));
        assert(input_key.take(count).drop_last() =~= input_key.take(count - 1));
        assert(bit * (a + e) == a * bit + bit * e) by (nonlinear_arith);
    }
}

/// A key switch keeps the phase: the phase under the output key of the key switch of a
/// ciphertext is its phase under the input key plus the error of the key switch, and this
/// error is within its bound, when the input key is binary.
pub proof fn lemma_keyswitch_keeps_phase(
    generator: EncryptionRandomGenerator,
    shape: KeyswitchShape,
    input_key: Seq<u64>,
    output_key: Seq<u64>,
    input: Seq<u64>,
)
    requires
        is_valid_gadget(shape.base_log as int, shape.levels as int),
        shape.std.0 <= 0x7fff_ffff_ffff_ffff,
        is_binary(input_key),
        input.len() == input_key.len() + 1,
    ensures
        lwe_phase(
            output_key,
            keyswitched(
                keyswitch_key(generator, shape, input_key, output_key, true),
                input,
                (output_key.len() + 1) as int,
                shape.base_log,
                shape.levels,
            ),
        ) == torus(
            lwe_phase(input_key, input) + keyswitch_error(
                generator,
                shape,
                input,
                input_key,
                output_key.len() as int,
            ),
        ),
        -keyswitch_error_bound(shape, input_key.len() as int) <= keyswitch_error(
            generator,
            shape,
            input,
            input_key,
            output_key.len() as int,
        ) <= keyswitch_error_bound(shape, input_key.len() as int),
{
    let n = input_key.len() as int;
    let levels = shape.levels as int;
    let rows = n * levels;
    assert(rows >= 0) by (nonlinear_arith)
        requires
            rows == n * levels,
            n >= 0,
            levels >= 1,
    ;
    assert((input.len() - 1) * shape.levels == rows);
    lemma_keyswitch_partial_phase(generator, shape, input_key, output_key, input, rows);
    lemma_keyswitch_signal_groups(shape, input, input_key, n, 0);
    assert(input_key[n] * recomposed(input[n], shape.base_log, shape.levels, 0) == 0)
        by (nonlinear_arith)
        requires
            recomposed(input[n], shape.base_log, shape.levels, 0) == 0,
    ;
    lemma_keyswitch_grouped(shape, input, input_key, n);
    assert(input.take(n) =~= input.drop_last());
    assert(input_key.take(n) =~= input_key);
    lemma_keyswitch_noise_bound(generator, shape, input, output_key.len() as int, rows);
    lemma_keyswitch_rounding_bound(shape, input, input_key, n);
    let signal = keyswitch_signal(shape, input, input_key, rows);
    let noise = keyswitch_noise(generator, shape, input, output_key.len() as int, rows);
    let rounding = keyswitch_rounding(shape, input, input_key, n);
    let product = sum_of_products(input.drop_last(), input_key);
    lemma_congruent_ops(signal, product + rounding, noise, noise);
    lemma_congruent_ops(input.last() as int, input.last() as int, signal + noise, product
        + rounding + noise);
    lemma_congruent_torus(input.last() - product);
    lemma_congruent_ops(
        lwe_phase(input_key, input) as int,
        input.last() - product,
        -(rounding + noise),
        -(rounding + noise),
    );
    lemma_congruent_torus(
        lwe_phase(input_key, input) + keyswitch_error(
            generator,
            shape,
            input,
            input_key,
            output_key.len() as int,
        ),
    );
    let out = keyswitched(
        keyswitch_key(generator, shape, input_key, output_key, true),
        input,
        (output_key.len() + 1) as int,
        shape.base_log,
        shape.levels,
    );
    assert(congruent(lwe_phase(output_key, out) as int, input.last() - (product + rounding
        + noise)));
    lemma_congruent_torus(lwe_phase(output_key, out) as int);
    vstd::arithmetic::div_mod::lemma_small_mod(
        lwe_phase(output_key, out) as nat,
        0x1_0000_0000_0000_0000,
    );
}

} // verus!
