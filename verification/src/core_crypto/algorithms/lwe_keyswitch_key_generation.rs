//! Generation of LWE key switching keys, with or without the masks of their rows.
use crate::core_crypto::algorithms::decomposition::{
    gadget_weight,
    SignedDecomposer,
};
use crate::core_crypto::algorithms::ggsw_encryption::lemma_concat_polynomials_congruent;
use crate::core_crypto::algorithms::lwe_encryption::{
    allocate_and_encrypt_new_lwe_ciphertext,
    generated_lwe_encryption,
};
use crate::core_crypto::algorithms::polynomial_algorithms::concat_polynomials;
use crate::core_crypto::commons::generators::{
    lemma_encryption_generator_advanced_twice,
    EncryptionRandomGenerator,
};
use crate::core_crypto::commons::numeric::{append_slice, lemma_wrapping_is_torus, torus};
use crate::core_crypto::commons::parameters::{CiphertextModulus, Plaintext, StandardDev};
use crate::core_crypto::entities::lwe_secret_key::LweSecretKey;
use vstd::prelude::*;

verus! {

/// The gadget of a key switching key and the noise of its rows.
pub struct KeyswitchShape {
    pub base_log: nat,
    pub levels: nat,
    pub std: StandardDev,
}

/// The generator at the start of the row of index `row`, for a generator at the start of
/// the key and an output key of `output_dimension` scalars.
pub open spec fn generator_of_keyswitch_row(
    generator: EncryptionRandomGenerator,
    output_dimension: int,
    row: int,
) -> EncryptionRandomGenerator {
    generator.advanced(row * output_dimension, row)
}

/// The row of index `row` of the key that a generator gives: the encryption under
/// `output_key` of one bit of `input_key` times the weight of one level. Rows go through
/// the levels of a bit first, from the most significant down.
pub open spec fn keyswitch_row(
    generator: EncryptionRandomGenerator,
    shape: KeyswitchShape,
    input_key: Seq<u64>,
    output_key: Seq<u64>,
    keep_mask: bool,
    row: int,
) -> Seq<u64> {
    let weight = gadget_weight(shape.base_log, (row % (shape.levels as int) + 1) as nat);
    let bit = input_key[row / (shape.levels as int)];
    let ciphertext = generated_lwe_encryption(
        generator_of_keyswitch_row(generator, output_key.len() as int, row),
        output_key,
        torus(bit * weight),
        shape.std,
    );
    if keep_mask {
        ciphertext
    } else {
        seq![ciphertext.last()]
    }
}

/// The key switching key that a generator gives, from `input_key` to `output_key`, with or
/// without the masks of the rows.
pub open spec fn keyswitch_key(
    generator: EncryptionRandomGenerator,
    shape: KeyswitchShape,
    input_key: Seq<u64>,
    output_key: Seq<u64>,
    keep_mask: bool,
) -> Seq<u64> {
    concat_polynomials(
        |row: int| keyswitch_row(generator, shape, input_key, output_key, keep_mask, row),
        (input_key.len() * shape.levels) as int,
    )
}

/// Encrypt each bit of `input_key`, times the weight of each level, under `output_key`, and
/// give all the rows in one buffer: whole ciphertexts if `keep_mask`, else their bodies.
pub fn encrypt_keyswitch_rows(
    input_key: &[u64],
    output_key: &LweSecretKey,
    decomposer: &SignedDecomposer,
    std: StandardDev,
    generator: &mut EncryptionRandomGenerator,
    keep_mask: bool,
) -> (data: Vec<u64>)
    requires
        decomposer.wf(),
        input_key@.len() * decomposer.level_count <= usize::MAX,
    ensures
        data@ == keyswitch_key(
            *old(generator),
            KeyswitchShape {
                base_log: decomposer.base_log as nat,
                levels: decomposer.level_count as nat,
                std,
            },
            input_key@,
            output_key@,
            keep_mask,
        ),
        *final(generator) == generator_of_keyswitch_row(
            *old(generator),
            output_key@.len() as int,
            input_key@.len() * decomposer.level_count,
        ),
{
    let ghost shape = KeyswitchShape {
        base_log: decomposer.base_log as nat,
        levels: decomposer.level_count as nat,
        std,
    };
    let ghost start = *old(generator);
    let ghost f = |row: int| keyswitch_row(start, shape, input_key@, output_key@, keep_mask, row);
    let levels = decomposer.level_count;
    let input_len = input_key.len();
    let rows = input_len * levels;
    let output_dimension = output_key.data.len();
    let mut data: Vec<u64> = Vec::new();
    let mut row: usize = 0;
    proof {
        lemma_encryption_generator_advanced_twice(start, 0, 0, 0, 0, std);
        assert(0 * output_dimension == 0) by (nonlinear_arith);
    }
    while row < rows
        invariant
            decomposer.wf(),
            levels == decomposer.level_count,
            input_len == input_key@.len(),
            output_dimension == output_key@.len(),
            rows == input_len * levels,
            row <= rows,
            shape == (KeyswitchShape {
                base_log: decomposer.base_log as nat,
                levels: decomposer.level_count as nat,
                std,
            }),
            start == *old(generator),
            *generator == generator_of_keyswitch_row(start, output_dimension as int, row as int),
            forall|r: int|
                #[trigger] f(r) == keyswitch_row(
                    start,
                    shape,
                    input_key@,
                    output_key@,
                    keep_mask,
                    r,
                ),
            data@ == concat_polynomials(f, row as int),
        decreases rows - row,
    {
        proof {
            assert(input_len * levels == levels * input_len) by (nonlinear_arith);
            vstd::arithmetic::div_mod::lemma_multiply_divide_lt(
                row as int,
                levels as int,
                input_len as int,
            );
        }
        let level = row % levels + 1;
        let input = row / levels;
        let weight = decomposer.gadget_weight(level);
        let bit = input_key[input];
        let plaintext = bit.wrapping_mul(weight);
        proof {
            lemma_wrapping_is_torus(bit, weight);
        }
        let ciphertext = allocate_and_encrypt_new_lwe_ciphertext(
            output_key,
            Plaintext(plaintext),
            std,
            CiphertextModulus::Native,
            generator,
        );
        proof {
            lemma_encryption_generator_advanced_twice(
                start,
                row * output_dimension,
                row as int,
                output_dimension as int,
                1,
                std,
            );
            assert((row + 1) * output_dimension == row * output_dimension + output_dimension)
                by (nonlinear_arith);
        }
        if keep_mask {
            append_slice(&mut data, ciphertext.data.as_slice());
        } else {
            data.push(ciphertext.data[output_dimension]);
            assert(seq![ciphertext@.last()] =~= ciphertext@.subrange(
                output_dimension as int,
                output_dimension + 1,
            ));
        }
        proof {
            assert(data@ =~= concat_polynomials(f, row as int) + f(row as int));
        }
        row += 1;
    }
    proof {
        lemma_concat_polynomials_congruent(
            f,
            |row: int| keyswitch_row(start, shape, input_key@, output_key@, keep_mask, row),
            rows as int,
        );
    }
    data
}

} // verus!
