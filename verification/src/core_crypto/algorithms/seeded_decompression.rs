//! Decompression of seeded lists: the masks of the rows are generated again from the seed.
use crate::core_crypto::algorithms::ggsw_encryption::lemma_concat_polynomials_congruent;
use crate::core_crypto::algorithms::polynomial_algorithms::{
    concat_polynomials,
    lemma_concat_polynomials,
    lemma_polynomial_bounds,
    polynomial,
    polynomial_of,
};
use crate::core_crypto::commons::generators::{lemma_advanced_twice, RandomGenerator, Seed};
use crate::core_crypto::commons::numeric::{append_slice, filled_vec};
use crate::core_crypto::commons::traits::Container;
use crate::core_crypto::entities::lwe_bootstrap_key::{ggsw_ciphertext_size, LweBootstrapKeyOwned};
use crate::core_crypto::entities::seeded_lwe_bootstrap_key::{
    lemma_seeded_sizes,
    lemma_whole_polynomials,
    SeededLweBootstrapKey,
};
use vstd::prelude::*;

verus! {

/// The mask of the row of index `row` of a seeded list: the words of the stream of the seed
/// that follow the masks of the rows before it.
pub open spec fn seeded_mask(seed: Seed, mask_size: int, row: int) -> Seq<u64> {
    (RandomGenerator { key: seed.0, position: 0 }).advanced(row * mask_size).words(
        mask_size as nat,
    )
}

/// The list that a seeded list stands for: each row is its mask, generated from the seed,
/// followed by its body.
pub open spec fn with_masks(
    bodies: Seq<u64>,
    seed: Seed,
    mask_size: int,
    body_size: int,
    rows: int,
) -> Seq<u64> {
    concat_polynomials(
        |row: int| seeded_mask(seed, mask_size, row) + polynomial_of(bodies, row, body_size),
        rows,
    )
}

/// Putting the masks back on the bodies of a list gives the list of the whole rows, when the
/// masks are the words of the stream of the seed.
pub proof fn lemma_with_masks_of_bodies(
    body: spec_fn(int) -> Seq<u64>,
    seed: Seed,
    mask_size: int,
    body_size: int,
    rows: int,
)
    requires
        rows >= 0,
        body_size >= 0,
        forall|row: int| 0 <= row < rows ==> (#[trigger] body(row)).len() == body_size,
    ensures
        with_masks(concat_polynomials(body, rows), seed, mask_size, body_size, rows)
            == concat_polynomials(|row: int| seeded_mask(seed, mask_size, row) + body(row), rows),
{
    lemma_concat_polynomials(body, rows, body_size);
    let bodies = concat_polynomials(body, rows);
    lemma_concat_polynomials_congruent(
        |row: int| seeded_mask(seed, mask_size, row) + polynomial_of(bodies, row, body_size),
        |row: int| seeded_mask(seed, mask_size, row) + body(row),
        rows,
    );
}

/// The list that a seeded list stands for has one mask and one body for each row.
pub proof fn lemma_with_masks_len(
    bodies: Seq<u64>,
    seed: Seed,
    mask_size: int,
    body_size: int,
    rows: int,
)
    requires
        rows >= 0,
        mask_size >= 0,
        body_size >= 0,
        bodies.len() == rows * body_size,
    ensures
        with_masks(bodies, seed, mask_size, body_size, rows).len() == rows * (mask_size
            + body_size),
{
    let f = |row: int| seeded_mask(seed, mask_size, row) + polynomial_of(bodies, row, body_size);
    assert forall|row: int| 0 <= row < rows implies (#[trigger] f(row)).len() == mask_size
        + body_size by {
        lemma_polynomial_bounds(row, rows, body_size);
    }
    lemma_concat_polynomials(f, rows, mask_size + body_size);
}

/// Generate the masks of the rows of a seeded list again and give the whole rows.
pub fn decompress_rows(bodies: &[u64], seed: Seed, mask_size: usize, body_size: usize, rows: usize) -> (data:
    Vec<u64>)
    requires
        bodies@.len() == rows * body_size,
    ensures
        data@ == with_masks(bodies@, seed, mask_size as int, body_size as int, rows as int),
{
    let ghost f = |row: int|
        seeded_mask(seed, mask_size as int, row) + polynomial_of(bodies@, row, body_size as int);
    let ghost start = RandomGenerator { key: seed.0, position: 0 };
    let mut generator = RandomGenerator::new(seed);
    let mut data: Vec<u64> = Vec::new();
    let mut row: usize = 0;
    proof {
        crate::core_crypto::commons::generators::lemma_advanced_by_zero(start);
        assert(0 * mask_size == 0) by (nonlinear_arith);
    }
    while row < rows
        invariant
            bodies@.len() == rows * body_size,
            row <= rows,
            start == (RandomGenerator { key: seed.0, position: 0 }),
            generator == start.advanced(row * mask_size),
            forall|r: int|
                #[trigger] f(r) == seeded_mask(seed, mask_size as int, r) + polynomial_of(
                    bodies@,
                    r,
                    body_size as int,
                ),
            data@ == concat_polynomials(f, row as int),
        decreases rows - row,
    {
        let mut mask = filled_vec(0, mask_size);
        generator.fill_slice(mask.as_mut_slice());
        proof {
            lemma_advanced_twice(start, row * mask_size, mask_size as int);
            assert((row + 1) * mask_size == row * mask_size + mask_size) by (nonlinear_arith);
            lemma_polynomial_bounds(row as int, rows as int, body_size as int);
        }
        append_slice(&mut data, mask.as_slice());
        append_slice(&mut data, polynomial(bodies, row, body_size));
        proof {
            assert(data@ =~= concat_polynomials(f, row as int) + f(row as int));
        }
        row += 1;
    }
    proof {
        lemma_concat_polynomials_congruent(
            f,
            |row: int|
                seeded_mask(seed, mask_size as int, row) + polynomial_of(
                    bodies@,
                    row,
                    body_size as int,
                ),
            rows as int,
        );
    }
    data
}

/// Decompress a seeded bootstrap key into `output_bsk`, a key of the same shape and of as
/// many GGSW ciphertexts: the masks of the rows are generated again from the seed, and
/// every row is written as its mask followed by its body.
pub fn decompress_seeded_lwe_bootstrap_key<C: Container>(
    output_bsk: &mut LweBootstrapKeyOwned,
    input_bsk: &SeededLweBootstrapKey<C>,
)
    requires
        input_bsk.wf(),
        old(output_bsk).glwe_size == input_bsk.glwe_size,
        old(output_bsk).polynomial_size == input_bsk.polynomial_size,
        old(output_bsk).decomp_base_log == input_bsk.decomp_base_log,
        old(output_bsk).decomp_level_count == input_bsk.decomp_level_count,
        old(output_bsk).ciphertext_modulus == input_bsk.ciphertext_modulus,
        old(output_bsk)@.len() == input_bsk.spec_input_lwe_dimension() * ggsw_ciphertext_size(
            input_bsk.glwe_size,
            input_bsk.polynomial_size,
            input_bsk.decomp_level_count,
        ),
    ensures
        final(output_bsk)@ == input_bsk.decompressed(),
        final(output_bsk)@.len() == old(output_bsk)@.len(),
        final(output_bsk).glwe_size == old(output_bsk).glwe_size,
        final(output_bsk).polynomial_size == old(output_bsk).polynomial_size,
        final(output_bsk).decomp_base_log == old(output_bsk).decomp_base_log,
        final(output_bsk).decomp_level_count == old(output_bsk).decomp_level_count,
        final(output_bsk).ciphertext_modulus == old(output_bsk).ciphertext_modulus,
{
    proof {
        input_bsk.lemma_decompressed_len();
        lemma_seeded_sizes(
            input_bsk.glwe_size,
            input_bsk.polynomial_size,
            input_bsk.decomp_level_count,
        );
        vstd::arithmetic::div_mod::lemma_fundamental_div_mod(
            input_bsk@.len() as int,
            input_bsk.polynomial_size.0 as int,
        );
        assert(input_bsk.decomp_level_count.0 * input_bsk.glwe_size.0 >= 1) by (nonlinear_arith)
            requires
                input_bsk.decomp_level_count.0 >= 1,
                input_bsk.glwe_size.0 >= 1,
        ;
        lemma_whole_polynomials(
            input_bsk@.len() as int,
            input_bsk.polynomial_size.0 as int,
            input_bsk.decomp_level_count.0 * input_bsk.glwe_size.0,
        );
    }
    let bodies = input_bsk.data.as_slice();
    let rows = bodies.len() / input_bsk.polynomial_size.0;
    output_bsk.data = decompress_rows(
        bodies,
        input_bsk.compression_seed.seed,
        (input_bsk.glwe_size.0 - 1) * input_bsk.polynomial_size.0,
        input_bsk.polynomial_size.0,
        rows,
    );
}

} // verus!
