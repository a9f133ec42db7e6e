//! Generation of bootstrap keys and of key switching keys, seeded or not.
use crate::core_crypto::algorithms::decomposition::{is_valid_gadget, SignedDecomposer};
use crate::core_crypto::algorithms::ggsw_encryption::{
    encrypt_ggsw_list,
    generator_of_row,
    ggsw_list,
    ggsw_list_row,
    ggsw_list_row_mask,
    glwe_body,
    GgswShape,
};
use crate::core_crypto::algorithms::lwe_keyswitch_key_generation::{
    encrypt_keyswitch_rows,
    generator_of_keyswitch_row,
    keyswitch_key,
    keyswitch_row,
    KeyswitchShape,
};
use crate::core_crypto::algorithms::polynomial_algorithms::lemma_concat_polynomials;
use crate::core_crypto::algorithms::seeded_decompression::{
    lemma_with_masks_of_bodies,
    seeded_mask,
    with_masks,
};
use crate::core_crypto::commons::generators::{
    CompressionSeed,
    DeterministicSeeder,
    EncryptionRandomGenerator,
    Seed,
};
use crate::core_crypto::commons::parameters::{
    CiphertextModulus,
    DecompositionBaseLog,
    DecompositionLevelCount,
    GlweSize,
    LweSize,
    StandardDev,
};
use crate::core_crypto::entities::lwe_bootstrap_key::{LweBootstrapKey, LweBootstrapKeyOwned};
use crate::core_crypto::entities::lwe_keyswitch_key::{
    LweKeyswitchKey,
    LweKeyswitchKeyOwned,
    SeededLweKeyswitchKey,
    SeededLweKeyswitchKeyOwned,
};
use crate::core_crypto::entities::lwe_secret_key::{GlweSecretKey, LweSecretKey};
use crate::core_crypto::entities::seeded_lwe_bootstrap_key::{
    SeededLweBootstrapKey,
    SeededLweBootstrapKeyOwned,
};
use vstd::prelude::*;

verus! {

/// The body of a GLWE encryption has the size of its plaintext.
pub proof fn lemma_glwe_body_len(
    key: Seq<u64>,
    mask: Seq<u64>,
    plaintext: Seq<u64>,
    noise: Seq<u64>,
    size: int,
    count: int,
)
    ensures
        glwe_body(key, mask, plaintext, noise, size, count).len() == plaintext.len(),
    decreases count,
{
    if count > 0 {
        lemma_glwe_body_len(key, mask, plaintext, noise, size, count - 1);
    }
}

/// The number of scalars of a list of GGSW ciphertexts: for whole rows, one GLWE ciphertext
/// for each row, and for bodies, one polynomial for each row.
pub proof fn lemma_ggsw_list_len(
    generator: EncryptionRandomGenerator,
    shape: GgswShape,
    input_key: Seq<u64>,
    glwe_key: Seq<u64>,
    keep_mask: bool,
)
    requires
        shape.polynomial_size >= 1,
        shape.glwe_dimension >= 0,
    ensures
        ggsw_list(generator, shape, input_key, glwe_key, keep_mask).len() == (input_key.len()
            * shape.rows()) * (if keep_mask {
            shape.mask_size() + shape.polynomial_size
        } else {
            shape.polynomial_size
        }),
{
    let f = |row: int| ggsw_list_row(generator, shape, input_key, glwe_key, keep_mask, row);
    let size = if keep_mask {
        shape.mask_size() + shape.polynomial_size
    } else {
        shape.polynomial_size
    };
    assert(shape.mask_size() >= 0) by (nonlinear_arith)
        requires
            shape.mask_size() == shape.glwe_dimension * shape.polynomial_size,
            shape.polynomial_size >= 1,
            shape.glwe_dimension >= 0,
    ;
    assert(input_key.len() * shape.rows() >= 0) by (nonlinear_arith)
        requires
            shape.rows() == shape.levels * (shape.glwe_dimension + 1),
            shape.glwe_dimension >= 0,
    ;
    assert forall|row: int| 0 <= row < input_key.len() * shape.rows() implies (#[trigger] f(
        row,
    )).len() == size by {
        let glwe_size = shape.glwe_dimension + 1;
        let weight = crate::core_crypto::algorithms::decomposition::gadget_weight(
            shape.base_log,
            crate::core_crypto::algorithms::ggsw_encryption::row_level(
                row,
                glwe_size,
                shape.levels as int,
            ) as nat,
        );
        let bit = input_key[crate::core_crypto::algorithms::ggsw_encryption::row_input(
            row,
            glwe_size,
            shape.levels as int,
        )];
        lemma_glwe_body_len(
            glwe_key,
            ggsw_list_row_mask(generator, shape, row),
            crate::core_crypto::algorithms::ggsw_encryption::ggsw_plaintext(
                glwe_key,
                shape.polynomial_size,
                crate::core_crypto::commons::numeric::torus(bit * weight),
                crate::core_crypto::algorithms::ggsw_encryption::row_component(row, glwe_size),
                shape.glwe_dimension,
            ),
            crate::core_crypto::algorithms::ggsw_encryption::noise_polynomial(
                generator_of_row(generator, shape, row),
                shape.polynomial_size,
                shape.std,
            ),
            shape.polynomial_size,
            shape.glwe_dimension,
        );
    }
    lemma_concat_polynomials(f, input_key.len() * shape.rows(), size);
}

/// The number of scalars of a key switching key: for whole rows, one ciphertext under the
/// output key for each row, and for bodies, one scalar for each row.
pub proof fn lemma_keyswitch_key_len(
    generator: EncryptionRandomGenerator,
    shape: KeyswitchShape,
    input_key: Seq<u64>,
    output_key: Seq<u64>,
    keep_mask: bool,
)
    ensures
        keyswitch_key(generator, shape, input_key, output_key, keep_mask).len() == (
        input_key.len() * shape.levels) * (if keep_mask {
            output_key.len() + 1
        } else {
            1
        }),
{
    let f = |row: int| keyswitch_row(generator, shape, input_key, output_key, keep_mask, row);
    let size: int = if keep_mask {
        (output_key.len() + 1) as int
    } else {
        1
    };
    assert forall|row: int| 0 <= row < input_key.len() * shape.levels implies (#[trigger] f(
        row,
    )).len() == size by {}
    lemma_concat_polynomials(f, (input_key.len() * shape.levels) as int, size);
}

/// Decompressing the bodies of a list of GGSW ciphertexts gives the list of the whole rows,
/// when the mask stream of the generator starts at the seed.
pub proof fn lemma_decompressed_ggsw_list(
    generator: EncryptionRandomGenerator,
    shape: GgswShape,
    input_key: Seq<u64>,
    glwe_key: Seq<u64>,
)
    requires
        shape.polynomial_size >= 1,
        shape.glwe_dimension >= 0,
        generator.mask.position == 0,
    ensures
        with_masks(
            ggsw_list(generator, shape, input_key, glwe_key, false),
            Seed(generator.mask.key),
            shape.mask_size(),
            shape.polynomial_size,
            input_key.len() * shape.rows(),
        ) == ggsw_list(generator, shape, input_key, glwe_key, true),
{
    let rows = input_key.len() * shape.rows();
    let body = |row: int| ggsw_list_row(generator, shape, input_key, glwe_key, false, row);
    let seed = Seed(generator.mask.key);
    assert(rows >= 0) by (nonlinear_arith)
        requires
            rows == input_key.len() * shape.rows(),
            shape.rows() == shape.levels * (shape.glwe_dimension + 1),
            shape.glwe_dimension >= 0,
    ;
    assert forall|row: int| 0 <= row < rows implies (#[trigger] body(row)).len()
        == shape.polynomial_size by {
        let glwe_size = shape.glwe_dimension + 1;
        let weight = crate::core_crypto::algorithms::decomposition::gadget_weight(
            shape.base_log,
            crate::core_crypto::algorithms::ggsw_encryption::row_level(
                row,
                glwe_size,
                shape.levels as int,
            ) as nat,
        );
        let bit = input_key[crate::core_crypto::algorithms::ggsw_encryption::row_input(
            row,
            glwe_size,
            shape.levels as int,
        )];
        lemma_glwe_body_len(
            glwe_key,
            ggsw_list_row_mask(generator, shape, row),
            crate::core_crypto::algorithms::ggsw_encryption::ggsw_plaintext(
                glwe_key,
                shape.polynomial_size,
                crate::core_crypto::commons::numeric::torus(bit * weight),
                crate::core_crypto::algorithms::ggsw_encryption::row_component(row, glwe_size),
                shape.glwe_dimension,
            ),
            crate::core_crypto::algorithms::ggsw_encryption::noise_polynomial(
                generator_of_row(generator, shape, row),
                shape.polynomial_size,
                shape.std,
            ),
            shape.polynomial_size,
            shape.glwe_dimension,
        );
    }
    lemma_with_masks_of_bodies(body, seed, shape.mask_size(), shape.polynomial_size, rows);
    crate::core_crypto::algorithms::ggsw_encryption::lemma_concat_polynomials_congruent(
        |row: int| seeded_mask(seed, shape.mask_size(), row) + body(row),
        |row: int| ggsw_list_row(generator, shape, input_key, glwe_key, true, row),
        rows,
    );
}

/// Decompressing the bodies of a key switching key gives the key of the whole rows, when
/// the mask stream of the generator starts at the seed.
pub proof fn lemma_decompressed_keyswitch_key(
    generator: EncryptionRandomGenerator,
    shape: KeyswitchShape,
    input_key: Seq<u64>,
    output_key: Seq<u64>,
)
    requires
        generator.mask.position == 0,
    ensures
        with_masks(
            keyswitch_key(generator, shape, input_key, output_key, false),
            Seed(generator.mask.key),
            output_key.len() as int,
            1,
            (input_key.len() * shape.levels) as int,
        ) == keyswitch_key(generator, shape, input_key, output_key, true),
{
    let rows = (input_key.len() * shape.levels) as int;
    let body = |row: int| keyswitch_row(generator, shape, input_key, output_key, false, row);
    let seed = Seed(generator.mask.key);
    assert forall|row: int| 0 <= row < rows implies (#[trigger] body(row)).len() == 1 by {}
    lemma_with_masks_of_bodies(body, seed, output_key.len() as int, 1, rows);
    assert forall|row: int| 0 <= row < rows implies #[trigger] (seeded_mask(
        seed,
        output_key.len() as int,
        row,
    ) + body(row)) == keyswitch_row(generator, shape, input_key, output_key, true, row) by {
        assert(seeded_mask(seed, output_key.len() as int, row) + body(row) =~= keyswitch_row(
            generator,
            shape,
            input_key,
            output_key,
            true,
            row,
        ));
    }
    crate::core_crypto::algorithms::ggsw_encryption::lemma_concat_polynomials_congruent(
        |row: int| seeded_mask(seed, output_key.len() as int, row) + body(row),
        |row: int| keyswitch_row(generator, shape, input_key, output_key, true, row),
        rows,
    );
}

/// The shape of the bootstrap key for a GLWE key and a gadget.
pub open spec fn bootstrap_key_shape(
    output_glwe_secret_key: &GlweSecretKey,
    decomp_base_log: DecompositionBaseLog,
    decomp_level_count: DecompositionLevelCount,
    noise: StandardDev,
) -> GgswShape {
    GgswShape {
        polynomial_size: output_glwe_secret_key.polynomial_size.0 as int,
        glwe_dimension: output_glwe_secret_key@.len() as int
            / output_glwe_secret_key.polynomial_size.0 as int,
        base_log: decomp_base_log.0 as nat,
        levels: decomp_level_count.0 as nat,
        std: noise,
    }
}

/// Whether the bootstrap key for these keys and this gadget can be addressed.
pub open spec fn bootstrap_key_fits(
    input_lwe_secret_key: &LweSecretKey,
    output_glwe_secret_key: &GlweSecretKey,
    decomp_base_log: DecompositionBaseLog,
    decomp_level_count: DecompositionLevelCount,
) -> bool {
    let k = output_glwe_secret_key@.len() as int / output_glwe_secret_key.polynomial_size.0 as int;
    &&& output_glwe_secret_key.wf()
    &&& k >= 1
    &&& is_valid_gadget(decomp_base_log.0 as int, decomp_level_count.0 as int)
    &&& input_lwe_secret_key@.len() * (decomp_level_count.0 * (k + 1) * (k + 1)
        * output_glwe_secret_key.polynomial_size.0) <= usize::MAX
    &&& decomp_level_count.0 * (k + 1) * (k + 1) * output_glwe_secret_key.polynomial_size.0
        <= usize::MAX
    &&& (k + 1) * output_glwe_secret_key.polynomial_size.0 < usize::MAX
}

/// The sizes that a bootstrap key that can be addressed bounds.
pub proof fn lemma_bootstrap_key_sizes(n: int, l: int, k: int, size: int)
    requires
        n >= 0,
        l >= 1,
        k >= 1,
        size >= 1,
        l * (k + 1) * (k + 1) * size <= usize::MAX,
        n * (l * (k + 1) * (k + 1) * size) <= usize::MAX,
    ensures
        l * (k + 1) <= usize::MAX,
        n * (l * (k + 1)) <= usize::MAX,
        n * (l * (k + 1)) >= 0,
        k * size + size == (k + 1) * size,
        (n * (l * (k + 1))) * ((k + 1) * size) == n * (l * (k + 1) * (k + 1) * size),
        (n * (l * (k + 1))) * size == n * (l * (k + 1) * size),
        l * (k + 1) * size <= l * (k + 1) * (k + 1) * size,
        n * (l * (k + 1) * size) <= n * (l * (k + 1) * (k + 1) * size),
        (k * size) * 1 == k * size,
        (n * (l * (k + 1)) * size) / size == n * (l * (k + 1)),
        (n * (l * (k + 1) * size)) % (l * (k + 1) * size) == 0,
        (n * (l * (k + 1) * (k + 1) * size)) % (l * (k + 1) * (k + 1) * size) == 0,
        (n * (l * (k + 1) * (k + 1) * size)) / (l * (k + 1) * (k + 1) * size) == n,
        (n * (l * (k + 1) * size)) / (l * (k + 1) * size) == n,
        l * (k + 1) * (k + 1) * size >= 1,
        l * (k + 1) * size >= 1,
{
    let g = k + 1;
    assert(l * g >= 1) by (nonlinear_arith)
        requires
            l >= 1,
            g >= 1,
    ;
    assert(l * g * g >= l * g) by (nonlinear_arith)
        requires
            l * g >= 1,
            g >= 1,
    ;
    assert(l * g * g * size >= l * g * g) by (nonlinear_arith)
        requires
            l * g * g >= 1,
            size >= 1,
    ;
    assert(l * g * size >= l * g) by (nonlinear_arith)
        requires
            l * g >= 1,
            size >= 1,
    ;
    assert(l * g * size <= l * g * g * size) by (nonlinear_arith)
        requires
            l * g >= 1,
            g >= 1,
            size >= 1,
    ;
    assert(n * (l * g) <= n * (l * g * g * size)) by (nonlinear_arith)
        requires
            n >= 0,
            l * g <= l * g * g * size,
    ;
    assert(n * (l * g) >= 0) by (nonlinear_arith)
        requires
            n >= 0,
            l * g >= 1,
    ;
    assert(k * size + size == g * size) by (nonlinear_arith)
        requires
            g == k + 1,
    ;
    assert((n * (l * g)) * (g * size) == n * (l * g * g * size)) by (nonlinear_arith);
    assert((n * (l * g)) * size == n * (l * g * size)) by (nonlinear_arith);
    assert(n * (l * g * size) <= n * (l * g * g * size)) by (nonlinear_arith)
        requires
            n >= 0,
            l * g * size <= l * g * g * size,
    ;
    assert(n * (l * g) * size == (n * (l * g)) * size);
    vstd::arithmetic::div_mod::lemma_div_multiples_vanish(n * (l * g), size);
    vstd::arithmetic::div_mod::lemma_mod_multiples_basic(n, l * g * size);
    vstd::arithmetic::div_mod::lemma_mod_multiples_basic(n, l * g * g * size);
    vstd::arithmetic::div_mod::lemma_div_multiples_vanish(n, l * g * g * size);
    vstd::arithmetic::div_mod::lemma_div_multiples_vanish(n, l * g * size);
    assert((l * g * g * size) * n == n * (l * g * g * size)) by (nonlinear_arith);
    assert((l * g * size) * n == n * (l * g * size)) by (nonlinear_arith);
}

/// Allocate a bootstrap key and fill it with a GGSW encryption, under the GLWE key, of each
/// bit of the input LWE key.
pub fn allocate_and_generate_new_lwe_bootstrap_key(
    input_lwe_secret_key: &LweSecretKey,
    output_glwe_secret_key: &GlweSecretKey,
    decomp_base_log: DecompositionBaseLog,
    decomp_level_count: DecompositionLevelCount,
    noise_parameters: StandardDev,
    ciphertext_modulus: CiphertextModulus,
    generator: &mut EncryptionRandomGenerator,
) -> (key: LweBootstrapKeyOwned)
    requires
        bootstrap_key_fits(
            input_lwe_secret_key,
            output_glwe_secret_key,
            decomp_base_log,
            decomp_level_count,
        ),
    ensures
        key@ == ggsw_list(
            *old(generator),
            bootstrap_key_shape(
                output_glwe_secret_key,
                decomp_base_log,
                decomp_level_count,
                noise_parameters,
            ),
            input_lwe_secret_key@,
            output_glwe_secret_key@,
            true,
        ),
        key.glwe_size.0 == output_glwe_secret_key@.len() as int
            / output_glwe_secret_key.polynomial_size.0 as int + 1,
        key.polynomial_size == output_glwe_secret_key.polynomial_size,
        key.decomp_base_log == decomp_base_log,
        key.decomp_level_count == decomp_level_count,
        key.ciphertext_modulus == ciphertext_modulus,
        key.wf(),
        key.spec_input_lwe_dimension() == input_lwe_secret_key@.len(),
        *final(generator) == generator_of_row(
            *old(generator),
            bootstrap_key_shape(
                output_glwe_secret_key,
                decomp_base_log,
                decomp_level_count,
                noise_parameters,
            ),
            input_lwe_secret_key@.len() * (decomp_level_count.0 * (output_glwe_secret_key@.len()
                as int / output_glwe_secret_key.polynomial_size.0 as int + 1)),
        ),
{
    let polynomial_size = output_glwe_secret_key.polynomial_size.0;
    let glwe_dimension = output_glwe_secret_key.data.len() / polynomial_size;
    let ghost shape = bootstrap_key_shape(
        output_glwe_secret_key,
        decomp_base_log,
        decomp_level_count,
        noise_parameters,
    );
    proof {
        lemma_bootstrap_key_sizes(
            input_lwe_secret_key@.len() as int,
            decomp_level_count.0 as int,
            glwe_dimension as int,
            polynomial_size as int,
        );
        vstd::arithmetic::div_mod::lemma_fundamental_div_mod(
            output_glwe_secret_key@.len() as int,
            polynomial_size as int,
        );
        assert(polynomial_size * glwe_dimension == glwe_dimension * polynomial_size)
            by (nonlinear_arith);
        lemma_ggsw_list_len(
            *old(generator),
            shape,
            input_lwe_secret_key@,
            output_glwe_secret_key@,
            true,
        );
    }
    let decomposer = SignedDecomposer::new(decomp_base_log, decomp_level_count);
    let data = encrypt_ggsw_list(
        input_lwe_secret_key.data.as_slice(),
        output_glwe_secret_key.data.as_slice(),
        polynomial_size,
        glwe_dimension,
        &decomposer,
        noise_parameters,
        generator,
        true,
    );
    LweBootstrapKey {
        data,
        glwe_size: GlweSize(glwe_dimension + 1),
        polynomial_size: output_glwe_secret_key.polynomial_size,
        decomp_base_log,
        decomp_level_count,
        ciphertext_modulus,
    }
}

/// Allocate a seeded bootstrap key and fill it with the bodies of a GGSW encryption, under
/// the GLWE key, of each bit of the input LWE key. The compression seed and the seed of the
/// noise are drawn from `noise_seeder`, in that order.
pub fn allocate_and_generate_new_seeded_lwe_bootstrap_key(
    input_lwe_secret_key: &LweSecretKey,
    output_glwe_secret_key: &GlweSecretKey,
    decomp_base_log: DecompositionBaseLog,
    decomp_level_count: DecompositionLevelCount,
    noise_parameters: StandardDev,
    ciphertext_modulus: CiphertextModulus,
    noise_seeder: &mut DeterministicSeeder,
) -> (key: SeededLweBootstrapKeyOwned)
    requires
        bootstrap_key_fits(
            input_lwe_secret_key,
            output_glwe_secret_key,
            decomp_base_log,
            decomp_level_count,
        ),
    ensures
        key@ == ggsw_list(
            EncryptionRandomGenerator::spec_new(
                old(noise_seeder).generator.spec_seed(),
                old(noise_seeder).advanced(1),
            ),
            bootstrap_key_shape(
                output_glwe_secret_key,
                decomp_base_log,
                decomp_level_count,
                noise_parameters,
            ),
            input_lwe_secret_key@,
            output_glwe_secret_key@,
            false,
        ),
        key.compression_seed == (CompressionSeed { seed: old(noise_seeder).generator.spec_seed() }),
        key.glwe_size.0 == output_glwe_secret_key@.len() as int
            / output_glwe_secret_key.polynomial_size.0 as int + 1,
        key.polynomial_size == output_glwe_secret_key.polynomial_size,
        key.decomp_base_log == decomp_base_log,
        key.decomp_level_count == decomp_level_count,
        key.ciphertext_modulus == ciphertext_modulus,
        key.wf(),
        key.spec_input_lwe_dimension() == input_lwe_secret_key@.len(),
        *final(noise_seeder) == old(noise_seeder).advanced(2),
{
    let polynomial_size = output_glwe_secret_key.polynomial_size.0;
    let glwe_dimension = output_glwe_secret_key.data.len() / polynomial_size;
    let ghost shape = bootstrap_key_shape(
        output_glwe_secret_key,
        decomp_base_log,
        decomp_level_count,
        noise_parameters,
    );
    let seed = noise_seeder.next_seed();
    let mut generator = EncryptionRandomGenerator::new(seed, noise_seeder);
    proof {
        lemma_bootstrap_key_sizes(
            input_lwe_secret_key@.len() as int,
            decomp_level_count.0 as int,
            glwe_dimension as int,
            polynomial_size as int,
        );
        vstd::arithmetic::div_mod::lemma_fundamental_div_mod(
            output_glwe_secret_key@.len() as int,
            polynomial_size as int,
        );
        assert(polynomial_size * glwe_dimension == glwe_dimension * polynomial_size)
            by (nonlinear_arith);
        lemma_ggsw_list_len(
            generator,
            shape,
            input_lwe_secret_key@,
            output_glwe_secret_key@,
            false,
        );
        crate::core_crypto::commons::generators::lemma_advanced_twice(
            old(noise_seeder).generator,
            2,
            2,
        );
    }
    let decomposer = SignedDecomposer::new(decomp_base_log, decomp_level_count);
    let data = encrypt_ggsw_list(
        input_lwe_secret_key.data.as_slice(),
        output_glwe_secret_key.data.as_slice(),
        polynomial_size,
        glwe_dimension,
        &decomposer,
        noise_parameters,
        &mut generator,
        false,
    );
    SeededLweBootstrapKey {
        data,
        glwe_size: GlweSize(glwe_dimension + 1),
        polynomial_size: output_glwe_secret_key.polynomial_size,
        decomp_base_log,
        decomp_level_count,
        compression_seed: CompressionSeed { seed },
        ciphertext_modulus,
    }
}

/// Whether the key switching key for these keys and this gadget can be addressed.
pub open spec fn keyswitch_key_fits(
    input_lwe_secret_key: &LweSecretKey,
    output_lwe_secret_key: &LweSecretKey,
    decomp_base_log: DecompositionBaseLog,
    decomp_level_count: DecompositionLevelCount,
) -> bool {
    &&& is_valid_gadget(decomp_base_log.0 as int, decomp_level_count.0 as int)
    &&& input_lwe_secret_key@.len() * decomp_level_count.0 * (output_lwe_secret_key@.len() + 1)
        <= usize::MAX
    &&& decomp_level_count.0 * (output_lwe_secret_key@.len() + 1) <= usize::MAX
}

/// The sizes that a key switching key that can be addressed bounds.
pub proof fn lemma_keyswitch_key_sizes(n: int, l: int, size: int)
    requires
        n >= 0,
        l >= 1,
        size >= 1,
        n * l * size <= usize::MAX,
        l * size <= usize::MAX,
    ensures
        size <= usize::MAX,
        0 <= n * l <= usize::MAX,
        (n * l) * size == n * l * size,
        (n * l * size) % (l * size) == 0,
        (n * l * size) / (l * size) == n,
        (n * l) % l == 0,
        l * size >= 1,
        (n * l) * 1 == n * l,
{
    assert(n * l >= 0) by (nonlinear_arith)
        requires
            n >= 0,
            l >= 1,
    ;
    assert(n * l <= n * l * size) by (nonlinear_arith)
        requires
            n * l >= 0,
            size >= 1,
    ;
    assert(l * size >= size) by (nonlinear_arith)
        requires
            l >= 1,
            size >= 1,
    ;
    assert(n * l * size == n * (l * size)) by (nonlinear_arith);
    vstd::arithmetic::div_mod::lemma_mod_multiples_basic(n, l * size);
    vstd::arithmetic::div_mod::lemma_div_multiples_vanish(n, l * size);
    vstd::arithmetic::div_mod::lemma_mod_multiples_basic(n, l);
}

/// Allocate a key switching key and fill it with the encryptions, under the output key, of
/// each bit of the input key times the weight of each level.
pub fn allocate_and_generate_new_lwe_keyswitch_key(
    input_lwe_secret_key: &LweSecretKey,
    output_lwe_secret_key: &LweSecretKey,
    decomp_base_log: DecompositionBaseLog,
    decomp_level_count: DecompositionLevelCount,
    noise_parameters: StandardDev,
    ciphertext_modulus: CiphertextModulus,
    generator: &mut EncryptionRandomGenerator,
) -> (key: LweKeyswitchKeyOwned)
    requires
        keyswitch_key_fits(
            input_lwe_secret_key,
            output_lwe_secret_key,
            decomp_base_log,
            decomp_level_count,
        ),
    ensures
        key@ == keyswitch_key(
            *old(generator),
            KeyswitchShape {
                base_log: decomp_base_log.0 as nat,
                levels: decomp_level_count.0 as nat,
                std: noise_parameters,
            },
            input_lwe_secret_key@,
            output_lwe_secret_key@,
            true,
        ),
        key.decomp_base_log == decomp_base_log,
        key.decomp_level_count == decomp_level_count,
        key.output_lwe_size.0 == output_lwe_secret_key@.len() + 1,
        key.ciphertext_modulus == ciphertext_modulus,
        key.wf(),
        key.spec_input_key_lwe_dimension() == input_lwe_secret_key@.len(),
        *final(generator) == generator_of_keyswitch_row(
            *old(generator),
            output_lwe_secret_key@.len() as int,
            input_lwe_secret_key@.len() * decomp_level_count.0,
        ),
{
    let ghost shape = KeyswitchShape {
        base_log: decomp_base_log.0 as nat,
        levels: decomp_level_count.0 as nat,
        std: noise_parameters,
    };
    proof {
        lemma_keyswitch_key_sizes(
            input_lwe_secret_key@.len() as int,
            decomp_level_count.0 as int,
            (output_lwe_secret_key@.len() + 1) as int,
        );
        lemma_keyswitch_key_len(
            *old(generator),
            shape,
            input_lwe_secret_key@,
            output_lwe_secret_key@,
            true,
        );
    }
    let decomposer = SignedDecomposer::new(decomp_base_log, decomp_level_count);
    let data = encrypt_keyswitch_rows(
        input_lwe_secret_key.data.as_slice(),
        output_lwe_secret_key,
        &decomposer,
        noise_parameters,
        generator,
        true,
    );
    LweKeyswitchKey {
        data,
        decomp_base_log,
        decomp_level_count,
        output_lwe_size: LweSize(output_lwe_secret_key.data.len() + 1),
        ciphertext_modulus,
    }
}

/// Allocate a seeded key switching key and fill it with the bodies of the encryptions, under
/// the output key, of each bit of the input key times the weight of each level. The
/// compression seed and the seed of the noise are drawn from `noise_seeder`, in that order.
pub fn allocate_and_generate_new_seeded_lwe_keyswitch_key(
    input_lwe_secret_key: &LweSecretKey,
    output_lwe_secret_key: &LweSecretKey,
    decomp_base_log: DecompositionBaseLog,
    decomp_level_count: DecompositionLevelCount,
    noise_parameters: StandardDev,
    ciphertext_modulus: CiphertextModulus,
    noise_seeder: &mut DeterministicSeeder,
) -> (key: SeededLweKeyswitchKeyOwned)
    requires
        keyswitch_key_fits(
            input_lwe_secret_key,
            output_lwe_secret_key,
            decomp_base_log,
            decomp_level_count,
        ),
    ensures
        key@ == keyswitch_key(
            EncryptionRandomGenerator::spec_new(
                old(noise_seeder).generator.spec_seed(),
                old(noise_seeder).advanced(1),
            ),
            KeyswitchShape {
                base_log: decomp_base_log.0 as nat,
                levels: decomp_level_count.0 as nat,
                std: noise_parameters,
            },
            input_lwe_secret_key@,
            output_lwe_secret_key@,
            false,
        ),
        key.compression_seed == (CompressionSeed { seed: old(noise_seeder).generator.spec_seed() }),
        key.decomp_base_log == decomp_base_log,
        key.decomp_level_count == decomp_level_count,
        key.output_lwe_size.0 == output_lwe_secret_key@.len() + 1,
        key.ciphertext_modulus == ciphertext_modulus,
        key.wf(),
        *final(noise_seeder) == old(noise_seeder).advanced(2),
{
    let ghost shape = KeyswitchShape {
        base_log: decomp_base_log.0 as nat,
        levels: decomp_level_count.0 as nat,
        std: noise_parameters,
    };
    let seed = noise_seeder.next_seed();
    let mut generator = EncryptionRandomGenerator::new(seed, noise_seeder);
    proof {
        lemma_keyswitch_key_sizes(
            input_lwe_secret_key@.len() as int,
            decomp_level_count.0 as int,
            (output_lwe_secret_key@.len() + 1) as int,
        );
        lemma_keyswitch_key_len(
            generator,
            shape,
            input_lwe_secret_key@,
            output_lwe_secret_key@,
            false,
        );
        crate::core_crypto::commons::generators::lemma_advanced_twice(
            old(noise_seeder).generator,
            2,
            2,
        );
    }
    let decomposer = SignedDecomposer::new(decomp_base_log, decomp_level_count);
    let data = encrypt_keyswitch_rows(
        input_lwe_secret_key.data.as_slice(),
        output_lwe_secret_key,
        &decomposer,
        noise_parameters,
        &mut generator,
        false,
    );
    SeededLweKeyswitchKey {
        data,
        decomp_base_log,
        decomp_level_count,
        output_lwe_size: LweSize(output_lwe_secret_key.data.len() + 1),
        compression_seed: CompressionSeed { seed },
        ciphertext_modulus,
    }
}

} // verus!
