//! Encryption and decryption of LWE ciphertexts.
use crate::core_crypto::algorithms::slice_algorithms::{
    slice_wrapping_dot_product,
    sum_of_products,
};
use crate::core_crypto::commons::generators::{
    CompressionSeed,
    lemma_encryption_generator_advanced_twice,
    DeterministicSeeder,
    EncryptionRandomGenerator,
};
use crate::core_crypto::commons::numeric::{
    filled_vec,
    lemma_torus_absorbs,
    lemma_wrapping_is_torus,
    torus,
};
use crate::core_crypto::commons::parameters::{CiphertextModulus, LweSize, Plaintext, StandardDev};
use crate::core_crypto::commons::traits::Container;
use crate::core_crypto::entities::lwe_ciphertext::{
    LweCiphertext,
    LweCiphertextOwned,
    SeededLweCiphertext,
};
use crate::core_crypto::entities::lwe_secret_key::LweSecretKey;
use vstd::prelude::*;

verus! {

/// The body of an encryption: `<mask, key> + plaintext + noise` on the torus.
pub open spec fn lwe_body(key: Seq<u64>, mask: Seq<u64>, plaintext: u64, noise: u64) -> u64 {
    torus(sum_of_products(mask, key) + plaintext + noise)
}

/// The encryption of `plaintext` under `key` with the given mask and noise.
pub open spec fn lwe_encryption(key: Seq<u64>, mask: Seq<u64>, plaintext: u64, noise: u64) -> Seq<
    u64,
> {
    mask.push(lwe_body(key, mask, plaintext, noise))
}

/// What decryption under `key` gives: `body - <mask, key>` on the torus, which is the
/// plaintext with the noise still on it.
pub open spec fn lwe_phase(key: Seq<u64>, ciphertext: Seq<u64>) -> u64 {
    torus(ciphertext.last() - sum_of_products(ciphertext.drop_last(), key))
}

/// The encryption that a generator gives: its next mask words and its next noise sample.
pub open spec fn generated_lwe_encryption(
    generator: EncryptionRandomGenerator,
    key: Seq<u64>,
    plaintext: u64,
    noise: StandardDev,
) -> Seq<u64> {
    lwe_encryption(key, generator.mask.words(key.len()), plaintext, generator.noise_at(0, noise))
}

/// The seeded encryption that a seeder gives: its next seed is the compression seed, and the
/// one after it seeds the noise.
pub open spec fn generated_seeded_lwe_encryption(
    seeder: DeterministicSeeder,
    key: Seq<u64>,
    plaintext: u64,
    noise: StandardDev,
    ciphertext_modulus: CiphertextModulus,
) -> SeededLweCiphertext {
    let seed = seeder.generator.spec_seed();
    let generator = EncryptionRandomGenerator::spec_new(seed, seeder.advanced(1));
    SeededLweCiphertext {
        data: generated_lwe_encryption(generator, key, plaintext, noise).last(),
        lwe_size: LweSize((key.len() + 1) as usize),
        compression_seed: CompressionSeed { seed },
        ciphertext_modulus,
    }
}

/// Decryption takes the mask part of an encryption off again: the phase of an encryption is
/// its plaintext plus its noise.
pub proof fn lemma_phase_of_encryption(key: Seq<u64>, mask: Seq<u64>, plaintext: u64, noise: u64)
    ensures
        lwe_phase(key, lwe_encryption(key, mask, plaintext, noise)) == torus(plaintext + noise),
{
    let ciphertext = lwe_encryption(key, mask, plaintext, noise);
    assert(ciphertext.drop_last() =~= mask);
    let s = sum_of_products(mask, key);
    lemma_torus_absorbs(s + plaintext + noise, s);
}

/// Decompression gives the encryption that the same seeds give without compression: the
/// ciphertext of a generator whose mask stream starts at the compression seed.
pub proof fn lemma_decompression_is_encryption(
    seeder: DeterministicSeeder,
    key: Seq<u64>,
    plaintext: u64,
    noise: StandardDev,
    ciphertext_modulus: CiphertextModulus,
)
    requires
        key.len() < usize::MAX,
    ensures
        generated_seeded_lwe_encryption(
            seeder,
            key,
            plaintext,
            noise,
            ciphertext_modulus,
        ).decompressed() == generated_lwe_encryption(
            EncryptionRandomGenerator::spec_new(
                seeder.generator.spec_seed(),
                seeder.advanced(1),
            ),
            key,
            plaintext,
            noise,
        ),
{
    let seed = seeder.generator.spec_seed();
    let generator = EncryptionRandomGenerator::spec_new(seed, seeder.advanced(1));
    let seeded = generated_seeded_lwe_encryption(seeder, key, plaintext, noise, ciphertext_modulus);
    assert(seeded.decompressed() =~= generated_lwe_encryption(generator, key, plaintext, noise));
}

/// Encrypt `encoded` under `lwe_secret_key` into a new ciphertext.
pub fn allocate_and_encrypt_new_lwe_ciphertext(
    lwe_secret_key: &LweSecretKey,
    encoded: Plaintext,
    noise_parameters: StandardDev,
    ciphertext_modulus: CiphertextModulus,
    generator: &mut EncryptionRandomGenerator,
) -> (ciphertext: LweCiphertextOwned)
    requires
        ciphertext_modulus.is_native_modulus(),
    ensures
        ciphertext@ == generated_lwe_encryption(
            *old(generator),
            lwe_secret_key@,
            encoded.0,
            noise_parameters,
        ),
        ciphertext.ciphertext_modulus == ciphertext_modulus,
        ciphertext.wf(),
        *final(generator) == old(generator).advanced(lwe_secret_key@.len() as int, 1),
{
    let dimension = lwe_secret_key.data.len();
    let mut data = filled_vec(0, dimension);
    generator.fill_slice_with_random_mask(data.as_mut_slice());
    let noise = generator.random_noise(noise_parameters);
    proof {
        lemma_encryption_generator_advanced_twice(
            *old(generator),
            dimension as int,
            0,
            0,
            1,
            noise_parameters,
        );
        lemma_encryption_generator_advanced_twice(
            *old(generator),
            dimension as int,
            0,
            0,
            0,
            noise_parameters,
        );
    }
    let product = slice_wrapping_dot_product::<u64>(data.as_slice(), lwe_secret_key.data.as_slice());
    let body = product.wrapping_add(encoded.0).wrapping_add(noise);
    proof {
        lemma_body_of_wrapping_sum(
            sum_of_products(data@, lwe_secret_key@),
            product,
            encoded.0,
            noise,
        );
    }
    data.push(body);
    LweCiphertext { data, ciphertext_modulus }
}

/// Adding the plaintext and the noise to a reduced dot product with wrapping gives the body.
proof fn lemma_body_of_wrapping_sum(sum: int, product: u64, plaintext: u64, noise: u64)
    requires
        product == torus(sum),
    ensures
        vstd::wrapping::u64_specs::wrapping_add(
            vstd::wrapping::u64_specs::wrapping_add(product, plaintext),
            noise,
        ) == torus(sum + plaintext + noise),
{
    lemma_wrapping_is_torus(product, plaintext);
    lemma_wrapping_is_torus(vstd::wrapping::u64_specs::wrapping_add(product, plaintext), noise);
    lemma_torus_absorbs(sum, plaintext as int);
    lemma_torus_absorbs(sum + plaintext, noise as int);
}

/// Encrypt `encoded` under `lwe_secret_key` into a new seeded ciphertext. The compression
/// seed and the seed of the noise are drawn from `noise_seeder`, in that order.
pub fn allocate_and_encrypt_new_seeded_lwe_ciphertext(
    lwe_secret_key: &LweSecretKey,
    encoded: Plaintext,
    noise_parameters: StandardDev,
    ciphertext_modulus: CiphertextModulus,
    noise_seeder: &mut DeterministicSeeder,
) -> (ciphertext: SeededLweCiphertext)
    requires
        ciphertext_modulus.is_native_modulus(),
        lwe_secret_key@.len() < usize::MAX,
    ensures
        ciphertext == generated_seeded_lwe_encryption(
            *old(noise_seeder),
            lwe_secret_key@,
            encoded.0,
            noise_parameters,
            ciphertext_modulus,
        ),
        ciphertext.wf(),
        *final(noise_seeder) == old(noise_seeder).advanced(2),
{
    let seed = noise_seeder.next_seed();
    let mut generator = EncryptionRandomGenerator::new(seed, noise_seeder);
    let full = allocate_and_encrypt_new_lwe_ciphertext(
        lwe_secret_key,
        encoded,
        noise_parameters,
        ciphertext_modulus,
        &mut generator,
    );
    let dimension = lwe_secret_key.data.len();
    proof {
        crate::core_crypto::commons::generators::lemma_advanced_twice(
            old(noise_seeder).generator,
            2,
            2,
        );
    }
    SeededLweCiphertext {
        data: full.data[dimension],
        lwe_size: LweSize(dimension + 1),
        compression_seed: CompressionSeed { seed },
        ciphertext_modulus,
    }
}

/// Decrypt a ciphertext: give its phase under `lwe_secret_key`, noise included.
pub fn decrypt_lwe_ciphertext<C: Container>(
    lwe_secret_key: &LweSecretKey,
    lwe_ciphertext: &LweCiphertext<C>,
) -> (plaintext: Plaintext)
    requires
        lwe_ciphertext@.len() == lwe_secret_key@.len() + 1,
    ensures
        plaintext.0 == lwe_phase(lwe_secret_key@, lwe_ciphertext@),
{
    let data = lwe_ciphertext.data.as_slice();
    let dimension = lwe_secret_key.data.len();
    let mask = vstd::slice::slice_subrange(data, 0, dimension);
    let body = data[dimension];
    let product = slice_wrapping_dot_product::<u64>(mask, lwe_secret_key.data.as_slice());
    proof {
        assert(mask@ =~= lwe_ciphertext@.drop_last());
        let s = sum_of_products(mask@, lwe_secret_key@);
        lemma_wrapping_is_torus(body, product);
        lemma_torus_absorbs(body as int, s);
    }
    Plaintext(body.wrapping_sub(product))
}

} // verus!
