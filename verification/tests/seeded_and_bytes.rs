//! Seeded entities, determinism and the byte encoding.
use tfhe::core_crypto::algorithms::decomposition::SignedDecomposer;
use tfhe::core_crypto::algorithms::lwe_programmable_bootstrapping::modulus_switch;
use tfhe::core_crypto::commons::generators::{
    generate_word, CompressionSeed, DeterministicSeeder, EncryptionRandomGenerator,
    RandomGenerator, Seed, Seeder,
};
use tfhe::core_crypto::commons::parameters::{
    CiphertextModulus, DecompositionBaseLog, DecompositionLevelCount, GlweDimension, GlweSize,
    LweDimension, PolynomialSize, StandardDev,
};
use tfhe::core_crypto::entities::seeded_lwe_bootstrap_key::{
    SeededLweBootstrapKey, SeededLweBootstrapKeyOwned,
};
use tfhe::shortint::ciphertext::PBSOrder;
use tfhe::shortint::engine::ShortintEngine;
use tfhe::shortint::parameters::{CarryModulus, MessageModulus, Parameters};
use tfhe::shortint::serialization::{
    deserialize_ciphertext, deserialize_compressed_ciphertext, serialize_ciphertext,
    serialize_compressed_ciphertext, SerializationError,
};

fn parameters() -> Parameters {
    Parameters {
        lwe_dimension: LweDimension(8),
        glwe_dimension: GlweDimension(1),
        polynomial_size: PolynomialSize(256),
        lwe_modular_std_dev: StandardDev(1 << 20),
        glwe_modular_std_dev: StandardDev(1 << 20),
        pbs_base_log: DecompositionBaseLog(15),
        pbs_level: DecompositionLevelCount(2),
        ks_base_log: DecompositionBaseLog(4),
        ks_level: DecompositionLevelCount(5),
        message_modulus: MessageModulus(4),
        carry_modulus: CarryModulus(4),
        ciphertext_modulus: CiphertextModulus::Native,
    }
}

#[test]
fn seeded_compression_round_trip() {
    let mut engine = ShortintEngine::from_root_seed(Seed(51));
    let cks = engine.new_client_key(parameters()).unwrap();
    for order in [PBSOrder::KeyswitchBootstrap, PBSOrder::BootstrapKeyswitch] {
        // the generator that the same seeds give without compression
        let mut seeder = engine.seeder;
        let seed = seeder.next_seed();
        let fresh_generator = EncryptionRandomGenerator::new(seed, &mut seeder);

        let compressed = engine.encrypt_compressed(&cks, 2, order).unwrap();
        assert_eq!(compressed.ct.compression_seed, CompressionSeed { seed });
        let bytes = serialize_compressed_ciphertext(&compressed);
        assert_eq!(bytes.len(), 8 * 8);
        let read = deserialize_compressed_ciphertext(&bytes).unwrap();
        assert_eq!(read, compressed);
        let ct = read.decompress();
        assert_eq!(engine.decrypt(&cks, &ct).unwrap(), 2);
        assert_eq!(ct.degree.0, 3);

        let mut other = ShortintEngine::from_root_seed(Seed(0));
        other.encryption_generator = fresh_generator;
        let fresh = other.encrypt(&cks, 2, order).unwrap();
        assert_eq!(fresh.ct.data, ct.ct.data);
        assert_eq!(serialize_ciphertext(&fresh), serialize_ciphertext(&ct));
    }
}

#[test]
fn ciphertext_bytes_round_trip() {
    let mut engine = ShortintEngine::from_root_seed(Seed(52));
    let cks = engine.new_client_key(parameters()).unwrap();
    let ct = engine.unchecked_encrypt(&cks, 9, PBSOrder::BootstrapKeyswitch).unwrap();
    let bytes = serialize_ciphertext(&ct);
    assert_eq!(bytes.len(), 8 * (5 + 9));
    assert_eq!(&bytes[..8], &9u64.to_le_bytes());
    assert_eq!(&bytes[8..16], &15u64.to_le_bytes());
    assert_eq!(&bytes[16..24], &4u64.to_le_bytes());
    assert_eq!(&bytes[24..32], &4u64.to_le_bytes());
    assert_eq!(&bytes[32..40], &1u64.to_le_bytes());
    assert_eq!(&bytes[40..48], &ct.ct.data[0].to_le_bytes());
    let read = deserialize_ciphertext(&bytes).unwrap();
    assert_eq!(read.ct.data, ct.ct.data);
    assert_eq!(read.degree, ct.degree);
    assert_eq!(read.message_modulus, ct.message_modulus);
    assert_eq!(read.carry_modulus, ct.carry_modulus);
    assert_eq!(read.pbs_order, ct.pbs_order);
    assert_eq!(engine.decrypt_message_and_carry(&cks, &read).unwrap(), 9);
}

#[test]
fn bytes_that_are_no_encoding_are_refused() {
    let mut engine = ShortintEngine::from_root_seed(Seed(53));
    let cks = engine.new_client_key(parameters()).unwrap();
    let ct = engine.encrypt(&cks, 1, PBSOrder::BootstrapKeyswitch).unwrap();
    let bytes = serialize_ciphertext(&ct);
    assert_eq!(
        deserialize_ciphertext(&bytes[..39]).err(),
        Some(SerializationError::UnexpectedEnd)
    );
    assert_eq!(
        deserialize_ciphertext(&bytes[..bytes.len() - 1]).err(),
        Some(SerializationError::UnexpectedEnd)
    );
    let mut longer = bytes.clone();
    longer.push(0);
    assert_eq!(deserialize_ciphertext(&longer).err(), Some(SerializationError::TrailingBytes));
    let mut order = bytes.clone();
    order[32] = 2;
    assert_eq!(deserialize_ciphertext(&order).err(), Some(SerializationError::InvalidValue));
    let mut modulus = bytes.clone();
    modulus[16] = 0;
    assert_eq!(deserialize_ciphertext(&modulus).err(), Some(SerializationError::InvalidValue));
    let mut empty = bytes.clone();
    empty[0] = 0;
    assert_eq!(deserialize_ciphertext(&empty).err(), Some(SerializationError::InvalidValue));
    assert_eq!(
        deserialize_compressed_ciphertext(&bytes).err(),
        Some(SerializationError::TrailingBytes)
    );
    assert_eq!(
        deserialize_compressed_ciphertext(&bytes[..56]).err(),
        Some(SerializationError::UnexpectedEnd)
    );
    assert_eq!(
        SerializationError::UnexpectedEnd.message(),
        "the bytes end before the encoding does"
    );
    assert_eq!(
        SerializationError::InvalidValue.message(),
        "a word of the header has an invalid value"
    );
    assert_eq!(SerializationError::TrailingBytes.message(), "bytes follow the encoding");
}

#[test]
fn a_seed_fixes_every_key_and_ciphertext() {
    let run = || {
        let mut engine = ShortintEngine::from_root_seed(Seed(54));
        let cks = engine.new_client_key(parameters()).unwrap();
        let ct = engine.encrypt(&cks, 3, PBSOrder::KeyswitchBootstrap).unwrap();
        let compressed = engine.encrypt_compressed(&cks, 1, PBSOrder::BootstrapKeyswitch).unwrap();
        let sks = engine.new_server_key(&cks).unwrap();
        (
            cks.small_lwe_secret_key.data,
            cks.glwe_secret_key.data,
            serialize_ciphertext(&ct),
            serialize_compressed_ciphertext(&compressed),
            sks.bootstrapping_key.data,
            sks.key_switching_key.data,
        )
    };
    assert_eq!(run(), run());
    let mut first = ShortintEngine::from_root_seed(Seed(54));
    let mut second = ShortintEngine::from_root_seed(Seed(55));
    let a = first.new_client_key(parameters()).unwrap();
    let b = second.new_client_key(parameters()).unwrap();
    assert_ne!(a.glwe_secret_key.data, b.glwe_secret_key.data);
}

#[test]
fn engine_from_a_seeder_is_the_engine_of_its_seed() {
    let mut seeder = DeterministicSeeder::new(Seed(7));
    let mut copy = seeder;
    let seed = copy.seed();
    let engine = ShortintEngine::new_from_seeder(&mut seeder);
    let same = ShortintEngine::from_root_seed(seed);
    assert_eq!(engine.secret_generator, same.secret_generator);
    assert_eq!(engine.encryption_generator, same.encryption_generator);
    assert_eq!(engine.seeder, same.seeder);
    assert_eq!(seeder, copy);
}

#[test]
fn generator_gives_the_words_of_its_stream() {
    // the first bytes of the key stream of the cipher for a zero key of 128 bits and a zero
    // counter are 89 67 09 52 60 83 64 fd
    assert_eq!(generate_word(0, 0), 0xfd64_8360_5209_6789);
    let mut generator = RandomGenerator::new(Seed(5));
    let first = generator.next_u64();
    let second = generator.next_u64();
    assert_eq!(first, generate_word(5, 0));
    assert_eq!(second, generate_word(5, 1));
    assert_ne!(first, second);
    let mut buffer = [0u64; 3];
    generator.fill_slice(&mut buffer);
    assert_eq!(buffer, [generate_word(5, 2), generate_word(5, 3), generate_word(5, 4)]);
    let mut other = RandomGenerator::new(Seed(5));
    let seed = other.next_seed();
    assert_eq!(seed.0, ((first as u128) << 64) | second as u128);
}

#[test]
fn noise_stays_within_three_standard_deviations() {
    let mut seeder = DeterministicSeeder::new(Seed(9));
    let mut generator = EncryptionRandomGenerator::new(Seed(1), &mut seeder);
    let mut seen_negative = false;
    let mut seen_positive = false;
    for _ in 0..200 {
        let noise = generator.random_noise(StandardDev(1000)) as i64;
        assert!((-3000..=3000).contains(&noise));
        seen_negative |= noise < 0;
        seen_positive |= noise > 0;
    }
    assert!(seen_negative && seen_positive);
    assert_eq!(generator.random_noise(StandardDev(0)), 0);
}

#[test]
fn decomposition_digits_are_balanced_and_recompose() {
    let decomposer =
        SignedDecomposer::new(DecompositionBaseLog(4), DecompositionLevelCount(3));
    for x in [0u64, 1, 0x0123_4567_89ab_cdef, u64::MAX, 1 << 63, 0x8800_0000_0000_0000] {
        let mut sum = 0u64;
        for level in 1..=3usize {
            let digit = decomposer.digit(x, level) as i64;
            assert!((-7..=8).contains(&digit));
            sum = sum.wrapping_add((digit as u64).wrapping_mul(decomposer.gadget_weight(level)));
        }
        // the closest multiple of 2^52
        let closest = x.wrapping_add(1 << 51) & !((1u64 << 52) - 1);
        assert_eq!(sum, closest);
    }
    assert_eq!(decomposer.gadget_weight(1), 1 << 60);
    assert_eq!(decomposer.digit(0x8000_0000_0000_0000, 1), 8);
    assert_eq!(decomposer.digit(0x9000_0000_0000_0000, 1) as i64, -7);
}

#[test]
fn modulus_switch_rounds_to_the_nearest() {
    // 2N = 512, one unit is 2^55
    assert_eq!(modulus_switch(0, 256), 0);
    assert_eq!(modulus_switch(1 << 55, 256), 1);
    assert_eq!(modulus_switch((1 << 55) + (1 << 54) + 1, 256), 2);
    assert_eq!(modulus_switch((1 << 55) + (1 << 54) - 1, 256), 1);
    // ties go to the even neighbour
    assert_eq!(modulus_switch((1 << 55) + (1 << 54), 256), 2);
    assert_eq!(modulus_switch((1 << 56) + (1 << 54), 256), 2);
    assert_eq!(modulus_switch(u64::MAX, 256), 0);
}

#[test]
fn seeded_bootstrap_key_wraps_its_container() {
    let glwe_size = GlweSize(2);
    let polynomial_size = PolynomialSize(1024);
    let decomp_base_log = DecompositionBaseLog(8);
    let decomp_level_count = DecompositionLevelCount(3);
    let input_lwe_dimension = LweDimension(600);
    let compression_seed = CompressionSeed { seed: Seed(77) };
    let mut bsk = SeededLweBootstrapKeyOwned::new(
        0u64,
        glwe_size,
        polynomial_size,
        decomp_base_log,
        decomp_level_count,
        input_lwe_dimension,
        compression_seed,
        CiphertextModulus::Native,
    );
    assert_eq!(bsk.glwe_size(), glwe_size);
    assert_eq!(bsk.polynomial_size(), polynomial_size);
    assert_eq!(bsk.decomposition_base_log(), decomp_base_log);
    assert_eq!(bsk.decomposition_level_count(), decomp_level_count);
    assert_eq!(bsk.input_lwe_dimension(), input_lwe_dimension);
    assert_eq!(bsk.output_lwe_dimension().0, 1024);
    assert_eq!(bsk.compression_seed(), compression_seed);
    assert_eq!(bsk.as_view().data.len(), 600 * 3 * 2 * 1024);
    {
        let view = bsk.as_mut_view();
        assert_eq!(view.input_lwe_dimension(), input_lwe_dimension);
        view.data[5] = 42;
    }
    assert_eq!(bsk.data[5], 42);
    let underlying_container: Vec<u64> = bsk.into_container();
    assert_eq!(underlying_container.len(), 600 * 3 * 2 * 1024);
    let bsk = SeededLweBootstrapKey::from_container(
        underlying_container,
        glwe_size,
        polynomial_size,
        decomp_base_log,
        decomp_level_count,
        compression_seed,
        CiphertextModulus::Native,
    );
    assert_eq!(bsk.input_lwe_dimension(), input_lwe_dimension);
    assert_eq!(bsk.ciphertext_modulus(), CiphertextModulus::Native);
}

#[test]
fn seeded_bootstrap_key_decompresses_with_the_masks_of_its_seed() {
    let key = SeededLweBootstrapKey::from_container(
        vec![1u64, 2, 3, 4, 5, 6, 7, 8],
        GlweSize(2),
        PolynomialSize(2),
        DecompositionBaseLog(4),
        DecompositionLevelCount(1),
        CompressionSeed { seed: Seed(3) },
        CiphertextModulus::Native,
    );
    assert_eq!(key.input_lwe_dimension().0, 2);
    let full = key.decompress_into_lwe_bootstrap_key();
    assert_eq!(full.data.len(), 16);
    for row in 0..4usize {
        assert_eq!(full.data[4 * row], generate_word(3, 2 * row as u64));
        assert_eq!(full.data[4 * row + 1], generate_word(3, 2 * row as u64 + 1));
        assert_eq!(full.data[4 * row + 2], 2 * row as u64 + 1);
        assert_eq!(full.data[4 * row + 3], 2 * row as u64 + 2);
    }
    assert_eq!(full.input_lwe_dimension().0, 2);
    assert_eq!(full.output_lwe_dimension().0, 2);
}

#[test]
fn encodings_without_padding_and_for_crt_residues() {
    let mut engine = ShortintEngine::from_root_seed(Seed(56));
    let cks = engine.new_client_key(parameters()).unwrap();
    let order = PBSOrder::BootstrapKeyswitch;
    for m in [0u64, 1, 3, 5, 7, 12, 15, 16, 37] {
        let ct = engine.encrypt_without_padding(&cks, m, order).unwrap();
        assert_eq!(ct.degree.0, 3);
        assert_eq!(engine.decrypt_message_and_carry_without_padding(&cks, &ct).unwrap(), m % 4);
        assert_eq!(engine.decrypt_without_padding(&cks, &ct).unwrap(), m % 4);
        let compressed = engine.encrypt_without_padding_compressed(&cks, m, order).unwrap();
        let ct = compressed.decompress();
        assert_eq!(engine.decrypt_message_and_carry_without_padding(&cks, &ct).unwrap(), m % 4);
    }
    // with its carry, an integer is reduced by the product of the moduli only
    for m in [0u64, 9, 15, 16, 21, 37] {
        let ct = engine.unchecked_encrypt(&cks, m, order).unwrap();
        assert_eq!(ct.degree.0, 15);
        assert_eq!(engine.decrypt_message_and_carry(&cks, &ct).unwrap(), m % 16);
    }
    for basis in [3u8, 5, 7] {
        for m in 0..20u64 {
            let ct = engine.encrypt_native_crt(&cks, m, basis, order).unwrap();
            assert_eq!(ct.degree.0, basis as usize - 1);
            assert_eq!(ct.carry_modulus.0, 1);
            assert_eq!(
                engine.decrypt_message_native_crt(&cks, &ct, basis as u64).unwrap(),
                m % basis as u64
            );
            let compressed = engine.encrypt_native_crt_compressed(&cks, m, basis, order).unwrap();
            assert_eq!(
                engine
                    .decrypt_message_native_crt(&cks, &compressed.decompress(), basis as u64)
                    .unwrap(),
                m % basis as u64
            );
        }
    }
    let ct = engine
        .encrypt_with_message_modulus(&cks, 5, MessageModulus(2), order)
        .unwrap();
    assert_eq!(ct.carry_modulus.0, 8);
    assert_eq!(ct.degree.0, 1);
    assert_eq!(engine.decrypt(&cks, &ct).unwrap(), 1);
    let compressed = engine
        .encrypt_with_message_modulus_compressed(&cks, 5, MessageModulus(2), order)
        .unwrap();
    assert_eq!(compressed.carry_modulus.0, 8);
    assert_eq!(engine.decrypt(&cks, &compressed.decompress()).unwrap(), 1);
}

#[test]
fn engines_depend_on_the_seed_that_their_seeder_gives() {
    let mut first_seeder = DeterministicSeeder::new(Seed(7));
    let mut second_seeder = DeterministicSeeder::new(Seed(8));
    let mut first = ShortintEngine::new_from_seeder(&mut first_seeder);
    let mut second = ShortintEngine::new_from_seeder(&mut second_seeder);
    assert!(first.ciphertext_buffers.buffer.is_empty());
    assert!(first.computation_buffers.buffer.is_empty());
    assert_ne!(first.secret_generator, second.secret_generator);
    let a = first.new_client_key(parameters()).unwrap();
    let b = second.new_client_key(parameters()).unwrap();
    assert_ne!(a.glwe_secret_key.data, b.glwe_secret_key.data);
    // the same seed again gives the same keys and the same ciphertexts
    let mut again_seeder = DeterministicSeeder::new(Seed(7));
    let mut again = ShortintEngine::new_from_seeder(&mut again_seeder);
    let c = again.new_client_key(parameters()).unwrap();
    assert_eq!(a.small_lwe_secret_key.data, c.small_lwe_secret_key.data);
    assert_eq!(a.glwe_secret_key.data, c.glwe_secret_key.data);
    assert_eq!(a.large_lwe_secret_key.data, c.large_lwe_secret_key.data);
    let x = first.encrypt(&a, 2, PBSOrder::KeyswitchBootstrap).unwrap();
    let y = again.encrypt(&c, 2, PBSOrder::KeyswitchBootstrap).unwrap();
    assert_eq!(x.ct.data, y.ct.data);
    assert_eq!(x.degree, y.degree);
}
