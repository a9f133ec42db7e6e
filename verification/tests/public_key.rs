//! Encryption with a public key is decrypted by the client key, and booleans as messages of
//! one bit.
use tfhe::core_crypto::commons::generators::Seed;
use tfhe::core_crypto::commons::parameters::{
    CiphertextModulus, DecompositionBaseLog, DecompositionLevelCount, GlweDimension, LweDimension,
    PolynomialSize, StandardDev,
};
use tfhe::integer::client_key::RadixClientKey;
use tfhe::shortint::ciphertext::PBSOrder;
use tfhe::shortint::client_key::ClientKey;
use tfhe::shortint::engine::ShortintEngine;
use tfhe::shortint::parameters::{CarryModulus, MessageModulus, Parameters};
use tfhe::shortint::public_key::PublicKey;
use tfhe::shortint::server_key::ServerKey;

fn parameters(message_modulus: usize, carry_modulus: usize) -> Parameters {
    Parameters {
        lwe_dimension: LweDimension(8),
        glwe_dimension: GlweDimension(1),
        polynomial_size: PolynomialSize(256),
        lwe_modular_std_dev: StandardDev(1 << 20),
        glwe_modular_std_dev: StandardDev(1 << 20),
        pbs_base_log: DecompositionBaseLog(15),
        pbs_level: DecompositionLevelCount(2),
        ks_base_log: DecompositionBaseLog(4),
        ks_level: DecompositionLevelCount(5),
        message_modulus: MessageModulus(message_modulus),
        carry_modulus: CarryModulus(carry_modulus),
        ciphertext_modulus: CiphertextModulus::Native,
    }
}

fn generate_keys(seed: u128, parameters: Parameters) -> (ShortintEngine, ClientKey, PublicKey) {
    let mut engine = ShortintEngine::from_root_seed(Seed(seed));
    let cks = engine.new_client_key(parameters).unwrap();
    let pks = engine.new_public_key(&cks, PBSOrder::BootstrapKeyswitch).unwrap();
    (engine, cks, pks)
}

fn assert_that_public_key_encryption_is_decrypted_by_client_key(
    engine: &mut ShortintEngine,
    clear: u64,
    pks: &PublicKey,
    cks: &ClientKey,
) {
    let encrypted = engine.encrypt_with_public_key(pks, clear).unwrap();
    let decrypted = engine.decrypt(cks, &encrypted).unwrap();
    assert_eq!(clear, decrypted);
}

#[test]
fn test_boolean_public_key() {
    let (mut engine, cks, pks) = generate_keys(11, parameters(2, 2));
    for clear in [false, true] {
        let encrypted = engine.encrypt_with_public_key(&pks, clear as u64).unwrap();
        let decrypted = engine.decrypt(&cks, &encrypted).unwrap() == 1;
        assert_eq!(clear, decrypted);
    }
}

#[test]
fn test_shortint_public_key() {
    let (mut engine, cks, pks) = generate_keys(12, parameters(4, 4));
    assert_that_public_key_encryption_is_decrypted_by_client_key(&mut engine, 0, &pks, &cks);
    assert_that_public_key_encryption_is_decrypted_by_client_key(&mut engine, 1, &pks, &cks);
    assert_that_public_key_encryption_is_decrypted_by_client_key(&mut engine, 2, &pks, &cks);
    assert_that_public_key_encryption_is_decrypted_by_client_key(&mut engine, 3, &pks, &cks);
}

#[test]
fn test_integer_public_key() {
    let (mut engine, cks, pks) = generate_keys(13, parameters(4, 4));
    let clear: u8 = 235;
    let encrypted = RadixClientKey::encrypt_with_public_key(&mut engine, &pks, clear as u64, 4);
    let radix_key = RadixClientKey { key: cks, num_blocks: 4 };
    let decrypted = radix_key.decrypt(&mut engine, &encrypted) as u8;
    assert_eq!(clear, decrypted);
}

#[test]
fn test_with_context() {
    let mut engine = ShortintEngine::from_root_seed(Seed(14));
    let cks = engine.new_client_key(parameters(2, 2)).unwrap();
    let sks = ServerKey::new(&cks, &mut engine);
    let a = engine.encrypt(&cks, false as u64, PBSOrder::KeyswitchBootstrap).unwrap();
    let b = engine.encrypt(&cks, true as u64, PBSOrder::KeyswitchBootstrap).unwrap();
    let r = sks.bitand(&a, &b);
    let d = engine.decrypt(&cks, &r).unwrap() == 1;
    assert!(!d);
    let both = sks.bitand(&b, &b);
    assert!(engine.decrypt(&cks, &both).unwrap() == 1);
}
