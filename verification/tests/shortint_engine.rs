//! Encryption, decryption and homomorphic operations through the shortint engine.
use tfhe::core_crypto::commons::generators::Seed;
use tfhe::core_crypto::commons::parameters::{
    CiphertextModulus, DecompositionBaseLog, DecompositionLevelCount, GlweDimension, LweDimension,
    PolynomialSize, StandardDev,
};
use tfhe::shortint::ciphertext::{Ciphertext, PBSOrder};
use tfhe::shortint::client_key::ClientKey;
use tfhe::shortint::engine::ShortintEngine;
use tfhe::shortint::parameters::{CarryModulus, MessageModulus, Parameters};
use tfhe::shortint::server_key::{CheckError, ServerKey};

fn parameters() -> Parameters {
    Parameters {
        lwe_dimension: LweDimension(8),
        glwe_dimension: GlweDimension(1),
        polynomial_size: PolynomialSize(256),
        lwe_modular_std_dev: StandardDev(1 << 20),
        glwe_modular_std_dev: StandardDev(1 << 20),
        pbs_base_log: DecompositionBaseLog(15),
        pbs_level: DecompositionLevelCount(2),
        ks_base_log: DecompositionBaseLog(4),
        ks_level: DecompositionLevelCount(5),
        message_modulus: MessageModulus(4),
        carry_modulus: CarryModulus(4),
        ciphertext_modulus: CiphertextModulus::Native,
    }
}

fn keys(seed: u128) -> (ShortintEngine, ClientKey, ServerKey) {
    let mut engine = ShortintEngine::from_root_seed(Seed(seed));
    let cks = engine.new_client_key(parameters()).unwrap();
    let sks = ServerKey::new(&cks, &mut engine);
    (engine, cks, sks)
}

fn encrypt(engine: &mut ShortintEngine, cks: &ClientKey, m: u64, order: PBSOrder) -> Ciphertext {
    engine.encrypt(cks, m, order).unwrap()
}

#[test]
fn encrypt_then_decrypt_gives_the_message_back() {
    let mut engine = ShortintEngine::from_root_seed(Seed(1));
    let cks = engine.new_client_key(parameters()).unwrap();
    for order in [PBSOrder::KeyswitchBootstrap, PBSOrder::BootstrapKeyswitch] {
        for m in 0..4u64 {
            let ct = encrypt(&mut engine, &cks, m, order);
            assert_eq!(ct.degree.0, 3);
            assert_eq!(ct.message_modulus.0, 4);
            assert_eq!(ct.carry_modulus.0, 4);
            assert_eq!(engine.decrypt(&cks, &ct).unwrap(), m);
        }
    }
}

#[test]
fn bitand_of_one_and_one_is_one() {
    let (mut engine, cks, sks) = keys(2);
    for order in [PBSOrder::KeyswitchBootstrap, PBSOrder::BootstrapKeyswitch] {
        let ct1 = encrypt(&mut engine, &cks, 1, order);
        let ct2 = encrypt(&mut engine, &cks, 1, order);
        let ct_res = sks.bitand(&ct1, &ct2);
        assert_eq!(engine.decrypt(&cks, &ct_res).unwrap(), 1);
        assert!(ct_res.degree.0 < 4);
    }
}

#[test]
fn unchecked_bitwise_operations_on_all_messages() {
    let (mut engine, cks, sks) = keys(3);
    let order = PBSOrder::KeyswitchBootstrap;
    for m1 in 0..4u64 {
        for m2 in 0..4u64 {
            let ct1 = encrypt(&mut engine, &cks, m1, order);
            let ct2 = encrypt(&mut engine, &cks, m2, order);
            let and = sks.unchecked_bitand(&ct1, &ct2);
            let or = sks.unchecked_bitor(&ct1, &ct2);
            let xor = sks.unchecked_bitxor(&ct1, &ct2);
            assert_eq!(engine.decrypt(&cks, &and).unwrap(), m1 & m2);
            assert_eq!(engine.decrypt(&cks, &or).unwrap(), m1 | m2);
            assert_eq!(engine.decrypt(&cks, &xor).unwrap(), m1 ^ m2);
        }
    }
}

#[test]
fn bitxor_assign_with_a_full_carry() {
    let (mut engine, cks, sks) = keys(4);
    let order = PBSOrder::KeyswitchBootstrap;
    let mut ct1 = engine.unchecked_encrypt(&cks, 15, order).unwrap();
    assert_eq!(ct1.degree.0, 15);
    let ct2 = encrypt(&mut engine, &cks, 3, order);
    sks.bitxor_assign(&mut ct1, &ct2);
    assert_eq!(engine.decrypt(&cks, &ct1).unwrap(), (15 ^ 3) % 4);
    assert_eq!(engine.decrypt(&cks, &ct1).unwrap(), 0);
}

#[test]
fn bitor_assign_with_a_full_carry() {
    let (mut engine, cks, sks) = keys(5);
    let order = PBSOrder::KeyswitchBootstrap;
    let mut ct1 = engine.unchecked_encrypt(&cks, 15, order).unwrap();
    let ct2 = encrypt(&mut engine, &cks, 3, order);
    sks.bitor_assign(&mut ct1, &ct2);
    assert_eq!(engine.decrypt(&cks, &ct1).unwrap(), (15 | 3) % 4);
    assert_eq!(engine.decrypt(&cks, &ct1).unwrap(), 3);
}

#[test]
fn checked_bitand_refuses_operands_that_cannot_be_packed() {
    let (mut engine, cks, sks) = keys(6);
    let order = PBSOrder::KeyswitchBootstrap;
    let ct1 = engine.unchecked_encrypt(&cks, 15, order).unwrap();
    let ct2 = encrypt(&mut engine, &cks, 3, order);
    let before = ct1.ct.data.clone();
    assert!(!sks.is_functional_bivariate_pbs_possible(&ct1, &ct2));
    assert!(matches!(sks.checked_bitand(&ct1, &ct2), Err(CheckError::CarryFull)));
    let mut left = ct1.clone();
    assert_eq!(sks.checked_bitand_assign(&mut left, &ct2), Err(CheckError::CarryFull));
    assert_eq!(left.ct.data, before);
    assert_eq!(left.degree.0, 15);
    assert_eq!(ct2.degree.0, 3);
}

#[test]
fn sums_and_scalar_products_count_in_the_carry() {
    let (mut engine, cks, sks) = keys(7);
    for order in [PBSOrder::KeyswitchBootstrap, PBSOrder::BootstrapKeyswitch] {
        let ct1 = encrypt(&mut engine, &cks, 3, order);
        let ct2 = encrypt(&mut engine, &cks, 2, order);
        let sum = sks.unchecked_add(&ct1, &ct2);
        assert_eq!(sum.degree.0, 6);
        assert_eq!(engine.decrypt_message_and_carry(&cks, &sum).unwrap(), 5);
        assert_eq!(engine.decrypt(&cks, &sum).unwrap(), 1);
        let mut product = encrypt(&mut engine, &cks, 3, order);
        sks.unchecked_scalar_mul_assign(&mut product, 4);
        assert_eq!(product.degree.0, 12);
        assert_eq!(engine.decrypt_message_and_carry(&cks, &product).unwrap(), 12);
        assert_eq!(engine.decrypt(&cks, &product).unwrap(), 0);
        let carry = sks.carry_extract(&product);
        assert_eq!(carry.degree.0, 3);
        assert_eq!(engine.decrypt(&cks, &carry).unwrap(), 3);
        let mut by_zero = encrypt(&mut engine, &cks, 3, order);
        sks.unchecked_scalar_mul_assign(&mut by_zero, 0);
        assert_eq!(by_zero.degree.0, 0);
        assert_eq!(engine.decrypt_message_and_carry(&cks, &by_zero).unwrap(), 0);
    }
}

#[test]
fn bitwise_results_are_messages_for_a_modulus_that_is_no_power_of_two() {
    let mut three = parameters();
    three.message_modulus = MessageModulus(3);
    three.carry_modulus = CarryModulus(3);
    let mut engine = ShortintEngine::from_root_seed(Seed(8));
    let cks = engine.new_client_key(three).unwrap();
    let sks = ServerKey::new(&cks, &mut engine);
    let order = PBSOrder::KeyswitchBootstrap;
    for x in 0..3u64 {
        for y in 0..3u64 {
            let a = encrypt(&mut engine, &cks, x, order);
            let b = encrypt(&mut engine, &cks, y, order);
            let or = sks.bitor(&a, &b);
            assert!(or.degree.0 <= 2);
            assert_eq!(engine.decrypt_message_and_carry(&cks, &or).unwrap(), (x | y) % 3);
            let xor = sks.bitxor(&a, &b);
            assert!(xor.degree.0 <= 2);
            assert_eq!(engine.decrypt_message_and_carry(&cks, &xor).unwrap(), (x ^ y) % 3);
            let and = sks.bitand(&a, &b);
            assert!(and.degree.0 <= 2);
            assert_eq!(engine.decrypt_message_and_carry(&cks, &and).unwrap(), x & y);
        }
    }
}

#[test]
fn well_formedness_of_parameters_and_keys() {
    assert!(parameters().is_wf());
    let mut p = parameters();
    p.polynomial_size = PolynomialSize(255);
    assert!(!p.is_wf());
    let mut p = parameters();
    p.polynomial_size = PolynomialSize(1 << 31);
    assert!(!p.is_wf());
    let mut p = parameters();
    p.lwe_dimension = LweDimension(0);
    assert!(!p.is_wf());
    let mut p = parameters();
    p.glwe_dimension = GlweDimension(usize::MAX);
    assert!(!p.is_wf());
    let mut p = parameters();
    p.message_modulus = MessageModulus(0);
    assert!(!p.is_wf());
    let mut p = parameters();
    p.message_modulus = MessageModulus(1 << 32);
    p.carry_modulus = CarryModulus(1 << 32);
    assert!(!p.is_wf());
    let mut p = parameters();
    p.pbs_base_log = DecompositionBaseLog(32);
    assert!(!p.is_wf());
    let mut p = parameters();
    p.ks_level = DecompositionLevelCount(0);
    assert!(!p.is_wf());
    let mut p = parameters();
    p.ciphertext_modulus = CiphertextModulus::try_new(1 << 32).unwrap();
    // the shape of parameters does not depend on their ciphertext modulus
    assert!(p.is_wf());
    assert!(!p.ciphertext_modulus.is_native_modulus());
    let mut p = parameters();
    p.lwe_dimension = LweDimension(usize::MAX - 1);
    assert!(!p.is_wf());

    let mut engine = ShortintEngine::from_root_seed(Seed(9));
    let cks = engine.new_client_key(parameters()).unwrap();
    assert!(cks.is_wf());
    assert!(cks.small_lwe_secret_key.is_wf());
    assert!(cks.glwe_secret_key.is_wf());
    let mut short = engine.new_client_key(parameters()).unwrap();
    short.small_lwe_secret_key.data.pop();
    assert!(!short.is_wf());
    let mut no_bits = engine.new_client_key(parameters()).unwrap();
    no_bits.glwe_secret_key.data[3] = 2;
    assert!(!no_bits.glwe_secret_key.is_wf());
    assert!(!no_bits.is_wf());
    let mut other = engine.new_client_key(parameters()).unwrap();
    other.large_lwe_secret_key.data[0] ^= 1;
    assert!(!other.is_wf());
}

#[test]
fn unchecked_bitwise_operations_take_the_carry_of_the_right_operand_to_the_left() {
    let (mut engine, cks, sks) = keys(10);
    let order = PBSOrder::KeyswitchBootstrap;
    let one = encrypt(&mut engine, &cks, 1, order);
    let three = encrypt(&mut engine, &cks, 3, order);
    // six, with a degree of six: two in the message, one in the carry
    let six = sks.unchecked_add(&three, &three);
    assert_eq!(six.degree.0, 6);
    // packed as 1 * 4 + 6 = 10, which stands for the operands 2 and 2
    let and = sks.unchecked_bitand(&one, &six);
    assert_eq!(engine.decrypt_message_and_carry(&cks, &and).unwrap(), 2 & 2);
    let xor = sks.unchecked_bitxor(&one, &six);
    assert_eq!(engine.decrypt_message_and_carry(&cks, &xor).unwrap(), 2 ^ 2);
    let or = sks.unchecked_bitor(&one, &six);
    assert_eq!(engine.decrypt_message_and_carry(&cks, &or).unwrap(), 2 | 2);
    // the default mode clears the carry first: 1 and 6 mod 4
    let and = sks.bitand(&one, &six);
    assert_eq!(engine.decrypt_message_and_carry(&cks, &and).unwrap(), 1 & 2);
    let or = sks.bitor(&one, &six);
    assert_eq!(engine.decrypt_message_and_carry(&cks, &or).unwrap(), 1 | 2);
}
