//! Integers in radix representation: addition and carry propagation.
use tfhe::core_crypto::commons::generators::Seed;
use tfhe::core_crypto::commons::parameters::{
    CiphertextModulus, DecompositionBaseLog, DecompositionLevelCount, GlweDimension, LweDimension,
    PolynomialSize, StandardDev,
};
use tfhe::integer::client_key::RadixClientKey;
use tfhe::integer::server_key::ServerKey;
use tfhe::shortint::ciphertext::PBSOrder;
use tfhe::shortint::engine::ShortintEngine;
use tfhe::shortint::parameters::{CarryModulus, MessageModulus, Parameters};
use tfhe::shortint::server_key::ServerKey as ShortintServerKey;

fn parameters() -> Parameters {
    Parameters {
        lwe_dimension: LweDimension(8),
        glwe_dimension: GlweDimension(1),
        polynomial_size: PolynomialSize(256),
        lwe_modular_std_dev: StandardDev(1 << 20),
        glwe_modular_std_dev: StandardDev(1 << 20),
        pbs_base_log: DecompositionBaseLog(15),
        pbs_level: DecompositionLevelCount(2),
        ks_base_log: DecompositionBaseLog(4),
        ks_level: DecompositionLevelCount(5),
        message_modulus: MessageModulus(4),
        carry_modulus: CarryModulus(4),
        ciphertext_modulus: CiphertextModulus::Native,
    }
}

fn gen_keys_radix(seed: u128, num_blocks: usize) -> (ShortintEngine, RadixClientKey, ServerKey) {
    let mut engine = ShortintEngine::from_root_seed(Seed(seed));
    let cks = engine.new_client_key(parameters()).unwrap();
    let sks = ShortintServerKey::new(&cks, &mut engine);
    (engine, RadixClientKey { key: cks, num_blocks }, ServerKey { key: sks })
}

#[test]
fn radix_encryption_splits_the_integer_in_digits() {
    let (mut engine, cks, _sks) = gen_keys_radix(21, 4);
    let ct = cks.encrypt(&mut engine, 235, PBSOrder::KeyswitchBootstrap);
    assert_eq!(ct.blocks().len(), 4);
    let digits: Vec<u64> =
        ct.blocks().iter().map(|block| engine.decrypt(&cks.key, block).unwrap()).collect();
    assert_eq!(digits, vec![3, 2, 2, 3]);
    assert_eq!(cks.decrypt(&mut engine, &ct), 235);
}

#[test]
fn propagate_moves_the_carry_of_a_block_to_the_next() {
    let (mut engine, cks, sks) = gen_keys_radix(22, 4);
    let ct1 = cks.encrypt(&mut engine, 7, PBSOrder::KeyswitchBootstrap);
    let ct2 = cks.encrypt(&mut engine, 7, PBSOrder::KeyswitchBootstrap);
    let mut ct_res = sks.unchecked_add(&ct1, &ct2);
    assert_eq!(ct_res.blocks()[0].degree.0, 6);
    sks.propagate_parallelized(&mut ct_res, 0);
    assert_eq!(engine.decrypt_message_and_carry(&cks.key, &ct_res.blocks()[0]).unwrap(), 2);
    assert_eq!(engine.decrypt(&cks.key, &ct_res.blocks()[1]).unwrap(), 3);
    assert_eq!(ct_res.blocks()[0].degree.0, 3);
    assert_eq!(ct_res.blocks()[1].degree.0, 6 + 3);
}

#[test]
fn addition_then_full_propagation() {
    let (mut engine, cks, sks) = gen_keys_radix(23, 4);
    let ct1 = cks.encrypt(&mut engine, 7, PBSOrder::KeyswitchBootstrap);
    let ct2 = cks.encrypt(&mut engine, 7, PBSOrder::KeyswitchBootstrap);
    let mut ct_res = sks.unchecked_add(&ct1, &ct2);
    sks.full_propagate_parallelized(&mut ct_res);
    assert_eq!(cks.decrypt(&mut engine, &ct_res), 14);
    for block in ct_res.blocks() {
        assert!(block.degree.0 < 4);
    }
}

#[test]
fn addition_of_ten_and_ten_with_small_ciphertexts() {
    let (mut engine, cks, sks) = gen_keys_radix(24, 4);
    let ct1 = cks.encrypt(&mut engine, 10, PBSOrder::BootstrapKeyswitch);
    let ct2 = cks.encrypt(&mut engine, 10, PBSOrder::BootstrapKeyswitch);
    let mut ct_res = sks.unchecked_add(&ct1, &ct2);
    sks.full_propagate_parallelized(&mut ct_res);
    assert_eq!(cks.decrypt(&mut engine, &ct_res), 20);
}

#[test]
fn integers_wrap_at_the_weight_of_the_first_missing_digit() {
    let (mut engine, cks, sks) = gen_keys_radix(25, 4);
    // four digits in base four hold the integers below 256
    let ct = cks.encrypt(&mut engine, 300, PBSOrder::KeyswitchBootstrap);
    assert_eq!(cks.decrypt(&mut engine, &ct), 44);
    let ct1 = cks.encrypt(&mut engine, 200, PBSOrder::KeyswitchBootstrap);
    let ct2 = cks.encrypt(&mut engine, 100, PBSOrder::KeyswitchBootstrap);
    let mut ct_res = sks.unchecked_add(&ct1, &ct2);
    // before the propagation the carries still count
    assert_eq!(cks.decrypt(&mut engine, &ct_res), 300);
    sks.full_propagate_parallelized(&mut ct_res);
    assert_eq!(cks.decrypt(&mut engine, &ct_res), 44);
    for block in ct_res.blocks() {
        assert!(engine.decrypt_message_and_carry(&cks.key, block).unwrap() < 4);
    }
}
