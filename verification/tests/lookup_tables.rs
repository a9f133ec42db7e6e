//! Lookup tables and the programmable bootstrap.
use tfhe::core_crypto::commons::generators::Seed;
use tfhe::core_crypto::commons::parameters::{
    CiphertextModulus, DecompositionBaseLog, DecompositionLevelCount, GlweDimension, LweDimension,
    PolynomialSize, StandardDev,
};
use tfhe::shortint::ciphertext::PBSOrder;
use tfhe::shortint::client_key::ClientKey;
use tfhe::shortint::engine::ShortintEngine;
use tfhe::shortint::parameters::{CarryModulus, MessageModulus, Parameters};
use tfhe::shortint::server_key::compressed::CompressedServerKey;
use tfhe::shortint::server_key::ServerKey;

fn parameters(polynomial_size: usize) -> Parameters {
    Parameters {
        lwe_dimension: LweDimension(8),
        glwe_dimension: GlweDimension(1),
        polynomial_size: PolynomialSize(polynomial_size),
        lwe_modular_std_dev: StandardDev(1 << 20),
        glwe_modular_std_dev: StandardDev(1 << 20),
        pbs_base_log: DecompositionBaseLog(15),
        pbs_level: DecompositionLevelCount(2),
        ks_base_log: DecompositionBaseLog(4),
        ks_level: DecompositionLevelCount(5),
        message_modulus: MessageModulus(4),
        carry_modulus: CarryModulus(4),
        ciphertext_modulus: CiphertextModulus::Native,
    }
}

fn keys(seed: u128, polynomial_size: usize) -> (ShortintEngine, ClientKey, ServerKey) {
    let mut engine = ShortintEngine::from_root_seed(Seed(seed));
    let cks = engine.new_client_key(parameters(polynomial_size)).unwrap();
    let sks = ServerKey::new(&cks, &mut engine);
    (engine, cks, sks)
}

#[test]
fn accumulator_holds_the_boxes_of_the_table() {
    let (_engine, _cks, sks) = keys(31, 64);
    let table = sks.generate_accumulator(|x| x + 1);
    assert_eq!(table.degree.0, 16);
    let delta = 1u64 << 59;
    assert_eq!(sks.delta(), delta);
    let acc = &table.acc.data;
    assert_eq!(acc.len(), 128);
    assert!(acc[..64].iter().all(|&a| a == 0));
    let body = &acc[64..];
    // boxes of four coefficients, rotated to the left by half a box
    assert_eq!(body[0], delta);
    assert_eq!(body[1], delta);
    for input in 1..16u64 {
        for t in 0..4usize {
            assert_eq!(body[4 * input as usize - 2 + t], (input + 1) * delta);
        }
    }
    // the first half box went around, with the opposite sign
    assert_eq!(body[62], delta.wrapping_neg());
    assert_eq!(body[63], delta.wrapping_neg());
}

#[test]
fn bivariate_accumulator_unpacks_its_operands() {
    let (_engine, _cks, sks) = keys(32, 64);
    let table = sks.generate_accumulator_bivariate(|x, y| 2 * x + y);
    assert_eq!(table.ct_right_modulus.0, 4);
    assert_eq!(table.acc.degree.0, 9);
    let delta = sks.delta();
    let body = &table.acc.acc.data[64..];
    // the packed input 4 * 3 + 1 stands for the operands 3 and 1
    assert_eq!(body[4 * 13], 7 * delta);
    assert_eq!(body[4 * 6], (2 + 2) * delta);
}

#[test]
fn bootstrap_with_the_identity_keeps_the_message() {
    let (mut engine, cks, sks) = keys(33, 256);
    let identity = sks.generate_accumulator(|x| x % 4);
    assert_eq!(identity.degree.0, 3);
    for order in [PBSOrder::KeyswitchBootstrap, PBSOrder::BootstrapKeyswitch] {
        for m in 0..4u64 {
            let ct = engine.encrypt(&cks, m, order).unwrap();
            let res = sks.apply_lookup_table(&ct, &identity);
            assert_eq!(engine.decrypt(&cks, &res).unwrap(), m);
            assert_eq!(res.degree.0, 3);
            assert_eq!(res.ct.data.len(), ct.ct.data.len());
        }
    }
}

#[test]
fn bootstrap_evaluates_the_function_of_the_table() {
    let (mut engine, cks, sks) = keys(34, 256);
    let f = |x: u64| (x * x + 1) % 16;
    let table = sks.generate_accumulator(f);
    assert_eq!(table.degree.0, 10);
    for m in 0..16u64 {
        let ct = engine.unchecked_encrypt(&cks, m, PBSOrder::KeyswitchBootstrap).unwrap();
        let res = sks.apply_lookup_table(&ct, &table);
        assert_eq!(engine.decrypt_message_and_carry(&cks, &res).unwrap(), f(m));
        assert!(f(m) <= res.degree.0 as u64);
    }
}

#[test]
fn bivariate_bootstrap_evaluates_the_function_on_both_messages() {
    let (mut engine, cks, sks) = keys(35, 256);
    let g = |x: u64, y: u64| (x * y + 1) % 4;
    let table = sks.generate_accumulator_bivariate(g);
    for m1 in 0..4u64 {
        for m2 in 0..4u64 {
            let mut ct1 = engine.encrypt(&cks, m1, PBSOrder::KeyswitchBootstrap).unwrap();
            let ct2 = engine.encrypt(&cks, m2, PBSOrder::KeyswitchBootstrap).unwrap();
            sks.unchecked_apply_lookup_table_bivariate_assign(&mut ct1, &ct2, &table);
            assert_eq!(engine.decrypt(&cks, &ct1).unwrap(), g(m1, m2) % 4);
        }
    }
}

#[test]
fn extraction_of_message_and_carry() {
    let (mut engine, cks, sks) = keys(36, 256);
    for m in [0u64, 5, 11, 15] {
        let ct = engine.unchecked_encrypt(&cks, m, PBSOrder::KeyswitchBootstrap).unwrap();
        let message = sks.message_extract(&ct);
        let carry = sks.carry_extract(&ct);
        assert_eq!(engine.decrypt_message_and_carry(&cks, &message).unwrap(), m % 4);
        assert_eq!(engine.decrypt_message_and_carry(&cks, &carry).unwrap(), m / 4);
        assert_eq!(message.degree.0, 3);
        assert_eq!(carry.degree.0, 3);
        assert!(message.carry_is_empty());
    }
}

#[test]
fn engine_clears_the_carry_with_its_own_accumulator() {
    let (mut engine, cks, sks) = keys(37, 256);
    let mut ct = engine.unchecked_encrypt(&cks, 14, PBSOrder::BootstrapKeyswitch).unwrap();
    assert!(!ct.carry_is_empty());
    engine.clear_carry_assign(&sks, &mut ct).unwrap();
    assert!(ct.carry_is_empty());
    assert_eq!(engine.decrypt_message_and_carry(&cks, &ct).unwrap(), 2);
    // the memory of the engine has grown to the accumulator and the two ciphertexts
    assert_eq!(engine.ciphertext_buffers.buffer.len(), 512 + 9 + 257);
    let table = sks.generate_accumulator(|x| x % 4);
    assert_eq!(&engine.ciphertext_buffers.buffer[..512], &table.acc.data[..]);
    assert!(engine.ciphertext_buffers.buffer[512..].iter().all(|&x| x == 0));
    // a longer memory keeps its length, and what follows the accumulator
    engine.ciphertext_buffers.buffer.resize(1000, 5);
    let mut again = engine.unchecked_encrypt(&cks, 9, PBSOrder::BootstrapKeyswitch).unwrap();
    engine.clear_carry_assign(&sks, &mut again).unwrap();
    assert_eq!(engine.decrypt_message_and_carry(&cks, &again).unwrap(), 1);
    assert_eq!(engine.ciphertext_buffers.buffer.len(), 1000);
    assert_eq!(&engine.ciphertext_buffers.buffer[..512], &table.acc.data[..]);
    assert!(engine.ciphertext_buffers.buffer[778..].iter().all(|&x| x == 5));
    engine.ciphertext_buffers.buffer.truncate(778);
    let (buffers, _) = engine.get_carry_clearing_accumulator_and_buffers(&sks);
    assert_eq!(buffers.accumulator.degree.0, 3);
    assert_eq!(buffers.accumulator.acc.data.len(), 512);
    assert_eq!(buffers.buffer_lwe_after_ks.data.len(), 9);
    assert_eq!(buffers.buffer_lwe_after_pbs.data.len(), 257);
    let same = sks.generate_accumulator(|x| x % 4);
    assert_eq!(&buffers.accumulator.acc.data[..], &same.acc.data[..]);
}

#[test]
fn smart_operations_clear_the_carries_they_must() {
    let (mut engine, cks, sks) = keys(38, 256);
    let order = PBSOrder::KeyswitchBootstrap;
    let mut ct1 = engine.unchecked_encrypt(&cks, 15, order).unwrap();
    let mut ct2 = engine.encrypt(&cks, 3, order).unwrap();
    let first = sks.smart_bitand(&mut ct1, &mut ct2);
    assert_eq!(engine.decrypt(&cks, &first).unwrap(), (15 & 3) % 4);
    assert!(ct1.carry_is_empty());
    assert_eq!(engine.decrypt_message_and_carry(&cks, &ct1).unwrap(), 3);
    assert_eq!(engine.decrypt_message_and_carry(&cks, &ct2).unwrap(), 3);
    // a second time, the result is the same
    let second = sks.smart_bitand(&mut ct1, &mut ct2);
    assert_eq!(
        engine.decrypt(&cks, &second).unwrap(),
        engine.decrypt(&cks, &first).unwrap()
    );
    sks.smart_bitxor_assign(&mut ct1, &mut ct2);
    assert_eq!(engine.decrypt(&cks, &ct1).unwrap(), 0);
    let or = sks.smart_bitor(&mut ct1, &mut ct2);
    assert_eq!(engine.decrypt(&cks, &or).unwrap(), 3);
}

#[test]
fn checked_operations_succeed_when_the_operands_can_be_packed() {
    let (mut engine, cks, sks) = keys(39, 256);
    let order = PBSOrder::KeyswitchBootstrap;
    // a left operand of degree 2: (2 + 1) * 4 + 3 = 15 < 16
    let small = engine
        .encrypt_with_message_modulus(&cks, 2, MessageModulus(3), order)
        .unwrap();
    let mut left = small.clone();
    left.message_modulus = MessageModulus(4);
    left.carry_modulus = CarryModulus(4);
    let right = engine.encrypt(&cks, 3, order).unwrap();
    assert!(sks.is_functional_bivariate_pbs_possible(&left, &right));
    let and = sks.checked_bitand(&left, &right).unwrap();
    assert_eq!(engine.decrypt(&cks, &and).unwrap(), 2);
    let or = sks.checked_bitor(&left, &right).unwrap();
    assert_eq!(engine.decrypt(&cks, &or).unwrap(), 3);
    let mut xor = left.clone();
    assert_eq!(sks.checked_bitxor_assign(&mut xor, &right), Ok(()));
    assert_eq!(engine.decrypt(&cks, &xor).unwrap(), 1);
    // two fresh ciphertexts: (3 + 1) * 4 + 3 = 19 is not below 16
    let fresh = engine.encrypt(&cks, 1, order).unwrap();
    assert!(!sks.is_functional_bivariate_pbs_possible(&fresh, &right));
    assert!(sks.checked_bitor(&fresh, &right).is_err());
    assert!(sks.checked_bitxor(&fresh, &right).is_err());
}

#[test]
fn compressed_server_key_decompresses_to_a_working_key() {
    let mut engine = ShortintEngine::from_root_seed(Seed(40));
    let cks = engine.new_client_key(parameters(256)).unwrap();
    let compressed = CompressedServerKey::new(&cks, &mut engine);
    assert_eq!(compressed.bootstrapping_key.data.len(), 8 * 2 * 2 * 256);
    assert_eq!(compressed.key_switching_key.data.len(), 256 * 5);
    assert_eq!(compressed.bootstrapping_key.input_lwe_dimension().0, 8);
    assert_eq!(compressed.bootstrapping_key.output_lwe_dimension().0, 256);
    assert_eq!(compressed.max_degree.0, 15);
    let sks = compressed.decompress();
    assert_eq!(sks.bootstrapping_key.data.len(), 8 * 2 * 2 * 2 * 256);
    assert_eq!(sks.key_switching_key.data.len(), 256 * 5 * 9);
    let ct1 = engine.encrypt(&cks, 3, PBSOrder::KeyswitchBootstrap).unwrap();
    let ct2 = engine.encrypt(&cks, 1, PBSOrder::KeyswitchBootstrap).unwrap();
    assert_eq!(engine.decrypt(&cks, &sks.bitxor(&ct1, &ct2)).unwrap(), 2);
    assert_eq!(engine.decrypt(&cks, &sks.bitor(&ct1, &ct2)).unwrap(), 3);
}

#[test]
fn budget_of_an_exact_bootstrap() {
    let fresh = 3 * (1u64 << 20);
    let wide = parameters(256);
    assert!(wide.has_bootstrap_budget(fresh));
    // the largest noise that the boxes of sixteen coefficients absorb
    assert!(wide.has_bootstrap_budget(0x1b7_fff8_7fff_ffff));
    assert!(!wide.has_bootstrap_budget(0x1b7_fff8_8000_0000));
    assert!(!wide.has_bootstrap_budget(u64::MAX));
    // boxes of four coefficients are too narrow for the rounding of nine scalars
    assert!(!parameters(64).has_bootstrap_budget(0));
    // sixteen messages do not tile a polynomial of eight coefficients
    assert!(!parameters(8).has_bootstrap_budget(0));
    // a standard deviation of half the torus leaves no room
    let mut noisy = parameters(256);
    noisy.glwe_modular_std_dev = StandardDev(1 << 62);
    assert!(!noisy.has_bootstrap_budget(0));
    noisy.glwe_modular_std_dev = StandardDev(u64::MAX);
    assert!(!noisy.has_bootstrap_budget(0));
}
