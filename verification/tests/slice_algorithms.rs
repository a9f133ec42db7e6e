//! Wrapping arithmetic on slices.
use tfhe::core_crypto::algorithms::slice_algorithms::{
    slice_wrapping_add, slice_wrapping_add_assign, slice_wrapping_add_scalar_mul_assign,
    slice_wrapping_dot_product, slice_wrapping_dot_product_custom_modulus,
    slice_wrapping_opposite_assign_custom_mod, slice_wrapping_opposite_assign_native_mod,
    slice_wrapping_rem_assign, slice_wrapping_scalar_mul_assign, slice_wrapping_sub,
    slice_wrapping_sub_assign, slice_wrapping_sub_scalar_mul_assign,
    slice_wrapping_sub_scalar_mul_assign_custom_modulus,
};

#[test]
fn dot_product_wraps() {
    let first = vec![1u8, 2, 3, 4, 5, 6];
    let second = vec![255u8, 255, 255, 1, 2, 3];
    assert_eq!(slice_wrapping_dot_product(&first, &second), 26);
    assert_eq!(slice_wrapping_dot_product::<u64>(&[], &[]), 0);
    assert_eq!(slice_wrapping_dot_product(&[u64::MAX, 2], &[2, 3]), 4);
    assert_eq!(slice_wrapping_dot_product(&[u128::MAX], &[u128::MAX]), 1);
    assert_eq!(slice_wrapping_dot_product(&[0x8000_0000u32, 3], &[2, 5]), 15);
}

#[test]
fn dot_product_custom_modulus_reduces_every_step() {
    // 3 * 5 = 15 -> 1, 6 * 4 = 24 -> 3, 1 * 1 = 1: (1 + 3 + 1) mod 7 = 5
    assert_eq!(slice_wrapping_dot_product_custom_modulus(&[3u64, 6, 1], &[5, 4, 1], 7), 5);
    assert_eq!(slice_wrapping_dot_product_custom_modulus(&[10u128, 20], &[30, 40], 97), 33);
    assert_eq!(slice_wrapping_dot_product_custom_modulus::<u32>(&[], &[], 5), 0);
}

#[test]
fn add_wraps() {
    let first = vec![1u8, 2, 3, 4, 5, 6];
    let second = vec![255u8, 255, 255, 1, 2, 3];
    let mut add = vec![0_u8; 6];
    slice_wrapping_add(&mut add, &first, &second);
    assert_eq!(&add, &[0u8, 1, 2, 5, 7, 9]);
}

#[test]
fn add_assign_wraps() {
    let mut first = vec![1u8, 2, 3, 4, 5, 6];
    let second = vec![255u8, 255, 255, 1, 2, 3];
    slice_wrapping_add_assign(&mut first, &second);
    assert_eq!(&first, &[0u8, 1, 2, 5, 7, 9]);
}

#[test]
fn add_scalar_mul_assign_wraps() {
    let mut first = vec![1u8, 2, 3, 4, 5, 6];
    let second = vec![255u8, 255, 255, 1, 2, 3];
    slice_wrapping_add_scalar_mul_assign(&mut first, &second, 4u8);
    assert_eq!(&first, &[253u8, 254, 255, 8, 13, 18]);
}

#[test]
fn sub_wraps() {
    let first = vec![1u8, 2, 3, 4, 5, 6];
    let second = vec![255u8, 255, 255, 1, 2, 3];
    let mut sub = vec![0_u8; 6];
    slice_wrapping_sub(&mut sub, &first, &second);
    assert_eq!(&sub, &[2, 3, 4, 3, 3, 3]);
}

#[test]
fn sub_assign_wraps() {
    let mut first = vec![1u8, 2, 3, 4, 5, 6];
    let second = vec![255u8, 255, 255, 1, 2, 3];
    slice_wrapping_sub_assign(&mut first, &second);
    assert_eq!(&first, &[2u8, 3, 4, 3, 3, 3]);
}

#[test]
fn sub_scalar_mul_assign_wraps() {
    let mut first = vec![1u8, 2, 3, 4, 5, 6];
    let second = vec![255u8, 255, 255, 1, 2, 3];
    slice_wrapping_sub_scalar_mul_assign(&mut first, &second, 4u8);
    assert_eq!(&first, &[5u8, 6, 7, 0, 253, 250]);
}

#[test]
fn sub_scalar_mul_assign_custom_modulus_reduces_every_step() {
    // 10 - (3 * 4 mod 7) = 5 -> 5; 2 - (6 * 4 mod 7) = 2 - 3 wraps to 2^64 - 1, mod 7 = 1
    let mut first = vec![10u64, 2];
    slice_wrapping_sub_scalar_mul_assign_custom_modulus(&mut first, &[3, 6], 4, 7);
    assert_eq!(first, vec![5, (u64::MAX % 7)]);
}

#[test]
fn opposite_assign_native_mod_wraps() {
    let mut first = vec![1u8, 2, 3, 4, 5, 6];
    slice_wrapping_opposite_assign_native_mod(&mut first);
    assert_eq!(&first, &[255u8, 254, 253, 252, 251, 250]);
    let mut zero = vec![0u64];
    slice_wrapping_opposite_assign_native_mod(&mut zero);
    assert_eq!(zero, vec![0]);
}

#[test]
fn opposite_assign_custom_mod_is_the_modular_opposite() {
    let mut values = vec![0u64, 1, 2, 6, 7, 9];
    slice_wrapping_opposite_assign_custom_mod(&mut values, 7);
    assert_eq!(values, vec![0, 6, 5, 1, 0, 5]);
    for (x, y) in [0u64, 1, 2, 6, 7, 9].iter().zip(values.iter()) {
        assert_eq!((x + y) % 7, 0);
    }
}

#[test]
fn scalar_mul_assign_wraps() {
    let mut first = vec![1u8, 2, 3, 4, 5, 6];
    slice_wrapping_scalar_mul_assign(&mut first, 252);
    assert_eq!(&first, &[252, 248, 244, 240, 236, 232]);
}

#[test]
fn rem_assign_reduces() {
    let mut first = vec![1u8, 2, 3, 4, 5, 6];
    slice_wrapping_rem_assign(&mut first, 3);
    assert_eq!(&first, &[1, 2, 0, 1, 2, 0]);
}
