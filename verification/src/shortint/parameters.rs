//! The parameters of the shortint engine.
use crate::core_crypto::commons::parameters::{
    CiphertextModulus,
    DecompositionBaseLog,
    DecompositionLevelCount,
    GlweDimension,
    LweDimension,
    PolynomialSize,
    StandardDev,
};
use crate::core_crypto::algorithms::decomposition::is_valid_gadget;
use crate::core_crypto::commons::capped::{capped_product, capped_sum, lemma_capped_operations};
use vstd::prelude::*;

verus! {

/// The number of values of the message part of a ciphertext.
#[derive(Clone, Copy, Debug, PartialEq, Eq, Structural)]
pub struct MessageModulus(pub usize);

/// The number of values of the carry part of a ciphertext.
#[derive(Clone, Copy, Debug, PartialEq, Eq, Structural)]
pub struct CarryModulus(pub usize);

/// Whether `n` is a power of two that is at most `2^63`: such are the divisors of `2^63`.
pub open spec fn is_power_of_two(n: int) -> bool {
    n >= 1 && 0x8000_0000_0000_0000int % n == 0
}

/// The options that the engine is configured with.
#[derive(Clone, Copy, Debug, PartialEq, Eq, Structural)]
pub struct Parameters {
    pub lwe_dimension: LweDimension,
    pub glwe_dimension: GlweDimension,
    pub polynomial_size: PolynomialSize,
    pub lwe_modular_std_dev: StandardDev,
    pub glwe_modular_std_dev: StandardDev,
    pub pbs_base_log: DecompositionBaseLog,
    pub pbs_level: DecompositionLevelCount,
    pub ks_base_log: DecompositionBaseLog,
    pub ks_level: DecompositionLevelCount,
    pub message_modulus: MessageModulus,
    pub carry_modulus: CarryModulus,
    pub ciphertext_modulus: CiphertextModulus,
}

impl Parameters {
    /// The product of the message modulus and the carry modulus, as a number.
    pub open spec fn modulus_sup(&self) -> int {
        self.message_modulus.0 * self.carry_modulus.0
    }

    /// The parameters that the engine can work with: dimensions that are not empty, a
    /// polynomial size that is a power of two, moduli whose product leaves the padding bit
    /// free, gadgets that fit in a scalar, and keys and buffers that can be addressed. The
    /// ciphertext modulus is free here: the functions that encrypt ask for the native one.
    pub open spec fn wf(&self) -> bool {
        &&& 1 <= self.lwe_dimension.0 < usize::MAX
        &&& 1 <= self.glwe_dimension.0
        &&& is_power_of_two(self.polynomial_size.0 as int)
        &&& self.polynomial_size.0 <= 0x4000_0000
        &&& (self.glwe_dimension.0 + 1) * self.polynomial_size.0 < usize::MAX
        &&& self.message_modulus.0 >= 1
        &&& self.carry_modulus.0 >= 1
        &&& self.modulus_sup() <= usize::MAX
        &&& self.modulus_sup() <= 0x8000_0000_0000_0000
        &&& is_valid_gadget(self.pbs_base_log.0 as int, self.pbs_level.0 as int)
        &&& is_valid_gadget(self.ks_base_log.0 as int, self.ks_level.0 as int)
        &&& self.lwe_dimension.0 * (self.pbs_level.0 * (self.glwe_dimension.0 + 1) * (
        self.glwe_dimension.0 + 1) * self.polynomial_size.0) <= usize::MAX
        &&& (self.glwe_dimension.0 * self.polynomial_size.0) * self.ks_level.0 * (
        self.lwe_dimension.0 + 1) <= usize::MAX
        &&& 2 * ((self.glwe_dimension.0 + 1) * self.polynomial_size.0) + self.lwe_dimension.0 + 2
            <= usize::MAX
    }

    /// Whether the parameters are well formed: the test of [`Parameters::wf`].
    pub fn is_wf(&self) -> (ok: bool)
        ensures
            ok == self.wf(),
    {
        let n = self.lwe_dimension.0;
        let k = self.glwe_dimension.0;
        let size = self.polynomial_size.0;
        if n < 1 || n == usize::MAX || k < 1 || size < 1 || size > 0x4000_0000 {
            return false;
        }
        if 0x8000_0000_0000_0000u64 % (size as u64) != 0 {
            return false;
        }
        if self.message_modulus.0 < 1 || self.carry_modulus.0 < 1 {
            return false;
        }
        if self.pbs_base_log.0 < 1 || self.pbs_level.0 < 1 || self.ks_base_log.0 < 1
            || self.ks_level.0 < 1 {
            return false;
        }
        let limit = usize::MAX as u128;
        let glwe_size = k as u128 + 1;
        let glwe_len = capped_product(glwe_size, size as u128);
        let modulus_sup = capped_product(
            self.message_modulus.0 as u128,
            self.carry_modulus.0 as u128,
        );
        let pbs_bits = capped_product(self.pbs_base_log.0 as u128, self.pbs_level.0 as u128);
        let ks_bits = capped_product(self.ks_base_log.0 as u128, self.ks_level.0 as u128);
        let pbs_rows = capped_product(self.pbs_level.0 as u128, glwe_size);
        let pbs_polynomials = capped_product(pbs_rows, glwe_size);
        let ggsw_len = capped_product(pbs_polynomials, size as u128);
        let bootstrap_key_len = capped_product(n as u128, ggsw_len);
        let large_dimension = capped_product(k as u128, size as u128);
        let keyswitch_rows = capped_product(large_dimension, self.ks_level.0 as u128);
        let keyswitch_key_len = capped_product(keyswitch_rows, n as u128 + 1);
        let buffers_len = capped_sum(
            capped_sum(capped_product(2, glwe_len), n as u128),
            2,
        );
        proof {
            let l = self.pbs_level.0 as int;
            let g = k + 1;
            lemma_capped_operations(g, size as int);
            lemma_capped_operations(self.message_modulus.0 as int, self.carry_modulus.0 as int);
            lemma_capped_operations(self.pbs_base_log.0 as int, l);
            lemma_capped_operations(self.ks_base_log.0 as int, self.ks_level.0 as int);
            lemma_capped_operations(l, g);
            lemma_capped_operations(l * g, g);
            lemma_capped_operations(l * g * g, size as int);
            lemma_capped_operations(n as int, l * g * g * size);
            lemma_capped_operations(k as int, size as int);
            lemma_capped_operations(k * size, self.ks_level.0 as int);
            lemma_capped_operations((k * size) * self.ks_level.0, n + 1);
            lemma_capped_operations(2, g * size);
            lemma_capped_operations(2 * (g * size), n as int);
            lemma_capped_operations(2 * (g * size) + n, 2);
        }
        glwe_len < limit && modulus_sup <= limit && modulus_sup <= 0x8000_0000_0000_0000
            && pbs_bits <= 63 && ks_bits <= 63 && bootstrap_key_len <= limit && keyswitch_key_len
            <= limit && buffers_len <= limit
    }

    /// The scaling factor of the encoding: `2^63 / (message_modulus * carry_modulus)`.
    pub open spec fn spec_delta(&self) -> u64 {
        (0x8000_0000_0000_0000int / self.modulus_sup()) as u64
    }

    /// The scaling factor of the encoding.
    pub fn delta(&self) -> (delta: u64)
        requires
            self.wf(),
        ensures
            delta == self.spec_delta(),
            delta >= 1,
            delta * self.modulus_sup() <= 0x8000_0000_0000_0000,
            self.modulus_sup() >= 1,
            self.modulus_sup() >= 2 ==> delta <= 0x4000_0000_0000_0000,
    {
        proof {
            lemma_modulus_sup_positive(
                self.message_modulus.0 as int,
                self.carry_modulus.0 as int,
            );
            lemma_delta_bounds(self.modulus_sup());
        }
        let modulus_sup = self.message_modulus.0 * self.carry_modulus.0;
        0x8000_0000_0000_0000u64 / (modulus_sup as u64)
    }

    /// Whether the noise of a fresh encryption always stays under half of the scaling factor,
    /// so that decryption rounds it away.
    pub open spec fn noise_fits(&self) -> bool {
        &&& 3 * self.lwe_modular_std_dev.0 < self.spec_delta() / 2
        &&& 3 * self.glwe_modular_std_dev.0 < self.spec_delta() / 2
    }
}

/// The product of two moduli that are not zero is not zero.
pub proof fn lemma_modulus_sup_positive(message_modulus: int, carry_modulus: int)
    requires
        message_modulus >= 1,
        carry_modulus >= 1,
    ensures
        message_modulus * carry_modulus >= 1,
        message_modulus * carry_modulus >= message_modulus,
{
    assert(message_modulus * carry_modulus >= message_modulus) by (nonlinear_arith)
        requires
            message_modulus >= 1,
            carry_modulus >= 1,
    ;
}

/// The scaling factor is at least one, and all encoded values stay under `2^63`.
pub proof fn lemma_delta_bounds(modulus_sup: int)
    requires
        1 <= modulus_sup <= 0x8000_0000_0000_0000,
    ensures
        1 <= 0x8000_0000_0000_0000int / modulus_sup <= 0x8000_0000_0000_0000,
        (0x8000_0000_0000_0000int / modulus_sup) * modulus_sup <= 0x8000_0000_0000_0000,
        modulus_sup >= 2 ==> 0x8000_0000_0000_0000int / modulus_sup <= 0x4000_0000_0000_0000,
{
    if modulus_sup >= 2 {
        vstd::arithmetic::div_mod::lemma_div_is_ordered_by_denominator(
            0x8000_0000_0000_0000int,
            2,
            modulus_sup,
        );
    }
    let top = 0x8000_0000_0000_0000int;
    vstd::arithmetic::div_mod::lemma_fundamental_div_mod(top, modulus_sup);
    vstd::arithmetic::div_mod::lemma_div_is_ordered(modulus_sup, top, modulus_sup);
    vstd::arithmetic::div_mod::lemma_div_by_self(modulus_sup);
    vstd::arithmetic::div_mod::lemma_div_pos_is_pos(top, modulus_sup);
    vstd::arithmetic::div_mod::lemma_mod_bound(top, modulus_sup);
    vstd::arithmetic::div_mod::lemma_div_is_ordered_by_denominator(top, 1, modulus_sup);
    assert(modulus_sup * (top / modulus_sup) == (top / modulus_sup) * modulus_sup)
        by (nonlinear_arith);
}

} // verus!
