//! The client key of integers in radix representation.
use crate::core_crypto::commons::numeric::{lemma_wrapping_is_torus, torus};
use crate::integer::ciphertext::RadixCiphertext;
use crate::shortint::ciphertext::{Ciphertext, CiphertextView, PBSOrder};
use crate::shortint::client_key::ClientKey;
use crate::shortint::engine::client_side::{decrypted_message_and_carry, is_decryptable};
use crate::shortint::engine::{EngineState, ShortintEngine};
use crate::shortint::public_key::PublicKey;
use vstd::prelude::*;

verus! {

/// The client key of integers of `num_blocks` digits in base `message_modulus`.
#[derive(Debug)]
pub struct RadixClientKey {
    pub key: ClientKey,
    pub num_blocks: usize,
}

/// What is left of `message` above its first `count` digits in base `base`.
pub open spec fn radix_rest(message: u64, base: int, count: int) -> int
    decreases count,
{
    if count <= 0 {
        message as int
    } else {
        radix_rest(message, base, count - 1) / base
    }
}

/// The digit of index `index` of `message` in base `base`.
pub open spec fn radix_digit(message: u64, base: int, index: int) -> u64 {
    (radix_rest(message, base, index) % base) as u64
}

/// The weight of the block of index `index`, on the torus: `base^index`.
pub open spec fn radix_weight(base: int, index: int) -> u64
    decreases index,
{
    if index <= 0 {
        1
    } else {
        torus(radix_weight(base, index - 1) * base)
    }
}

/// The integer that the first `count` values of blocks stand for, modulo `2^64`.
pub open spec fn radix_value(values: Seq<u64>, base: int, count: int) -> u64
    decreases count,
{
    if count <= 0 {
        0
    } else {
        torus(
            radix_value(values, base, count - 1) + values[count - 1] * radix_weight(
                base,
                count - 1,
            ),
        )
    }
}

impl RadixClientKey {
    /// The blocks that `encrypt` gives for an integer when the engine is in the state
    /// `state`: the block of index `i` is the encryption of the digit of index `i`, after
    /// `i` encryptions.
    pub open spec fn encrypted(
        &self,
        state: EngineState,
        message: u64,
        order: PBSOrder,
    ) -> Seq<CiphertextView> {
        Seq::new(
            self.num_blocks as nat,
            |i: int|
                state.after_encryptions(
                    self.key.spec_encryption_key(order).len() as int,
                    i,
                ).encryption(
                    self.key,
                    crate::shortint::engine::client_side::encoded(
                        self.key.parameters,
                        radix_digit(message, self.key.parameters.message_modulus.0 as int, i),
                        self.key.parameters.message_modulus.0 as int,
                    ),
                    self.key.parameters.message_modulus.0 - 1,
                    self.key.parameters.message_modulus.0 as int,
                    self.key.parameters.carry_modulus.0 as int,
                    order,
                ),
        )
    }

    /// The blocks that [`RadixClientKey::encrypt_with_public_key`] gives for an integer when
    /// the engine is in the state `state`: the block of index `i` is the encryption with the
    /// public key of the digit of index `i`, after the selection bits of `i` encryptions.
    pub open spec fn encrypted_with_public_key(
        state: EngineState,
        public_key: PublicKey,
        message: u64,
        num_blocks: int,
    ) -> Seq<CiphertextView> {
        Seq::new(
            num_blocks as nat,
            |i: int|
                state.after_key_generation(
                    i * public_key.spec_zero_encryption_count(),
                ).public_key_encryption(
                    public_key,
                    radix_digit(message, public_key.parameters.message_modulus.0 as int, i),
                ),
        )
    }

    /// What each block decrypts to, message and carry together.
    pub open spec fn decrypted_blocks(&self, blocks: Seq<CiphertextView>) -> Seq<u64> {
        Seq::new(blocks.len(), |i: int| decrypted_message_and_carry(self.key, blocks[i]))
    }

    /// The integer that blocks decrypt to: the sum, modulo `2^64`, of what each block
    /// decrypts to times the weight of the block.
    pub open spec fn decrypted(&self, blocks: Seq<CiphertextView>) -> u64 {
        radix_value(
            self.decrypted_blocks(blocks),
            self.key.parameters.message_modulus.0 as int,
            blocks.len() as int,
        )
    }

    /// Encrypt an integer: one block for each of its first `num_blocks` digits in base
    /// `message_modulus`, from the least significant, each encrypted in its turn by the
    /// engine.
    ///
    /// The ciphertext modulus must be the native one: the scaling factor of the encoding is
    /// a fraction of `2^64`, and no encoding is defined for another modulus.
    pub fn encrypt(&self, engine: &mut ShortintEngine, message: u64, order: PBSOrder) -> (result:
        RadixCiphertext)
        requires
            self.key.wf(),
            self.key.parameters.ciphertext_modulus.is_native_modulus(),
        ensures
            result@ == self.encrypted(old(engine)@, message, order),
            result.blocks@.len() == self.num_blocks,
            forall|i: int| 0 <= i < self.num_blocks ==> (#[trigger] result.blocks@[i]).wf(),
            final(engine)@ == old(engine)@.after_encryptions(
                self.key.spec_encryption_key(order).len() as int,
                self.num_blocks as int,
            ),
    {
        let base = self.key.parameters.message_modulus.0 as u64;
        let ghost dimension = self.key.spec_encryption_key(order).len() as int;
        let mut blocks: Vec<Ciphertext> = Vec::with_capacity(self.num_blocks);
        let mut rest = message;
        let mut i: usize = 0;
        proof {
            crate::core_crypto::commons::generators::lemma_encryption_generator_advanced_twice(
                old(engine).encryption_generator,
                0,
                0,
                0,
                0,
                self.key.parameters.lwe_modular_std_dev,
            );
            assert(0 * dimension == 0) by (nonlinear_arith);
        }
        while i < self.num_blocks
            invariant
                self.key.wf(),
                self.key.parameters.ciphertext_modulus.is_native_modulus(),
                base == self.key.parameters.message_modulus.0,
                dimension == self.key.spec_encryption_key(order).len(),
                i <= self.num_blocks,
                blocks@.len() == i,
                rest == radix_rest(message, base as int, i as int),
                engine@ == old(engine)@.after_encryptions(dimension, i as int),
                forall|j: int|
                    0 <= j < i ==> {
                        &&& (#[trigger] blocks@[j]).wf()
                        &&& blocks@[j]@ == old(engine)@.after_encryptions(dimension, j).encryption(
                            self.key,
                            crate::shortint::engine::client_side::encoded(
                                self.key.parameters,
                                radix_digit(message, base as int, j),
                                base as int,
                            ),
                            base - 1,
                            base as int,
                            self.key.parameters.carry_modulus.0 as int,
                            order,
                        )
                    },
            decreases self.num_blocks - i,
        {
            let digit = rest % base;
            proof {
                vstd::arithmetic::div_mod::lemma_mod_twice(rest as int, base as int);
                crate::core_crypto::commons::generators::lemma_encryption_generator_advanced_twice(
                    old(engine).encryption_generator,
                    i * dimension,
                    i as int,
                    dimension,
                    1,
                    self.key.parameters.lwe_modular_std_dev,
                );
                assert((i + 1) * dimension == i * dimension + dimension) by (nonlinear_arith);
            }
            let block = engine.encrypt(&self.key, digit, order).unwrap();
            blocks.push(block);
            rest = rest / base;
            i += 1;
        }
        let result = RadixCiphertext { blocks };
        assert(result@ =~= self.encrypted(old(engine)@, message, order));
        result
    }

    /// Decrypt an integer: the sum, modulo `2^64`, of what each block decrypts to, message
    /// and carry together, times the weight of the block.
    pub fn decrypt(&self, engine: &mut ShortintEngine, ctxt: &RadixCiphertext) -> (result: u64)
        requires
            self.key.wf(),
            forall|i: int|
                0 <= i < ctxt.blocks@.len() ==> is_decryptable(
                    self.key,
                    (#[trigger] ctxt.blocks@[i])@,
                ),
        ensures
            result == self.decrypted(ctxt@),
            final(engine)@ == old(engine)@,
    {
        let base = self.key.parameters.message_modulus.0 as u64;
        let ghost values = self.decrypted_blocks(ctxt@);
        let n = ctxt.blocks.len();
        let mut result: u64 = 0;
        let mut shift: u64 = 1;
        let mut i: usize = 0;
        while i < n
            invariant
                self.key.wf(),
                base == self.key.parameters.message_modulus.0,
                n == ctxt.blocks@.len(),
                i <= n,
                engine@ == old(engine)@,
                values == self.decrypted_blocks(ctxt@),
                forall|j: int|
                    0 <= j < n ==> is_decryptable(self.key, (#[trigger] ctxt.blocks@[j])@),
                result == radix_value(values, base as int, i as int),
                shift == radix_weight(base as int, i as int),
            decreases n - i,
        {
            let block_value = engine.decrypt_message_and_carry(&self.key, &ctxt.blocks[i]).unwrap();
            proof {
                lemma_wrapping_is_torus(block_value, shift);
                lemma_wrapping_is_torus(result, block_value.wrapping_mul(shift));
                lemma_wrapping_is_torus(shift, base);
                crate::core_crypto::commons::numeric::lemma_torus_absorbs(
                    result as int,
                    block_value * shift,
                );
            }
            result = result.wrapping_add(block_value.wrapping_mul(shift));
            shift = shift.wrapping_mul(base);
            i += 1;
        }
        result
    }

    /// Encrypt an integer with a public key: one block for each of its first `num_blocks`
    /// digits in base `message_modulus`, from the least significant.
    pub fn encrypt_with_public_key(
        engine: &mut ShortintEngine,
        public_key: &PublicKey,
        message: u64,
        num_blocks: usize,
    ) -> (result: RadixCiphertext)
        requires
            public_key.wf(),
        ensures
            result@ == Self::encrypted_with_public_key(
                old(engine)@,
                *public_key,
                message,
                num_blocks as int,
            ),
            result.blocks@.len() == num_blocks,
            forall|i: int| 0 <= i < num_blocks ==> (#[trigger] result.blocks@[i]).wf(),
            final(engine)@ == old(engine)@.after_key_generation(
                num_blocks * public_key.spec_zero_encryption_count(),
            ),
    {
        let base = public_key.parameters.message_modulus.0 as u64;
        let ghost count = public_key.spec_zero_encryption_count();
        let mut blocks: Vec<Ciphertext> = Vec::with_capacity(num_blocks);
        let mut rest = message;
        let mut i: usize = 0;
        proof {
            crate::core_crypto::commons::generators::lemma_advanced_by_zero(
                old(engine).secret_generator.generator,
            );
            assert(0 * count == 0) by (nonlinear_arith);
        }
        while i < num_blocks
            invariant
                public_key.wf(),
                base == public_key.parameters.message_modulus.0,
                count == public_key.spec_zero_encryption_count(),
                i <= num_blocks,
                blocks@.len() == i,
                rest == radix_rest(message, base as int, i as int),
                engine@ == old(engine)@.after_key_generation(i * count),
                forall|j: int|
                    0 <= j < i ==> {
                        &&& (#[trigger] blocks@[j]).wf()
                        &&& blocks@[j]@ == old(engine)@.after_key_generation(
                            j * count,
                        ).public_key_encryption(*public_key, radix_digit(message, base as int, j))
                    },
            decreases num_blocks - i,
        {
            let digit = rest % base;
            proof {
                crate::core_crypto::commons::generators::lemma_advanced_twice(
                    old(engine).secret_generator.generator,
                    i * count,
                    count,
                );
                assert((i + 1) * count == i * count + count) by (nonlinear_arith);
            }
            let block = engine.encrypt_with_public_key(public_key, digit).unwrap();
            blocks.push(block);
            rest = rest / base;
            i += 1;
        }
        let result = RadixCiphertext { blocks };
        assert(result@ =~= Self::encrypted_with_public_key(
            old(engine)@,
            *public_key,
            message,
            num_blocks as int,
        ));
        result
    }
}

} // verus!
