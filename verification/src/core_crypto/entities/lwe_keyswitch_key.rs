//! LWE key switching keys and their seeded form.
use crate::core_crypto::algorithms::decomposition::is_valid_gadget;
use crate::core_crypto::algorithms::seeded_decompression::{decompress_rows, with_masks};
use crate::core_crypto::commons::generators::CompressionSeed;
use crate::core_crypto::commons::parameters::{
    CiphertextModulus,
    DecompositionBaseLog,
    DecompositionLevelCount,
    LweDimension,
    LweSize,
};
use vstd::prelude::*;

verus! {

/// An LWE key switching key: for each bit of the input key, and for each level from the most
/// significant down, an LWE ciphertext under the output key.
#[derive(Clone, Debug)]
pub struct LweKeyswitchKey {
    pub data: Vec<u64>,
    pub decomp_base_log: DecompositionBaseLog,
    pub decomp_level_count: DecompositionLevelCount,
    pub output_lwe_size: LweSize,
    pub ciphertext_modulus: CiphertextModulus,
}

/// A key switching key that owns its scalars.
pub type LweKeyswitchKeyOwned = LweKeyswitchKey;

impl View for LweKeyswitchKey {
    type V = Seq<u64>;

    open spec fn view(&self) -> Seq<u64> {
        self.data@
    }
}

impl LweKeyswitchKey {
    /// The number of scalars that the key holds for each bit of the input key.
    pub open spec fn spec_block_size(&self) -> int {
        self.decomp_level_count.0 * self.output_lwe_size.0
    }

    /// The dimension of the input key, as a number.
    pub open spec fn spec_input_key_lwe_dimension(&self) -> int {
        self@.len() as int / self.spec_block_size()
    }

    /// The key holds whole blocks of ciphertexts that are not empty, for a valid gadget.
    pub open spec fn wf(&self) -> bool {
        &&& self.output_lwe_size.0 >= 1
        &&& is_valid_gadget(self.decomp_base_log.0 as int, self.decomp_level_count.0 as int)
        &&& self.spec_block_size() <= usize::MAX
        &&& self@.len() as int % self.spec_block_size() == 0
    }

    /// The dimension of the input key.
    pub fn input_key_lwe_dimension(&self) -> (dimension: LweDimension)
        requires
            self.wf(),
        ensures
            dimension.0 == self.spec_input_key_lwe_dimension(),
            self@.len() == dimension.0 * self.decomp_level_count.0 * self.output_lwe_size.0,
    {
        proof {
            lemma_block_size_positive(
                self.decomp_level_count.0 as int,
                self.output_lwe_size.0 as int,
            );
            vstd::arithmetic::div_mod::lemma_fundamental_div_mod(
                self@.len() as int,
                self.spec_block_size(),
            );
            let d = self@.len() as int / self.spec_block_size();
            assert(self.spec_block_size() * d == d * self.decomp_level_count.0
                * self.output_lwe_size.0) by (nonlinear_arith)
                requires
                    self.spec_block_size() == self.decomp_level_count.0 * self.output_lwe_size.0,
            ;
        }
        LweDimension(self.data.len() / (self.decomp_level_count.0 * self.output_lwe_size.0))
    }

    /// The size of the ciphertexts under the output key.
    pub fn output_lwe_size(&self) -> (size: LweSize)
        ensures
            size == self.output_lwe_size,
    {
        self.output_lwe_size
    }
}

/// A block of levels of ciphertexts that are not empty is not empty.
pub proof fn lemma_block_size_positive(levels: int, size: int)
    requires
        levels >= 1,
        size >= 1,
    ensures
        levels * size >= 1,
        levels * size >= levels,
{
    assert(levels * size >= levels) by (nonlinear_arith)
        requires
            levels >= 1,
            size >= 1,
    ;
}

/// A seeded LWE key switching key: the bodies of the rows, and the seed of their masks.
#[derive(Clone, Debug)]
pub struct SeededLweKeyswitchKey {
    pub data: Vec<u64>,
    pub decomp_base_log: DecompositionBaseLog,
    pub decomp_level_count: DecompositionLevelCount,
    pub output_lwe_size: LweSize,
    pub compression_seed: CompressionSeed,
    pub ciphertext_modulus: CiphertextModulus,
}

/// A seeded key switching key that owns its scalars.
pub type SeededLweKeyswitchKeyOwned = SeededLweKeyswitchKey;

impl View for SeededLweKeyswitchKey {
    type V = Seq<u64>;

    open spec fn view(&self) -> Seq<u64> {
        self.data@
    }
}

impl SeededLweKeyswitchKey {
    /// The key holds the bodies of whole blocks, for a valid gadget, and the key that it
    /// stands for can be addressed.
    pub open spec fn wf(&self) -> bool {
        &&& self.output_lwe_size.0 >= 1
        &&& is_valid_gadget(self.decomp_base_log.0 as int, self.decomp_level_count.0 as int)
        &&& self@.len() as int % (self.decomp_level_count.0 as int) == 0
        &&& self.decomp_level_count.0 * self.output_lwe_size.0 <= usize::MAX
    }

    /// The scalars of the key that this one stands for.
    pub open spec fn decompressed(&self) -> Seq<u64> {
        with_masks(
            self@,
            self.compression_seed.seed,
            self.output_lwe_size.0 - 1,
            1,
            self@.len() as int,
        )
    }

    /// Generate the masks again and give the whole key.
    pub fn decompress_into_lwe_keyswitch_key(self) -> (key: LweKeyswitchKeyOwned)
        requires
            self.wf(),
        ensures
            key@ == self.decompressed(),
            key.decomp_base_log == self.decomp_base_log,
            key.decomp_level_count == self.decomp_level_count,
            key.output_lwe_size == self.output_lwe_size,
            key.ciphertext_modulus == self.ciphertext_modulus,
    {
        let rows = self.data.len();
        assert(rows * 1 == rows);
        let data = decompress_rows(
            self.data.as_slice(),
            self.compression_seed.seed,
            self.output_lwe_size.0 - 1,
            1,
            rows,
        );
        LweKeyswitchKey {
            data,
            decomp_base_log: self.decomp_base_log,
            decomp_level_count: self.decomp_level_count,
            output_lwe_size: self.output_lwe_size,
            ciphertext_modulus: self.ciphertext_modulus,
        }
    }
}

} // verus!
