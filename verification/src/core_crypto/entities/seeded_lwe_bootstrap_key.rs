//! Seeded LWE bootstrap keys.
use crate::core_crypto::algorithms::decomposition::is_valid_gadget;
use crate::core_crypto::algorithms::seeded_decompression::{
    decompress_seeded_lwe_bootstrap_key,
    with_masks,
};
use crate::core_crypto::commons::capped::{capped_product, lemma_capped_operations};
use crate::core_crypto::commons::generators::CompressionSeed;
use crate::core_crypto::commons::numeric::filled_vec;
use crate::core_crypto::commons::parameters::{
    CiphertextModulus,
    DecompositionBaseLog,
    DecompositionLevelCount,
    GlweSize,
    LweDimension,
    PolynomialSize,
};
use crate::core_crypto::commons::traits::{Container, ContainerMut};
use crate::core_crypto::entities::lwe_bootstrap_key::{
    checked_size,
    ggsw_ciphertext_size,
    lemma_product_regrouped,
    LweBootstrapKey,
    LweBootstrapKeyOwned,
};
use vstd::prelude::*;

verus! {

/// The number of scalars of one seeded GGSW ciphertext: `level_count * glwe_size` rows, each
/// the body polynomial of a GLWE ciphertext.
pub open spec fn seeded_ggsw_ciphertext_size(
    glwe_size: GlweSize,
    polynomial_size: PolynomialSize,
    decomp_level_count: DecompositionLevelCount,
) -> int {
    decomp_level_count.0 * glwe_size.0 * polynomial_size.0
}

/// A seeded LWE bootstrap key: a list of seeded GGSW ciphertexts, one for each bit of the
/// input LWE key. It holds the body of every row, in the order of the rows of the bootstrap
/// key that it stands for, and the seed of the stream that gives their masks.
#[derive(Clone, Debug)]
pub struct SeededLweBootstrapKey<C: Container> {
    pub data: C,
    pub glwe_size: GlweSize,
    pub polynomial_size: PolynomialSize,
    pub decomp_base_log: DecompositionBaseLog,
    pub decomp_level_count: DecompositionLevelCount,
    pub compression_seed: CompressionSeed,
    pub ciphertext_modulus: CiphertextModulus,
}

/// A seeded bootstrap key that owns its scalars.
pub type SeededLweBootstrapKeyOwned = SeededLweBootstrapKey<Vec<u64>>;

impl<C: Container> View for SeededLweBootstrapKey<C> {
    type V = Seq<u64>;

    open spec fn view(&self) -> Seq<u64> {
        self.data.elements()
    }
}

/// Whether a container of `len` scalars holds whole seeded GGSW ciphertexts of a shape that
/// is not empty and can be addressed.
pub open spec fn is_seeded_ggsw_list(
    len: int,
    glwe_size: GlweSize,
    polynomial_size: PolynomialSize,
    decomp_level_count: DecompositionLevelCount,
) -> bool {
    &&& glwe_size.0 >= 1
    &&& polynomial_size.0 >= 1
    &&& decomp_level_count.0 >= 1
    &&& seeded_ggsw_ciphertext_size(glwe_size, polynomial_size, decomp_level_count) <= usize::MAX
    &&& len % seeded_ggsw_ciphertext_size(glwe_size, polynomial_size, decomp_level_count) == 0
}

/// Whether a container of `len` scalars holds whole seeded GGSW ciphertexts of a shape that
/// is not empty and can be addressed: the test of [`is_seeded_ggsw_list`].
pub fn holds_seeded_ggsw_list(
    len: usize,
    glwe_size: GlweSize,
    polynomial_size: PolynomialSize,
    decomp_level_count: DecompositionLevelCount,
) -> (ok: bool)
    ensures
        ok == is_seeded_ggsw_list(len as int, glwe_size, polynomial_size, decomp_level_count),
{
    if glwe_size.0 < 1 || polynomial_size.0 < 1 || decomp_level_count.0 < 1 {
        return false;
    }
    let rows = capped_product(decomp_level_count.0 as u128, glwe_size.0 as u128);
    let size = capped_product(rows, polynomial_size.0 as u128);
    proof {
        lemma_capped_operations(decomp_level_count.0 as int, glwe_size.0 as int);
        lemma_capped_operations(
            decomp_level_count.0 * glwe_size.0,
            polynomial_size.0 as int,
        );
        assert(decomp_level_count.0 * glwe_size.0 * polynomial_size.0 >= 1) by (nonlinear_arith)
            requires
                decomp_level_count.0 >= 1,
                glwe_size.0 >= 1,
                polynomial_size.0 >= 1,
        ;
    }
    size <= usize::MAX as u128 && (len as u128) % size == 0
}

impl<C: Container> SeededLweBootstrapKey<C> {
    /// The number of scalars of each seeded GGSW ciphertext.
    pub open spec fn spec_ggsw_size(&self) -> int {
        seeded_ggsw_ciphertext_size(self.glwe_size, self.polynomial_size, self.decomp_level_count)
    }

    /// The number of seeded GGSW ciphertexts, which is the dimension of the input key.
    pub open spec fn spec_input_lwe_dimension(&self) -> int {
        self@.len() as int / self.spec_ggsw_size()
    }

    /// The key holds whole seeded GGSW ciphertexts of a shape that is not empty.
    pub open spec fn wf(&self) -> bool {
        is_seeded_ggsw_list(
            self@.len() as int,
            self.glwe_size,
            self.polynomial_size,
            self.decomp_level_count,
        )
    }

    /// The scalars of the bootstrap key that this one stands for: every row is its mask,
    /// generated from the seed, followed by its body.
    pub open spec fn decompressed(&self) -> Seq<u64> {
        with_masks(
            self@,
            self.compression_seed.seed,
            (self.glwe_size.0 - 1) * self.polynomial_size.0,
            self.polynomial_size.0 as int,
            self@.len() as int / self.polynomial_size.0 as int,
        )
    }

    /// Wrap a container that holds the bodies of a list of seeded GGSW ciphertexts.
    pub fn from_container(
        container: C,
        glwe_size: GlweSize,
        polynomial_size: PolynomialSize,
        decomp_base_log: DecompositionBaseLog,
        decomp_level_count: DecompositionLevelCount,
        compression_seed: CompressionSeed,
        ciphertext_modulus: CiphertextModulus,
    ) -> (key: SeededLweBootstrapKey<C>)
        requires
            is_seeded_ggsw_list(
                container.elements().len() as int,
                glwe_size,
                polynomial_size,
                decomp_level_count,
            ),
        ensures
            key.data == container,
            key.glwe_size == glwe_size,
            key.polynomial_size == polynomial_size,
            key.decomp_base_log == decomp_base_log,
            key.decomp_level_count == decomp_level_count,
            key.compression_seed == compression_seed,
            key.ciphertext_modulus == ciphertext_modulus,
            key.wf(),
    {
        SeededLweBootstrapKey {
            data: container,
            glwe_size,
            polynomial_size,
            decomp_base_log,
            decomp_level_count,
            compression_seed,
            ciphertext_modulus,
        }
    }

    /// The dimension of the input LWE key: the number of seeded GGSW ciphertexts.
    pub fn input_lwe_dimension(&self) -> (dimension: LweDimension)
        requires
            self.wf(),
        ensures
            dimension.0 == self.spec_input_lwe_dimension(),
    {
        proof {
            crate::core_crypto::entities::lwe_bootstrap_key::lemma_ggsw_size_positive(
                self.glwe_size,
                self.polynomial_size,
                self.decomp_level_count,
            );
        }
        let ggsw_size = checked_size(
            1,
            1,
            self.decomp_level_count.0,
            self.glwe_size.0,
            self.polynomial_size.0,
        );
        LweDimension(self.data.container_len() / ggsw_size)
    }

    /// The dimension of the output LWE key: the GLWE key read as an LWE key.
    pub fn output_lwe_dimension(&self) -> (dimension: LweDimension)
        requires
            self.wf(),
        ensures
            dimension.0 == (self.glwe_size.0 - 1) * self.polynomial_size.0,
    {
        proof {
            lemma_seeded_sizes(self.glwe_size, self.polynomial_size, self.decomp_level_count);
        }
        LweDimension((self.glwe_size.0 - 1) * self.polynomial_size.0)
    }

    /// The number of polynomials of the GLWE ciphertexts.
    pub fn glwe_size(&self) -> (size: GlweSize)
        ensures
            size == self.glwe_size,
    {
        self.glwe_size
    }

    /// The number of coefficients of the polynomials.
    pub fn polynomial_size(&self) -> (size: PolynomialSize)
        ensures
            size == self.polynomial_size,
    {
        self.polynomial_size
    }

    /// The logarithm of the base of the gadget.
    pub fn decomposition_base_log(&self) -> (base_log: DecompositionBaseLog)
        ensures
            base_log == self.decomp_base_log,
    {
        self.decomp_base_log
    }

    /// The number of levels of the gadget.
    pub fn decomposition_level_count(&self) -> (level_count: DecompositionLevelCount)
        ensures
            level_count == self.decomp_level_count,
    {
        self.decomp_level_count
    }

    /// The seed of the masks.
    pub fn compression_seed(&self) -> (seed: CompressionSeed)
        ensures
            seed == self.compression_seed,
    {
        self.compression_seed
    }

    /// The modulus of the scalars.
    pub fn ciphertext_modulus(&self) -> (modulus: CiphertextModulus)
        ensures
            modulus == self.ciphertext_modulus,
    {
        self.ciphertext_modulus
    }

    /// Consume the key and give its container back.
    pub fn into_container(self) -> (container: C)
        ensures
            container == self.data,
    {
        self.data
    }

    /// The bootstrap key that a well formed seeded key stands for holds one GGSW ciphertext
    /// for each seeded one.
    pub proof fn lemma_decompressed_len(&self)
        requires
            self.wf(),
        ensures
            self.decompressed().len() == self.spec_input_lwe_dimension() * ggsw_ciphertext_size(
                self.glwe_size,
                self.polynomial_size,
                self.decomp_level_count,
            ),
            ggsw_ciphertext_size(self.glwe_size, self.polynomial_size, self.decomp_level_count)
                >= 1,
            self.decompressed().len() as int % ggsw_ciphertext_size(
                self.glwe_size,
                self.polynomial_size,
                self.decomp_level_count,
            ) == 0,
            self.spec_input_lwe_dimension() >= 0,
    {
        let n = self.spec_input_lwe_dimension();
        let l = self.decomp_level_count.0 as int;
        let g = self.glwe_size.0 as int;
        let size = self.polynomial_size.0 as int;
        let len = self@.len() as int;
        let unit = l * g * size;
        lemma_seeded_sizes(self.glwe_size, self.polynomial_size, self.decomp_level_count);
        crate::core_crypto::entities::lwe_bootstrap_key::lemma_ggsw_size_positive(
            self.glwe_size,
            self.polynomial_size,
            self.decomp_level_count,
        );
        assert(unit >= 1) by (nonlinear_arith)
            requires
                unit == l * g * size,
                l >= 1,
                g >= 1,
                size >= 1,
        ;
        assert(l * g >= 1) by (nonlinear_arith)
            requires
                l >= 1,
                g >= 1,
        ;
        vstd::arithmetic::div_mod::lemma_fundamental_div_mod(len, unit);
        vstd::arithmetic::div_mod::lemma_div_pos_is_pos(len, unit);
        assert(len == n * unit) by (nonlinear_arith)
            requires
                len == unit * n + 0,
        ;
        lemma_whole_polynomials(len, size, l * g);
        let rows = len / size;
        assert(rows == n * (l * g)) by {
            assert(n * unit == (n * (l * g)) * size) by (nonlinear_arith)
                requires
                    unit == l * g * size,
            ;
            vstd::arithmetic::div_mod::lemma_div_multiples_vanish(n * (l * g), size);
            assert(size * (n * (l * g)) == (n * (l * g)) * size) by (nonlinear_arith);
        }
        assert(rows >= 0) by (nonlinear_arith)
            requires
                rows == n * (l * g),
                n >= 0,
                l >= 1,
                g >= 1,
        ;
        assert((g - 1) * size >= 0) by (nonlinear_arith)
            requires
                g >= 1,
                size >= 1,
        ;
        crate::core_crypto::algorithms::seeded_decompression::lemma_with_masks_len(
            self@,
            self.compression_seed.seed,
            (g - 1) * size,
            size,
            rows,
        );
        let ggsw = l * g * g * size;
        assert(rows * ((g - 1) * size + size) == n * ggsw) by (nonlinear_arith)
            requires
                rows == n * (l * g),
                ggsw == l * g * g * size,
        ;
        vstd::arithmetic::div_mod::lemma_mod_multiples_basic(n, ggsw);
    }

    /// Consume the key and decompress it into a bootstrap key: the masks of the rows are
    /// generated again from the seed. The bootstrap key must fit in memory. It holds one
    /// GGSW ciphertext for each seeded one, and it is well formed when its shape is one of
    /// bootstrap keys: at least two polynomials in a GLWE ciphertext, and a valid gadget.
    pub fn decompress_into_lwe_bootstrap_key(self) -> (key: LweBootstrapKeyOwned)
        requires
            self.wf(),
            self.spec_input_lwe_dimension() * ggsw_ciphertext_size(
                self.glwe_size,
                self.polynomial_size,
                self.decomp_level_count,
            ) <= usize::MAX,
        ensures
            key@ == self.decompressed(),
            key@.len() == self.spec_input_lwe_dimension() * ggsw_ciphertext_size(
                self.glwe_size,
                self.polynomial_size,
                self.decomp_level_count,
            ),
            key.glwe_size == self.glwe_size,
            key.polynomial_size == self.polynomial_size,
            key.decomp_base_log == self.decomp_base_log,
            key.decomp_level_count == self.decomp_level_count,
            key.ciphertext_modulus == self.ciphertext_modulus,
            key.wf() == (self.glwe_size.0 >= 2 && is_valid_gadget(
                self.decomp_base_log.0 as int,
                self.decomp_level_count.0 as int,
            ) && ggsw_ciphertext_size(self.glwe_size, self.polynomial_size, self.decomp_level_count)
                <= usize::MAX && self.glwe_size.0 * self.polynomial_size.0 < usize::MAX),
    {
        proof {
            self.lemma_decompressed_len();
        }
        let mut decompressed_bsk = LweBootstrapKey::new(
            0,
            self.glwe_size,
            self.polynomial_size,
            self.decomp_base_log,
            self.decomp_level_count,
            self.input_lwe_dimension(),
            self.ciphertext_modulus,
        );
        decompress_seeded_lwe_bootstrap_key(&mut decompressed_bsk, &self);
        decompressed_bsk
    }

    /// A view of the key: a key over the same scalars, borrowed.
    pub fn as_view(&self) -> (view: SeededLweBootstrapKey<&'_ [u64]>)
        requires
            self.wf(),
        ensures
            view@ == self@,
            view.glwe_size == self.glwe_size,
            view.polynomial_size == self.polynomial_size,
            view.decomp_base_log == self.decomp_base_log,
            view.decomp_level_count == self.decomp_level_count,
            view.compression_seed == self.compression_seed,
            view.ciphertext_modulus == self.ciphertext_modulus,
            view.wf(),
    {
        SeededLweBootstrapKey::from_container(
            self.data.as_slice(),
            self.glwe_size,
            self.polynomial_size,
            self.decomp_base_log,
            self.decomp_level_count,
            self.compression_seed,
            self.ciphertext_modulus,
        )
    }
}

impl<C: ContainerMut> SeededLweBootstrapKey<C> {
    /// A mutable view of the key: a key over the same scalars, borrowed mutably. What is
    /// written through the view is written to the key.
    pub fn as_mut_view(&mut self) -> (view: SeededLweBootstrapKey<&'_ mut [u64]>)
        requires
            old(self).wf(),
        ensures
            view@ == old(self)@,
            view.glwe_size == old(self).glwe_size,
            view.polynomial_size == old(self).polynomial_size,
            view.decomp_base_log == old(self).decomp_base_log,
            view.decomp_level_count == old(self).decomp_level_count,
            view.compression_seed == old(self).compression_seed,
            view.ciphertext_modulus == old(self).ciphertext_modulus,
            view.wf(),
            final(self)@ == final(view.data)@,
            final(self).glwe_size == old(self).glwe_size,
            final(self).polynomial_size == old(self).polynomial_size,
            final(self).decomp_base_log == old(self).decomp_base_log,
            final(self).decomp_level_count == old(self).decomp_level_count,
            final(self).compression_seed == old(self).compression_seed,
            final(self).ciphertext_modulus == old(self).ciphertext_modulus,
    {
        let glwe_size = self.glwe_size;
        let polynomial_size = self.polynomial_size;
        let decomp_base_log = self.decomp_base_log;
        let decomp_level_count = self.decomp_level_count;
        let compression_seed = self.compression_seed;
        let ciphertext_modulus = self.ciphertext_modulus;
        SeededLweBootstrapKey::from_container(
            self.data.as_mut_slice(),
            glwe_size,
            polynomial_size,
            decomp_base_log,
            decomp_level_count,
            compression_seed,
            ciphertext_modulus,
        )
    }
}

impl SeededLweBootstrapKeyOwned {
    /// Allocate a key for an input key of `input_lwe_dimension` bits, with every scalar
    /// equal to `fill_with`.
    pub fn new(
        fill_with: u64,
        glwe_size: GlweSize,
        polynomial_size: PolynomialSize,
        decomp_base_log: DecompositionBaseLog,
        decomp_level_count: DecompositionLevelCount,
        input_lwe_dimension: LweDimension,
        compression_seed: CompressionSeed,
        ciphertext_modulus: CiphertextModulus,
    ) -> (key: SeededLweBootstrapKeyOwned)
        requires
            glwe_size.0 >= 1,
            polynomial_size.0 >= 1,
            decomp_level_count.0 >= 1,
            input_lwe_dimension.0 * seeded_ggsw_ciphertext_size(
                glwe_size,
                polynomial_size,
                decomp_level_count,
            ) <= usize::MAX,
            seeded_ggsw_ciphertext_size(glwe_size, polynomial_size, decomp_level_count)
                <= usize::MAX,
        ensures
            key@ == Seq::new(
                (input_lwe_dimension.0 * seeded_ggsw_ciphertext_size(
                    glwe_size,
                    polynomial_size,
                    decomp_level_count,
                )) as nat,
                |i: int| fill_with,
            ),
            key.glwe_size == glwe_size,
            key.polynomial_size == polynomial_size,
            key.decomp_base_log == decomp_base_log,
            key.decomp_level_count == decomp_level_count,
            key.compression_seed == compression_seed,
            key.ciphertext_modulus == ciphertext_modulus,
            key.wf(),
    {
        proof {
            crate::core_crypto::entities::lwe_bootstrap_key::lemma_ggsw_size_positive(
                glwe_size,
                polynomial_size,
                decomp_level_count,
            );
            lemma_product_regrouped(
                input_lwe_dimension.0 as int,
                decomp_level_count.0 as int,
                glwe_size.0 as int,
                polynomial_size.0 as int,
                1,
            );
            vstd::arithmetic::div_mod::lemma_mod_multiples_basic(
                input_lwe_dimension.0 as int,
                seeded_ggsw_ciphertext_size(glwe_size, polynomial_size, decomp_level_count),
            );
        }
        let len = checked_size(
            input_lwe_dimension.0,
            decomp_level_count.0,
            glwe_size.0,
            polynomial_size.0,
            1,
        );
        SeededLweBootstrapKey {
            data: filled_vec(fill_with, len),
            glwe_size,
            polynomial_size,
            decomp_base_log,
            decomp_level_count,
            compression_seed,
            ciphertext_modulus,
        }
    }
}

/// The sizes that a shape of seeded GGSW ciphertexts bounds.
pub proof fn lemma_seeded_sizes(
    glwe_size: GlweSize,
    polynomial_size: PolynomialSize,
    decomp_level_count: DecompositionLevelCount,
)
    requires
        glwe_size.0 >= 1,
        polynomial_size.0 >= 1,
        decomp_level_count.0 >= 1,
    ensures
        0 <= (glwe_size.0 - 1) * polynomial_size.0 <= seeded_ggsw_ciphertext_size(
            glwe_size,
            polynomial_size,
            decomp_level_count,
        ),
        polynomial_size.0 <= seeded_ggsw_ciphertext_size(
            glwe_size,
            polynomial_size,
            decomp_level_count,
        ),
        seeded_ggsw_ciphertext_size(glwe_size, polynomial_size, decomp_level_count) == (
        decomp_level_count.0 * glwe_size.0) * polynomial_size.0,
{
    let l = decomp_level_count.0 as int;
    let g = glwe_size.0 as int;
    let n = polynomial_size.0 as int;
    assert(l * g >= g) by (nonlinear_arith)
        requires
            l >= 1,
            g >= 1,
    ;
    assert((g - 1) * n <= (l * g) * n) by (nonlinear_arith)
        requires
            l * g >= g,
            g >= 1,
            n >= 1,
    ;
    assert(0 <= (g - 1) * n) by (nonlinear_arith)
        requires
            g >= 1,
            n >= 1,
    ;
    assert(n <= (l * g) * n) by (nonlinear_arith)
        requires
            l * g >= 1,
            n >= 1,
    ;
}

/// A length that is a multiple of `unit * size` is `size` times its quotient by `size`.
pub proof fn lemma_whole_polynomials(len: int, size: int, unit: int)
    requires
        size >= 1,
        unit >= 1,
        len >= 0,
        len % (unit * size) == 0,
    ensures
        len == (len / size) * size,
{
    let block = unit * size;
    assert(block >= 1) by (nonlinear_arith)
        requires
            block == unit * size,
            size >= 1,
            unit >= 1,
    ;
    vstd::arithmetic::div_mod::lemma_fundamental_div_mod(len, block);
    let q = len / block;
    assert(len == (q * unit) * size) by (nonlinear_arith)
        requires
            len == block * q,
            block == unit * size,
    ;
    vstd::arithmetic::div_mod::lemma_div_multiples_vanish(q * unit, size);
    assert(size * (q * unit) == (q * unit) * size) by (nonlinear_arith);
    assert(len / size == q * unit);
}

} // verus!
