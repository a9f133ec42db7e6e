//! LWE bootstrap keys.
use crate::core_crypto::algorithms::decomposition::is_valid_gadget;
use crate::core_crypto::commons::numeric::filled_vec;
use crate::core_crypto::commons::parameters::{
    CiphertextModulus,
    DecompositionBaseLog,
    DecompositionLevelCount,
    GlweSize,
    LweDimension,
    PolynomialSize,
};
use vstd::prelude::*;

verus! {

/// The number of scalars of one GGSW ciphertext: `level_count * glwe_size` rows, each a GLWE
/// ciphertext of `glwe_size` polynomials.
pub open spec fn ggsw_ciphertext_size(
    glwe_size: GlweSize,
    polynomial_size: PolynomialSize,
    decomp_level_count: DecompositionLevelCount,
) -> int {
    decomp_level_count.0 * glwe_size.0 * glwe_size.0 * polynomial_size.0
}

/// An LWE bootstrap key: a list of GGSW ciphertexts, one for each bit of the input LWE key.
/// The ciphertexts stand one after the other, each as its levels from the most significant
/// down, each level as its `glwe_size` rows, each row as a GLWE ciphertext.
#[derive(Clone, Debug)]
pub struct LweBootstrapKey {
    pub data: Vec<u64>,
    pub glwe_size: GlweSize,
    pub polynomial_size: PolynomialSize,
    pub decomp_base_log: DecompositionBaseLog,
    pub decomp_level_count: DecompositionLevelCount,
    pub ciphertext_modulus: CiphertextModulus,
}

/// A bootstrap key that owns its scalars.
pub type LweBootstrapKeyOwned = LweBootstrapKey;

impl View for LweBootstrapKey {
    type V = Seq<u64>;

    open spec fn view(&self) -> Seq<u64> {
        self.data@
    }
}

impl LweBootstrapKey {
    /// The number of scalars of each GGSW ciphertext.
    pub open spec fn spec_ggsw_size(&self) -> int {
        ggsw_ciphertext_size(self.glwe_size, self.polynomial_size, self.decomp_level_count)
    }

    /// The number of GGSW ciphertexts, which is the dimension of the input key.
    pub open spec fn spec_input_lwe_dimension(&self) -> int {
        self@.len() as int / self.spec_ggsw_size()
    }

    /// The key holds whole GGSW ciphertexts of a valid gadget and of a shape that is not
    /// empty.
    pub open spec fn wf(&self) -> bool {
        &&& self.glwe_size.0 >= 2
        &&& self.polynomial_size.0 >= 1
        &&& is_valid_gadget(self.decomp_base_log.0 as int, self.decomp_level_count.0 as int)
        &&& self.spec_ggsw_size() <= usize::MAX
        &&& self@.len() as int % self.spec_ggsw_size() == 0
        &&& self.glwe_size.0 * self.polynomial_size.0 < usize::MAX
    }

    /// Allocate a key whose scalars all equal `fill_with`.
    pub fn new(
        fill_with: u64,
        glwe_size: GlweSize,
        polynomial_size: PolynomialSize,
        decomp_base_log: DecompositionBaseLog,
        decomp_level_count: DecompositionLevelCount,
        input_lwe_dimension: LweDimension,
        ciphertext_modulus: CiphertextModulus,
    ) -> (key: Self)
        requires
            input_lwe_dimension.0 * ggsw_ciphertext_size(
                glwe_size,
                polynomial_size,
                decomp_level_count,
            ) <= usize::MAX,
            glwe_size.0 >= 1,
            polynomial_size.0 >= 1,
            decomp_level_count.0 >= 1,
        ensures
            key@ == Seq::new(
                (input_lwe_dimension.0 * ggsw_ciphertext_size(
                    glwe_size,
                    polynomial_size,
                    decomp_level_count,
                )) as nat,
                |i: int| fill_with,
            ),
            key.glwe_size == glwe_size,
            key.polynomial_size == polynomial_size,
            key.decomp_base_log == decomp_base_log,
            key.decomp_level_count == decomp_level_count,
            key.ciphertext_modulus == ciphertext_modulus,
    {
        proof {
            lemma_product_regrouped(
                input_lwe_dimension.0 as int,
                decomp_level_count.0 as int,
                glwe_size.0 as int,
                glwe_size.0 as int,
                polynomial_size.0 as int,
            );
        }
        let len = checked_size(
            input_lwe_dimension.0,
            decomp_level_count.0,
            glwe_size.0,
            glwe_size.0,
            polynomial_size.0,
        );
        LweBootstrapKey {
            data: filled_vec(fill_with, len),
            glwe_size,
            polynomial_size,
            decomp_base_log,
            decomp_level_count,
            ciphertext_modulus,
        }
    }

    /// The dimension of the input LWE key: the number of GGSW ciphertexts.
    pub fn input_lwe_dimension(&self) -> (dimension: LweDimension)
        requires
            self.wf(),
        ensures
            dimension.0 == self.spec_input_lwe_dimension(),
    {
        proof {
            lemma_ggsw_size_positive(self.glwe_size, self.polynomial_size, self.decomp_level_count);
        }
        let ggsw_size = checked_size(
            1,
            self.decomp_level_count.0,
            self.glwe_size.0,
            self.glwe_size.0,
            self.polynomial_size.0,
        );
        LweDimension(self.data.len() / ggsw_size)
    }

    /// A well formed key holds as many GGSW ciphertexts as its input dimension says.
    pub proof fn lemma_len(&self)
        requires
            self.wf(),
        ensures
            self@.len() == self.spec_input_lwe_dimension() * (self.decomp_level_count.0
                * self.glwe_size.0 * self.glwe_size.0 * self.polynomial_size.0),
            self.spec_input_lwe_dimension() >= 0,
    {
        lemma_ggsw_size_positive(self.glwe_size, self.polynomial_size, self.decomp_level_count);
        vstd::arithmetic::div_mod::lemma_fundamental_div_mod(
            self@.len() as int,
            self.spec_ggsw_size(),
        );
        vstd::arithmetic::div_mod::lemma_div_pos_is_pos(self@.len() as int, self.spec_ggsw_size());
        let d = self.spec_input_lwe_dimension();
        let unit = self.spec_ggsw_size();
        assert(unit * d == d * unit) by (nonlinear_arith);
    }

    /// The dimension of the output LWE key: the GLWE key read as an LWE key.
    pub fn output_lwe_dimension(&self) -> (dimension: LweDimension)
        requires
            self.wf(),
        ensures
            dimension.0 == (self.glwe_size.0 - 1) * self.polynomial_size.0,
    {
        proof {
            assert((self.glwe_size.0 - 1) * self.polynomial_size.0 <= self.glwe_size.0
                * self.polynomial_size.0) by (nonlinear_arith)
                requires
                    self.polynomial_size.0 >= 0,
            ;
        }
        LweDimension((self.glwe_size.0 - 1) * self.polynomial_size.0)
    }
}

/// The shape of a GGSW ciphertext that is not empty has a size that is not zero.
pub proof fn lemma_ggsw_size_positive(
    glwe_size: GlweSize,
    polynomial_size: PolynomialSize,
    decomp_level_count: DecompositionLevelCount,
)
    requires
        glwe_size.0 >= 1,
        polynomial_size.0 >= 1,
        decomp_level_count.0 >= 1,
    ensures
        ggsw_ciphertext_size(glwe_size, polynomial_size, decomp_level_count) >= 1,
        decomp_level_count.0 * glwe_size.0 >= 1,
        decomp_level_count.0 * glwe_size.0 * glwe_size.0 >= 1,
        decomp_level_count.0 * glwe_size.0 * polynomial_size.0 >= 1,
{
    let l = decomp_level_count.0 as int;
    let k = glwe_size.0 as int;
    let n = polynomial_size.0 as int;
    assert(l * k >= 1) by (nonlinear_arith)
        requires
            l >= 1,
            k >= 1,
    ;
    assert(l * k * k >= 1) by (nonlinear_arith)
        requires
            l * k >= 1,
            k >= 1,
    ;
    assert(l * k * k * n >= 1) by (nonlinear_arith)
        requires
            l * k * k >= 1,
            n >= 1,
    ;
    assert(l * k * n >= 1) by (nonlinear_arith)
        requires
            l * k >= 1,
            n >= 1,
    ;
}

/// A product of five factors does not depend on where the first factor is grouped.
pub proof fn lemma_product_regrouped(a: int, b: int, c: int, d: int, e: int)
    ensures
        a * (b * c * d * e) == a * b * c * d * e,
        a * (b * c * d) == a * b * c * d,
        a * (b * c) == a * b * c,
{
    assert(a * (b * c) == a * b * c) by (nonlinear_arith);
    assert(a * (b * c * d) == a * (b * c) * d) by (nonlinear_arith);
    assert(a * (b * c * d * e) == a * (b * c * d) * e) by (nonlinear_arith);
}

/// The product of five factors that are not zero, when it can be addressed.
pub fn checked_size(a: usize, b: usize, c: usize, d: usize, e: usize) -> (size: usize)
    requires
        a * b * c * d * e <= usize::MAX,
        b >= 1,
        c >= 1,
        d >= 1,
        e >= 1,
    ensures
        size == a * b * c * d * e,
        a * b <= usize::MAX,
        a * b * c <= usize::MAX,
        a * b * c * d <= usize::MAX,
{
    proof {
        assert(a * b <= a * b * c) by (nonlinear_arith)
            requires
                c >= 1,
                a * b >= 0,
        ;
        assert(a * b * c <= a * b * c * d) by (nonlinear_arith)
            requires
                d >= 1,
                a * b * c >= 0,
        ;
        assert(a * b * c * d <= a * b * c * d * e) by (nonlinear_arith)
            requires
                e >= 1,
                a * b * c * d >= 0,
        ;
    }
    a * b * c * d * e
}

} // verus!
