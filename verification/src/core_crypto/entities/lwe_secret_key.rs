//! LWE and GLWE secret keys.
use crate::core_crypto::commons::generators::SecretRandomGenerator;
use crate::core_crypto::commons::numeric::filled_vec;
use crate::core_crypto::commons::parameters::{GlweDimension, LweDimension, PolynomialSize};
use vstd::prelude::*;

verus! {

/// Whether every scalar of `key` is a bit.
pub open spec fn is_binary(key: Seq<u64>) -> bool {
    forall|i: int| 0 <= i < key.len() ==> key[i] <= 1
}

/// Whether every scalar of `key` is a bit: the test of [`is_binary`].
pub fn holds_bits(key: &[u64]) -> (ok: bool)
    ensures
        ok == is_binary(key@),
{
    let mut i: usize = 0;
    while i < key.len()
        invariant
            i <= key@.len(),
            forall|j: int| 0 <= j < i ==> key@[j] <= 1,
        decreases key@.len() - i,
    {
        if key[i] > 1 {
            return false;
        }
        i += 1;
    }
    true
}

/// Whether two keys hold the same scalars.
pub fn holds_same_scalars(left: &[u64], right: &[u64]) -> (same: bool)
    ensures
        same == (left@ == right@),
{
    if left.len() != right.len() {
        return false;
    }
    let mut i: usize = 0;
    while i < left.len()
        invariant
            left@.len() == right@.len(),
            i <= left@.len(),
            forall|j: int| 0 <= j < i ==> left@[j] == right@[j],
        decreases left@.len() - i,
    {
        if left[i] != right[i] {
            return false;
        }
        i += 1;
    }
    assert(left@ =~= right@);
    true
}

/// An LWE secret key: one bit for each scalar of a mask.
#[derive(Clone, Debug)]
pub struct LweSecretKey {
    pub data: Vec<u64>,
}

impl View for LweSecretKey {
    type V = Seq<u64>;

    open spec fn view(&self) -> Seq<u64> {
        self.data@
    }
}

impl LweSecretKey {
    /// A key is well formed when its scalars are bits.
    pub open spec fn wf(&self) -> bool {
        is_binary(self@)
    }

    /// Whether the key is well formed: the test of [`LweSecretKey::wf`].
    pub fn is_wf(&self) -> (ok: bool)
        ensures
            ok == self.wf(),
    {
        holds_bits(self.data.as_slice())
    }

    /// Wrap the scalars of a key.
    pub fn from_container(container: Vec<u64>) -> (key: Self)
        ensures
            key@ == container@,
    {
        LweSecretKey { data: container }
    }

    /// The number of scalars of the key.
    pub fn lwe_dimension(&self) -> (dimension: LweDimension)
        ensures
            dimension.0 == self@.len(),
    {
        LweDimension(self.data.len())
    }

    /// Give the scalars back.
    pub fn into_container(self) -> (container: Vec<u64>)
        ensures
            container@ == self@,
    {
        self.data
    }
}

/// A GLWE secret key: `glwe_dimension` binary polynomials of `polynomial_size` coefficients,
/// one after the other.
#[derive(Clone, Debug)]
pub struct GlweSecretKey {
    pub data: Vec<u64>,
    pub polynomial_size: PolynomialSize,
}

impl View for GlweSecretKey {
    type V = Seq<u64>;

    open spec fn view(&self) -> Seq<u64> {
        self.data@
    }
}

impl GlweSecretKey {
    /// A key is well formed when it holds whole polynomials of bits.
    pub open spec fn wf(&self) -> bool {
        &&& self.polynomial_size.0 >= 1
        &&& self@.len() % (self.polynomial_size.0 as nat) == 0
        &&& is_binary(self@)
    }

    /// Whether the key is well formed: the test of [`GlweSecretKey::wf`].
    pub fn is_wf(&self) -> (ok: bool)
        ensures
            ok == self.wf(),
    {
        self.polynomial_size.0 >= 1 && self.data.len() % self.polynomial_size.0 == 0 && holds_bits(
            self.data.as_slice(),
        )
    }

    /// Wrap the scalars of a key.
    pub fn from_container(container: Vec<u64>, polynomial_size: PolynomialSize) -> (key: Self)
        requires
            polynomial_size.0 >= 1,
            container@.len() % (polynomial_size.0 as nat) == 0,
        ensures
            key@ == container@,
            key.polynomial_size == polynomial_size,
    {
        GlweSecretKey { data: container, polynomial_size }
    }

    /// The number of polynomials of the key.
    pub fn glwe_dimension(&self) -> (dimension: GlweDimension)
        requires
            self.polynomial_size.0 >= 1,
        ensures
            dimension.0 == self@.len() / (self.polynomial_size.0 as nat),
    {
        GlweDimension(self.data.len() / self.polynomial_size.0)
    }

    /// The number of coefficients of each polynomial.
    pub fn polynomial_size(&self) -> (size: PolynomialSize)
        ensures
            size == self.polynomial_size,
    {
        self.polynomial_size
    }

    /// Read the same scalars as an LWE secret key of dimension
    /// `glwe_dimension * polynomial_size`.
    pub fn into_lwe_secret_key(self) -> (key: LweSecretKey)
        ensures
            key@ == self@,
    {
        LweSecretKey { data: self.data }
    }
}

/// Allocate an LWE secret key and fill it with uniform bits.
pub fn allocate_and_generate_new_binary_lwe_secret_key(
    lwe_dimension: LweDimension,
    generator: &mut SecretRandomGenerator,
) -> (key: LweSecretKey)
    ensures
        key@ == old(generator).bits(lwe_dimension.0 as nat),
        key.wf(),
        *final(generator) == old(generator).advanced(lwe_dimension.0 as int),
{
    let mut data = filled_vec(0, lwe_dimension.0);
    generator.fill_slice_with_random_uniform_binary(data.as_mut_slice());
    LweSecretKey { data }
}

/// Allocate a GLWE secret key and fill it with uniform bits.
pub fn allocate_and_generate_new_binary_glwe_secret_key(
    glwe_dimension: GlweDimension,
    polynomial_size: PolynomialSize,
    generator: &mut SecretRandomGenerator,
) -> (key: GlweSecretKey)
    requires
        polynomial_size.0 >= 1,
        glwe_dimension.0 * polynomial_size.0 <= usize::MAX,
    ensures
        key@ == old(generator).bits((glwe_dimension.0 * polynomial_size.0) as nat),
        key.polynomial_size == polynomial_size,
        key.wf(),
        *final(generator) == old(generator).advanced(glwe_dimension.0 * polynomial_size.0),
{
    let len = glwe_dimension.0 * polynomial_size.0;
    let mut data = filled_vec(0, len);
    generator.fill_slice_with_random_uniform_binary(data.as_mut_slice());
    proof {
        vstd::arithmetic::div_mod::lemma_mod_multiples_basic(
            glwe_dimension.0 as int,
            polynomial_size.0 as int,
        );
    }
    GlweSecretKey { data, polynomial_size }
}

} // verus!
