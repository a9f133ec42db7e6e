//! Strongly typed sizes, counts and scalars.
use vstd::prelude::*;

verus! {

/// An encoded message, ready to be encrypted.
#[derive(Clone, Copy, Debug, PartialEq, Eq, Structural)]
pub struct Plaintext(pub u64);

/// The number of scalars of an LWE mask, which is the length of the LWE secret key.
#[derive(Clone, Copy, Debug, PartialEq, Eq, Structural)]
pub struct LweDimension(pub usize);

/// The number of scalars of an LWE ciphertext: its mask and its body.
#[derive(Clone, Copy, Debug, PartialEq, Eq, Structural)]
pub struct LweSize(pub usize);

/// The number of mask polynomials of a GLWE ciphertext.
#[derive(Clone, Copy, Debug, PartialEq, Eq, Structural)]
pub struct GlweDimension(pub usize);

/// The number of polynomials of a GLWE ciphertext: its mask and its body.
#[derive(Clone, Copy, Debug, PartialEq, Eq, Structural)]
pub struct GlweSize(pub usize);

/// The number of coefficients of a polynomial.
#[derive(Clone, Copy, Debug, PartialEq, Eq, Structural)]
pub struct PolynomialSize(pub usize);

/// The logarithm in base two of the base of a gadget decomposition.
#[derive(Clone, Copy, Debug, PartialEq, Eq, Structural)]
pub struct DecompositionBaseLog(pub usize);

/// The number of levels of a gadget decomposition.
#[derive(Clone, Copy, Debug, PartialEq, Eq, Structural)]
pub struct DecompositionLevelCount(pub usize);

/// The number of GGSW ciphertexts of a list.
#[derive(Clone, Copy, Debug, PartialEq, Eq, Structural)]
pub struct GgswCiphertextCount(pub usize);

/// The standard deviation of the encryption noise, counted in units of `2^-64` of the torus.
#[derive(Clone, Copy, Debug, PartialEq, Eq, Structural)]
pub struct StandardDev(pub u64);

/// The modulus that the scalars of a ciphertext are reduced by: the native `2^64`, or a custom
/// one below it.
#[derive(Clone, Copy, Debug, PartialEq, Eq, Structural)]
pub enum CiphertextModulus {
    Native,
    Custom(u64),
}

impl LweDimension {
    /// The size of a ciphertext under a key of this dimension.
    pub fn to_lwe_size(&self) -> (size: LweSize)
        requires
            self.0 < usize::MAX,
        ensures
            size.0 == self.0 + 1,
    {
        LweSize(self.0 + 1)
    }
}

impl LweSize {
    /// The dimension of the key of a ciphertext of this size.
    pub fn to_lwe_dimension(&self) -> (dimension: LweDimension)
        requires
            self.0 >= 1,
        ensures
            dimension.0 == self.0 - 1,
    {
        LweDimension(self.0 - 1)
    }
}

impl GlweDimension {
    /// The size of a ciphertext under a key of this dimension.
    pub fn to_glwe_size(&self) -> (size: GlweSize)
        requires
            self.0 < usize::MAX,
        ensures
            size.0 == self.0 + 1,
    {
        GlweSize(self.0 + 1)
    }
}

impl GlweSize {
    /// The dimension of the key of a ciphertext of this size.
    pub fn to_glwe_dimension(&self) -> (dimension: GlweDimension)
        requires
            self.0 >= 1,
        ensures
            dimension.0 == self.0 - 1,
    {
        GlweDimension(self.0 - 1)
    }
}

impl CiphertextModulus {
    /// The modulus `2^64`.
    pub fn new_native() -> (modulus: Self)
        ensures
            modulus == CiphertextModulus::Native,
    {
        CiphertextModulus::Native
    }

    /// The modulus `modulus`, which must be positive and at most `2^64`; `2^64` itself is the
    /// native modulus.
    pub fn try_new(modulus: u128) -> (result: Option<Self>)
        ensures
            modulus == 0 || modulus > 0x1_0000_0000_0000_0000 <==> result is None,
            modulus == 0x1_0000_0000_0000_0000 ==> result == Some(CiphertextModulus::Native),
            0 < modulus < 0x1_0000_0000_0000_0000 ==> result == Some(
                CiphertextModulus::Custom(modulus as u64),
            ),
    {
        if modulus == 0 || modulus > 0x1_0000_0000_0000_0000 {
            None
        } else if modulus == 0x1_0000_0000_0000_0000 {
            Some(CiphertextModulus::Native)
        } else {
            Some(CiphertextModulus::Custom(modulus as u64))
        }
    }

    pub open spec fn spec_is_native_modulus(&self) -> bool {
        *self == CiphertextModulus::Native
    }

    /// Whether scalars wrap modulo `2^64` only.
    #[verifier::when_used_as_spec(spec_is_native_modulus)]
    pub fn is_native_modulus(&self) -> (native: bool)
        ensures
            native == self.spec_is_native_modulus(),
    {
        match self {
            CiphertextModulus::Native => true,
            CiphertextModulus::Custom(_) => false,
        }
    }
}

} // verus!
