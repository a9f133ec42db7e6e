//! GLWE ciphertexts.
use crate::core_crypto::commons::numeric::filled_vec;
use crate::core_crypto::commons::parameters::{CiphertextModulus, GlweSize, PolynomialSize};
use crate::core_crypto::commons::traits::{Container, ContainerMut};
use vstd::prelude::*;

verus! {

/// A GLWE ciphertext: the polynomials of the mask followed by the body polynomial.
#[derive(Clone, Debug)]
pub struct GlweCiphertext<C: Container> {
    pub data: C,
    pub polynomial_size: PolynomialSize,
    pub ciphertext_modulus: CiphertextModulus,
}

/// A GLWE ciphertext that owns its scalars.
pub type GlweCiphertextOwned = GlweCiphertext<Vec<u64>>;

impl<C: Container> View for GlweCiphertext<C> {
    type V = Seq<u64>;

    open spec fn view(&self) -> Seq<u64> {
        self.data.elements()
    }
}

impl<C: Container> GlweCiphertext<C> {
    /// A ciphertext holds whole polynomials, and at least its body.
    pub open spec fn wf(&self) -> bool {
        &&& self.polynomial_size.0 >= 1
        &&& self@.len() >= self.polynomial_size.0
        &&& self@.len() % (self.polynomial_size.0 as nat) == 0
    }

    /// The number of polynomials, as a number.
    pub open spec fn spec_glwe_size(&self) -> int {
        self@.len() as int / self.polynomial_size.0 as int
    }

    /// Wrap a container that holds the polynomials of a mask and of a body.
    pub fn from_container(
        container: C,
        polynomial_size: PolynomialSize,
        ciphertext_modulus: CiphertextModulus,
    ) -> (ciphertext: Self)
        requires
            polynomial_size.0 >= 1,
            container.elements().len() >= polynomial_size.0,
            container.elements().len() % (polynomial_size.0 as nat) == 0,
        ensures
            ciphertext.data == container,
            ciphertext.polynomial_size == polynomial_size,
            ciphertext.ciphertext_modulus == ciphertext_modulus,
            ciphertext.wf(),
    {
        GlweCiphertext { data: container, polynomial_size, ciphertext_modulus }
    }

    /// The number of polynomials: the mask and the body.
    pub fn glwe_size(&self) -> (size: GlweSize)
        requires
            self.polynomial_size.0 >= 1,
        ensures
            size.0 == self.spec_glwe_size(),
    {
        GlweSize(self.data.container_len() / self.polynomial_size.0)
    }

    /// The number of coefficients of each polynomial.
    pub fn polynomial_size(&self) -> (size: PolynomialSize)
        ensures
            size == self.polynomial_size,
    {
        self.polynomial_size
    }

    /// The modulus of the scalars.
    pub fn ciphertext_modulus(&self) -> (modulus: CiphertextModulus)
        ensures
            modulus == self.ciphertext_modulus,
    {
        self.ciphertext_modulus
    }

    /// Give the container back.
    pub fn into_container(self) -> (container: C)
        ensures
            container == self.data,
    {
        self.data
    }

    /// A borrowed ciphertext over the same scalars.
    pub fn as_view(&self) -> (view: GlweCiphertext<&[u64]>)
        ensures
            view@ == self@,
            view.polynomial_size == self.polynomial_size,
            view.ciphertext_modulus == self.ciphertext_modulus,
    {
        GlweCiphertext {
            data: self.data.as_slice(),
            polynomial_size: self.polynomial_size,
            ciphertext_modulus: self.ciphertext_modulus,
        }
    }
}

impl<C: ContainerMut> GlweCiphertext<C> {
    /// A mutably borrowed ciphertext over the same scalars.
    pub fn as_mut_view(&mut self) -> (view: GlweCiphertext<&mut [u64]>)
        ensures
            view@ == old(self)@,
            view.polynomial_size == old(self).polynomial_size,
            view.ciphertext_modulus == old(self).ciphertext_modulus,
            final(self)@ == final(view.data)@,
            final(self).polynomial_size == old(self).polynomial_size,
            final(self).ciphertext_modulus == old(self).ciphertext_modulus,
    {
        let polynomial_size = self.polynomial_size;
        let ciphertext_modulus = self.ciphertext_modulus;
        GlweCiphertext { data: self.data.as_mut_slice(), polynomial_size, ciphertext_modulus }
    }
}

impl GlweCiphertext<Vec<u64>> {
    /// Allocate a ciphertext of `glwe_size` polynomials whose coefficients all equal
    /// `fill_with`.
    pub fn new(
        fill_with: u64,
        glwe_size: GlweSize,
        polynomial_size: PolynomialSize,
        ciphertext_modulus: CiphertextModulus,
    ) -> (ciphertext: Self)
        requires
            glwe_size.0 >= 1,
            polynomial_size.0 >= 1,
            glwe_size.0 * polynomial_size.0 <= usize::MAX,
        ensures
            ciphertext@ == Seq::new(
                (glwe_size.0 * polynomial_size.0) as nat,
                |i: int| fill_with,
            ),
            ciphertext.polynomial_size == polynomial_size,
            ciphertext.ciphertext_modulus == ciphertext_modulus,
            ciphertext.wf(),
    {
        proof {
            vstd::arithmetic::div_mod::lemma_mod_multiples_basic(
                glwe_size.0 as int,
                polynomial_size.0 as int,
            );
            assert(glwe_size.0 * polynomial_size.0 >= polynomial_size.0) by (nonlinear_arith)
                requires
                    glwe_size.0 >= 1,
                    polynomial_size.0 >= 0,
            ;
        }
        GlweCiphertext {
            data: filled_vec(fill_with, glwe_size.0 * polynomial_size.0),
            polynomial_size,
            ciphertext_modulus,
        }
    }
}

} // verus!
