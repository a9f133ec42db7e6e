//! LWE ciphertexts and their seeded form.
use crate::core_crypto::commons::generators::{CompressionSeed, RandomGenerator};
use crate::core_crypto::commons::numeric::filled_vec;
use crate::core_crypto::commons::parameters::{CiphertextModulus, LweSize};
use crate::core_crypto::commons::traits::{Container, ContainerMut};
use vstd::prelude::*;

verus! {

/// An LWE ciphertext: the scalars of the mask followed by the body.
#[derive(Clone, Debug)]
pub struct LweCiphertext<C: Container> {
    pub data: C,
    pub ciphertext_modulus: CiphertextModulus,
}

/// An LWE ciphertext that owns its scalars.
pub type LweCiphertextOwned = LweCiphertext<Vec<u64>>;

impl<C: Container> View for LweCiphertext<C> {
    type V = Seq<u64>;

    open spec fn view(&self) -> Seq<u64> {
        self.data.elements()
    }
}

impl<C: Container> LweCiphertext<C> {
    /// A ciphertext holds at least its body.
    pub open spec fn wf(&self) -> bool {
        self@.len() >= 1
    }

    /// Wrap a container that holds a mask and a body.
    pub fn from_container(container: C, ciphertext_modulus: CiphertextModulus) -> (ciphertext: Self)
        requires
            container.elements().len() >= 1,
        ensures
            ciphertext@ == container.elements(),
            ciphertext.data == container,
            ciphertext.ciphertext_modulus == ciphertext_modulus,
            ciphertext.wf(),
    {
        LweCiphertext { data: container, ciphertext_modulus }
    }

    /// The number of scalars: the mask and the body.
    pub fn lwe_size(&self) -> (size: LweSize)
        ensures
            size.0 == self@.len(),
    {
        LweSize(self.data.container_len())
    }

    /// The modulus of the scalars.
    pub fn ciphertext_modulus(&self) -> (modulus: CiphertextModulus)
        ensures
            modulus == self.ciphertext_modulus,
    {
        self.ciphertext_modulus
    }

    /// Give the container back.
    pub fn into_container(self) -> (container: C)
        ensures
            container == self.data,
    {
        self.data
    }

    /// A borrowed ciphertext over the same scalars.
    pub fn as_view(&self) -> (view: LweCiphertext<&[u64]>)
        ensures
            view@ == self@,
            view.ciphertext_modulus == self.ciphertext_modulus,
    {
        LweCiphertext { data: self.data.as_slice(), ciphertext_modulus: self.ciphertext_modulus }
    }
}

impl<C: ContainerMut> LweCiphertext<C> {
    /// A mutably borrowed ciphertext over the same scalars.
    pub fn as_mut_view(&mut self) -> (view: LweCiphertext<&mut [u64]>)
        ensures
            view@ == old(self)@,
            view.ciphertext_modulus == old(self).ciphertext_modulus,
            final(self)@ == final(view.data)@,
            final(self).ciphertext_modulus == old(self).ciphertext_modulus,
    {
        let ciphertext_modulus = self.ciphertext_modulus;
        LweCiphertext { data: self.data.as_mut_slice(), ciphertext_modulus }
    }
}

impl LweCiphertext<Vec<u64>> {
    /// Allocate a ciphertext of `lwe_size` scalars, each equal to `fill_with`.
    pub fn new(fill_with: u64, lwe_size: LweSize, ciphertext_modulus: CiphertextModulus) -> (ciphertext:
        Self)
        requires
            lwe_size.0 >= 1,
        ensures
            ciphertext@ == Seq::new(lwe_size.0 as nat, |i: int| fill_with),
            ciphertext.ciphertext_modulus == ciphertext_modulus,
            ciphertext.wf(),
    {
        LweCiphertext { data: filled_vec(fill_with, lwe_size.0), ciphertext_modulus }
    }
}

/// A seeded LWE ciphertext: the body, and the seed of the stream that gives the mask.
#[derive(Clone, Copy, Debug, PartialEq, Eq, Structural)]
pub struct SeededLweCiphertext {
    pub data: u64,
    pub lwe_size: LweSize,
    pub compression_seed: CompressionSeed,
    pub ciphertext_modulus: CiphertextModulus,
}

impl SeededLweCiphertext {
    /// A seeded ciphertext stands for a ciphertext that holds at least its body.
    pub open spec fn wf(&self) -> bool {
        self.lwe_size.0 >= 1
    }

    /// The scalars of the ciphertext that this one stands for: the first words of the stream
    /// of the seed, then the body.
    pub open spec fn decompressed(&self) -> Seq<u64> {
        (RandomGenerator { key: self.compression_seed.seed.0, position: 0 }).words(
            (self.lwe_size.0 - 1) as nat,
        ).push(self.data)
    }

    /// Allocate a seeded ciphertext with the body `fill_with`.
    pub fn new(
        fill_with: u64,
        lwe_size: LweSize,
        compression_seed: CompressionSeed,
        ciphertext_modulus: CiphertextModulus,
    ) -> (ciphertext: Self)
        ensures
            ciphertext == (SeededLweCiphertext {
                data: fill_with,
                lwe_size,
                compression_seed,
                ciphertext_modulus,
            }),
    {
        SeededLweCiphertext { data: fill_with, lwe_size, compression_seed, ciphertext_modulus }
    }

    /// The number of scalars of the ciphertext that this one stands for.
    pub fn lwe_size(&self) -> (size: LweSize)
        ensures
            size == self.lwe_size,
    {
        self.lwe_size
    }

    /// The seed of the mask.
    pub fn compression_seed(&self) -> (seed: CompressionSeed)
        ensures
            seed == self.compression_seed,
    {
        self.compression_seed
    }

    /// Generate the mask again and give the whole ciphertext.
    pub fn decompress_into_lwe_ciphertext(self) -> (ciphertext: LweCiphertextOwned)
        requires
            self.wf(),
        ensures
            ciphertext@ == self.decompressed(),
            ciphertext.ciphertext_modulus == self.ciphertext_modulus,
            ciphertext.wf(),
    {
        let mask_len = self.lwe_size.0 - 1;
        let mut data = filled_vec(0, mask_len);
        let mut generator = RandomGenerator::new(self.compression_seed.seed);
        generator.fill_slice(data.as_mut_slice());
        data.push(self.data);
        LweCiphertext { data, ciphertext_modulus: self.ciphertext_modulus }
    }
}

} // verus!
