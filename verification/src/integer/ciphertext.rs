//! Ciphertexts of integers in radix representation.
use crate::shortint::ciphertext::{Ciphertext, CiphertextView};
use vstd::prelude::*;

verus! {

/// The ciphertext of an integer in radix representation: one block for each digit in base
/// `message_modulus`, the least significant first.
#[derive(Debug)]
pub struct RadixCiphertext {
    pub blocks: Vec<Ciphertext>,
}

/// The blocks of a ciphertext, as values.
pub open spec fn views(blocks: Seq<Ciphertext>) -> Seq<CiphertextView> {
    Seq::new(blocks.len(), |i: int| blocks[i]@)
}

impl View for RadixCiphertext {
    type V = Seq<CiphertextView>;

    open spec fn view(&self) -> Seq<CiphertextView> {
        views(self.blocks@)
    }
}

impl RadixCiphertext {
    /// The blocks of the ciphertext.
    pub fn blocks(&self) -> (blocks: &[Ciphertext])
        ensures
            blocks@ == self.blocks@,
    {
        self.blocks.as_slice()
    }
}

} // verus!
