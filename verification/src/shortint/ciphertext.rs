//! Ciphertexts of the shortint engine and their bookkeeping.
use crate::core_crypto::entities::lwe_ciphertext::{
    LweCiphertext,
    LweCiphertextOwned,
    SeededLweCiphertext,
};
use crate::shortint::parameters::{CarryModulus, MessageModulus};
use vstd::prelude::*;

verus! {

/// An upper bound on the integer that a ciphertext encodes, message and carry together.
#[derive(Clone, Copy, Debug, PartialEq, Eq, Structural)]
pub struct Degree(pub usize);

/// The order of the two halves of a programmable bootstrap, which decides under which key a
/// ciphertext lives between two operations.
#[derive(Clone, Copy, Debug, PartialEq, Eq, Structural)]
pub enum PBSOrder {
    /// Key switch, then bootstrap: ciphertexts live under the large key.
    KeyswitchBootstrap,
    /// Bootstrap, then key switch: ciphertexts live under the small key.
    BootstrapKeyswitch,
}

/// A ciphertext with the bookkeeping that decides whether the next operation is safe.
#[derive(Debug)]
pub struct Ciphertext {
    pub ct: LweCiphertextOwned,
    pub degree: Degree,
    pub message_modulus: MessageModulus,
    pub carry_modulus: CarryModulus,
    pub pbs_order: PBSOrder,
}

/// What a ciphertext is, as a value: its scalars and its bookkeeping.
pub struct CiphertextView {
    pub ct: Seq<u64>,
    pub degree: Degree,
    pub message_modulus: MessageModulus,
    pub carry_modulus: CarryModulus,
    pub pbs_order: PBSOrder,
}

impl View for Ciphertext {
    type V = CiphertextView;

    open spec fn view(&self) -> CiphertextView {
        CiphertextView {
            ct: self.ct@,
            degree: self.degree,
            message_modulus: self.message_modulus,
            carry_modulus: self.carry_modulus,
            pbs_order: self.pbs_order,
        }
    }
}

impl CiphertextView {
    /// The product of the two moduli: the number of integers that the ciphertext can encode.
    pub open spec fn modulus_sup(&self) -> int {
        self.message_modulus.0 * self.carry_modulus.0
    }

    /// Whether the bound on the encoded integer leaves the carry part empty.
    pub open spec fn carry_is_empty(&self) -> bool {
        self.degree.0 < self.message_modulus.0
    }
}

impl Clone for Ciphertext {
    fn clone(&self) -> (copy: Self)
        ensures
            copy@ == self@,
            copy.ct.ciphertext_modulus == self.ct.ciphertext_modulus,
    {
        Ciphertext {
            ct: LweCiphertext {
                data: vstd::slice::slice_to_vec(self.ct.data.as_slice()),
                ciphertext_modulus: self.ct.ciphertext_modulus,
            },
            degree: self.degree,
            message_modulus: self.message_modulus,
            carry_modulus: self.carry_modulus,
            pbs_order: self.pbs_order,
        }
    }
}

impl Ciphertext {
    /// A ciphertext holds at least its body and has moduli that are not zero. Its
    /// ciphertext modulus is the native one: the operations on ciphertexts compute modulo
    /// `2^64`, which is wrong for a ciphertext of another modulus.
    pub open spec fn wf(&self) -> bool {
        &&& self.ct.wf()
        &&& self.ct.ciphertext_modulus.is_native_modulus()
        &&& self.message_modulus.0 >= 1
        &&& self.carry_modulus.0 >= 1
    }

    /// Whether the bound on the encoded integer leaves the carry part empty.
    pub fn carry_is_empty(&self) -> (empty: bool)
        ensures
            empty == self@.carry_is_empty(),
    {
        self.degree.0 < self.message_modulus.0
    }
}

/// A seeded ciphertext with the bookkeeping of the ciphertext that it stands for.
#[derive(Clone, Copy, Debug, PartialEq, Eq, Structural)]
pub struct CompressedCiphertext {
    pub ct: SeededLweCiphertext,
    pub degree: Degree,
    pub message_modulus: MessageModulus,
    pub carry_modulus: CarryModulus,
    pub pbs_order: PBSOrder,
}

impl CompressedCiphertext {
    /// A compressed ciphertext stands for a well formed ciphertext, of the native ciphertext
    /// modulus.
    pub open spec fn wf(&self) -> bool {
        &&& self.ct.wf()
        &&& self.ct.ciphertext_modulus.is_native_modulus()
        &&& self.message_modulus.0 >= 1
        &&& self.carry_modulus.0 >= 1
    }

    /// The ciphertext that this one stands for.
    pub open spec fn decompressed(&self) -> CiphertextView {
        CiphertextView {
            ct: self.ct.decompressed(),
            degree: self.degree,
            message_modulus: self.message_modulus,
            carry_modulus: self.carry_modulus,
            pbs_order: self.pbs_order,
        }
    }

    /// Generate the mask again and give the whole ciphertext, with the same bookkeeping.
    pub fn decompress(self) -> (ciphertext: Ciphertext)
        requires
            self.wf(),
        ensures
            ciphertext@ == self.decompressed(),
            ciphertext.wf(),
    {
        Ciphertext {
            ct: self.ct.decompress_into_lwe_ciphertext(),
            degree: self.degree,
            message_modulus: self.message_modulus,
            carry_modulus: self.carry_modulus,
            pbs_order: self.pbs_order,
        }
    }
}

} // verus!
