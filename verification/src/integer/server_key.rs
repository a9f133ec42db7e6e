//! The server key of integers in radix representation.
use crate::integer::ciphertext::RadixCiphertext;
use crate::shortint::ciphertext::{Ciphertext, CiphertextView};
use crate::shortint::server_key::ServerKey as ShortintServerKey;
use vstd::prelude::*;

pub mod radix_parallel;

verus! {

/// The server key of integers: the shortint server key that computes on their blocks.
#[derive(Debug)]
pub struct ServerKey {
    pub key: ShortintServerKey,
}

/// The block by block sum of the first `count` blocks of two ciphertexts.
pub open spec fn blocks_added(
    left: Seq<CiphertextView>,
    right: Seq<CiphertextView>,
) -> Seq<CiphertextView> {
    Seq::new(left.len(), |i: int| ShortintServerKey::added(left[i], right[i]))
}

impl ServerKey {
    /// Whether every block of a ciphertext is a ciphertext that the shortint key admits,
    /// of the same order as the others, with a degree that leaves room for one more carry.
    pub open spec fn admits(&self, blocks: Seq<Ciphertext>) -> bool {
        forall|i: int|
            #![trigger blocks[i]]
            0 <= i < blocks.len() ==> {
                &&& self.key.admits(&blocks[i])
                &&& blocks[i].pbs_order == blocks[0].pbs_order
                &&& blocks[i].degree.0 + self.key.modulus_sup() <= usize::MAX
            }
    }

    /// Whether every block of a ciphertext is a ciphertext that the shortint key admits, of
    /// the same order as the others.
    pub open spec fn admits_blocks(&self, blocks: Seq<Ciphertext>) -> bool {
        forall|i: int|
            #![trigger blocks[i]]
            0 <= i < blocks.len() ==> {
                &&& self.key.admits(&blocks[i])
                &&& blocks[i].pbs_order == blocks[0].pbs_order
            }
    }

    /// Add two ciphertexts block by block, without any check: the degrees of the blocks are
    /// added, and no carry is propagated.
    pub fn unchecked_add(&self, ct_left: &RadixCiphertext, ct_right: &RadixCiphertext) -> (result:
        RadixCiphertext)
        requires
            ct_left.blocks@.len() == ct_right.blocks@.len(),
            forall|i: int|
                0 <= i < ct_left.blocks@.len() ==> {
                    &&& (#[trigger] ct_left.blocks@[i]).wf()
                    &&& ct_left.blocks@[i]@.ct.len() == ct_right.blocks@[i]@.ct.len()
                    &&& ct_left.blocks@[i].degree.0 + ct_right.blocks@[i].degree.0 <= usize::MAX
                },
        ensures
            result@ == blocks_added(ct_left@, ct_right@),
            forall|i: int| 0 <= i < result.blocks@.len() ==> (#[trigger] result.blocks@[i]).wf(),
    {
        let n = ct_left.blocks.len();
        let mut blocks: Vec<Ciphertext> = Vec::with_capacity(n);
        let mut i: usize = 0;
        while i < n
            invariant
                n == ct_left.blocks@.len(),
                n == ct_right.blocks@.len(),
                i <= n,
                blocks@.len() == i,
                forall|j: int|
                    0 <= j < n ==> {
                        &&& (#[trigger] ct_left.blocks@[j]).wf()
                        &&& ct_left.blocks@[j]@.ct.len() == ct_right.blocks@[j]@.ct.len()
                        &&& ct_left.blocks@[j].degree.0 + ct_right.blocks@[j].degree.0
                            <= usize::MAX
                    },
                forall|j: int|
                    0 <= j < i ==> (#[trigger] blocks@[j])@ == ShortintServerKey::added(
                        ct_left.blocks@[j]@,
                        ct_right.blocks@[j]@,
                    ) && blocks@[j].wf(),
            decreases n - i,
        {
            let block = self.key.unchecked_add(&ct_left.blocks[i], &ct_right.blocks[i]);
            blocks.push(block);
            i += 1;
        }
        let result = RadixCiphertext { blocks };
        assert(result@ =~= blocks_added(ct_left@, ct_right@));
        result
    }
}

} // verus!
