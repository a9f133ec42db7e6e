//! Carry propagation, with the two bootstraps of a block run in parallel.
use crate::integer::ciphertext::RadixCiphertext;
use crate::integer::server_key::ServerKey;
use crate::shortint::ciphertext::{Ciphertext, CiphertextView};
use crate::shortint::engine::lemma_max_value_at_most;
use crate::shortint::server_key::{carry_table, ServerKey as ShortintServerKey};
use vstd::prelude::*;

verus! {

/// The blocks of a ciphertext after the carry of the block of index `index` is propagated.
/// If the carry of the block is empty, nothing changes. Otherwise the block is replaced by
/// its message, and its carry is added to the next block, if there is one.
pub open spec fn propagated(
    key: &ShortintServerKey,
    blocks: Seq<CiphertextView>,
    index: int,
) -> Seq<CiphertextView> {
    if blocks[index].carry_is_empty() {
        blocks
    } else {
        let carry = key.carry_extracted(blocks[index]);
        let message = key.message_extracted(blocks[index]);
        let replaced = blocks.update(index, message);
        if index < blocks.len() - 1 {
            replaced.update(index + 1, ShortintServerKey::added(replaced[index + 1], carry))
        } else {
            replaced
        }
    }
}

/// The blocks of a ciphertext after the carries of the first `count` blocks are propagated,
/// from the least significant block up.
pub open spec fn fully_propagated(
    key: &ShortintServerKey,
    blocks: Seq<CiphertextView>,
    count: int,
) -> Seq<CiphertextView>
    decreases count,
{
    if count <= 0 {
        blocks
    } else {
        propagated(key, fully_propagated(key, blocks, count - 1), count - 1)
    }
}

/// The degree of an extracted carry is below the product of the moduli.
pub proof fn lemma_carry_degree(key: &ShortintServerKey, block: CiphertextView)
    requires
        key.wf(),
    ensures
        key.carry_extracted(block).degree.0 < key.modulus_sup(),
{
    let table = carry_table(key.message_modulus.0 as int, key.modulus_sup());
    crate::shortint::parameters::lemma_modulus_sup_positive(
        key.message_modulus.0 as int,
        key.carry_modulus.0 as int,
    );
    let bound = (key.modulus_sup() - 1) as u64;
    assert forall|i: int| 0 <= i < table.len() implies table[i] <= bound by {
        vstd::arithmetic::div_mod::lemma_div_is_ordered_by_denominator(
            i,
            1,
            key.message_modulus.0 as int,
        );
    }
    lemma_max_value_at_most(table, bound);
}

/// Extract the carry and the message of a block with [`rayon::join`], which runs its two
/// closures, possibly in parallel, and returns the pair of their results. The closures are
/// one call each of the verified extraction functions, so the pair is what the two give.
#[verifier::external_body]
fn join_carry_and_message(key: &ShortintServerKey, block: &Ciphertext) -> (result: (
    Ciphertext,
    Ciphertext,
))
    requires
        key.wf(),
        key.admits(block),
    ensures
        result.0@ == key.carry_extracted(block@),
        key.admits(&result.0),
        result.1@ == key.message_extracted(block@),
        key.admits(&result.1),
{
    rayon::join(|| key.carry_extract(block), || key.message_extract(block))
}

impl ServerKey {
    /// Propagate the carry of the block of index `index` to the next one, which must have
    /// room for it if there is a carry to add. The carry and the message of the block are extracted by two bootstraps
    /// that may run in parallel.
    pub fn propagate_parallelized(&self, ctxt: &mut RadixCiphertext, index: usize)
        requires
            self.key.wf(),
            self.admits_blocks(old(ctxt).blocks@),
            index < old(ctxt).blocks@.len(),
            !old(ctxt).blocks@[index as int]@.carry_is_empty() && index + 1 < old(
                ctxt,
            ).blocks@.len() ==> old(ctxt).blocks@[index + 1].degree.0 + self.key.modulus_sup()
                <= usize::MAX,
        ensures
            final(ctxt)@ == propagated(&self.key, old(ctxt)@, index as int),
            final(ctxt).blocks@.len() == old(ctxt).blocks@.len(),
            self.admits_blocks(final(ctxt).blocks@),
    {
        let is_last_block = index == ctxt.blocks.len() - 1;
        if ctxt.blocks[index].carry_is_empty() {
            return ;
        }
        let (carry, message) = join_carry_and_message(&self.key, &ctxt.blocks[index]);
        proof {
            lemma_carry_degree(&self.key, old(ctxt).blocks@[index as int]@);
        }
        ctxt.blocks[index] = message;
        // add the carry to the next block
        if !is_last_block {
            let next = self.key.unchecked_add(&ctxt.blocks[index + 1], &carry);
            ctxt.blocks[index + 1] = next;
        }
        assert(ctxt@ =~= propagated(&self.key, old(ctxt)@, index as int));
    }

    /// Propagate all the carries, from the least significant block up.
    pub fn full_propagate_parallelized(&self, ctxt: &mut RadixCiphertext)
        requires
            self.key.wf(),
            self.admits(old(ctxt).blocks@),
        ensures
            final(ctxt)@ == fully_propagated(
                &self.key,
                old(ctxt)@,
                old(ctxt).blocks@.len() as int,
            ),
            final(ctxt).blocks@.len() == old(ctxt).blocks@.len(),
            self.admits_blocks(final(ctxt).blocks@),
    {
        let len = ctxt.blocks.len();
        let mut i: usize = 0;
        proof {
            crate::shortint::parameters::lemma_modulus_sup_positive(
                self.key.message_modulus.0 as int,
                self.key.carry_modulus.0 as int,
            );
        }
        while i < len
            invariant
                self.key.wf(),
                len == old(ctxt).blocks@.len(),
                ctxt.blocks@.len() == len,
                i <= len,
                ctxt@ == fully_propagated(&self.key, old(ctxt)@, i as int),
                self.admits_blocks(ctxt.blocks@),
                forall|j: int|
                    #![trigger ctxt.blocks@[j]]
                    i < j < len ==> ctxt.blocks@[j].degree == old(ctxt).blocks@[j].degree,
                i < len ==> ctxt.blocks@[i as int].degree.0 + 1 <= old(
                    ctxt,
                ).blocks@[i as int].degree.0 + self.key.modulus_sup(),
                forall|j: int|
                    #![trigger old(ctxt).blocks@[j]]
                    0 <= j < len ==> old(ctxt).blocks@[j].degree.0 + self.key.modulus_sup()
                        <= usize::MAX,
            decreases len - i,
        {
            let ghost before = ctxt@;
            proof {
                lemma_carry_degree(&self.key, before[i as int]);
                crate::shortint::parameters::lemma_modulus_sup_positive(
                    self.key.message_modulus.0 as int,
                    self.key.carry_modulus.0 as int,
                );
            }
            self.propagate_parallelized(ctxt, i);
            proof {
                assert forall|j: int| i + 1 < j < len implies (#[trigger] ctxt.blocks@[j]).degree
                    == old(ctxt).blocks@[j].degree by {
                    assert(ctxt@[j] == before[j]);
                }
                if i + 1 < len {
                    assert(ctxt@[i + 1] == propagated(&self.key, before, i as int)[i + 1]);
                }
            }
            i += 1;
        }
    }
}

} // verus!
