//! What the blocks of the ciphertext of an integer encode.
//!
//! The blocks encode values, one each, which stand for an integer by their weights. The
//! laws here say which values the blocks of each operation encode, from what the blocks of
//! its operands encode, and which integer the blocks decrypt to.
use crate::core_crypto::commons::numeric::torus;
use crate::integer::client_key::RadixClientKey;
use crate::integer::digits::{
    carried,
    digits_of,
    fully_carried,
    lemma_digits_recompose,
    lemma_fully_carried,
    lemma_fully_carried_sum,
    lemma_radix_sum_equal,
    lemma_radix_sum_of_sums,
    lemma_radix_value_is_sum,
    radix_power,
    radix_sum,
};
use crate::integer::server_key::blocks_added;
use crate::integer::server_key::radix_parallel::{fully_propagated, propagated};
use crate::shortint::ciphertext::{CiphertextView, PBSOrder};
use crate::shortint::client_key::ClientKey;
use crate::shortint::engine::EngineState;
use crate::shortint::public_key::correctness::lemma_public_key_encryption_encodes;
use crate::shortint::public_key::PublicKey;
use crate::shortint::server_key::correctness::{
    KeyGenerators,
    lemma_budget_bounds_noise,
    lemma_keyswitch_bound_positive,
};
use crate::shortint::server_key::encodings::{
    bootstrapped_noise,
    encodes,
    lemma_added_encodes,
    lemma_carry_extracted_encodes,
    lemma_encodes_with_more_noise,
    lemma_encoding_decrypts,
    lemma_encrypt_encodes,
    lemma_message_extracted_encodes,
};
use crate::shortint::server_key::ServerKey;
use vstd::prelude::*;

verus! {

/// Whether each block encodes the value of its index, with a noise within `noise_bound`,
/// and its degree is an upper bound of the value.
pub open spec fn blocks_encode(
    client_key: ClientKey,
    blocks: Seq<CiphertextView>,
    values: Seq<int>,
    noise_bound: int,
) -> bool {
    &&& values.len() == blocks.len()
    &&& forall|i: int|
        0 <= i < blocks.len() ==> encodes(client_key, #[trigger] blocks[i], values[i], noise_bound)
}

/// Whether the blocks are of one order and have the message modulus of the key.
pub open spec fn blocks_fit(client_key: ClientKey, blocks: Seq<CiphertextView>) -> bool {
    forall|i: int|
        0 <= i < blocks.len() ==> {
            &&& (#[trigger] blocks[i]).pbs_order == blocks[0].pbs_order
            &&& blocks[i].message_modulus == client_key.parameters.message_modulus
        }
}

/// The largest degree of an extracted carry.
pub open spec fn carry_degree(client_key: ClientKey) -> int {
    (client_key.parameters.modulus_sup() - 1) / (client_key.parameters.message_modulus.0 as int)
}

/// The blocks that `encrypt` gives for an integer encode its digits, with a noise within
/// three standard deviations.
pub proof fn lemma_encrypted_blocks_encode(
    state: EngineState,
    client_key: RadixClientKey,
    message: u64,
    order: PBSOrder,
)
    requires
        client_key.key.wf(),
        client_key.key.spec_encryption_noise(order).0 <= 0x7fff_ffff_ffff_ffff,
    ensures
        blocks_encode(
            client_key.key,
            client_key.encrypted(state, message, order),
            digits_of(
                message,
                client_key.key.parameters.message_modulus.0 as int,
                client_key.num_blocks as int,
            ),
            3 * client_key.key.spec_encryption_noise(order).0,
        ),
        blocks_fit(client_key.key, client_key.encrypted(state, message, order)),
        forall|i: int|
            0 <= i < client_key.num_blocks ==> (#[trigger] client_key.encrypted(
                state,
                message,
                order,
            )[i]).degree.0 == client_key.key.parameters.message_modulus.0 - 1,
{
    let base = client_key.key.parameters.message_modulus.0 as int;
    let blocks = client_key.encrypted(state, message, order);
    let digits = digits_of(message, base, client_key.num_blocks as int);
    let dimension = client_key.key.spec_encryption_key(order).len() as int;
    lemma_digits_recompose(message, base, client_key.num_blocks as int);
    assert forall|i: int| 0 <= i < blocks.len() implies encodes(
        client_key.key,
        #[trigger] blocks[i],
        digits[i],
        3 * client_key.key.spec_encryption_noise(order).0,
    ) by {
        lemma_encrypt_encodes(
            state.after_encryptions(dimension, i),
            client_key.key,
            digits[i] as u64,
            order,
        );
        vstd::arithmetic::div_mod::lemma_small_mod(digits[i] as nat, base as nat);
    }
}

/// Blocks that encode values below the product of the moduli, with a noise under half of
/// the scaling factor, decrypt to the integer that the values stand for, modulo `2^64`.
pub proof fn lemma_blocks_decrypt(
    client_key: RadixClientKey,
    blocks: Seq<CiphertextView>,
    values: Seq<int>,
    noise_bound: int,
)
    requires
        client_key.key.wf(),
        blocks_encode(client_key.key, blocks, values, noise_bound),
        forall|i: int|
            0 <= i < values.len() ==> #[trigger] values[i]
                < client_key.key.parameters.modulus_sup(),
        noise_bound < client_key.key.parameters.spec_delta() / 2,
    ensures
        client_key.decrypted(blocks) == torus(
            radix_sum(
                values,
                client_key.key.parameters.message_modulus.0 as int,
                values.len() as int,
            ),
        ),
{
    let base = client_key.key.parameters.message_modulus.0 as int;
    let decrypted = client_key.decrypted_blocks(blocks);
    let ints = Seq::new(decrypted.len(), |i: int| decrypted[i] as int);
    assert forall|i: int| 0 <= i < values.len() implies #[trigger] ints[i] == values[i] by {
        assert(encodes(client_key.key, blocks[i], values[i], noise_bound));
        lemma_encoding_decrypts(client_key.key, blocks[i], values[i], noise_bound);
    }
    lemma_radix_value_is_sum(decrypted, base, values.len() as int);
    lemma_radix_sum_equal(ints, values, base, values.len() as int);
}

/// Encryption then decryption of an integer keeps its first digits: the blocks that
/// `encrypt` gives for an integer decrypt to the integer reduced by the weight of the first
/// digit that the blocks do not have, provided that the noise of the parameters fits.
pub proof fn lemma_integer_encrypt_then_decrypt(
    state: EngineState,
    client_key: RadixClientKey,
    message: u64,
    order: PBSOrder,
)
    requires
        client_key.key.wf(),
        client_key.key.parameters.noise_fits(),
    ensures
        client_key.decrypted(client_key.encrypted(state, message, order)) == message as int
            % radix_power(
            client_key.key.parameters.message_modulus.0 as int,
            client_key.num_blocks as int,
        ),
{
    let base = client_key.key.parameters.message_modulus.0 as int;
    let sup = client_key.key.parameters.modulus_sup();
    let count = client_key.num_blocks as int;
    let digits = digits_of(message, base, count);
    crate::shortint::parameters::lemma_modulus_sup_positive(
        base,
        client_key.key.parameters.carry_modulus.0 as int,
    );
    crate::shortint::parameters::lemma_delta_bounds(sup);
    assert(base <= sup) by (nonlinear_arith)
        requires
            sup == base * client_key.key.parameters.carry_modulus.0,
            client_key.key.parameters.carry_modulus.0 >= 1,
            base >= 1,
    ;
    lemma_encrypted_blocks_encode(state, client_key, message, order);
    lemma_digits_recompose(message, base, count);
    lemma_blocks_decrypt(
        client_key,
        client_key.encrypted(state, message, order),
        digits,
        3 * client_key.key.spec_encryption_noise(order).0,
    );
    crate::integer::digits::lemma_radix_power_positive(base, count);
    vstd::arithmetic::div_mod::lemma_mod_bound(message as int, radix_power(base, count));
    vstd::arithmetic::div_mod::lemma_mod_decreases(
        message as nat,
        radix_power(base, count) as nat,
    );
    vstd::arithmetic::div_mod::lemma_small_mod(
        (message as int % radix_power(base, count)) as nat,
        0x1_0000_0000_0000_0000,
    );
}

/// Encryption with a public key, then decryption, keeps the first digits of an integer: the
/// blocks that a public key gives for an integer decrypt to the integer reduced by the
/// weight of the first digit that the blocks do not have, provided that the noises of all the
/// encryptions of zero of the key together stay under half of the scaling factor.
pub proof fn lemma_integer_public_key_encrypt_then_decrypt(
    key_state: EngineState,
    state: EngineState,
    client_key: RadixClientKey,
    public_key: PublicKey,
    message: u64,
    num_blocks: int,
)
    requires
        client_key.key.wf(),
        public_key.is_key_of(key_state, client_key.key),
        client_key.key.spec_encryption_noise(public_key.pbs_order).0 <= 0x7fff_ffff_ffff_ffff,
        public_key.noise_bound(client_key.key) < client_key.key.parameters.spec_delta() / 2,
        num_blocks >= 0,
    ensures
        client_key.decrypted(
            RadixClientKey::encrypted_with_public_key(state, public_key, message, num_blocks),
        ) == message as int % radix_power(
            client_key.key.parameters.message_modulus.0 as int,
            num_blocks,
        ),
{
    let base = client_key.key.parameters.message_modulus.0 as int;
    let sup = client_key.key.parameters.modulus_sup();
    let blocks = RadixClientKey::encrypted_with_public_key(state, public_key, message, num_blocks);
    let digits = digits_of(message, base, num_blocks);
    let count = public_key.spec_zero_encryption_count();
    crate::shortint::parameters::lemma_modulus_sup_positive(
        base,
        client_key.key.parameters.carry_modulus.0 as int,
    );
    assert(base <= sup) by (nonlinear_arith)
        requires
            sup == base * client_key.key.parameters.carry_modulus.0,
            client_key.key.parameters.carry_modulus.0 >= 1,
            base >= 1,
    ;
    lemma_digits_recompose(message, base, num_blocks);
    assert forall|i: int| 0 <= i < blocks.len() implies encodes(
        client_key.key,
        #[trigger] blocks[i],
        digits[i],
        public_key.noise_bound(client_key.key),
    ) by {
        lemma_public_key_encryption_encodes(
            key_state,
            state.after_key_generation(i * count),
            client_key.key,
            public_key,
            digits[i] as u64,
        );
        vstd::arithmetic::div_mod::lemma_small_mod(digits[i] as nat, base as nat);
    }
    lemma_blocks_decrypt(client_key, blocks, digits, public_key.noise_bound(client_key.key));
    crate::integer::digits::lemma_radix_power_positive(base, num_blocks);
    vstd::arithmetic::div_mod::lemma_mod_bound(message as int, radix_power(base, num_blocks));
    vstd::arithmetic::div_mod::lemma_mod_decreases(
        message as nat,
        radix_power(base, num_blocks) as nat,
    );
    vstd::arithmetic::div_mod::lemma_small_mod(
        (message as int % radix_power(base, num_blocks)) as nat,
        0x1_0000_0000_0000_0000,
    );
}

/// The block by block sum of two ciphertexts encodes the sums of their values, with the
/// sums of their noises: it stands for the sum of the two integers.
pub proof fn lemma_blocks_added_encode(
    client_key: ClientKey,
    left: Seq<CiphertextView>,
    right: Seq<CiphertextView>,
    left_values: Seq<int>,
    left_noise: int,
    right_values: Seq<int>,
    right_noise: int,
)
    requires
        blocks_encode(client_key, left, left_values, left_noise),
        blocks_encode(client_key, right, right_values, right_noise),
        left.len() == right.len(),
        forall|i: int|
            0 <= i < left.len() ==> {
                &&& (#[trigger] left[i]).pbs_order == right[i].pbs_order
                &&& left[i].degree.0 + right[i].degree.0 <= usize::MAX
            },
    ensures
        blocks_encode(
            client_key,
            blocks_added(left, right),
            Seq::new(left.len(), |i: int| left_values[i] + right_values[i]),
            left_noise + right_noise,
        ),
        blocks_fit(client_key, left) ==> blocks_fit(client_key, blocks_added(left, right)),
        forall|i: int|
            0 <= i < left.len() ==> (#[trigger] blocks_added(left, right)[i]).degree.0
                == left[i].degree.0 + right[i].degree.0,
        radix_sum(
            Seq::new(left.len(), |i: int| left_values[i] + right_values[i]),
            client_key.parameters.message_modulus.0 as int,
            left.len() as int,
        ) == radix_sum(
            left_values,
            client_key.parameters.message_modulus.0 as int,
            left.len() as int,
        ) + radix_sum(
            right_values,
            client_key.parameters.message_modulus.0 as int,
            left.len() as int,
        ),
{
    let sums = Seq::new(left.len(), |i: int| left_values[i] + right_values[i]);
    let added = blocks_added(left, right);
    assert forall|i: int| 0 <= i < added.len() implies encodes(
        client_key,
        #[trigger] added[i],
        sums[i],
        left_noise + right_noise,
    ) by {
        assert(encodes(client_key, left[i], left_values[i], left_noise));
        assert(encodes(client_key, right[i], right_values[i], right_noise));
        lemma_added_encodes(
            client_key,
            left[i],
            right[i],
            left_values[i],
            left_noise,
            right_values[i],
            right_noise,
        );
    }
    lemma_radix_sum_of_sums(
        left_values,
        right_values,
        client_key.parameters.message_modulus.0 as int,
        left.len() as int,
    );
    if blocks_fit(client_key, left) {
        assert forall|i: int| 0 <= i < added.len() implies {
            &&& (#[trigger] added[i]).pbs_order == added[0].pbs_order
            &&& added[i].message_modulus == client_key.parameters.message_modulus
        } by {
            assert(left[i].pbs_order == left[0].pbs_order);
        }
    }
}

/// Propagating the carry of a block propagates the carry of its value: if the blocks
/// encode values, the block encodes a value below the product of the moduli, the next block
/// has the noise of a block that took no carry yet, and the parameters have the budget for
/// that noise and the noise of a bootstrap together, then the blocks after the propagation
/// encode the values after the propagation, with a noise within the two together.
pub proof fn lemma_propagated_encodes(
    generators: KeyGenerators,
    client_key: ClientKey,
    server_key: ServerKey,
    blocks: Seq<CiphertextView>,
    values: Seq<int>,
    noise_bound: int,
    index: int,
)
    requires
        client_key.wf(),
        server_key.is_key_from(generators, client_key),
        noise_bound >= 0,
        client_key.parameters.bootstrap_budget(noise_bound + bootstrapped_noise(client_key)),
        blocks_encode(client_key, blocks, values, noise_bound + bootstrapped_noise(client_key)),
        blocks_fit(client_key, blocks),
        0 <= index < blocks.len(),
        blocks[index].degree.0 < client_key.parameters.modulus_sup(),
        index + 1 < blocks.len() ==> {
            &&& encodes(client_key, blocks[index + 1], values[index + 1], noise_bound)
            &&& blocks[index + 1].degree.0 + carry_degree(client_key) <= usize::MAX
        },
    ensures
        blocks_encode(
            client_key,
            propagated(&server_key, blocks, index),
            carried(values, client_key.parameters.message_modulus.0 as int, index),
            noise_bound + bootstrapped_noise(client_key),
        ),
        blocks_fit(client_key, propagated(&server_key, blocks, index)),
        propagated(&server_key, blocks, index).len() == blocks.len(),
        forall|i: int|
            0 <= i < blocks.len() && i != index && i != index + 1 ==> #[trigger] propagated(
                &server_key,
                blocks,
                index,
            )[i] == blocks[i],
        index + 1 < blocks.len() ==> propagated(&server_key, blocks, index)[index + 1].degree.0
            <= blocks[index + 1].degree.0 + carry_degree(client_key),
{
    let base = client_key.parameters.message_modulus.0 as int;
    let sup = client_key.parameters.modulus_sup();
    let fresh = bootstrapped_noise(client_key);
    let noise = noise_bound + fresh;
    let block = blocks[index];
    let value = values[index];
    let after = propagated(&server_key, blocks, index);
    let after_values = carried(values, base, index);
    lemma_keyswitch_bound_positive(client_key.parameters);
    crate::shortint::parameters::lemma_modulus_sup_positive(
        base,
        client_key.parameters.carry_modulus.0 as int,
    );
    vstd::arithmetic::div_mod::lemma_div_pos_is_pos(sup - 1, base);
    assert(encodes(client_key, block, value, noise));
    if block.carry_is_empty() {
        vstd::arithmetic::div_mod::lemma_small_mod(value as nat, base as nat);
        vstd::arithmetic::div_mod::lemma_basic_div(value, base);
        assert(after_values =~= values);
    } else {
        lemma_message_extracted_encodes(generators, client_key, server_key, block, value, noise);
        lemma_carry_extracted_encodes(generators, client_key, server_key, block, value, noise);
        let message = server_key.message_extracted(block);
        let carry = server_key.carry_extracted(block);
        lemma_encodes_with_more_noise(client_key, message, value % base, fresh, noise);
        if index + 1 < blocks.len() {
            let next = blocks[index + 1];
            lemma_added_encodes(
                client_key,
                next,
                carry,
                values[index + 1],
                noise_bound,
                value / base,
                fresh,
            );
        }
        assert forall|i: int| 0 <= i < after.len() implies encodes(
            client_key,
            #[trigger] after[i],
            after_values[i],
            noise,
        ) by {
            if i != index && i != index + 1 {
                assert(after[i] == blocks[i]);
                assert(encodes(client_key, blocks[i], values[i], noise));
            }
        }
        assert forall|i: int| 0 <= i < after.len() implies {
            &&& (#[trigger] after[i]).pbs_order == after[0].pbs_order
            &&& after[i].message_modulus == client_key.parameters.message_modulus
        } by {
            assert(blocks[i].pbs_order == blocks[0].pbs_order);
            assert(blocks[index].pbs_order == blocks[0].pbs_order);
        }
    }
}

/// Propagating the carries of the first blocks propagates the carries of their values: if
/// the blocks encode values, every block has room for a carry below the product of the
/// moduli, and the parameters have the budget for the noise of the blocks and the noise of a
/// bootstrap together, then the blocks after the propagation encode the values after the
/// propagation, with a noise within the two together.
pub proof fn lemma_fully_propagated_encodes(
    generators: KeyGenerators,
    client_key: ClientKey,
    server_key: ServerKey,
    blocks: Seq<CiphertextView>,
    values: Seq<int>,
    noise_bound: int,
    count: int,
)
    requires
        client_key.wf(),
        server_key.is_key_from(generators, client_key),
        noise_bound >= 0,
        client_key.parameters.bootstrap_budget(noise_bound + bootstrapped_noise(client_key)),
        blocks_encode(client_key, blocks, values, noise_bound),
        blocks_fit(client_key, blocks),
        0 <= count <= blocks.len(),
        forall|i: int|
            0 <= i < blocks.len() ==> (#[trigger] blocks[i]).degree.0 + carry_degree(client_key)
                < client_key.parameters.modulus_sup(),
    ensures
        blocks_encode(
            client_key,
            fully_propagated(&server_key, blocks, count),
            fully_carried(values, client_key.parameters.message_modulus.0 as int, count),
            noise_bound + bootstrapped_noise(client_key),
        ),
        blocks_fit(client_key, fully_propagated(&server_key, blocks, count)),
        fully_propagated(&server_key, blocks, count).len() == blocks.len(),
        forall|i: int|
            count < i < blocks.len() ==> #[trigger] fully_propagated(&server_key, blocks, count)[i]
                == blocks[i],
        count < blocks.len() ==> fully_propagated(&server_key, blocks, count)[count].degree.0
            <= blocks[count].degree.0 + carry_degree(client_key),
    decreases count,
{
    let base = client_key.parameters.message_modulus.0 as int;
    let sup = client_key.parameters.modulus_sup();
    let fresh = bootstrapped_noise(client_key);
    let noise = noise_bound + fresh;
    lemma_keyswitch_bound_positive(client_key.parameters);
    crate::shortint::parameters::lemma_modulus_sup_positive(
        base,
        client_key.parameters.carry_modulus.0 as int,
    );
    vstd::arithmetic::div_mod::lemma_div_pos_is_pos(sup - 1, base);
    if count <= 0 {
        assert forall|i: int| 0 <= i < blocks.len() implies encodes(
            client_key,
            #[trigger] blocks[i],
            values[i],
            noise,
        ) by {
            assert(encodes(client_key, blocks[i], values[i], noise_bound));
            lemma_encodes_with_more_noise(client_key, blocks[i], values[i], noise_bound, noise);
        }
    } else {
        lemma_fully_propagated_encodes(
            generators,
            client_key,
            server_key,
            blocks,
            values,
            noise_bound,
            count - 1,
        );
        let before = fully_propagated(&server_key, blocks, count - 1);
        let before_values = fully_carried(values, base, count - 1);
        assert forall|i: int| 0 <= i < values.len() implies #[trigger] values[i] >= 0 by {
            assert(encodes(client_key, blocks[i], values[i], noise_bound));
        }
        lemma_fully_carried(values, base, count - 1);
        assert(blocks[count - 1].degree.0 + carry_degree(client_key) < sup);
        if count < blocks.len() {
            assert(before[count] == blocks[count]);
            assert(before_values[count] == values[count]);
            assert(encodes(client_key, blocks[count], values[count], noise_bound));
        }
        lemma_propagated_encodes(
            generators,
            client_key,
            server_key,
            before,
            before_values,
            noise_bound,
            count - 1,
        );
        let after = propagated(&server_key, before, count - 1);
        assert forall|i: int| count < i < blocks.len() implies #[trigger] after[i]
            == blocks[i] by {
            assert(after[i] == before[i]);
        }
    }
}

/// Propagating all the carries gives the digits: under the conditions of
/// [`lemma_fully_propagated_encodes`], the blocks after the propagation decrypt to the
/// integer that the values stood for, reduced by the weight of the first digit that the
/// blocks do not have.
pub proof fn lemma_full_propagation_decrypts(
    generators: KeyGenerators,
    client_key: RadixClientKey,
    server_key: ServerKey,
    blocks: Seq<CiphertextView>,
    values: Seq<int>,
    noise_bound: int,
)
    requires
        client_key.key.wf(),
        server_key.is_key_from(generators, client_key.key),
        noise_bound >= 0,
        client_key.key.parameters.bootstrap_budget(
            noise_bound + bootstrapped_noise(client_key.key),
        ),
        blocks_encode(client_key.key, blocks, values, noise_bound),
        blocks_fit(client_key.key, blocks),
        blocks.len() >= 1,
        forall|i: int|
            0 <= i < blocks.len() ==> (#[trigger] blocks[i]).degree.0 + carry_degree(
                client_key.key,
            ) < client_key.key.parameters.modulus_sup(),
    ensures
        client_key.decrypted(fully_propagated(&server_key, blocks, blocks.len() as int))
            == torus(
            radix_sum(
                values,
                client_key.key.parameters.message_modulus.0 as int,
                values.len() as int,
            ) % radix_power(
                client_key.key.parameters.message_modulus.0 as int,
                values.len() as int,
            ),
        ),
{
    let base = client_key.key.parameters.message_modulus.0 as int;
    let sup = client_key.key.parameters.modulus_sup();
    let len = blocks.len() as int;
    let after = fully_propagated(&server_key, blocks, len);
    let after_values = fully_carried(values, base, len);
    lemma_fully_propagated_encodes(
        generators,
        client_key.key,
        server_key,
        blocks,
        values,
        noise_bound,
        len,
    );
    assert forall|i: int| 0 <= i < values.len() implies #[trigger] values[i] >= 0 by {
        assert(encodes(client_key.key, blocks[i], values[i], noise_bound));
    }
    lemma_fully_carried_sum(values, base);
    lemma_fully_carried(values, base, len);
    crate::shortint::parameters::lemma_modulus_sup_positive(
        base,
        client_key.key.parameters.carry_modulus.0 as int,
    );
    assert(base <= sup) by (nonlinear_arith)
        requires
            sup == base * client_key.key.parameters.carry_modulus.0,
            client_key.key.parameters.carry_modulus.0 >= 1,
            base >= 1,
    ;
    lemma_budget_bounds_noise(
        client_key.key.parameters,
        noise_bound + bootstrapped_noise(client_key.key),
    );
    lemma_blocks_decrypt(
        client_key,
        after,
        after_values,
        noise_bound + bootstrapped_noise(client_key.key),
    );
}

/// The sum of two encoded integers: the block by block sum of blocks that encode values,
/// after all the carries are propagated, decrypts to the sum of the integers that the
/// values stand for, reduced by the weight of the first digit that the blocks do not have.
pub proof fn lemma_sum_of_blocks_decrypts(
    generators: KeyGenerators,
    client_key: RadixClientKey,
    server_key: ServerKey,
    left: Seq<CiphertextView>,
    right: Seq<CiphertextView>,
    left_values: Seq<int>,
    right_values: Seq<int>,
    noise_bound: int,
)
    requires
        client_key.key.wf(),
        server_key.is_key_from(generators, client_key.key),
        noise_bound >= 0,
        client_key.key.parameters.bootstrap_budget(
            2 * noise_bound + bootstrapped_noise(client_key.key),
        ),
        blocks_encode(client_key.key, left, left_values, noise_bound),
        blocks_encode(client_key.key, right, right_values, noise_bound),
        blocks_fit(client_key.key, left),
        left.len() == right.len(),
        left.len() >= 1,
        forall|i: int|
            0 <= i < left.len() ==> {
                &&& (#[trigger] left[i]).pbs_order == right[i].pbs_order
                &&& left[i].degree.0 + right[i].degree.0 + carry_degree(client_key.key)
                    < client_key.key.parameters.modulus_sup()
            },
    ensures
        client_key.decrypted(
            fully_propagated(&server_key, blocks_added(left, right), left.len() as int),
        ) == torus(
            (radix_sum(
                left_values,
                client_key.key.parameters.message_modulus.0 as int,
                left.len() as int,
            ) + radix_sum(
                right_values,
                client_key.key.parameters.message_modulus.0 as int,
                left.len() as int,
            )) % radix_power(client_key.key.parameters.message_modulus.0 as int, left.len() as int),
        ),
{
    let base = client_key.key.parameters.message_modulus.0 as int;
    let sup = client_key.key.parameters.modulus_sup();
    let sums = Seq::new(left.len(), |i: int| left_values[i] + right_values[i]);
    let added = blocks_added(left, right);
    crate::shortint::parameters::lemma_modulus_sup_positive(
        base,
        client_key.key.parameters.carry_modulus.0 as int,
    );
    vstd::arithmetic::div_mod::lemma_div_pos_is_pos(sup - 1, base);
    assert forall|i: int| 0 <= i < left.len() implies (#[trigger] left[i]).degree.0
        + right[i].degree.0 <= usize::MAX by {
        assert(left[i].pbs_order == right[i].pbs_order);
    }
    lemma_blocks_added_encode(
        client_key.key,
        left,
        right,
        left_values,
        noise_bound,
        right_values,
        noise_bound,
    );
    assert forall|i: int| 0 <= i < added.len() implies (#[trigger] added[i]).degree.0
        + carry_degree(client_key.key) < sup by {
        assert(left[i].pbs_order == right[i].pbs_order);
    }
    lemma_full_propagation_decrypts(
        generators,
        client_key,
        server_key,
        added,
        sums,
        noise_bound + noise_bound,
    );
}

/// The sum of two integers: the block by block sum of the encryptions of two integers,
/// after all the carries are propagated, decrypts to the sum of the integers, reduced by the
/// weight of the first digit that the blocks do not have. It holds for parameters with the
/// budget for the noise of two fresh encryptions and of a bootstrap together, and with room
/// in a block for two digits and a carry.
pub proof fn lemma_sum_of_integers(
    left_state: EngineState,
    right_state: EngineState,
    key_generators: KeyGenerators,
    client_key: RadixClientKey,
    server_key: ServerKey,
    left: u64,
    right: u64,
    order: PBSOrder,
)
    requires
        client_key.key.wf(),
        client_key.num_blocks >= 1,
        server_key.is_key_from(key_generators, client_key.key),
        client_key.key.spec_encryption_noise(order).0 <= 0x7fff_ffff_ffff_ffff,
        client_key.key.parameters.bootstrap_budget(
            6 * client_key.key.spec_encryption_noise(order).0 + bootstrapped_noise(
                client_key.key,
            ),
        ),
        2 * (client_key.key.parameters.message_modulus.0 - 1) + carry_degree(client_key.key)
            < client_key.key.parameters.modulus_sup(),
    ensures
        client_key.decrypted(
            fully_propagated(
                &server_key,
                blocks_added(
                    client_key.encrypted(left_state, left, order),
                    client_key.encrypted(right_state, right, order),
                ),
                client_key.num_blocks as int,
            ),
        ) == torus(
            (left + right) % radix_power(
                client_key.key.parameters.message_modulus.0 as int,
                client_key.num_blocks as int,
            ),
        ),
{
    let base = client_key.key.parameters.message_modulus.0 as int;
    let count = client_key.num_blocks as int;
    let noise = 3 * client_key.key.spec_encryption_noise(order).0;
    let left_blocks = client_key.encrypted(left_state, left, order);
    let right_blocks = client_key.encrypted(right_state, right, order);
    let left_digits = digits_of(left, base, count);
    let right_digits = digits_of(right, base, count);
    let weight = radix_power(base, count);
    lemma_encrypted_blocks_encode(left_state, client_key, left, order);
    lemma_encrypted_blocks_encode(right_state, client_key, right, order);
    assert(left_blocks.len() == count && right_blocks.len() == count);
    assert forall|i: int| 0 <= i < count implies {
        &&& (#[trigger] left_blocks[i]).pbs_order == right_blocks[i].pbs_order
        &&& left_blocks[i].degree.0 + right_blocks[i].degree.0 + carry_degree(client_key.key)
            < client_key.key.parameters.modulus_sup()
    } by {
        assert(left_blocks[i].degree.0 == base - 1);
        assert(right_blocks[i].degree.0 == base - 1);
        assert(left_blocks[i].pbs_order == order);
        assert(right_blocks[i].pbs_order == order);
    }
    lemma_sum_of_blocks_decrypts(
        key_generators,
        client_key,
        server_key,
        left_blocks,
        right_blocks,
        left_digits,
        right_digits,
        noise,
    );
    lemma_digits_recompose(left, base, count);
    lemma_digits_recompose(right, base, count);
    crate::integer::digits::lemma_radix_power_positive(base, count);
    vstd::arithmetic::div_mod::lemma_add_mod_noop(left as int, right as int, weight);
}

} // verus!
