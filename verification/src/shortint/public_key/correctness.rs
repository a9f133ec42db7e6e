//! Why a ciphertext made with a public key decrypts to its message: the encryptions of zero
//! add nothing to the phase but their noise.
use crate::core_crypto::algorithms::lwe_encryption::{lemma_phase_of_encryption, lwe_phase};
use crate::core_crypto::algorithms::lwe_keyswitch_correctness::lemma_sum_of_products_of_zeros;
use crate::core_crypto::algorithms::lwe_keyswitch_key_generation::generator_of_keyswitch_row;
use crate::core_crypto::algorithms::lwe_linear_algebra::lemma_phase_of_sum;
use crate::core_crypto::algorithms::polynomial_algorithms::{
    lemma_concat_polynomials,
    polynomial_of,
};
use crate::core_crypto::commons::generators::{
    lemma_noise_bounded,
    noise_draw,
    EncryptionRandomGenerator,
};
use crate::core_crypto::commons::numeric::{
    congruent,
    lemma_congruent_ops,
    lemma_congruent_torus,
};
use crate::core_crypto::commons::parameters::StandardDev;
use crate::shortint::client_key::ClientKey;
use crate::shortint::engine::client_side::{decrypted, encoded};
use crate::shortint::engine::public_side::zero_encryption_count;
use crate::shortint::engine::EngineState;
use crate::shortint::public_key::{
    selected_sum,
    trivial_encryption,
    zero_encryption,
    zero_encryptions,
    PublicKey,
};
use crate::shortint::server_key::encodings::{encodes, is_noisy_encoding, lemma_encoding_decrypts};
use vstd::prelude::*;

verus! {

/// The noise of the encryption of zero of index `row`, as a signed integer.
pub open spec fn zero_encryption_noise(
    generator: EncryptionRandomGenerator,
    dimension: int,
    std: StandardDev,
    row: int,
) -> int {
    noise_draw(generator_of_keyswitch_row(generator, dimension, row).noise.advanced(0), std)
}

/// The sum of the noises of those of the first `rows` encryptions of zero whose selection
/// bit is one.
pub open spec fn selected_noise(
    generator: EncryptionRandomGenerator,
    dimension: int,
    std: StandardDev,
    bits: Seq<u64>,
    rows: int,
) -> int
    decreases rows,
{
    if rows <= 0 {
        0
    } else {
        selected_noise(generator, dimension, std, bits, rows - 1) + if bits[rows - 1] == 1 {
            zero_encryption_noise(generator, dimension, std, rows - 1)
        } else {
            0
        }
    }
}

/// The phase of an encryption of zero is its noise.
pub proof fn lemma_phase_of_zero_encryption(
    generator: EncryptionRandomGenerator,
    key: Seq<u64>,
    std: StandardDev,
    row: int,
)
    requires
        std.0 <= 0x7fff_ffff_ffff_ffff,
    ensures
        zero_encryption(generator, key, std, row).len() == key.len() + 1,
        congruent(
            lwe_phase(key, zero_encryption(generator, key, std, row)) as int,
            zero_encryption_noise(generator, key.len() as int, std, row),
        ),
        -3 * std.0 <= zero_encryption_noise(generator, key.len() as int, std, row) <= 3 * std.0,
{
    let at_row = generator_of_keyswitch_row(generator, key.len() as int, row);
    let noise = at_row.noise_at(0, std);
    lemma_phase_of_encryption(key, at_row.mask.words(key.len()), 0, noise);
    lemma_noise_bounded(at_row.noise.advanced(0), std);
    lemma_congruent_torus(noise_draw(at_row.noise.advanced(0), std));
    lemma_congruent_torus(0 + noise);
}

/// The phase of a sum of selected encryptions of zero is the phase of the ciphertext that
/// the sum starts from, plus the noises of the selected encryptions, each within three
/// standard deviations.
pub proof fn lemma_phase_of_selected_sum(
    generator: EncryptionRandomGenerator,
    key: Seq<u64>,
    std: StandardDev,
    bits: Seq<u64>,
    start: Seq<u64>,
    rows: int,
    count: int,
)
    requires
        std.0 <= 0x7fff_ffff_ffff_ffff,
        0 <= rows <= count,
        start.len() == key.len() + 1,
    ensures
        selected_sum(
            zero_encryptions(generator, key, std, count),
            (key.len() + 1) as int,
            bits,
            start,
            rows,
        ).len() == key.len() + 1,
        congruent(
            lwe_phase(
                key,
                selected_sum(
                    zero_encryptions(generator, key, std, count),
                    (key.len() + 1) as int,
                    bits,
                    start,
                    rows,
                ),
            ) as int,
            lwe_phase(key, start) + selected_noise(generator, key.len() as int, std, bits, rows),
        ),
        -rows * (3 * std.0) <= selected_noise(generator, key.len() as int, std, bits, rows) <= rows
            * (3 * std.0),
    decreases rows,
{
    let size = key.len() + 1;
    let public_key = zero_encryptions(generator, key, std, count);
    if rows <= 0 {
        lemma_congruent_torus(lwe_phase(key, start) as int);
        assert(0 * (3 * std.0) == 0) by (nonlinear_arith);
    } else {
        lemma_phase_of_selected_sum(generator, key, std, bits, start, rows - 1, count);
        let before = selected_sum(public_key, size as int, bits, start, rows - 1);
        let before_noise = selected_noise(generator, key.len() as int, std, bits, rows - 1);
        assert(rows * (3 * std.0) == (rows - 1) * (3 * std.0) + 3 * std.0) by (nonlinear_arith);
        assert(-rows * (3 * std.0) == -(rows - 1) * (3 * std.0) - 3 * std.0) by (nonlinear_arith);
        if bits[rows - 1] == 1 {
            let f = |row: int| zero_encryption(generator, key, std, row);
            assert forall|i: int| 0 <= i < count implies (#[trigger] f(i)).len() == size by {
                lemma_phase_of_zero_encryption(generator, key, std, i);
            }
            lemma_concat_polynomials(f, count, size as int);
            let zero = polynomial_of(public_key, rows - 1, size as int);
            assert(zero == f(rows - 1));
            lemma_phase_of_zero_encryption(generator, key, std, rows - 1);
            lemma_phase_of_sum(key, before, zero);
            lemma_congruent_torus(lwe_phase(key, before) + lwe_phase(key, zero));
            lemma_congruent_ops(
                lwe_phase(key, before) as int,
                lwe_phase(key, start) + before_noise,
                lwe_phase(key, zero) as int,
                zero_encryption_noise(generator, key.len() as int, std, rows - 1),
            );
        }
    }
}

impl PublicKey {
    /// Whether this is the public key that an engine in the state `state` generates for a
    /// client key, for the ciphertexts of the order of the key.
    pub open spec fn is_key_of(&self, state: EngineState, client_key: ClientKey) -> bool {
        &&& self.wf()
        &&& self.lwe_public_key@ == zero_encryptions(
            state.encryption_generator,
            client_key.spec_encryption_key(self.pbs_order),
            client_key.spec_encryption_noise(self.pbs_order),
            zero_encryption_count(client_key.spec_encryption_key(self.pbs_order).len() + 1),
        )
        &&& self.lwe_size.0 == client_key.spec_encryption_key(self.pbs_order).len() + 1
        &&& self.spec_zero_encryption_count() == zero_encryption_count(
            client_key.spec_encryption_key(self.pbs_order).len() + 1,
        )
        &&& self.parameters == client_key.parameters
    }

    /// The largest noise of a ciphertext made with the key: three standard deviations for
    /// each encryption of zero.
    pub open spec fn noise_bound(&self, client_key: ClientKey) -> int {
        self.spec_zero_encryption_count() * (3 * client_key.spec_encryption_noise(
            self.pbs_order,
        ).0)
    }
}

/// The ciphertext that a public key gives for a message encodes the message reduced by the
/// message modulus, with a noise within three standard deviations for each encryption of
/// zero of the key, and its degree bounds it.
pub proof fn lemma_public_key_encryption_encodes(
    key_state: EngineState,
    state: EngineState,
    client_key: ClientKey,
    public_key: PublicKey,
    message: u64,
)
    requires
        client_key.wf(),
        public_key.is_key_of(key_state, client_key),
        client_key.spec_encryption_noise(public_key.pbs_order).0 <= 0x7fff_ffff_ffff_ffff,
    ensures
        encodes(
            client_key,
            state.public_key_encryption(public_key, message),
            message as int % client_key.parameters.message_modulus.0 as int,
            public_key.noise_bound(client_key),
        ),
{
    let key = client_key.spec_encryption_key(public_key.pbs_order);
    let std = client_key.spec_encryption_noise(public_key.pbs_order);
    let count = public_key.spec_zero_encryption_count();
    let base = client_key.parameters.message_modulus.0 as int;
    let delta = client_key.parameters.spec_delta() as int;
    let value = message as int % base;
    let plaintext = encoded(client_key.parameters, message, base);
    let start = trivial_encryption(plaintext, public_key.lwe_size.0 as int);
    let bits = state.secret_generator.bits(count as nat);
    lemma_phase_of_selected_sum(
        key_state.encryption_generator,
        key,
        std,
        bits,
        start,
        count,
        count,
    );
    let noise = selected_noise(key_state.encryption_generator, key.len() as int, std, bits, count);
    lemma_sum_of_products_of_zeros(start.drop_last(), key);
    assert(lwe_phase(key, start) == plaintext) by {
        lemma_congruent_torus(value * delta);
        vstd::arithmetic::div_mod::lemma_small_mod(plaintext as nat, 0x1_0000_0000_0000_0000);
    }
    lemma_congruent_torus(value * delta);
    lemma_congruent_ops(plaintext as int, value * delta, noise, noise);
    vstd::arithmetic::div_mod::lemma_mod_bound(message as int, base);
    let ct = state.public_key_encryption(public_key, message);
    assert(-count * (3 * std.0) == -(count * (3 * std.0))) by (nonlinear_arith);
    assert(ct.ct == selected_sum(
        zero_encryptions(key_state.encryption_generator, key, std, count),
        (key.len() + 1) as int,
        bits,
        start,
        count,
    ));
    assert(is_noisy_encoding(lwe_phase(key, ct.ct), delta, value, noise));
}

/// Encryption with a public key, then decryption, is the identity on messages: the
/// ciphertext that a public key gives for a message below the message modulus decrypts to
/// the message, provided that the noises of all the encryptions of zero together stay under
/// half of the scaling factor.
pub proof fn lemma_public_key_encrypt_then_decrypt(
    key_state: EngineState,
    state: EngineState,
    client_key: ClientKey,
    public_key: PublicKey,
    message: u64,
)
    requires
        client_key.wf(),
        public_key.is_key_of(key_state, client_key),
        client_key.spec_encryption_noise(public_key.pbs_order).0 <= 0x7fff_ffff_ffff_ffff,
        public_key.noise_bound(client_key) < client_key.parameters.spec_delta() / 2,
        message < client_key.parameters.message_modulus.0,
    ensures
        decrypted(client_key, state.public_key_encryption(public_key, message)) == message,
{
    let base = client_key.parameters.message_modulus.0 as int;
    let sup = client_key.parameters.modulus_sup();
    lemma_public_key_encryption_encodes(key_state, state, client_key, public_key, message);
    crate::shortint::parameters::lemma_modulus_sup_positive(
        base,
        client_key.parameters.carry_modulus.0 as int,
    );
    assert(base <= sup) by (nonlinear_arith)
        requires
            sup == base * client_key.parameters.carry_modulus.0,
            client_key.parameters.carry_modulus.0 >= 1,
            base >= 1,
    ;
    vstd::arithmetic::div_mod::lemma_small_mod(message as nat, base as nat);
    lemma_encoding_decrypts(
        client_key,
        state.public_key_encryption(public_key, message),
        message as int,
        public_key.noise_bound(client_key),
    );
}

} // verus!
