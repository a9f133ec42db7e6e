//! The engine: the random generators and the scratch memory behind every operation.
use crate::core_crypto::commons::generators::{
    DeterministicSeeder,
    EncryptionRandomGenerator,
    RandomGenerator,
    SecretRandomGenerator,
    Seed,
    Seeder,
};
use crate::core_crypto::commons::numeric::{lemma_wrapping_is_torus, torus};
use crate::core_crypto::commons::traits::ContainerMut;
use crate::core_crypto::entities::glwe_ciphertext::GlweCiphertext;
use crate::core_crypto::entities::lwe_ciphertext::LweCiphertext;
use crate::shortint::ciphertext::Degree;
use crate::shortint::parameters::MessageModulus;
use crate::shortint::server_key::{
    BivariateLookupTable,
    BivariateLookupTableOwned,
    LookupTable,
    LookupTableMutView,
    LookupTableOwned,
    ServerKey,
};
use vstd::prelude::*;

pub mod client_side;
pub mod public_side;
pub mod server_side;

verus! {

/// The error of an engine operation, as a message.
#[derive(Debug)]
pub struct EngineError {
    pub message: String,
}

/// The result of an engine operation.
pub type EngineResult<T> = Result<T, EngineError>;

/// Scratch memory for the temporaries of the bootstrap.
#[derive(Debug)]
pub struct ComputationBuffers {
    pub buffer: Vec<u64>,
}

/// Scratch memory for the accumulator and the intermediate ciphertexts of the bootstrap.
#[derive(Debug)]
pub struct Memory {
    pub buffer: Vec<u64>,
}

impl Default for ComputationBuffers {
    fn default() -> (buffers: Self)
        ensures
            buffers.buffer@.len() == 0,
    {
        ComputationBuffers { buffer: Vec::new() }
    }
}

impl Default for Memory {
    fn default() -> (memory: Self)
        ensures
            memory.buffer@.len() == 0,
    {
        Memory { buffer: Vec::new() }
    }
}

/// The engine holds the three random generators, whose positions decide every key and
/// ciphertext that it makes, and the scratch memory of the server side operations.
#[derive(Debug)]
pub struct ShortintEngine {
    /// The generator of the bits of secret keys.
    pub secret_generator: SecretRandomGenerator,
    /// The generator of the masks and of the noise of encryptions.
    pub encryption_generator: EncryptionRandomGenerator,
    /// The seeder of seeded entities.
    pub seeder: DeterministicSeeder,
    pub computation_buffers: ComputationBuffers,
    pub ciphertext_buffers: Memory,
}

/// The state of the generators of an engine: all that its results depend on.
pub struct EngineState {
    pub secret_generator: SecretRandomGenerator,
    pub encryption_generator: EncryptionRandomGenerator,
    pub seeder: DeterministicSeeder,
}

impl View for ShortintEngine {
    type V = EngineState;

    open spec fn view(&self) -> EngineState {
        EngineState {
            secret_generator: self.secret_generator,
            encryption_generator: self.encryption_generator,
            seeder: self.seeder,
        }
    }
}

impl EngineState {
    /// The state of an engine that starts from `seed`: the seeder of the engine is the
    /// stream of `seed`, its first seed starts the secret generator, its second the masks and
    /// its third the noise.
    pub open spec fn initial(seed: Seed) -> EngineState {
        let seeder = DeterministicSeeder { generator: RandomGenerator { key: seed.0, position: 0 } };
        EngineState {
            secret_generator: SecretRandomGenerator {
                generator: RandomGenerator { key: seeder.generator.spec_seed().0, position: 0 },
            },
            encryption_generator: EncryptionRandomGenerator::spec_new(
                seeder.advanced(1).generator.spec_seed(),
                seeder.advanced(2),
            ),
            seeder: seeder.advanced(3),
        }
    }
}

impl ShortintEngine {
    /// Create an engine whose generators start from the next seed of `root_seeder`: the
    /// engine is the one of [`ShortintEngine::from_root_seed`] for that seed. Its three
    /// generators are those of the seed, and its two scratch buffers are empty.
    pub fn new_from_seeder<S: Seeder>(root_seeder: &mut S) -> (engine: Self)
        ensures
            engine@ == EngineState::initial(old(root_seeder).spec_next_seed()),
            engine.computation_buffers.buffer@.len() == 0,
            engine.ciphertext_buffers.buffer@.len() == 0,
    {
        let seed = root_seeder.seed();
        Self::from_root_seed(seed)
    }

    /// Create the engine that starts from `seed`: its three generators are those of the
    /// seed, and its two scratch buffers are empty.
    pub fn from_root_seed(seed: Seed) -> (engine: Self)
        ensures
            engine@ == EngineState::initial(seed),
            engine.computation_buffers.buffer@.len() == 0,
            engine.ciphertext_buffers.buffer@.len() == 0,
    {
        let mut deterministic_seeder = DeterministicSeeder::new(seed);
        let secret_seed = deterministic_seeder.next_seed();
        let mask_seed = deterministic_seeder.next_seed();
        let encryption_generator = EncryptionRandomGenerator::new(
            mask_seed,
            &mut deterministic_seeder,
        );
        proof {
            let first = DeterministicSeeder {
                generator: RandomGenerator { key: seed.0, position: 0 },
            };
            crate::core_crypto::commons::generators::lemma_advanced_twice(first.generator, 2, 2);
            crate::core_crypto::commons::generators::lemma_advanced_twice(first.generator, 4, 2);
        }
        ShortintEngine {
            secret_generator: SecretRandomGenerator::new(secret_seed),
            encryption_generator,
            seeder: deterministic_seeder,
            computation_buffers: ComputationBuffers::default(),
            ciphertext_buffers: Memory::default(),
        }
    }
}

/// The largest of the values of a table, and zero for an empty table.
pub open spec fn max_value(values: Seq<u64>) -> u64
    decreases values.len(),
{
    if values.len() == 0 {
        0
    } else {
        let before = max_value(values.drop_last());
        if values.last() > before {
            values.last()
        } else {
            before
        }
    }
}

/// The largest value of a table is one of its values, or zero, and none is above it.
pub proof fn lemma_max_value_bounds(values: Seq<u64>)
    ensures
        forall|i: int| 0 <= i < values.len() ==> values[i] <= max_value(values),
        values.len() > 0 ==> exists|i: int| 0 <= i < values.len() && values[i] == max_value(values),
    decreases values.len(),
{
    if values.len() > 0 {
        let before = values.drop_last();
        lemma_max_value_bounds(before);
        assert forall|i: int| 0 <= i < values.len() implies values[i] <= max_value(values) by {
            if i < values.len() - 1 {
                assert(before[i] == values[i]);
            }
        }
        if values.last() > max_value(before) || before.len() == 0 {
            assert(values[values.len() - 1] == max_value(values));
        } else {
            let i = choose|i: int| 0 <= i < before.len() && before[i] == max_value(before);
            assert(values[i] == max_value(values));
        }
    }
}

/// A table whose values are all at most `bound` has a largest value that is at most `bound`.
pub proof fn lemma_max_value_at_most(values: Seq<u64>, bound: u64)
    requires
        forall|i: int| 0 <= i < values.len() ==> values[i] <= bound,
    ensures
        max_value(values) <= bound,
    decreases values.len(),
{
    if values.len() > 0 {
        let before = values.drop_last();
        assert forall|i: int| 0 <= i < before.len() implies before[i] <= bound by {
            assert(before[i] == values[i]);
        }
        lemma_max_value_at_most(before, bound);
    }
}

/// Whether `values` holds, for every input below `count`, a value that `f` may return for
/// it.
pub open spec fn is_table_of<F: Fn(u64) -> u64>(f: F, values: Seq<u64>, count: int) -> bool {
    &&& values.len() == count
    &&& forall|i: int| 0 <= i < count ==> call_ensures(f, (i as u64,), #[trigger] values[i])
}

/// The body of the accumulator of a table: a polynomial of the size of `old_body` cut in
/// boxes of `size / values.len()` coefficients, where the box of the input `i` holds
/// `values[i] * delta`. Coefficients beyond the last box are those of `old_body`. The first
/// half box is negated, and the whole is rotated to the left by half a box, so that the box
/// of an input is centred on the phase that encodes it.
pub open spec fn accumulator_body(old_body: Seq<u64>, values: Seq<u64>, delta: u64) -> Seq<u64> {
    let size = old_body.len() as int;
    let box_size = size / (values.len() as int);
    let half_box_size = box_size / 2;
    Seq::new(
        old_body.len(),
        |j: int|
            {
                let source = (j + half_box_size) % size;
                let raw = if source < values.len() * box_size {
                    torus(values[source / box_size] * delta)
                } else {
                    old_body[source]
                };
                if source < half_box_size {
                    torus(-raw)
                } else {
                    raw
                }
            },
    )
}

/// The accumulator of a table: a GLWE ciphertext with a zero mask and, as the body, the
/// polynomial of [`accumulator_body`].
pub open spec fn accumulator_of(
    old_accumulator: Seq<u64>,
    values: Seq<u64>,
    delta: u64,
    polynomial_size: int,
) -> Seq<u64> {
    let mask_len = old_accumulator.len() - polynomial_size;
    Seq::new(
        old_accumulator.len(),
        |p: int|
            if p < mask_len {
                0u64
            } else {
                accumulator_body(
                    old_accumulator.subrange(mask_len, old_accumulator.len() as int),
                    values,
                    delta,
                )[p - mask_len]
            },
    )
}

/// Evaluate `f` on every input below `count`.
pub fn evaluate_on_inputs<F: Fn(u64) -> u64>(f: &F, count: usize) -> (values: Vec<u64>)
    requires
        forall|i: u64| i < count ==> call_requires(*f, (i,)),
    ensures
        is_table_of(*f, values@, count as int),
{
    let mut values: Vec<u64> = Vec::with_capacity(count);
    let mut i: usize = 0;
    while i < count
        invariant
            i <= count,
            values@.len() == i,
            forall|k: u64| k < count ==> call_requires(*f, (k,)),
            forall|j: int| 0 <= j < i ==> call_ensures(*f, (j as u64,), #[trigger] values@[j]),
        decreases count - i,
    {
        let value = f(i as u64);
        values.push(value);
        i += 1;
    }
    values
}

/// The largest of the values of a table.
pub fn largest_value(values: &[u64]) -> (largest: u64)
    ensures
        largest == max_value(values@),
{
    let n = values.len();
    let mut largest: u64 = 0;
    let mut i: usize = 0;
    assert(values@.take(0).len() == 0);
    while i < n
        invariant
            n == values@.len(),
            i <= n,
            largest == max_value(values@.take(i as int)),
        decreases n - i,
    {
        assert(values@.take(i + 1).drop_last() =~= values@.take(i as int));
        if values[i] > largest {
            largest = values[i];
        }
        i += 1;
    }
    assert(values@.take(n as int) =~= values@);
    largest
}

/// Fill the scalars of an accumulator with the table `values`, one value for each input
/// below the product of the moduli of the server key, and give the largest value: the mask
/// becomes zero, and the body holds the boxes of the table, rotated by half a box.
pub fn fill_accumulator_scalars(slice: &mut [u64], server_key: &ServerKey, values: &[u64]) -> (max_value:
    u64)
    requires
        server_key.wf(),
        old(slice)@.len() == server_key.glwe_len(),
        values@.len() == server_key.modulus_sup(),
    ensures
        final(slice)@ == accumulator_of(
            old(slice)@,
            values@,
            server_key.spec_delta(),
            server_key.bootstrapping_key.polynomial_size.0 as int,
        ),
        final(slice)@.len() == old(slice)@.len(),
        max_value == self::max_value(values@),
{
    let polynomial_size = server_key.bootstrapping_key.polynomial_size.0;
    let glwe_size = server_key.bootstrapping_key.glwe_size.0;
    let delta = server_key.delta();
    let modulus_sup = server_key.message_modulus.0 * server_key.carry_modulus.0;
    let box_size = polynomial_size / modulus_sup;
    let half_box_size = box_size / 2;
    proof {
        vstd::arithmetic::div_mod::lemma_fundamental_div_mod(
            polynomial_size as int,
            modulus_sup as int,
        );
        vstd::arithmetic::div_mod::lemma_mod_bound(polynomial_size as int, modulus_sup as int);
        assert((glwe_size - 1) * polynomial_size + polynomial_size == glwe_size * polynomial_size)
            by (nonlinear_arith);
        assert((glwe_size - 1) * polynomial_size >= 0) by (nonlinear_arith)
            requires
                glwe_size >= 1,
                polynomial_size >= 0,
        ;
    }
    let boxes_len = modulus_sup * box_size;
    let mask_len = (glwe_size - 1) * polynomial_size;
    let total = slice.len();
    proof {
        vstd::arithmetic::div_mod::lemma_div_is_ordered_by_denominator(
            polynomial_size as int,
            1,
            modulus_sup as int,
        );
    }
    let ghost old_body = slice@.subrange(mask_len as int, slice@.len() as int);
    let mut body: Vec<u64> = Vec::with_capacity(polynomial_size);
    let mut j: usize = 0;
    while j < polynomial_size
        invariant
            slice@ == old(slice)@,
            slice@.len() == mask_len + polynomial_size,
            old_body == slice@.subrange(mask_len as int, slice@.len() as int),
            values@.len() == modulus_sup,
            modulus_sup >= 1,
            box_size == polynomial_size / modulus_sup,
            half_box_size == box_size / 2,
            half_box_size <= polynomial_size,
            polynomial_size <= 0x4000_0000,
            mask_len + polynomial_size == total,
            boxes_len == modulus_sup * box_size,
            boxes_len <= polynomial_size,
            delta == server_key.spec_delta(),
            j <= polynomial_size,
            body@.len() == j,
            forall|i: int|
                0 <= i < j ==> body@[i] == accumulator_body(old_body, values@, delta)[i],
        decreases polynomial_size - j,
    {
        let shifted = j + half_box_size;
        let source = if shifted >= polynomial_size {
            shifted - polynomial_size
        } else {
            shifted
        };
        proof {
            vstd::arithmetic::div_mod::lemma_fundamental_div_mod_converse(
                shifted as int,
                polynomial_size as int,
                if shifted >= polynomial_size {
                    1
                } else {
                    0
                },
                source as int,
            );
        }
        let raw = if source < boxes_len {
            proof {
                assert(modulus_sup * box_size == box_size * modulus_sup) by (nonlinear_arith);
                vstd::arithmetic::div_mod::lemma_multiply_divide_lt(
                    source as int,
                    box_size as int,
                    modulus_sup as int,
                );
                lemma_wrapping_is_torus(values@[source as int / box_size as int], delta);
            }
            values[source / box_size].wrapping_mul(delta)
        } else {
            slice[mask_len + source]
        };
        let value = if source < half_box_size {
            proof {
                lemma_wrapping_is_torus(0, raw);
            }
            0u64.wrapping_sub(raw)
        } else {
            raw
        };
        body.push(value);
        j += 1;
    }
    let mut p: usize = 0;
    while p < mask_len + polynomial_size
        invariant
            slice@.len() == mask_len + polynomial_size,
            slice@.len() == old(slice)@.len(),
            body@.len() == polynomial_size,
            p <= mask_len + polynomial_size,
            forall|i: int|
                0 <= i < p ==> slice@[i] == if i < mask_len {
                    0u64
                } else {
                    body@[i - mask_len]
                },
        decreases mask_len + polynomial_size - p,
    {
        let value = if p < mask_len {
            0u64
        } else {
            body[p - mask_len]
        };
        slice[p] = value;
        p += 1;
    }
    proof {
        assert(slice@ =~= accumulator_of(
            old(slice)@,
            values@,
            delta,
            polynomial_size as int,
        ));
    }
    largest_value(values)
}

/// Fill an accumulator with the table `values`, one value for each input below the product
/// of the moduli of the server key, and give the largest value.
pub fn fill_accumulator_with_values<C: ContainerMut>(
    accumulator: &mut GlweCiphertext<C>,
    server_key: &ServerKey,
    values: &[u64],
) -> (max_value: u64)
    requires
        server_key.wf(),
        old(accumulator).polynomial_size == server_key.bootstrapping_key.polynomial_size,
        old(accumulator)@.len() == server_key.glwe_len(),
        values@.len() == server_key.modulus_sup(),
    ensures
        final(accumulator)@ == accumulator_of(
            old(accumulator)@,
            values@,
            server_key.spec_delta(),
            server_key.bootstrapping_key.polynomial_size.0 as int,
        ),
        final(accumulator).polynomial_size == old(accumulator).polynomial_size,
        final(accumulator).ciphertext_modulus == old(accumulator).ciphertext_modulus,
        max_value == self::max_value(values@),
{
    fill_accumulator_scalars(accumulator.data.as_mut_slice(), server_key, values)
}

/// Fill an accumulator with the table of `f` on the inputs below the product of the moduli
/// of the server key, and give the largest value of `f` on them.
pub fn fill_accumulator<F, C>(accumulator: &mut GlweCiphertext<C>, server_key: &ServerKey, f: F) -> (max_value:
    u64) where C: ContainerMut, F: Fn(u64) -> u64
    requires
        server_key.wf(),
        old(accumulator).polynomial_size == server_key.bootstrapping_key.polynomial_size,
        old(accumulator)@.len() == server_key.glwe_len(),
        forall|i: u64| i < server_key.modulus_sup() ==> call_requires(f, (i,)),
    ensures
        exists|values: Seq<u64>|
            #![trigger is_table_of(f, values, server_key.modulus_sup())]
            {
                &&& is_table_of(f, values, server_key.modulus_sup())
                &&& final(accumulator)@ == accumulator_of(
                    old(accumulator)@,
                    values,
                    server_key.spec_delta(),
                    server_key.bootstrapping_key.polynomial_size.0 as int,
                )
                &&& max_value == self::max_value(values)
            },
        final(accumulator).polynomial_size == old(accumulator).polynomial_size,
        final(accumulator).ciphertext_modulus == old(accumulator).ciphertext_modulus,
{
    let modulus_sup = server_key.message_modulus.0 * server_key.carry_modulus.0;
    let values = evaluate_on_inputs(&f, modulus_sup);
    let max_value = fill_accumulator_with_values(accumulator, server_key, values.as_slice());
    proof {
        assert(is_table_of(f, values@, server_key.modulus_sup()));
    }
    max_value
}

/// The accumulator and the two intermediate ciphertexts of a bootstrap, as views in the
/// scratch memory of an engine.
#[derive(Debug)]
pub struct BuffersRef<'a> {
    pub accumulator: LookupTableMutView<'a>,
    /// For the result of the key switch, when ciphertexts live under the large key.
    pub buffer_lwe_after_ks: LweCiphertext<&'a mut [u64]>,
    /// For the result of the bootstrap, when ciphertexts live under the small key.
    pub buffer_lwe_after_pbs: LweCiphertext<&'a mut [u64]>,
}

/// The scratch memory after it has grown to `total` scalars: it is never shrunk, and what
/// is added is zero.
pub open spec fn grown(buffer: Seq<u64>, total: int) -> Seq<u64> {
    if buffer.len() < total {
        buffer + Seq::new((total - buffer.len()) as nat, |i: int| 0u64)
    } else {
        buffer
    }
}

/// The table of the function that keeps the message of an integer: its residue modulo the
/// message modulus.
pub open spec fn message_table(message_modulus: int, count: int) -> Seq<u64> {
    Seq::new(count as nat, |i: int| (i % message_modulus) as u64)
}

impl Memory {
    /// Give the accumulator and the two intermediate ciphertexts for a server key, as three
    /// views that follow each other at the start of the memory. The memory grows if it is
    /// too short. The degree of the accumulator is the largest degree of the server key
    /// until the accumulator is filled.
    pub fn as_buffers(&mut self, server_key: &ServerKey) -> (buffers: BuffersRef<'_>)
        requires
            server_key.wf(),
        ensures
            buffers.accumulator.acc@ == grown(
                old(self).buffer@,
                2 * server_key.glwe_len() + server_key.small_lwe_size() + 1
                    - server_key.bootstrapping_key.polynomial_size.0,
            ).subrange(0, server_key.glwe_len()),
            buffers.accumulator.acc@.len() == server_key.glwe_len(),
            buffers.buffer_lwe_after_ks@.len() == server_key.small_lwe_size(),
            buffers.buffer_lwe_after_pbs@.len() == server_key.big_lwe_size(),
            buffers.accumulator.acc.polynomial_size == server_key.bootstrapping_key.polynomial_size,
            buffers.accumulator.acc.ciphertext_modulus == server_key.ciphertext_modulus,
            buffers.accumulator.degree == Degree(server_key.max_degree.0),
            buffers.buffer_lwe_after_ks@ == grown(
                old(self).buffer@,
                2 * server_key.glwe_len() + server_key.small_lwe_size() + 1
                    - server_key.bootstrapping_key.polynomial_size.0,
            ).subrange(
                server_key.glwe_len(),
                server_key.glwe_len() + server_key.small_lwe_size(),
            ),
            buffers.buffer_lwe_after_ks.ciphertext_modulus == server_key.ciphertext_modulus,
            buffers.buffer_lwe_after_pbs@ == grown(
                old(self).buffer@,
                2 * server_key.glwe_len() + server_key.small_lwe_size() + 1
                    - server_key.bootstrapping_key.polynomial_size.0,
            ).subrange(
                server_key.glwe_len() + server_key.small_lwe_size(),
                2 * server_key.glwe_len() + server_key.small_lwe_size() + 1
                    - server_key.bootstrapping_key.polynomial_size.0,
            ),
            buffers.buffer_lwe_after_pbs.ciphertext_modulus == server_key.ciphertext_modulus,
            final(self).buffer@ == final(buffers.accumulator.acc.data)@
                + final(buffers.buffer_lwe_after_ks.data)@
                + final(buffers.buffer_lwe_after_pbs.data)@ + grown(
                old(self).buffer@,
                2 * server_key.glwe_len() + server_key.small_lwe_size() + 1
                    - server_key.bootstrapping_key.polynomial_size.0,
            ).skip(
                2 * server_key.glwe_len() + server_key.small_lwe_size() + 1
                    - server_key.bootstrapping_key.polynomial_size.0,
            ),
    {
        let glwe_size = server_key.bootstrapping_key.glwe_size.0;
        let polynomial_size = server_key.bootstrapping_key.polynomial_size.0;
        proof {
            assert((glwe_size - 1) * polynomial_size + polynomial_size == glwe_size
                * polynomial_size) by (nonlinear_arith);
            assert((glwe_size - 1) * polynomial_size >= 0) by (nonlinear_arith)
                requires
                    glwe_size >= 1,
                    polynomial_size >= 0,
            ;
        }
        let num_elem_in_accumulator = glwe_size * polynomial_size;
        let num_elem_in_lwe_after_ks = server_key.key_switching_key.output_lwe_size.0;
        let num_elem_in_lwe_after_pbs = (glwe_size - 1) * polynomial_size + 1;
        let total_elem_needed = num_elem_in_accumulator + num_elem_in_lwe_after_ks
            + num_elem_in_lwe_after_pbs;
        while self.buffer.len() < total_elem_needed
            invariant
                self.buffer@.len() >= old(self).buffer@.len(),
                self.buffer@.len() <= total_elem_needed || self.buffer@.len() == old(
                    self,
                ).buffer@.len(),
                forall|i: int| 0 <= i < old(self).buffer@.len() ==> self.buffer@[i] == old(
                    self,
                ).buffer@[i],
                forall|i: int| old(self).buffer@.len() <= i < self.buffer@.len() ==> self.buffer@[i]
                    == 0,
            decreases total_elem_needed - self.buffer@.len(),
        {
            self.buffer.push(0u64);
        }
        assert(self.buffer@ =~= grown(old(self).buffer@, total_elem_needed as int));
        let ghost memory = self.buffer@;
        let (all_elements, rest) = self.buffer.as_mut_slice().split_at_mut(total_elem_needed);
        let (accumulator_elements, other_elements) = all_elements.split_at_mut(
            num_elem_in_accumulator,
        );
        let (after_ks_elements, after_pbs_elements) = other_elements.split_at_mut(
            num_elem_in_lwe_after_ks,
        );
        proof {
            assert(accumulator_elements@ =~= memory.subrange(0, num_elem_in_accumulator as int));
            assert(after_ks_elements@ =~= memory.subrange(
                num_elem_in_accumulator as int,
                num_elem_in_accumulator + num_elem_in_lwe_after_ks,
            ));
            assert(after_pbs_elements@ =~= memory.subrange(
                num_elem_in_accumulator + num_elem_in_lwe_after_ks,
                total_elem_needed as int,
            ));
            assert(rest@ =~= memory.skip(total_elem_needed as int));
        }
        let acc = GlweCiphertext {
            data: accumulator_elements,
            polynomial_size: server_key.bootstrapping_key.polynomial_size,
            ciphertext_modulus: server_key.ciphertext_modulus,
        };
        let accumulator = LookupTable {
            acc,
            // The degree is updated once the accumulator is filled.
            degree: Degree(server_key.max_degree.0),
        };
        let buffer_lwe_after_ks = LweCiphertext {
            data: after_ks_elements,
            ciphertext_modulus: server_key.ciphertext_modulus,
        };
        let buffer_lwe_after_pbs = LweCiphertext {
            data: after_pbs_elements,
            ciphertext_modulus: server_key.ciphertext_modulus,
        };
        BuffersRef { accumulator, buffer_lwe_after_ks, buffer_lwe_after_pbs }
    }
}

impl ShortintEngine {
    /// Generate the lookup table of `f` for a server key. The degree of the table is the
    /// largest value of `f` on the inputs below the product of the moduli.
    pub fn generate_accumulator_with_engine<F>(server_key: &ServerKey, f: F) -> (result: EngineResult<
        LookupTableOwned,
    >) where F: Fn(u64) -> u64
        requires
            server_key.wf(),
            forall|i: u64| i < server_key.modulus_sup() ==> call_requires(f, (i,)),
        ensures
            result matches Ok(table) && table.fits(server_key) && exists|values: Seq<u64>|
                #![trigger is_table_of(f, values, server_key.modulus_sup())]
                {
                    &&& is_table_of(f, values, server_key.modulus_sup())
                    &&& table.acc@ == accumulator_of(
                        Seq::new(server_key.glwe_len() as nat, |i: int| 0u64),
                        values,
                        server_key.spec_delta(),
                        server_key.bootstrapping_key.polynomial_size.0 as int,
                    )
                    &&& table.degree == degree_of(max_value(values))
                },
    {
        let mut acc = GlweCiphertext::new(
            0,
            server_key.bootstrapping_key.glwe_size,
            server_key.bootstrapping_key.polynomial_size,
            server_key.ciphertext_modulus,
        );
        let max_value = fill_accumulator(&mut acc, server_key, f);
        Ok(LookupTable { acc, degree: degree_from(max_value) })
    }

    /// Generate the lookup table of a function of two operands for a server key. The packed
    /// input `input` stands for the operands `(input / left_message_scaling) mod
    /// message_modulus` and `(input mod left_message_scaling) mod message_modulus`: the
    /// reductions take away the carries that the operands may have.
    pub fn generate_accumulator_bivariate_with_engine<F>(
        server_key: &ServerKey,
        f: F,
        left_message_scaling: MessageModulus,
    ) -> (result: EngineResult<BivariateLookupTableOwned>) where F: Fn(u64, u64) -> u64
        requires
            server_key.wf(),
            left_message_scaling.0 >= 1,
            forall|lhs: u64, rhs: u64|
                lhs < server_key.message_modulus.0 && rhs < server_key.message_modulus.0
                    ==> call_requires(f, (lhs, rhs)),
        ensures
            result matches Ok(table) && table.acc.fits(server_key) && table.ct_right_modulus
                == left_message_scaling && exists|values: Seq<u64>|
                #![trigger is_bivariate_table_of(f, values, left_message_scaling.0 as int, server_key.message_modulus.0 as int, server_key.modulus_sup())]
                {
                    &&& is_bivariate_table_of(
                        f,
                        values,
                        left_message_scaling.0 as int,
                        server_key.message_modulus.0 as int,
                        server_key.modulus_sup(),
                    )
                    &&& table.acc.acc@ == accumulator_of(
                        Seq::new(server_key.glwe_len() as nat, |i: int| 0u64),
                        values,
                        server_key.spec_delta(),
                        server_key.bootstrapping_key.polynomial_size.0 as int,
                    )
                    &&& table.acc.degree == degree_of(max_value(values))
                },
    {
        let factor_u64 = left_message_scaling.0 as u64;
        let message_modulus = server_key.message_modulus.0 as u64;
        let f_ref = &f;
        let wrapped_f = |input: u64| -> (output: u64)
            requires
                factor_u64 >= 1,
                message_modulus >= 1,
                forall|lhs: u64, rhs: u64|
                    lhs < message_modulus && rhs < message_modulus ==> call_requires(
                        *f_ref,
                        (lhs, rhs),
                    ),
            ensures
                call_ensures(
                    *f_ref,
                    ((input / factor_u64) % message_modulus, (input % factor_u64) % message_modulus),
                    output,
                ),
            {
                let lhs = (input / factor_u64) % message_modulus;
                let rhs = (input % factor_u64) % message_modulus;
                f_ref(lhs, rhs)
            };
        let accumulator = match ShortintEngine::generate_accumulator_with_engine(
            server_key,
            wrapped_f,
        ) {
            Ok(accumulator) => accumulator,
            Err(error) => { return Err(error); },
        };
        proof {
            let values = choose|values: Seq<u64>|
                #![trigger is_table_of(wrapped_f, values, server_key.modulus_sup())]
                {
                    &&& is_table_of(wrapped_f, values, server_key.modulus_sup())
                    &&& accumulator.acc@ == accumulator_of(
                        Seq::new(server_key.glwe_len() as nat, |i: int| 0u64),
                        values,
                        server_key.spec_delta(),
                        server_key.bootstrapping_key.polynomial_size.0 as int,
                    )
                    &&& accumulator.degree == degree_of(max_value(values))
                };
            assert(is_bivariate_table_of(
                f,
                values,
                left_message_scaling.0 as int,
                server_key.message_modulus.0 as int,
                server_key.modulus_sup(),
            ));
        }
        Ok(BivariateLookupTable { acc: accumulator, ct_right_modulus: left_message_scaling })
    }

    /// Give the buffers of the engine for a server key, with the accumulator filled with
    /// the table that clears the carry: the function that keeps the message of an integer.
    /// The scratch memory grows if it is too short and never shrinks: after the call it
    /// holds the three buffers, as their holder leaves them, and what followed them before.
    pub fn get_carry_clearing_accumulator_and_buffers(&mut self, server_key: &ServerKey) -> (result: (
        BuffersRef<'_>,
        &mut ComputationBuffers,
    ))
        requires
            server_key.wf(),
        ensures
            result.0.accumulator.acc@ == accumulator_of(
                grown(
                    old(self).ciphertext_buffers.buffer@,
                    2 * server_key.glwe_len() + server_key.small_lwe_size() + 1
                        - server_key.bootstrapping_key.polynomial_size.0,
                ).subrange(0, server_key.glwe_len()),
                message_table(server_key.message_modulus.0 as int, server_key.modulus_sup()),
                server_key.spec_delta(),
                server_key.bootstrapping_key.polynomial_size.0 as int,
            ),
            result.0.accumulator.fits(server_key),
            result.0.accumulator.degree == degree_of(
                max_value(
                    message_table(server_key.message_modulus.0 as int, server_key.modulus_sup()),
                ),
            ),
            result.0.buffer_lwe_after_ks@.len() == server_key.small_lwe_size(),
            result.0.buffer_lwe_after_pbs@.len() == server_key.big_lwe_size(),
            final(self)@ == old(self)@,
            result.1.buffer@ == old(self).computation_buffers.buffer@,
            final(self).computation_buffers.buffer@ == final(result.1).buffer@,
            final(self).ciphertext_buffers.buffer@ == final(result.0.accumulator.acc.data)@
                + final(result.0.buffer_lwe_after_ks.data)@
                + final(result.0.buffer_lwe_after_pbs.data)@ + grown(
                old(self).ciphertext_buffers.buffer@,
                2 * server_key.glwe_len() + server_key.small_lwe_size() + 1
                    - server_key.bootstrapping_key.polynomial_size.0,
            ).skip(
                2 * server_key.glwe_len() + server_key.small_lwe_size() + 1
                    - server_key.bootstrapping_key.polynomial_size.0,
            ),
            result.0.buffer_lwe_after_ks@ == grown(
                old(self).ciphertext_buffers.buffer@,
                2 * server_key.glwe_len() + server_key.small_lwe_size() + 1
                    - server_key.bootstrapping_key.polynomial_size.0,
            ).subrange(
                server_key.glwe_len(),
                server_key.glwe_len() + server_key.small_lwe_size(),
            ),
            result.0.buffer_lwe_after_pbs@ == grown(
                old(self).ciphertext_buffers.buffer@,
                2 * server_key.glwe_len() + server_key.small_lwe_size() + 1
                    - server_key.bootstrapping_key.polynomial_size.0,
            ).subrange(
                server_key.glwe_len() + server_key.small_lwe_size(),
                2 * server_key.glwe_len() + server_key.small_lwe_size() + 1
                    - server_key.bootstrapping_key.polynomial_size.0,
            ),
    {
        let mut buffers = self.ciphertext_buffers.as_buffers(server_key);
        let message_modulus = server_key.message_modulus.0 as u64;
        let keep_message = |n: u64| -> (message: u64)
            requires
                message_modulus >= 1,
            ensures
                message == n % message_modulus,
            { n % message_modulus };
        let modulus_sup = server_key.message_modulus.0 * server_key.carry_modulus.0;
        let values = evaluate_on_inputs(&keep_message, modulus_sup);
        proof {
            assert(values@ =~= message_table(
                server_key.message_modulus.0 as int,
                server_key.modulus_sup(),
            ));
        }
        let max_degree = fill_accumulator_scalars(
            buffers.accumulator.acc.data,
            server_key,
            values.as_slice(),
        );
        buffers.accumulator.degree = degree_from(max_degree);
        (buffers, &mut self.computation_buffers)
    }
}

/// The degree that stands for the largest value of a table.
pub open spec fn degree_of(value: u64) -> Degree {
    Degree(#[verifier::truncate] (value as usize))
}

/// The degree that stands for the largest value of a table.
pub fn degree_from(value: u64) -> (degree: Degree)
    ensures
        degree == degree_of(value),
{
    Degree(#[verifier::truncate] (value as usize))
}

/// Whether `values` holds, for every packed input below `count`, a value that `f` may
/// return for the two operands that the input stands for.
pub open spec fn is_bivariate_table_of<F: Fn(u64, u64) -> u64>(
    f: F,
    values: Seq<u64>,
    scaling: int,
    message_modulus: int,
    count: int,
) -> bool {
    &&& values.len() == count
    &&& forall|i: int|
        0 <= i < count ==> call_ensures(
            f,
            (((i / scaling) % message_modulus) as u64, ((i % scaling) % message_modulus) as u64),
            #[trigger] values[i],
        )
}

} // verus!
